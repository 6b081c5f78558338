//! The order in which a lane-wise reduction adds the elements, stated over
//! exact integers. With exact addition every grouping gives the same total;
//! on floats the paths differ only by the rounding that the grouping
//! changes.
use vstd::prelude::*;
use vstd::arithmetic::div_mod::lemma_fundamental_div_mod;

verus! {

/// Sum of the elements, added left to right.
pub open spec fn sum_of(s: Seq<int>) -> int
    decreases s.len(),
{
    if s.len() == 0 {
        0
    } else {
        sum_of(s.drop_last()) + s.last()
    }
}

/// Lane-by-lane addition of two vectors of the same width.
pub open spec fn lane_add(a: Seq<int>, b: Seq<int>) -> Seq<int> {
    Seq::new(a.len(), |k: int| a[k] + b[k])
}

/// The vector accumulator after the first `g` whole groups of `lanes`
/// elements: all zeros at first, each group added lane by lane.
pub open spec fn accumulator(s: Seq<int>, lanes: nat, g: nat) -> Seq<int>
    decreases g,
{
    if g == 0 {
        Seq::new(lanes, |k: int| 0)
    } else {
        let prev = (g - 1) as nat;
        lane_add(accumulator(s, lanes, prev), s.subrange((prev * lanes) as int, (g * lanes) as int))
    }
}

/// What a path with `lanes` lanes computes in exact arithmetic: the
/// horizontal sum of the accumulator after every whole group, then the tail
/// elements added to it.
pub open spec fn grouped_sum(s: Seq<int>, lanes: nat) -> int {
    let tail_start = ((s.len() / lanes) * lanes) as int;
    sum_of(accumulator(s, lanes, s.len() / lanes)) + sum_of(s.subrange(tail_start, s.len() as int))
}

proof fn lemma_sum_concat(a: Seq<int>, b: Seq<int>)
    ensures
        sum_of(a + b) == sum_of(a) + sum_of(b),
    decreases b.len(),
{
    if b.len() == 0 {
        assert(a + b =~= a);
    } else {
        lemma_sum_concat(a, b.drop_last());
        assert((a + b).drop_last() =~= a + b.drop_last());
    }
}

proof fn lemma_sum_zeros(n: nat)
    ensures
        sum_of(Seq::new(n, |k: int| 0int)) == 0,
    decreases n,
{
    if n > 0 {
        lemma_sum_zeros((n - 1) as nat);
        assert(Seq::new(n, |k: int| 0int).drop_last() =~= Seq::new((n - 1) as nat, |k: int| 0int));
    }
}

proof fn lemma_sum_lane_add(a: Seq<int>, b: Seq<int>)
    requires
        a.len() == b.len(),
    ensures
        sum_of(lane_add(a, b)) == sum_of(a) + sum_of(b),
    decreases a.len(),
{
    if a.len() > 0 {
        lemma_sum_lane_add(a.drop_last(), b.drop_last());
        assert(lane_add(a, b).drop_last() =~= lane_add(a.drop_last(), b.drop_last()));
    }
}

proof fn lemma_accumulator(s: Seq<int>, lanes: nat, g: nat)
    requires
        g * lanes <= s.len(),
    ensures
        accumulator(s, lanes, g).len() == lanes,
        sum_of(accumulator(s, lanes, g)) == sum_of(s.subrange(0, (g * lanes) as int)),
    decreases g,
{
    if g == 0 {
        lemma_sum_zeros(lanes);
        assert(g * lanes == 0) by (nonlinear_arith)
            requires
                g == 0,
        ;
        assert(s.subrange(0, 0) =~= Seq::<int>::empty());
    } else {
        let prev = (g - 1) as nat;
        assert(prev * lanes + lanes == g * lanes) by (nonlinear_arith)
            requires
                prev + 1 == g,
        ;
        assert(0 <= prev * lanes) by (nonlinear_arith);
        lemma_accumulator(s, lanes, prev);
        let group = s.subrange((prev * lanes) as int, (g * lanes) as int);
        lemma_sum_lane_add(accumulator(s, lanes, prev), group);
        assert(s.subrange(0, (prev * lanes) as int) + group =~= s.subrange(0, (g * lanes) as int));
        lemma_sum_concat(s.subrange(0, (prev * lanes) as int), group);
    }
}

/// Grouping does not change an exact sum: for every lane width, adding the
/// elements group by group into a vector accumulator, reducing it
/// horizontally and then adding the tail gives the left-to-right sum.
pub proof fn lemma_grouped_sum_is_sum(s: Seq<int>, lanes: nat)
    requires
        lanes >= 1,
    ensures
        grouped_sum(s, lanes) == sum_of(s),
{
    let n = s.len() / lanes;
    let t = n * lanes;
    lemma_fundamental_div_mod(s.len() as int, lanes as int);
    assert(t <= s.len()) by (nonlinear_arith)
        requires
            s.len() == lanes * n + s.len() % lanes,
            t == n * lanes,
    ;
    lemma_accumulator(s, lanes, n);
    assert(s.subrange(0, t as int) + s.subrange(t as int, s.len() as int) =~= s);
    lemma_sum_concat(s.subrange(0, t as int), s.subrange(t as int, s.len() as int));
}

proof fn lemma_sum_constant(n: nat, v: int)
    ensures
        sum_of(Seq::new(n, |i: int| v)) == n * v,
    decreases n,
{
    if n > 0 {
        lemma_sum_constant((n - 1) as nat, v);
        assert(Seq::new(n, |i: int| v).drop_last() =~= Seq::new((n - 1) as nat, |i: int| v));
        assert(((n - 1) as nat) * v + v == n * v) by (nonlinear_arith)
            requires
                n > 0,
        ;
    } else {
        assert(n * v == 0) by (nonlinear_arith)
            requires
                n == 0,
        ;
    }
}

/// A buffer of `n` copies of one value sums to `n` times that value under
/// every lane width, so its exact mean is the value itself.
pub proof fn lemma_constant_buffer(n: nat, v: int, lanes: nat)
    requires
        lanes >= 1,
    ensures
        grouped_sum(Seq::new(n, |i: int| v), lanes) == n * v,
        n > 0 ==> grouped_sum(Seq::new(n, |i: int| v), lanes) / (n as int) == v,
{
    lemma_grouped_sum_is_sum(Seq::new(n, |i: int| v), lanes);
    lemma_sum_constant(n, v);
    if n > 0 {
        assert((n * v) / (n as int) == v) by (nonlinear_arith)
            requires
                n > 0,
        ;
    }
}

} // verus!
