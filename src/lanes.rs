use vstd::prelude::*;
use vstd::arithmetic::div_mod::{lemma_fundamental_div_mod, lemma_div_pos_is_pos};
use crate::dispatch::{Path, lane_width, lanes_of};

verus! {

/// How a lane-wise reduction walks a buffer: whole groups of `lanes`
/// contiguous elements first, one element at a time for the tail that does
/// not fill a group. Every bound is derived from the buffer's length.
#[derive(Clone, Copy, Debug)]
pub struct LanePlan {
    len: usize,
    lanes: usize,
    groups: usize,
}

impl LanePlan {
    /// Length of the buffer.
    pub closed spec fn len(self) -> nat {
        self.len as nat
    }

    /// Number of lanes accumulated side by side.
    pub closed spec fn lanes(self) -> nat {
        self.lanes as nat
    }

    pub closed spec fn wf(self) -> bool {
        &&& self.lanes >= 1
        &&& self.groups == self.len / self.lanes
    }

    /// Number of whole groups.
    pub open spec fn groups(self) -> nat {
        self.len() / self.lanes()
    }

    /// Index of the first element that no whole group covers.
    pub open spec fn tail_start(self) -> nat {
        self.groups() * self.lanes()
    }

    /// The plan for a buffer of `len` elements read `lanes` at a time.
    pub fn new(len: usize, lanes: usize) -> (r: LanePlan)
        requires
            lanes >= 1,
        ensures
            r.wf(),
            r.len() == len,
            r.lanes() == lanes,
    {
        LanePlan { len, lanes, groups: len / lanes }
    }

    /// The plan that a path follows on a buffer of `len` elements.
    pub fn for_path(len: usize, p: Path) -> (r: LanePlan)
        ensures
            r.wf(),
            r.len() == len,
            r.lanes() == lanes_of(p),
    {
        LanePlan::new(len, lane_width(p))
    }

    /// Length of the buffer.
    pub fn buffer_len(&self) -> (n: usize)
        ensures
            n == self.len(),
    {
        self.len
    }

    /// Number of lanes.
    pub fn lane_width(&self) -> (n: usize)
        requires
            self.wf(),
        ensures
            n == self.lanes(),
            n >= 1,
    {
        self.lanes
    }

    /// Number of whole groups: the length divided by the lane width, rounded
    /// down.
    pub fn group_count(&self) -> (n: usize)
        requires
            self.wf(),
        ensures
            n == self.groups(),
    {
        self.groups
    }

    /// The index range `[start, end)` of the group `g`.
    pub fn group_range(&self, g: usize) -> (r: (usize, usize))
        requires
            self.wf(),
            g < self.groups(),
        ensures
            r.0 == g * self.lanes(),
            r.1 == r.0 + self.lanes(),
            r.1 <= self.tail_start(),
            r.1 <= self.len(),
    {
        proof {
            lemma_tail_within(self.len as int, self.lanes as int);
            let l = self.lanes as int;
            let n = self.groups as int;
            let gg = g as int;
            assert(gg * l + l <= n * l) by (nonlinear_arith)
                requires
                    gg + 1 <= n,
                    l >= 1,
            ;
            assert(0 <= gg * l) by (nonlinear_arith)
                requires
                    gg >= 0,
                    l >= 1,
            ;
        }
        let start = g * self.lanes;
        (start, start + self.lanes)
    }

    /// The index range `[start, end)` of the tail: it starts where the last
    /// group ends, ends at the buffer's end and holds fewer elements than a
    /// group.
    pub fn tail_range(&self) -> (r: (usize, usize))
        requires
            self.wf(),
        ensures
            r.0 == self.tail_start(),
            r.1 == self.len(),
            r.0 <= r.1,
            r.1 - r.0 < self.lanes(),
    {
        proof {
            lemma_tail_within(self.len as int, self.lanes as int);
        }
        (self.groups * self.lanes, self.len)
    }

    /// What the sum is divided by: the length, or `None` for an empty buffer,
    /// whose mean is defined to be zero rather than divided by zero.
    pub fn divisor(&self) -> (r: Option<usize>)
        ensures
            r is None <==> self.len() == 0,
            r is Some ==> r.unwrap() == self.len(),
    {
        if self.len == 0 {
            None
        } else {
            Some(self.len)
        }
    }
}

/// The whole groups end at most at the length, and what they leave is
/// shorter than one group.
proof fn lemma_tail_within(len: int, lanes: int)
    requires
        len >= 0,
        lanes >= 1,
    ensures
        (len / lanes) * lanes <= len,
        len - (len / lanes) * lanes < lanes,
        len / lanes >= 0,
{
    lemma_fundamental_div_mod(len, lanes);
    lemma_div_pos_is_pos(len, lanes);
    let q = len / lanes;
    let r = len % lanes;
    assert(q * lanes == lanes * q) by (nonlinear_arith);
    assert(0 <= r < lanes);
}

/// Every element of the buffer is read exactly once: an index below the
/// tail's start lies in the group `i / lanes` and in no other group, and an
/// index from the tail's start on lies in no group.
pub proof fn lemma_each_index_read_once(plan: LanePlan, i: nat, g: nat)
    requires
        plan.wf(),
        i < plan.len(),
        g < plan.groups(),
    ensures
        i < plan.tail_start() <==> i / plan.lanes() < plan.groups(),
        (g * plan.lanes() <= i < g * plan.lanes() + plan.lanes()) <==> g == i / plan.lanes(),
        plan.tail_start() <= plan.len(),
{
    let l = plan.lanes() as int;
    let ii = i as int;
    let gg = g as int;
    let q = ii / l;
    lemma_fundamental_div_mod(ii, l);
    lemma_tail_within(plan.len() as int, l);
    let n = plan.groups() as int;
    assert(ii < n * l <==> q < n) by (nonlinear_arith)
        requires
            ii == l * q + ii % l,
            0 <= ii % l < l,
            l >= 1,
    ;
    assert((gg * l <= ii < gg * l + l) <==> gg == q) by (nonlinear_arith)
        requires
            ii == l * q + ii % l,
            0 <= ii % l < l,
            l >= 1,
    ;
}

} // verus!
