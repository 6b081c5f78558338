use vstd::prelude::*;

verus! {

/// What the processor offers, as found by a runtime probe.
#[derive(Clone, Copy, Debug, PartialEq, Eq, Structural)]
pub struct Capabilities {
    /// The 512-bit float vector extension is usable (checked at run time).
    pub avx512f: bool,
    /// The 128-bit vector extension is guaranteed by the build target.
    pub neon: bool,
}

/// The closed set of reduction strategies.
#[derive(Clone, Copy, Debug, PartialEq, Eq, Structural)]
pub enum Path {
    /// Sixteen lanes of 512-bit vectors.
    Avx512,
    /// Four lanes of 128-bit vectors.
    Neon,
    /// Eight lanes of target-independent vectors; never chosen by the
    /// dispatcher, called on its own.
    Portable,
    /// One element at a time, left to right.
    Scalar,
}

/// The path that the dispatcher takes for the given capabilities: the widest
/// usable vector extension first, the scalar fallback last.
pub open spec fn chosen_path(caps: Capabilities) -> Path {
    if caps.avx512f {
        Path::Avx512
    } else if caps.neon {
        Path::Neon
    } else {
        Path::Scalar
    }
}

/// Number of lanes that a path accumulates side by side.
pub open spec fn lanes_of(p: Path) -> nat {
    match p {
        Path::Avx512 => 16,
        Path::Neon => 4,
        Path::Portable => 8,
        Path::Scalar => 1,
    }
}

impl Capabilities {
    /// No vector extension at all.
    pub fn none() -> (r: Capabilities)
        ensures
            !r.avx512f,
            !r.neon,
    {
        Capabilities { avx512f: false, neon: false }
    }
}

/// Picks exactly one path for the given capabilities.
pub fn select_path(caps: Capabilities) -> (p: Path)
    ensures
        p == chosen_path(caps),
        caps.avx512f ==> p == Path::Avx512,
        !caps.avx512f && caps.neon ==> p == Path::Neon,
        !caps.avx512f && !caps.neon ==> p == Path::Scalar,
{
    if caps.avx512f {
        Path::Avx512
    } else if caps.neon {
        Path::Neon
    } else {
        Path::Scalar
    }
}

/// Number of lanes of a path.
pub fn lane_width(p: Path) -> (n: usize)
    ensures
        n == lanes_of(p),
        n >= 1,
{
    match p {
        Path::Avx512 => 16,
        Path::Neon => 4,
        Path::Portable => 8,
        Path::Scalar => 1,
    }
}

/// The capability probe's result, kept for the rest of the process once it
/// has been taken: the hardware does not change after start-up, so the probe
/// runs at most once and every later dispatch reads the kept value.
#[derive(Clone, Copy, Debug)]
pub struct CapabilityCache {
    pub kept: Option<Capabilities>,
}

impl CapabilityCache {
    /// The capabilities that have been kept, if the probe has run.
    pub open spec fn kept(self) -> Option<Capabilities> {
        self.kept
    }

    /// The cache after a dispatch that was offered `probe`: the first probe is
    /// kept, every later one ignored.
    pub open spec fn after(self, probe: Capabilities) -> CapabilityCache {
        match self.kept {
            Some(_) => self,
            None => CapabilityCache { kept: Some(probe) },
        }
    }

    /// The path that a dispatch offered `probe` takes.
    pub open spec fn path_for(self, probe: Capabilities) -> Path {
        match self.kept {
            Some(c) => chosen_path(c),
            None => chosen_path(probe),
        }
    }

    /// A cache in which nothing has been probed yet.
    pub fn new() -> (r: CapabilityCache)
        ensures
            r.kept() is None,
    {
        CapabilityCache { kept: None }
    }

    /// The path decided earlier, or `None` while the probe has not run yet.
    pub fn current(&self) -> (r: Option<Path>)
        ensures
            r == (match self.kept() {
                Some(c) => Some(chosen_path(c)),
                None => None::<Path>,
            }),
    {
        match self.kept {
            Some(c) => Some(select_path(c)),
            None => None,
        }
    }

    /// Dispatches on the kept capabilities, keeping `probe` if none were kept
    /// yet.
    pub fn settle(&mut self, probe: Capabilities) -> (p: Path)
        ensures
            *final(self) == old(self).after(probe),
            p == old(self).path_for(probe),
            final(self).kept() is Some,
            p == chosen_path(final(self).kept().unwrap()),
    {
        match self.kept {
            Some(c) => select_path(c),
            None => {
                self.kept = Some(probe);
                select_path(probe)
            },
        }
    }
}

/// Dispatch never flaps: once a dispatch has taken place, every later one
/// takes the same path and leaves the cache as it is, whatever a later probe
/// would report.
pub proof fn lemma_dispatch_is_stable(
    cache: CapabilityCache,
    first: Capabilities,
    later: Capabilities,
)
    ensures
        cache.after(first).path_for(later) == cache.path_for(first),
        cache.after(first).after(later) == cache.after(first),
{
}

} // verus!
