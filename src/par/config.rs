use vstd::prelude::*;

verus! {

/// How a kernel covers the output: an optional work-group extent, and how many output
/// elements one device thread computes.
#[derive(Clone, Copy, Debug)]
pub struct WorkSize {
    local: Option<usize>,
    per_thread: usize,
}

impl WorkSize {
    pub closed spec fn spec_local(&self) -> Option<usize> {
        self.local
    }

    pub closed spec fn spec_per_thread(&self) -> usize {
        self.per_thread
    }

    /// Both extents are positive.
    pub open spec fn wf(&self) -> bool {
        &&& self.spec_per_thread() > 0
        &&& self.spec_local() matches Some(l) ==> l > 0
    }

    /// A work size; `None` when an extent is zero.
    pub fn new(local: Option<usize>, per_thread: usize) -> (r: Option<WorkSize>)
        ensures
            r is Some <==> per_thread > 0 && local != Some(0usize),
            r matches Some(w) ==> w.wf() && w.spec_local() == local && w.spec_per_thread() == per_thread,
    {
        if per_thread == 0 {
            return None;
        }
        match local {
            Some(0) => None,
            _ => Some(WorkSize { local, per_thread }),
        }
    }

    pub fn local(&self) -> (r: Option<usize>)
        ensures
            r == self.spec_local(),
    {
        self.local
    }

    pub fn per_thread(&self) -> (r: usize)
        ensures
            r == self.spec_per_thread(),
    {
        self.per_thread
    }
}

/// A kernel variant: the program source and the work size it is written for.
#[derive(Clone, Copy, Debug)]
pub struct Config {
    src: &'static str,
    work_size: WorkSize,
}

impl Config {
    pub closed spec fn spec_src(&self) -> &'static str {
        self.src
    }

    pub closed spec fn spec_work_size(&self) -> WorkSize {
        self.work_size
    }

    pub fn new(src: &'static str, work_size: WorkSize) -> (r: Config)
        ensures
            r.spec_src() == src,
            r.spec_work_size() == work_size,
    {
        Config { src, work_size }
    }

    /// One thread per output element, no work-groups.
    pub fn naive(src: &'static str) -> (r: Config)
        ensures
            r.spec_src() == src,
            r.spec_work_size().wf(),
            r.spec_work_size().spec_local() == None::<usize>,
            r.spec_work_size().spec_per_thread() == 1,
    {
        Config { src, work_size: WorkSize { local: None, per_thread: 1 } }
    }

    /// One thread per output element, `8 × 8` work-groups staging tiles in local memory.
    pub fn tiled(src: &'static str) -> (r: Config)
        ensures
            r.spec_src() == src,
            r.spec_work_size().wf(),
            r.spec_work_size().spec_local() == Some(8usize),
            r.spec_work_size().spec_per_thread() == 1,
    {
        Config { src, work_size: WorkSize { local: Some(8), per_thread: 1 } }
    }

    /// Four output elements per thread, `16`-wide work-groups staging tiles in local memory.
    pub fn tiled_multi(src: &'static str) -> (r: Config)
        ensures
            r.spec_src() == src,
            r.spec_work_size().wf(),
            r.spec_work_size().spec_local() == Some(16usize),
            r.spec_work_size().spec_per_thread() == 4,
    {
        Config { src, work_size: WorkSize { local: Some(16), per_thread: 4 } }
    }

    pub fn src(&self) -> (r: &'static str)
        ensures
            r == self.spec_src(),
    {
        self.src
    }

    pub fn work_size(&self) -> (r: WorkSize)
        ensures
            r == self.spec_work_size(),
    {
        self.work_size
    }
}

} // verus!
