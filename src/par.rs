use vstd::prelude::*;

pub mod config;

use self::config::WorkSize;

verus! {

/// Why a device executor could not be built.
#[derive(Clone, Debug)]
pub enum NewExecutorError {
    /// `n * n` does not fit in an address-sized integer.
    TooBig(usize),
    /// `n` does not fit in the device's 32-bit signed integer.
    InconvertibleN(usize),
    /// The dimension (second) is not a multiple of the work-group extent (first).
    UnsupportedSize(usize, usize),
    /// A device call failed with this status code.
    ClError(i32),
    /// The kernel program did not build; the device's build log.
    Compile(String),
}

/// The work-group extent that a work size asks the dimension to be a multiple of.
pub open spec fn required_divisor(work_size: WorkSize) -> usize {
    match work_size.spec_local() {
        Some(l) => l,
        None => 1,
    }
}

/// The sizes a device executor for dimension `n` works with, checked before any device
/// resource is touched.
#[derive(Clone, Copy, Debug)]
pub struct KernelGeometry {
    n: usize,
    n_int: i32,
    buffer_size: usize,
    work_size: WorkSize,
}

impl KernelGeometry {
    pub closed spec fn spec_n(&self) -> usize {
        self.n
    }

    pub closed spec fn spec_n_int(&self) -> i32 {
        self.n_int
    }

    pub closed spec fn spec_buffer_size(&self) -> usize {
        self.buffer_size
    }

    pub closed spec fn spec_work_size(&self) -> WorkSize {
        self.work_size
    }

    /// Checks `n` against the address width, the device integer width and the
    /// work-group extent, in that order.
    pub fn new(n: usize, work_size: WorkSize) -> (r: Result<KernelGeometry, NewExecutorError>)
        requires
            work_size.wf(),
        ensures
            n * n > usize::MAX ==> r == Err::<KernelGeometry, _>(NewExecutorError::TooBig(n)),
            n * n <= usize::MAX && n > i32::MAX ==> r == Err::<KernelGeometry, _>(
                NewExecutorError::InconvertibleN(n),
            ),
            n * n <= usize::MAX && n <= i32::MAX && n % required_divisor(work_size) != 0 ==> r == Err::<
                KernelGeometry,
                _,
            >(NewExecutorError::UnsupportedSize(required_divisor(work_size), n)),
            n * n <= usize::MAX && n <= i32::MAX && n % required_divisor(work_size) == 0 ==> (r matches Ok(
                g,
            ) && g.spec_n() == n && g.spec_n_int() == n && g.spec_buffer_size() == n * n
                && g.spec_work_size() == work_size),
    {
        let buffer_size = match n.checked_mul(n) {
            Some(size) => size,
            None => return Err(NewExecutorError::TooBig(n)),
        };
        if n > i32::MAX as usize {
            return Err(NewExecutorError::InconvertibleN(n));
        }
        let n_int = n as i32;
        let local = match work_size.local() {
            Some(l) => l,
            None => 1,
        };
        if n % local != 0 {
            return Err(NewExecutorError::UnsupportedSize(local, n));
        }
        Ok(KernelGeometry { n, n_int, buffer_size, work_size })
    }

    pub fn n(&self) -> (r: usize)
        ensures
            r == self.spec_n(),
    {
        self.n
    }

    pub fn n_int(&self) -> (r: i32)
        ensures
            r == self.spec_n_int(),
    {
        self.n_int
    }

    pub fn buffer_size(&self) -> (r: usize)
        ensures
            r == self.spec_buffer_size(),
    {
        self.buffer_size
    }

    pub fn work_size(&self) -> (r: WorkSize)
        ensures
            r == self.spec_work_size(),
    {
        self.work_size
    }

    /// The 2-D index space of one dispatch: `(n, n / per_thread)`.
    pub fn global_work_sizes(&self) -> (r: (usize, usize))
        requires
            self.spec_work_size().wf(),
        ensures
            r == (self.spec_n(), (self.spec_n() / self.spec_work_size().spec_per_thread()) as usize),
    {
        (self.n, self.n / self.work_size.per_thread())
    }

    /// The work-group extents of one dispatch, `(local, local / per_thread)`, if the
    /// kernel uses work-groups.
    pub fn local_work_sizes(&self) -> (r: Option<(usize, usize)>)
        requires
            self.spec_work_size().wf(),
        ensures
            self.spec_work_size().spec_local() is None ==> r is None,
            self.spec_work_size().spec_local() matches Some(l) ==> r == Some(
                (l, (l / self.spec_work_size().spec_per_thread()) as usize),
            ),
    {
        match self.work_size.local() {
            Some(l) => Some((l, l / self.work_size.per_thread())),
            None => None,
        }
    }
}

} // verus!
