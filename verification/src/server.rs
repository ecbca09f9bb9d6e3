//! The server's settings: where it listens and how many workers answer.

use vstd::prelude::*;

verus! {

/// A server that listens on `addr` and answers with `thread_pool_size`
/// workers.
pub struct Server<'server, A> {
    addr: &'server A,
    thread_pool_size: usize,
}

impl<'server, A> Server<'server, A> {
    /// The address that the server listens on.
    pub closed spec fn spec_addr(&self) -> &'server A {
        self.addr
    }

    /// The number of workers.
    pub closed spec fn spec_thread_pool_size(&self) -> usize {
        self.thread_pool_size
    }

    /// A server for `addr` with `thread_pool_size` workers.
    pub fn new(addr: &'server A, thread_pool_size: usize) -> (res: Self)
        ensures
            res.spec_addr() == addr,
            res.spec_thread_pool_size() == thread_pool_size,
    {
        Self { addr, thread_pool_size }
    }

    /// The address that the server listens on.
    pub fn addr(&self) -> (res: &'server A)
        ensures
            res == self.spec_addr(),
    {
        self.addr
    }

    /// The number of workers.
    pub fn thread_pool_size(&self) -> (res: usize)
        ensures
            res == self.spec_thread_pool_size(),
    {
        self.thread_pool_size
    }
}

/// The number of workers when none is given: four.
pub fn default_server_thread_pool_size() -> (res: usize)
    ensures
        res == 4,
{
    4
}

/// The tracing level when none is given: `info`.
pub fn default_tracing_level() -> (res: String)
    ensures
        res@ == "info"@,
{
    "info".to_owned()
}

} // verus!
