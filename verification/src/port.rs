//! A cycling pool of port numbers for fixture servers.

use vstd::prelude::*;

verus! {

/// A port that steps through a pool: after the top of the pool it wraps
/// back to the base port.
#[derive(Debug, Clone, Copy)]
pub struct CyclePort {
    port: u16,
    base_port: u16,
    pool_size: u16,
}

impl CyclePort {
    /// The current port.
    pub closed spec fn spec_port(&self) -> u16 {
        self.port
    }

    /// The pool's base port.
    pub closed spec fn spec_base_port(&self) -> u16 {
        self.base_port
    }

    /// The pool's size.
    pub closed spec fn spec_pool_size(&self) -> u16 {
        self.pool_size
    }

    /// A pool positioned at `port`.
    pub fn new(port: u16, base_port: u16, pool_size: u16) -> (r: CyclePort)
        ensures
            r.spec_port() == port,
            r.spec_base_port() == base_port,
            r.spec_pool_size() == pool_size,
    {
        CyclePort { port, base_port, pool_size }
    }

    /// Step to the next port, wrapping to the base after the pool's top.
    pub fn new_port(&mut self)
        requires
            old(self).spec_port() < u16::MAX,
            old(self).spec_base_port() + old(self).spec_pool_size() <= u16::MAX,
        ensures
            final(self).spec_base_port() == old(self).spec_base_port(),
            final(self).spec_pool_size() == old(self).spec_pool_size(),
            final(self).spec_port() == if old(self).spec_port() + 1 > old(self).spec_base_port()
                + old(self).spec_pool_size() {
                old(self).spec_base_port()
            } else {
                (old(self).spec_port() + 1) as u16
            },
    {
        self.port = self.port + 1;
        if self.port > self.base_port + self.pool_size {
            self.port = self.base_port;
        }
    }

    /// The current port.
    pub fn to_port(&self) -> (r: u16)
        ensures
            r == self.spec_port(),
    {
        self.port
    }
}

} // verus!
