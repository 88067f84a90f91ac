//! Socket addresses as plain values.

use vstd::prelude::*;

verus! {

/// An IPv4 address and a TCP port. Port 0 asks the operating system to pick
/// a port when a listener binds; every other port is concrete.
#[derive(Clone, Copy, Debug, PartialEq, Eq, Structural)]
pub struct Address {
    pub a: u8,
    pub b: u8,
    pub c: u8,
    pub d: u8,
    pub port: u16,
}

impl Address {
    /// `127.0.0.1` with the given port.
    pub open spec fn spec_loopback(port: u16) -> Address {
        Address { a: 127, b: 0, c: 0, d: 1, port }
    }

    /// Whether the port is fixed, not left to the operating system.
    pub open spec fn spec_is_concrete(&self) -> bool {
        self.port != 0
    }

    /// Whether a listener asked to bind to `self` may report `bound` as the
    /// address it got: the same host, a concrete port, and the port that was
    /// asked for if one was.
    pub open spec fn spec_resolves_to(&self, bound: Address) -> bool {
        &&& bound.a == self.a
        &&& bound.b == self.b
        &&& bound.c == self.c
        &&& bound.d == self.d
        &&& bound.port != 0
        &&& self.port != 0 ==> bound.port == self.port
    }

    #[verifier::when_used_as_spec(spec_loopback)]
    pub fn loopback(port: u16) -> (addr: Address)
        ensures
            addr == Address::spec_loopback(port),
    {
        Address { a: 127, b: 0, c: 0, d: 1, port }
    }

    /// `127.0.0.1:0`: the loopback host, the port left to the operating
    /// system.
    pub fn loopback_os_assigned() -> (addr: Address)
        ensures
            addr == Address::spec_loopback(0),
            !addr.spec_is_concrete(),
    {
        Address::loopback(0)
    }

    #[verifier::when_used_as_spec(spec_is_concrete)]
    pub fn is_concrete(&self) -> (concrete: bool)
        ensures
            concrete == self.spec_is_concrete(),
    {
        self.port != 0
    }

    #[verifier::when_used_as_spec(spec_resolves_to)]
    pub fn resolves_to(&self, bound: Address) -> (ok: bool)
        ensures
            ok == self.spec_resolves_to(bound),
    {
        bound.a == self.a && bound.b == self.b && bound.c == self.c && bound.d == self.d
            && bound.port != 0 && (self.port == 0 || bound.port == self.port)
    }
}

/// A concrete address resolves to itself and to nothing else, and whatever
/// an address resolves to is concrete.
pub proof fn law_resolution_is_concrete(asked: Address, bound: Address)
    requires
        asked.spec_resolves_to(bound),
    ensures
        bound.spec_is_concrete(),
        bound.spec_resolves_to(bound),
        asked.spec_is_concrete() ==> bound == asked,
{
}

} // verus!
