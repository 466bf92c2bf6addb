//! Network addresses as plain values: raw IP bytes and a port.

use vstd::prelude::*;

verus! {

/// A socket address: four or sixteen IP bytes, and a port.
#[derive(Debug)]
pub struct NetAddr {
    pub ip: Vec<u8>,
    pub port: u16,
}

impl View for NetAddr {
    type V = (Seq<u8>, u16);

    open spec fn view(&self) -> (Seq<u8>, u16) {
        (self.ip@, self.port)
    }
}

impl NetAddr {
    /// An address from its parts.
    pub fn new(ip: Vec<u8>, port: u16) -> (r: Self)
        ensures
            r@ == (ip@, port),
    {
        NetAddr { ip, port }
    }
}

impl Clone for NetAddr {
    fn clone(&self) -> (r: Self)
        ensures
            r@ == self@,
    {
        NetAddr { ip: crate::codec::copy_bytes(self.ip.as_slice()), port: self.port }
    }
}

impl PartialEq for NetAddr {
    fn eq(&self, other: &Self) -> (r: bool) {
        crate::signature::bytes_eq(&self.ip, &other.ip) && self.port == other.port
    }
}

impl Eq for NetAddr {

}

impl vstd::std_specs::cmp::PartialEqSpecImpl for NetAddr {
    open spec fn obeys_eq_spec() -> bool {
        true
    }

    open spec fn eq_spec(&self, other: &Self) -> bool {
        self@ == other@
    }
}

} // verus!
