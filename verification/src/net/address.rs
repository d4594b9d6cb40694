//! Addresses, ports, and who waits for an operation.
use vstd::prelude::*;

use crate::api::io::IoResult;

verus! {

/// An address on the internet.
#[derive(Clone, Copy, Debug)]
pub struct Ipv4Address(pub [u8; 4]);

impl View for Ipv4Address {
    type V = Seq<u8>;

    open spec fn view(&self) -> Seq<u8> {
        self.0@
    }
}

#[derive(Clone, Copy, PartialEq, Eq, Structural, Debug)]
pub struct SocketPort(pub u16);

#[derive(Clone, Copy, PartialEq, Eq, Structural, Debug)]
pub struct SocketId(pub u32);

/// Who waits for an operation: a task, its file and the operation.
#[derive(Clone, Copy, PartialEq, Eq, Structural, Debug)]
pub struct AsyncCallback {
    pub task: u32,
    pub io_index: u32,
    pub op_id: u32,
}

/// An operation that is over, with its result.
#[derive(Clone, Copy, PartialEq, Eq, Debug)]
pub struct Completion {
    pub callback: AsyncCallback,
    pub result: IoResult,
}

/// An address and a port as one number.
pub open spec fn endpoint(address: Seq<u8>, port: u16) -> u64 {
    (address[0] * 0x100_0000_0000 + address[1] * 0x1_0000_0000 + address[2] * 0x100_0000 + address[3]
        * 0x1_0000 + port) as u64
}

pub fn endpoint_key(address: Ipv4Address, port: SocketPort) -> (r: u64)
    ensures
        r == endpoint(address@, port.0),
{
    address.0[0] as u64 * 0x100_0000_0000 + address.0[1] as u64 * 0x1_0000_0000
        + address.0[2] as u64 * 0x100_0000 + address.0[3] as u64 * 0x1_0000 + port.0 as u64
}

/// Different addresses or ports have different numbers.
pub proof fn endpoints_are_distinct(a: Ipv4Address, p: u16, b: Ipv4Address, q: u16)
    requires
        endpoint(a@, p) == endpoint(b@, q),
    ensures
        a@ == b@,
        p == q,
{
    assert(a@.len() == 4 && b@.len() == 4);
    assert(p == q);
    assert(a@[3] == b@[3]);
    assert(a@[2] == b@[2]);
    assert(a@[1] == b@[1]);
    assert(a@ =~= b@);
}

} // verus!
