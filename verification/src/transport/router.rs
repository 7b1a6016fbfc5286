//! The handshake that routes a terminal connection to its broker.

use crate::contracts::le_bytes::{at32, get_u32};
use crate::contracts::types::BrokerId;
use vstd::prelude::*;

verus! {

/// Length of the routing handshake.
pub const ROUTE_HELLO_LENGTH: usize = 8;

/// The handshake magic: the bytes `T S C P`.
pub open spec fn route_hello_magic() -> Seq<u8> {
    seq![0x54u8, 0x53u8, 0x43u8, 0x50u8]
}

/// The broker a routing handshake names: four magic bytes, then the
/// broker id little-endian; `None` when the magic is wrong.
pub fn parse_route_hello(hello: &[u8]) -> (r: Option<BrokerId>)
    requires
        hello@.len() == ROUTE_HELLO_LENGTH,
    ensures
        hello@.subrange(0, 4) == route_hello_magic() ==> r == Some(at32(hello@, 4)),
        hello@.subrange(0, 4) != route_hello_magic() ==> r is None,
{
    if hello[0] != 0x54 || hello[1] != 0x53 || hello[2] != 0x43 || hello[3] != 0x50 {
        proof {
            if hello@.subrange(0, 4) == route_hello_magic() {
                assert(hello@.subrange(0, 4)[0] == hello@[0]);
                assert(hello@.subrange(0, 4)[1] == hello@[1]);
                assert(hello@.subrange(0, 4)[2] == hello@[2]);
                assert(hello@.subrange(0, 4)[3] == hello@[3]);
            }
        }
        return None;
    }
    assert(hello@.subrange(0, 4) =~= route_hello_magic());
    Some(get_u32(hello, 4))
}

} // verus!
