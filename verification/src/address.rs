use vstd::prelude::*;

verus! {

/// The address of a peer: an IP address and a port, as plain numbers.
///
/// Two addresses are the same peer exactly when they are equal, field by field.
#[allow(inconsistent_fields)]
#[derive(Clone, Copy, PartialEq, Eq, Debug, Structural)]
pub enum Address {
    V4 { ip: u32, port: u16 },
    V6 { ip: u128, port: u16, flowinfo: u32, scope_id: u32 },
}

} // verus!
