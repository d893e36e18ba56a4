//! Firmware variables as plain values.

use vstd::prelude::*;

use crate::protocol_utility::{guid_field_bytes, EfiGuid};

verus! {

/// One firmware variable: its name, the namespace identifier it lives
/// under, its payload, and its attribute bits. Reading or writing the
/// variable store is firmware-side work; this type only carries the
/// value.
#[derive(Debug, Clone)]
pub struct EfiVariable {
    /// The variable's name.
    pub name: String,
    /// The namespace identifier the variable lives under.
    pub guid: EfiGuid,
    /// The payload bytes.
    pub data: Vec<u8>,
    /// The attribute bits, as the firmware defines them.
    pub attributes: u32,
}

/// The identifier of the global variable namespace.
pub fn efi_global_variable_guid() -> (r: EfiGuid)
    ensures
        r@ == guid_field_bytes(
            0x8BE4DF61,
            0x93CA,
            0x11D2,
            0xAA,
            0x0D,
            seq![0x00u8, 0xE0, 0x98, 0x03, 0x2B, 0x8C],
        ),
{
    let node: [u8; 6] = [0x00, 0xE0, 0x98, 0x03, 0x2B, 0x8C];
    let r = EfiGuid::from_fields(0x8BE4DF61, 0x93CA, 0x11D2, 0xAA, 0x0D, &node);
    proof {
        assert(node@ =~= seq![0x00u8, 0xE0, 0x98, 0x03, 0x2B, 0x8C]);
    }
    r
}

} // verus!
