//! Classifying console keystrokes.
//!
//! The firmware reports a keystroke as a pair of sixteen-bit values: a
//! character code, or zero together with a scan code for control keys.
//! Turning the pair into a typed key is plain logic and lives here; the
//! waiting and reading stays with the code that talks to the machine.

use vstd::prelude::*;

use crate::protocol_utility::RustProtocolError;

verus! {

/// One keystroke: a printable character, or a control key's scan code.
#[derive(Debug, Clone, Copy, PartialEq, Eq, Structural)]
pub enum InputKey {
    /// A character key.
    Char(char),
    /// A control key, by its scan code.
    Ctrl(u16),
}

/// A sixteen-bit value that is a Unicode scalar value: anything outside
/// the surrogate range.
pub open spec fn scalar_u16(u: u16) -> bool {
    u < 0xD800 || u >= 0xE000
}

/// Relies on `char::from_u32`: it returns `Some` exactly for Unicode
/// scalar values — below the surrogate range or above it, up to the
/// maximum code point — and the character it returns has the given value.
#[verifier::external_body]
fn char_from_u32(v: u32) -> (r: Option<char>)
    ensures
        r is Some <==> (v < 0xD800 || (0xE000 <= v && v <= 0x10FFFF)),
        r matches Some(c) ==> c as u32 == v,
{
    char::from_u32(v)
}

/// Classify a raw keystroke: a zero character code names a control key
/// by its scan code; any other scalar value is a character; a surrogate
/// code — which no keystroke can mean — is refused as `InvalidParameter`.
/// A caller that must speak firmware status codes maps that refusal to
/// its own "no mapping" status; the code itself is the firmware's to
/// define, so it is not named here.
pub fn classify_key(unicode_char: u16, scan_code: u16) -> (r: Result<InputKey, RustProtocolError>)
    ensures
        unicode_char == 0 ==> r == Result::<InputKey, RustProtocolError>::Ok(
            InputKey::Ctrl(scan_code),
        ),
        (unicode_char != 0 && scalar_u16(unicode_char)) ==> (r matches Ok(k) && k matches
            InputKey::Char(c) && c as u32 == unicode_char),
        (unicode_char != 0 && !scalar_u16(unicode_char)) ==> r == Result::<
            InputKey,
            RustProtocolError,
        >::Err(RustProtocolError::InvalidParameter),
    {
    if unicode_char == 0 {
        return Ok(InputKey::Ctrl(scan_code));
    }
    match char_from_u32(unicode_char as u32) {
        Some(c) => Ok(InputKey::Char(c)),
        None => Err(RustProtocolError::InvalidParameter),
    }
}

} // verus!
