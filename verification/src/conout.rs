//! Preparing text for the firmware console.
//!
//! The console takes a nul-terminated buffer of UCS-2 units and only
//! understands printable ASCII plus carriage return and line feed;
//! anything else is shown as a placeholder. Building that buffer from a
//! Rust string is plain logic and lives here; handing it to the firmware
//! stays with the code that talks to the machine.

use vstd::prelude::*;
use vstd::string::StringSliceAdditionalSpecFns;

verus! {

/// The code unit the console shows for one UTF-8 byte: the byte itself
/// when printable ASCII, carriage return or line feed, else a
/// placeholder block.
pub open spec fn console_unit(b: u8) -> u16 {
    if (0x20 <= b && b <= 0x7e) || b == 0x0a || b == 0x0d {
        b as u16
    } else {
        0xfe
    }
}

/// The console buffer for a byte sequence, truncated to `cap` text
/// units and nul-terminated.
pub open spec fn console_units_of(bytes: Seq<u8>, cap: int) -> Seq<u16> {
    (if bytes.len() <= cap {
        bytes.map_values(|b: u8| console_unit(b))
    } else {
        bytes.take(cap).map_values(|b: u8| console_unit(b))
    }).push(0)
}

/// Build the nul-terminated UCS-2 buffer the console prints for `s`:
/// one unit per UTF-8 byte, placeholders for what the console cannot
/// show, at most `cap` text units.
pub fn console_units(s: &str, cap: usize) -> (r: Vec<u16>)
    ensures
        r@ == console_units_of(s.spec_bytes(), cap as int),
{
    let bytes = s.as_bytes();
    let n = if bytes.len() <= cap {
        bytes.len()
    } else {
        cap
    };
    let ghost target = if s.spec_bytes().len() <= cap {
        s.spec_bytes()
    } else {
        s.spec_bytes().take(cap as int)
    };
    let mut out: Vec<u16> = Vec::new();
    let mut i: usize = 0;
    while i < n
        invariant
            0 <= i <= n,
            n <= bytes@.len(),
            bytes@ == s.spec_bytes(),
            target == (if s.spec_bytes().len() <= cap {
                s.spec_bytes()
            } else {
                s.spec_bytes().take(cap as int)
            }),
            n == target.len(),
            out@ == target.take(i as int).map_values(|b: u8| console_unit(b)),
        decreases n - i,
    {
        let b = bytes[i];
        let unit: u16 = if (0x20 <= b && b <= 0x7e) || b == 0x0a || b == 0x0d {
            b as u16
        } else {
            0xfe
        };
        out.push(unit);
        proof {
            assert(target.take(i + 1 as int).map_values(|b: u8| console_unit(b))
                =~= target.take(i as int).map_values(|b: u8| console_unit(b)).push(
                console_unit(target[i as int]),
            ));
        }
        i = i + 1;
    }
    out.push(0u16);
    proof {
        assert(target.take(n as int) =~= target);
        assert(out@ =~= console_units_of(s.spec_bytes(), cap as int));
    }
    out
}

} // verus!
