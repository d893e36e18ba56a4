//! Diagnostics helpers.
//!
//! `DebugBuffer` renders a byte buffer as the classic sixteen-per-row
//! hex dump: an offset column, the bytes in hex with a dash after the
//! eighth, and an ASCII column with dots for what cannot be printed.
//! The renderer returns the dump as ASCII bytes; showing them is the
//! caller's business.

use vstd::prelude::*;

use vstd::arithmetic::div_mod::lemma_fundamental_div_mod;
use vstd::arithmetic::mul::lemma_mul_inequality;

use crate::protocol_utility::EfiGuid;

verus! {

/// The ASCII uppercase hex digit for a value below sixteen.
pub open spec fn hex_digit(n: int) -> u8 {
    if n < 10 {
        (0x30 + n) as u8
    } else {
        (0x41 + (n - 10)) as u8
    }
}

/// The hex digits of a value, most significant first, no padding.
pub open spec fn hex_rep(n: int) -> Seq<u8>
    decreases n,
{
    if n < 16 {
        seq![hex_digit(if n < 0 { 0 } else { n })]
    } else {
        hex_rep(n / 16).push(hex_digit(n % 16))
    }
}

/// A row offset as the dump prints it: four hex digits, more only when
/// the offset outgrows them.
pub open spec fn offset_rep(n: int) -> Seq<u8> {
    if n <= 0xFFFF {
        seq![
            hex_digit(n / 0x1000 % 16),
            hex_digit(n / 0x100 % 16),
            hex_digit(n / 0x10 % 16),
            hex_digit(n % 16),
        ]
    } else {
        hex_rep(n)
    }
}

/// One hex cell: two digits and a space for a byte, three spaces past
/// the end of the data.
pub open spec fn hex_cell(data: Seq<u8>, pos: int) -> Seq<u8> {
    if pos < data.len() {
        seq![hex_digit(data[pos] as int / 16), hex_digit(data[pos] as int % 16), 0x20u8]
    } else {
        seq![0x20u8, 0x20, 0x20]
    }
}

/// The first `i` hex cells of a row, the column divider after the
/// eighth.
pub open spec fn hex_cells_upto(data: Seq<u8>, start: int, i: int) -> Seq<u8>
    decreases i,
{
    if i <= 0 {
        Seq::empty()
    } else {
        hex_cells_upto(data, start, i - 1) + hex_cell(data, start + (i - 1)) + (if i - 1 == 7 {
            seq![0x2Du8, 0x20]
        } else {
            Seq::empty()
        })
    }
}

/// One ASCII cell: the byte itself when printable, a dot otherwise, a
/// space past the end of the data.
pub open spec fn ascii_cell(data: Seq<u8>, pos: int) -> Seq<u8> {
    if pos < data.len() {
        if 0x20 <= data[pos] && data[pos] <= 0x7F {
            seq![data[pos]]
        } else {
            seq![0x2Eu8]
        }
    } else {
        seq![0x20u8]
    }
}

/// The first `i` ASCII cells of a row.
pub open spec fn ascii_cells_upto(data: Seq<u8>, start: int, i: int) -> Seq<u8>
    decreases i,
{
    if i <= 0 {
        Seq::empty()
    } else {
        ascii_cells_upto(data, start, i - 1) + ascii_cell(data, start + (i - 1))
    }
}

/// One full dump row: `0x` and the offset, a colon and two spaces, the
/// sixteen hex cells, two spaces, the sixteen ASCII cells, a line feed.
pub open spec fn dump_row(data: Seq<u8>, row: int) -> Seq<u8> {
    seq![0x30u8, 0x78] + offset_rep(row * 16) + seq![0x3Au8, 0x20, 0x20] + hex_cells_upto(
        data,
        row * 16,
        16,
    ) + seq![0x20u8, 0x20] + ascii_cells_upto(data, row * 16, 16) + seq![0x0Au8]
}

/// The first `r` rows of the dump.
pub open spec fn dump_rows_upto(data: Seq<u8>, r: int) -> Seq<u8>
    decreases r,
{
    if r <= 0 {
        Seq::empty()
    } else {
        dump_rows_upto(data, r - 1) + dump_row(data, r - 1)
    }
}

/// How many rows the dump of this data has: sixteen bytes per row, the
/// last row partial.
pub open spec fn dump_row_count(data: Seq<u8>) -> int {
    data.len() / 16 + (if data.len() % 16 == 0 {
        0int
    } else {
        1int
    })
}

/// The whole dump.
pub open spec fn buffer_dump(data: Seq<u8>) -> Seq<u8> {
    dump_rows_upto(data, dump_row_count(data))
}

fn push_hex_digit(out: &mut Vec<u8>, n: usize)
    requires
        n < 16,
    ensures
        final(out)@ == old(out)@.push(hex_digit(n as int)),
{
    if n < 10 {
        out.push(0x30 + n as u8);
    } else {
        out.push(0x41 + (n as u8 - 10));
    }
}

fn push_hex_rep(out: &mut Vec<u8>, n: usize)
    ensures
        final(out)@ == old(out)@ + hex_rep(n as int),
    decreases n,
{
    if n < 16 {
        push_hex_digit(out, n);
        proof {
            assert(old(out)@ + hex_rep(n as int) =~= old(out)@.push(hex_digit(n as int)));
        }
    } else {
        push_hex_rep(out, n / 16);
        push_hex_digit(out, n % 16);
        proof {
            assert(old(out)@ + hex_rep(n as int) =~= (old(out)@ + hex_rep(n as int / 16)).push(
                hex_digit(n as int % 16),
            ));
        }
    }
}

fn push_offset(out: &mut Vec<u8>, n: usize)
    ensures
        final(out)@ == old(out)@ + offset_rep(n as int),
{
    if n <= 0xFFFF {
        push_hex_digit(out, n / 0x1000 % 16);
        push_hex_digit(out, n / 0x100 % 16);
        push_hex_digit(out, n / 0x10 % 16);
        push_hex_digit(out, n % 16);
        proof {
            assert(out@ =~= old(out)@ + offset_rep(n as int));
        }
    } else {
        push_hex_rep(out, n);
    }
}

/// The two hex digits of one byte.
pub open spec fn byte_hex(b: u8) -> Seq<u8> {
    seq![hex_digit(b as int / 16), hex_digit(b as int % 16)]
}

/// The diagnostic text for an identifier: a recognized certificate-list
/// identifier by name, anything else as its specification fields in hex,
/// read little-endian from the bytes.
pub open spec fn guid_text(g: Seq<u8>) -> Seq<u8> {
    if g == crate::protocol_utility::guid_field_bytes(
        0xa5c059a1,
        0x94e4,
        0x4aa7,
        0x87,
        0xb5,
        seq![0xabu8, 0x15, 0x5c, 0x2b, 0xf0, 0x72],
    ) {
        "EFI_CERT_X509_GUID"@.map_values(|c: char| (c as u32) as u8)
    } else if g == crate::protocol_utility::guid_field_bytes(
        0xc1c41626,
        0x504c,
        0x4092,
        0xac,
        0xa9,
        seq![0x41u8, 0xf9, 0x36, 0x93, 0x43, 0x28],
    ) {
        "EFI_CERT_SHA256_GUID"@.map_values(|c: char| (c as u32) as u8)
    } else {
        "UNKNOWN("@.map_values(|c: char| (c as u32) as u8) + byte_hex(g[3]) + byte_hex(g[2])
            + byte_hex(g[1]) + byte_hex(g[0]) + seq![0x2Du8] + byte_hex(g[5]) + byte_hex(g[4])
            + seq![0x2Du8] + byte_hex(g[7]) + byte_hex(g[6]) + seq![0x2Du8] + byte_hex(g[8])
            + byte_hex(g[9]) + seq![0x2Du8] + byte_hex(g[10]) + byte_hex(g[11]) + byte_hex(g[12])
            + byte_hex(g[13]) + byte_hex(g[14]) + byte_hex(g[15]) + seq![0x29u8]
    }
}

/// An identifier wrapped for diagnostic rendering.
#[derive(Clone, Copy, PartialEq)]
pub struct DebugGuid(pub EfiGuid);

impl DebugGuid {
    /// Wrap an identifier for rendering.
    pub fn from(g: EfiGuid) -> (r: DebugGuid)
        ensures
            r.0 == g,
    {
        DebugGuid(g)
    }

    /// Render the identifier as ASCII text: recognized certificate-list
    /// identifiers by name, the rest field by field in hex.
    pub fn render(&self) -> (r: Vec<u8>)
        ensures
            r@ == guid_text(self.0@),
    {
        let x509 = crate::image_authentication::efi_cert_x509_guid();
        let sha256 = crate::image_authentication::efi_cert_sha256_guid();
        let mine = &self.0;
        if bytes16_eq(mine.as_bytes(), x509.as_bytes()) {
            let r = ascii_vec("EFI_CERT_X509_GUID");
            proof {
                reveal_strlit("EFI_CERT_X509_GUID");
                assert(mine@ =~= x509@);
            }
            r
        } else if bytes16_eq(mine.as_bytes(), sha256.as_bytes()) {
            let r = ascii_vec("EFI_CERT_SHA256_GUID");
            proof {
                reveal_strlit("EFI_CERT_SHA256_GUID");
                assert(mine@ =~= sha256@);
            }
            r
        } else {
            proof {
                reveal_strlit("UNKNOWN(");
            }
            let g = mine.as_bytes();
            let mut out = ascii_vec("UNKNOWN(");
            push_byte_hex(&mut out, g[3]);
            push_byte_hex(&mut out, g[2]);
            push_byte_hex(&mut out, g[1]);
            push_byte_hex(&mut out, g[0]);
            out.push(0x2D);
            push_byte_hex(&mut out, g[5]);
            push_byte_hex(&mut out, g[4]);
            out.push(0x2D);
            push_byte_hex(&mut out, g[7]);
            push_byte_hex(&mut out, g[6]);
            out.push(0x2D);
            push_byte_hex(&mut out, g[8]);
            push_byte_hex(&mut out, g[9]);
            out.push(0x2D);
            push_byte_hex(&mut out, g[10]);
            push_byte_hex(&mut out, g[11]);
            push_byte_hex(&mut out, g[12]);
            push_byte_hex(&mut out, g[13]);
            push_byte_hex(&mut out, g[14]);
            push_byte_hex(&mut out, g[15]);
            out.push(0x29);
            proof {
                assert(out@ =~= guid_text(mine@));
            }
            out
        }
    }
}

fn bytes16_eq(a: &[u8; 16], b: &[u8; 16]) -> (r: bool)
    ensures
        r == (a@ == b@),
{
    let mut i: usize = 0;
    while i < 16
        invariant
            0 <= i <= 16,
            forall|k: int| 0 <= k < i ==> a@[k] == b@[k],
        decreases 16 - i,
    {
        if a[i] != b[i] {
            return false;
        }
        i = i + 1;
    }
    proof {
        assert(a@ =~= b@);
    }
    true
}

fn push_byte_hex(out: &mut Vec<u8>, b: u8)
    ensures
        final(out)@ == old(out)@ + byte_hex(b),
{
    push_hex_digit(out, (b / 16) as usize);
    push_hex_digit(out, (b % 16) as usize);
    proof {
        assert(out@ =~= old(out)@ + byte_hex(b));
    }
}

fn ascii_vec(s: &str) -> (r: Vec<u8>)
    ensures
        r@ == s@.map_values(|c: char| (c as u32) as u8),
{
    let n = s.unicode_len();
    let mut out: Vec<u8> = Vec::new();
    let mut i: usize = 0;
    while i < n
        invariant
            0 <= i <= n,
            n == s@.len(),
            out@ == s@.take(i as int).map_values(|c: char| (c as u32) as u8),
        decreases n - i,
    {
        let c = s.get_char(i);
        out.push(#[verifier::truncate] ((c as u32) as u8));
        proof {
            assert(s@.take(i + 1 as int).map_values(|c: char| (c as u32) as u8) =~= s@.take(
                i as int,
            ).map_values(|c: char| (c as u32) as u8).push((s@[i as int] as u32) as u8));
        }
        i = i + 1;
    }
    proof {
        assert(s@.take(n as int) =~= s@);
    }
    out
}

/// A byte buffer wrapped for diagnostic rendering.
#[derive(Clone)]
pub struct DebugBuffer<'a>(&'a Vec<u8>);

impl<'a> View for DebugBuffer<'a> {
    type V = Seq<u8>;

    closed spec fn view(&self) -> Seq<u8> {
        self.0@
    }
}

impl<'a> DebugBuffer<'a> {
    /// Wrap a buffer for rendering.
    pub fn new(data: &'a Vec<u8>) -> (r: DebugBuffer<'a>)
        ensures
            r@ == data@,
    {
        DebugBuffer(data)
    }

    /// Render the dump, sixteen bytes per row, as ASCII bytes.
    pub fn render(&self) -> (r: Vec<u8>)
        ensures
            r@ == buffer_dump(self@),
    {
        let data = self.0;
        let n = data.len();
        let last_row_count = n % 16;
        let last_row = n / 16 + (if last_row_count == 0 {
            0
        } else {
            1
        });
        let mut out: Vec<u8> = Vec::new();
        let mut row: usize = 0;
        while row < last_row
            invariant
                0 <= row <= last_row,
                n == data@.len(),
                data@ == self@,
                last_row == dump_row_count(data@),
                out@ == dump_rows_upto(data@, row as int),
            decreases last_row - row,
        {
            let ghost row_start_out = out@;
            proof {
                lemma_fundamental_div_mod(n as int, 16);
                lemma_mul_inequality(row as int, n as int / 16, 16);
            }
            let start = row * 16;
            let remaining = n - start;
            out.push(0x30);
            out.push(0x78);
            push_offset(&mut out, start);
            out.push(0x3A);
            out.push(0x20);
            out.push(0x20);
            let ghost cells_base = out@;

            let mut index: usize = 0;
            while index < 16
                invariant
                    0 <= index <= 16,
                    n == data@.len(),
                    data@ == self@,
                    start == row * 16,
                    start <= n,
                    remaining == n - start,
                    out@ == cells_base + hex_cells_upto(data@, start as int, index as int),
                decreases 16 - index,
            {
                if index < remaining {
                    let b = data[start + index];
                    push_hex_digit(&mut out, (b / 16) as usize);
                    push_hex_digit(&mut out, (b % 16) as usize);
                    out.push(0x20);
                } else {
                    out.push(0x20);
                    out.push(0x20);
                    out.push(0x20);
                }
                if index == 7 {
                    out.push(0x2D);
                    out.push(0x20);
                }
                proof {
                    assert(out@ =~= cells_base + hex_cells_upto(
                        data@,
                        start as int,
                        index as int + 1,
                    ));
                }
                index = index + 1;
            }

            out.push(0x20);
            out.push(0x20);
            let ghost ascii_base = out@;
            let mut index2: usize = 0;
            while index2 < 16
                invariant
                    0 <= index2 <= 16,
                    n == data@.len(),
                    data@ == self@,
                    start == row * 16,
                    start <= n,
                    remaining == n - start,
                    out@ == ascii_base + ascii_cells_upto(data@, start as int, index2 as int),
                decreases 16 - index2,
            {
                if index2 < remaining {
                    let chr = data[start + index2];
                    if 0x20 <= chr && chr <= 0x7F {
                        out.push(chr);
                    } else {
                        out.push(0x2E);
                    }
                } else {
                    out.push(0x20);
                }
                proof {
                    assert(out@ =~= ascii_base + ascii_cells_upto(
                        data@,
                        start as int,
                        index2 as int + 1,
                    ));
                }
                index2 = index2 + 1;
            }
            out.push(0x0A);
            proof {
                assert(out@ =~= dump_rows_upto(data@, row as int + 1));
            }
            row = row + 1;
        }
        out
    }
}

} // verus!
