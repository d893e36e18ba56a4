//! The to-be-signed buffer of an authenticated variable write.
//!
//! Signing an authenticated variable covers a fixed byte layout: the
//! variable's name in UCS-2 without its terminator, the namespace
//! identifier, the attribute bits little-endian, the raw sixteen-byte
//! timestamp, and the payload. The builders here produce exactly that
//! layout, stated byte for byte.

use vstd::prelude::*;

use crate::encoder::{
    encodable_prefix_len, fits_ucs2, lemma_encodable_prefix_le_len, lemma_encodable_prefix_len,
    ucs2_of,
};
use crate::rustified::EfiTime;
use crate::variable::EfiVariable;
use crate::protocol_utility::RustProtocolError;

verus! {

/// The two little-endian bytes of a sixteen-bit value.
pub open spec fn le16_bytes(x: u16) -> Seq<u8> {
    seq![(x & 0xFF) as u8, ((x >> 8) & 0xFF) as u8]
}

/// The four little-endian bytes of a thirty-two-bit value.
pub open spec fn le32_bytes(x: u32) -> Seq<u8> {
    seq![
        (x & 0xFF) as u8,
        ((x >> 8) & 0xFF) as u8,
        ((x >> 16) & 0xFF) as u8,
        ((x >> 24) & 0xFF) as u8,
    ]
}

/// UCS-2 code units laid out little-endian, two bytes each.
pub open spec fn units_bytes(us: Seq<u16>) -> Seq<u8>
    decreases us.len(),
{
    if us.len() == 0 {
        Seq::empty()
    } else {
        units_bytes(us.drop_last()) + le16_bytes(us.last())
    }
}

/// Laying out units takes two bytes per unit.
pub proof fn lemma_units_bytes_len(us: Seq<u16>)
    ensures
        units_bytes(us).len() == 2 * us.len(),
    decreases us.len(),
{
    if us.len() > 0 {
        lemma_units_bytes_len(us.drop_last());
    }
}

/// The sixteen bytes of the raw firmware time record, in layout order.
pub open spec fn time_bytes(t: EfiTime) -> Seq<u8> {
    le16_bytes(t.year) + seq![t.month, t.day, t.hour, t.minute, t.second, t.pad1] + le32_bytes(
        t.nanosecond,
    ) + le16_bytes(t.timezone as u16) + seq![t.daylight, t.pad2]
}

/// A variable together with the timestamp that authenticates it.
#[derive(Debug, Clone)]
pub struct EfiAuthVariable2 {
    /// The variable being written.
    pub variable: EfiVariable,
    /// The raw timestamp covered by the signature.
    pub time: EfiTime,
}

/// The UCS-2 units of the variable's name that enter the signed buffer:
/// every character up to the first one outside the basic multilingual
/// plane, without a terminator.
pub open spec fn tbs_name_units(v: EfiAuthVariable2) -> Seq<u16> {
    ucs2_of(v.variable.name@.take(encodable_prefix_len(v.variable.name@) as int))
}

/// The signed byte layout: name units, namespace identifier, attribute
/// bits little-endian, raw timestamp, payload.
pub open spec fn tbs_bytes(v: EfiAuthVariable2) -> Seq<u8> {
    units_bytes(tbs_name_units(v)) + v.variable.guid@ + le32_bytes(v.variable.attributes)
        + time_bytes(v.time) + v.variable.data@
}

/// How long the signed buffer is: two bytes per name unit, sixteen for
/// the identifier, four for the attributes, sixteen for the timestamp,
/// then the payload.
pub open spec fn tbs_len(v: EfiAuthVariable2) -> int {
    2 * (encodable_prefix_len(v.variable.name@) as int) + 36 + v.variable.data@.len()
}

/// The layout is as long as the length formula says.
pub proof fn lemma_tbs_bytes_len(v: EfiAuthVariable2)
    ensures
        tbs_bytes(v).len() == tbs_len(v),
{
    broadcast use vstd::array::group_array_axioms;

    lemma_units_bytes_len(tbs_name_units(v));
    lemma_encodable_prefix_le_len(v.variable.name@);
    assert(v.variable.guid@.len() == 16);
    assert(tbs_name_units(v).len() == encodable_prefix_len(v.variable.name@));
}

impl EfiAuthVariable2 {
    /// The size in bytes of the to-be-signed buffer.
    pub fn get_tbs_data_size(&self) -> (r: usize)
        requires
            tbs_len(*self) <= usize::MAX,
        ensures
            r == tbs_len(*self),
            r == tbs_bytes(*self).len(),
    {
        let ghost cs = self.variable.name@;
        let name: &str = self.variable.name.as_str();
        let n = name.unicode_len();
        let mut p: usize = 0;
        let mut stopped = false;
        while p < n && !stopped
            invariant
                0 <= p <= n,
                n == cs.len(),
                cs == name@,
                !stopped ==> forall|k: int| 0 <= k < p ==> fits_ucs2(#[trigger] cs[k]),
                stopped ==> p < n && !fits_ucs2(cs[p as int]) && forall|k: int|
                    0 <= k < p ==> fits_ucs2(#[trigger] cs[k]),
            decreases n - p + (if stopped { 0int } else { 1int }),
        {
            let c = name.get_char(p);
            if (c as u32) >= 0x10000 {
                stopped = true;
            } else {
                p = p + 1;
            }
        }
        proof {
            if stopped {
                lemma_encodable_prefix_len(cs, p as int);
            } else {
                lemma_encodable_prefix_len(cs, n as int);
            }
            lemma_tbs_bytes_len(*self);
        }
        2 * p + 36 + self.variable.data.len()
    }

    /// Write the to-be-signed layout into `buffer`, replacing whatever it
    /// held, and return the byte count.
    pub fn get_tbs_data_buffer(&self, buffer: &mut Vec<u8>) -> (r: Result<
        usize,
        RustProtocolError,
    >)
        ensures
            final(buffer)@ == tbs_bytes(*self),
            r == Result::<usize, RustProtocolError>::Ok(tbs_bytes(*self).len() as usize),
    {
        let ghost cs = self.variable.name@;
        buffer.clear();

        // The name, as little-endian UCS-2 units without a terminator.
        let name: &str = self.variable.name.as_str();
        let n = name.unicode_len();
        let mut i: usize = 0;
        let mut stopped = false;
        while i < n && !stopped
            invariant
                0 <= i <= n,
                n == cs.len(),
                cs == name@,
                !stopped ==> forall|k: int| 0 <= k < i ==> fits_ucs2(#[trigger] cs[k]),
                stopped ==> i < n && !fits_ucs2(cs[i as int]) && forall|k: int|
                    0 <= k < i ==> fits_ucs2(#[trigger] cs[k]),
                buffer@ == units_bytes(ucs2_of(cs.take(i as int))),
            decreases n - i + (if stopped { 0int } else { 1int }),
        {
            let c = name.get_char(i);
            let u = c as u32;
            if u >= 0x10000 {
                stopped = true;
            } else {
                let unit = u as u16;
                buffer.push((unit & 0xFF) as u8);
                buffer.push(((unit >> 8) & 0xFF) as u8);
                proof {
                    let us1 = ucs2_of(cs.take(i + 1 as int));
                    assert(us1.drop_last() =~= ucs2_of(cs.take(i as int)));
                    assert(us1.last() == unit);
                    assert(buffer@ =~= units_bytes(us1.drop_last()) + le16_bytes(unit));
                }
                i = i + 1;
            }
        }
        proof {
            if stopped {
                lemma_encodable_prefix_len(cs, i as int);
            } else {
                lemma_encodable_prefix_len(cs, n as int);
                assert(cs.take(n as int) =~= cs);
            }
            assert(buffer@ == units_bytes(tbs_name_units(*self)));
        }

        // The namespace identifier.
        buffer.extend_from_slice(self.variable.guid.as_bytes());

        // The attribute bits, little-endian.
        let a = self.variable.attributes;
        buffer.push((a & 0xFF) as u8);
        buffer.push(((a >> 8) & 0xFF) as u8);
        buffer.push(((a >> 16) & 0xFF) as u8);
        buffer.push(((a >> 24) & 0xFF) as u8);

        // The raw timestamp, in layout order.
        let t = &self.time;
        buffer.push((t.year & 0xFF) as u8);
        buffer.push(((t.year >> 8) & 0xFF) as u8);
        buffer.push(t.month);
        buffer.push(t.day);
        buffer.push(t.hour);
        buffer.push(t.minute);
        buffer.push(t.second);
        buffer.push(t.pad1);
        buffer.push((t.nanosecond & 0xFF) as u8);
        buffer.push(((t.nanosecond >> 8) & 0xFF) as u8);
        buffer.push(((t.nanosecond >> 16) & 0xFF) as u8);
        buffer.push(((t.nanosecond >> 24) & 0xFF) as u8);
        let tz = t.timezone as u16;
        buffer.push((tz & 0xFF) as u8);
        buffer.push(((tz >> 8) & 0xFF) as u8);
        buffer.push(t.daylight);
        buffer.push(t.pad2);

        // The payload.
        buffer.extend_from_slice(self.variable.data.as_slice());

        proof {
            assert(buffer@ =~= tbs_bytes(*self));
        }
        Ok(buffer.len())
    }

    /// The to-be-signed bytes as a fresh vector.
    pub fn get_tbs_data(&self) -> (r: Result<Vec<u8>, RustProtocolError>)
        ensures
            (r matches Ok(d) && d@ == tbs_bytes(*self)),
    {
        let mut data: Vec<u8> = Vec::new();
        match self.get_tbs_data_buffer(&mut data) {
            Ok(_) => Ok(data),
            Err(e) => Err(e),
        }
    }
}

} // verus!
