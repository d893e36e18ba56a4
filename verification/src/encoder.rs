//! UCS-2 / UTF-8 codec.
//!
//! UEFI talks UCS-2 (one `u16` per character, basic multilingual plane
//! only); Rust strings are UTF-8. `encode` turns a `&str` into UCS-2 code
//! units, `decode` turns UCS-2 code units back into UTF-8 bytes, and
//! `encode_fnc` feeds the units one by one into a caller-supplied sink.

use vstd::prelude::*;

verus! {

/// Why a conversion stopped.
#[derive(Debug, Clone, Copy, PartialEq, Eq, Structural)]
pub enum Error {
    /// The output buffer cannot hold the converted text.
    BufferOverFlow,
    /// A character lies outside the basic multilingual plane, so it has no
    /// single UCS-2 code unit.
    MultiByte,
    /// The input is not valid UTF-8.
    NotUtf8String,
    /// Never produced; kept so the set of error values is closed for
    /// callers that match on it.
    Impossible,
}

/// A character that one UCS-2 code unit can hold.
pub open spec fn fits_ucs2(c: char) -> bool {
    (c as u32) < 0x10000
}

/// Every character of the sequence fits in one UCS-2 code unit.
pub open spec fn ucs2_encodable(s: Seq<char>) -> bool {
    forall|i: int| 0 <= i < s.len() ==> fits_ucs2(#[trigger] s[i])
}

/// The UCS-2 code unit of one character.
pub open spec fn ucs2_unit(c: char) -> u16 {
    (c as u32) as u16
}

/// The UCS-2 code units of a character sequence.
pub open spec fn ucs2_of(s: Seq<char>) -> Seq<u16> {
    s.map_values(|c: char| ucs2_unit(c))
}

/// How many leading characters fit in one UCS-2 code unit each.
pub open spec fn encodable_prefix_len(s: Seq<char>) -> nat
    decreases s.len(),
{
    if s.len() == 0 {
        0
    } else if !fits_ucs2(s[0]) {
        0
    } else {
        1 + encodable_prefix_len(s.drop_first())
    }
}

/// The UTF-8 bytes of one UCS-2 code unit.
pub open spec fn utf8_of_unit(u: u16) -> Seq<u8> {
    if u < 0x80 {
        seq![u as u8]
    } else if u < 0x800 {
        seq![(0xC0 + u / 0x40) as u8, (0x80 + u % 0x40) as u8]
    } else {
        seq![
            (0xE0 + u / 0x1000) as u8,
            (0x80 + (u / 0x40) % 0x40) as u8,
            (0x80 + u % 0x40) as u8,
        ]
    }
}

/// The UTF-8 bytes of a sequence of UCS-2 code units.
pub open spec fn utf8_of_units(s: Seq<u16>) -> Seq<u8>
    decreases s.len(),
{
    if s.len() == 0 {
        Seq::empty()
    } else {
        utf8_of_units(s.drop_last()) + utf8_of_unit(s.last())
    }
}

/// No UCS-2 code unit needs more than three UTF-8 bytes.
pub proof fn lemma_utf8_len_le(s: Seq<u16>)
    ensures
        utf8_of_units(s).len() <= 3 * s.len(),
    decreases s.len(),
{
    if s.len() > 0 {
        lemma_utf8_len_le(s.drop_last());
    }
}

/// A prefix never needs more UTF-8 bytes than the whole sequence.
pub proof fn lemma_utf8_prefix_le(s: Seq<u16>, j: int)
    requires
        0 <= j <= s.len(),
    ensures
        utf8_of_units(s.take(j)).len() <= utf8_of_units(s).len(),
    decreases s.len() - j,
{
    if j == s.len() {
        assert(s.take(j) =~= s);
    } else {
        assert(s.take(j + 1).drop_last() =~= s.take(j));
        assert(s.take(j + 1).last() == s[j]);
        lemma_utf8_prefix_le(s, j + 1);
    }
}

/// If the first `j` characters fit and the `j`-th does not (or the text
/// ends there), then `j` is exactly the encodable prefix length.
pub proof fn lemma_encodable_prefix_len(s: Seq<char>, j: int)
    requires
        0 <= j <= s.len(),
        forall|k: int| 0 <= k < j ==> fits_ucs2(#[trigger] s[k]),
        j == s.len() || !fits_ucs2(s[j]),
    ensures
        encodable_prefix_len(s) == j,
    decreases s.len(),
{
    if s.len() != 0 && j != 0 {
        assert(forall|k: int|
            0 <= k < j - 1 ==> fits_ucs2(#[trigger] s.drop_first()[k]) == fits_ucs2(s[k + 1]));
        lemma_encodable_prefix_len(s.drop_first(), j - 1);
    }
}

/// The encodable prefix is at least `j` when the first `j` characters fit.
pub proof fn lemma_encodable_prefix_at_least(s: Seq<char>, j: int)
    requires
        0 <= j <= s.len(),
        forall|k: int| 0 <= k < j ==> fits_ucs2(#[trigger] s[k]),
    ensures
        encodable_prefix_len(s) >= j,
    decreases s.len(),
{
    if s.len() != 0 && j != 0 {
        assert(forall|k: int|
            0 <= k < j - 1 ==> fits_ucs2(#[trigger] s.drop_first()[k]) == fits_ucs2(s[k + 1]));
        lemma_encodable_prefix_at_least(s.drop_first(), j - 1);
    }
}

/// The encodable prefix never exceeds the text itself.
pub proof fn lemma_encodable_prefix_le_len(s: Seq<char>)
    ensures
        encodable_prefix_len(s) <= s.len(),
    decreases s.len(),
{
    if s.len() != 0 && fits_ucs2(s[0]) {
        lemma_encodable_prefix_le_len(s.drop_first());
    }
}

/// A consumer of UCS-2 code units, fed by [`encode_fnc`].
///
/// `taken` is the sequence of units the sink has accepted so far. A sink
/// may refuse a unit with any error of its choosing; a conversion error
/// handed to it must be passed back unchanged or mapped, never swallowed.
pub trait Ucs2Sink {
    /// The units accepted so far.
    spec fn taken(&self) -> Seq<u16>;

    /// Offer one unit (or the error that ended the conversion) to the sink.
    fn accept(&mut self, unit: Result<u16, Error>) -> (r: Result<usize, Error>)
        ensures
            (unit matches Ok(u) ==> {
                &&& (r is Ok ==> final(self).taken() == old(self).taken().push(u))
                &&& (r is Err ==> final(self).taken() == old(self).taken())
            }),
            unit is Err ==> r is Err && final(self).taken() == old(self).taken(),
    ;
}

/// A sink that keeps every unit it is offered.
pub struct VecSink {
    /// The collected units.
    pub units: Vec<u16>,
}

impl VecSink {
    /// An empty sink.
    pub fn new() -> (r: VecSink)
        ensures
            r.units@ == Seq::<u16>::empty(),
    {
        VecSink { units: Vec::new() }
    }
}

impl Ucs2Sink for VecSink {
    open spec fn taken(&self) -> Seq<u16> {
        self.units@
    }

    fn accept(&mut self, unit: Result<u16, Error>) -> (r: Result<usize, Error>) {
        match unit {
            Ok(u) => {
                self.units.push(u);
                Ok(self.units.len())
            },
            Err(e) => Err(e),
        }
    }
}

/// Encode UTF-8 text to UCS-2, handing each code unit to a sink.
///
/// Units are offered left to right; success returns the number of UTF-8
/// bytes consumed, which is then the whole input. The first character
/// outside the basic multilingual plane is reported to the sink as
/// `Err(MultiByte)` and ends the conversion with the sink's response; a
/// sink refusal ends it likewise, with the refusal's error.
pub fn encode_fnc<F: Ucs2Sink>(input: &str, fnc: &mut F) -> (r: Result<usize, Error>)
    ensures
        ({
            let s = input@;
            let p = encodable_prefix_len(s) as int;
            &&& (r is Ok ==> p == s.len() && final(fnc).taken() == old(fnc).taken() + ucs2_of(s)
                && r->Ok_0 == input.len())
            &&& (p < s.len() ==> r is Err)
            &&& (r is Err ==> ({
                // Either a character outside the plane reached the sink
                // after the whole encodable prefix, or the sink refused a
                // unit somewhere inside that prefix; the sink's response
                // is what comes back, so a completed conversion is never
                // answered with an error.
                ||| (p < s.len() && final(fnc).taken() == old(fnc).taken() + ucs2_of(s.take(p)))
                ||| exists|k: int|
                    0 <= k < p && final(fnc).taken() == old(fnc).taken() + ucs2_of(
                        #[trigger] s.take(k),
                    )
            }))
        }),
{
    let ghost s = input@;
    let n = input.unicode_len();
    let mut i: usize = 0;
    while i < n
        invariant
            0 <= i <= n,
            n == s.len(),
            s == input@,
            forall|k: int| 0 <= k < i ==> fits_ucs2(#[trigger] s[k]),
            fnc.taken() == old(fnc).taken() + ucs2_of(s.take(i as int)),
        decreases n - i,
    {
        let c = input.get_char(i);
        let u = c as u32;
        if u >= 0x10000 {
            proof {
                lemma_encodable_prefix_len(s, i as int);
            }
            let res = fnc.accept(Err(Error::MultiByte));
            match res {
                Err(e) => {
                    return Err(e);
                },
                Ok(_) => {
                    proof {
                        assert(false);
                    }
                    return Err(Error::MultiByte);
                },
            }
        } else {
            let res = fnc.accept(Ok(u as u16));
            match res {
                Ok(_) => {
                    proof {
                        assert(ucs2_of(s.take(i + 1 as int))
                            =~= ucs2_of(s.take(i as int)).push(ucs2_unit(s[i as int])));
                    }
                    i = i + 1;
                },
                Err(e) => {
                    proof {
                        lemma_encodable_prefix_at_least(s, i + 1 as int);
                    }
                    return Err(e);
                },
            }
        }
    }
    proof {
        lemma_encodable_prefix_len(s, n as int);
        assert(s.take(n as int) =~= s);
    }
    Ok(input.len())
}

/// Encode UTF-8 text to UCS-2, overwriting the front of `buffer`.
///
/// On success the first `input` characters' worth of slots hold the code
/// units and the count is returned; the rest of the buffer is untouched.
/// `MultiByte` reports a character outside the basic multilingual plane,
/// `BufferOverFlow` a buffer with fewer slots than characters.
pub fn encode(input: &str, buffer: &mut Vec<u16>) -> (r: Result<usize, Error>)
    ensures
        ({
            let s = input@;
            let p = encodable_prefix_len(s) as int;
            let n = s.len() as int;
            let l = old(buffer)@.len() as int;
            let w = if p < l { p } else { l };
            &&& final(buffer)@.len() == old(buffer)@.len()
            &&& (r is Ok <==> p == n && n <= l)
            &&& (r is Ok ==> r->Ok_0 == n && final(buffer)@ == ucs2_of(s) + old(buffer)@.skip(n))
            &&& (r == Result::<usize, Error>::Err(Error::MultiByte) <==> p < n && p <= l)
            &&& (r == Result::<usize, Error>::Err(Error::BufferOverFlow) <==> l < p)
            &&& (r is Err ==> final(buffer)@ == ucs2_of(s.take(w)) + old(buffer)@.skip(w))
        }),
{
    let ghost s = input@;
    let n = input.unicode_len();
    let mut i: usize = 0;
    while i < n
        invariant
            0 <= i <= n,
            n == s.len(),
            s == input@,
            i <= buffer@.len(),
            buffer@.len() == old(buffer)@.len(),
            forall|k: int| 0 <= k < i ==> fits_ucs2(#[trigger] s[k]),
            buffer@ == ucs2_of(s.take(i as int)) + old(buffer)@.skip(i as int),
        decreases n - i,
    {
        let c = input.get_char(i);
        let u = c as u32;
        if u >= 0x10000 {
            proof {
                lemma_encodable_prefix_len(s, i as int);
            }
            return Err(Error::MultiByte);
        }
        if i >= buffer.len() {
            proof {
                lemma_encodable_prefix_at_least(s, i + 1 as int);
            }
            return Err(Error::BufferOverFlow);
        }
        buffer[i] = u as u16;
        proof {
            assert(buffer@ =~= ucs2_of(s.take(i + 1 as int)) + old(buffer)@.skip(i + 1 as int));
        }
        i = i + 1;
    }
    proof {
        lemma_encodable_prefix_len(s, n as int);
        assert(s.take(n as int) =~= s);
    }
    Ok(n)
}

/// Decode UCS-2 code units to UTF-8 bytes, overwriting the front of
/// `buffer`.
///
/// Succeeds exactly when the buffer can hold the whole conversion, and
/// then returns the byte count; otherwise reports `BufferOverFlow`. On
/// overflow the units converted before the one that did not fit stay
/// written at the front and the rest of the buffer is untouched.
pub fn decode(input: &[u16], buffer: &mut Vec<u8>) -> (r: Result<usize, Error>)
    ensures
        ({
            let total = utf8_of_units(input@);
            &&& final(buffer)@.len() == old(buffer)@.len()
            &&& (r is Ok <==> total.len() <= old(buffer)@.len())
            &&& (r is Ok ==> r->Ok_0 == total.len()
                && final(buffer)@ == total + old(buffer)@.skip(total.len() as int))
            &&& (r is Err ==> r->Err_0 == Error::BufferOverFlow)
            &&& (r is Err ==> exists|j: int|
                {
                    let done = utf8_of_units(#[trigger] input@.take(j));
                    &&& 0 <= j < input@.len()
                    &&& done.len() <= old(buffer)@.len()
                    &&& utf8_of_units(input@.take(j + 1)).len() > old(buffer)@.len()
                    &&& final(buffer)@ == done + old(buffer)@.skip(done.len() as int)
                })
        }),
{
    let mut index: usize = 0;
    let mut j: usize = 0;
    let n = input.len();
    while j < n
        invariant
            0 <= j <= n,
            n == input@.len(),
            index == utf8_of_units(input@.take(j as int)).len(),
            index <= buffer@.len(),
            buffer@.len() == old(buffer)@.len(),
            buffer@ == utf8_of_units(input@.take(j as int)) + old(buffer)@.skip(index as int),
        decreases n - j,
    {
        let ch = input[j];
        let room = buffer.len() - index;
        proof {
            assert(input@.take(j + 1 as int).drop_last() =~= input@.take(j as int));
            assert(input@.take(j + 1 as int).last() == input@[j as int]);
        }
        if ch < 0x80 {
            if room < 1 {
                proof {
                    lemma_utf8_prefix_le(input@, j + 1 as int);
                    assert(utf8_of_units(input@.take(j as int)).len() <= old(buffer)@.len());
                    assert(utf8_of_units(input@.take(j + 1 as int)).len() > old(buffer)@.len());
                }
                return Err(Error::BufferOverFlow);
            }
            buffer[index] = ch as u8;
            proof {
                assert(buffer@ =~= utf8_of_units(input@.take(j + 1 as int))
                    + old(buffer)@.skip(index + 1 as int));
            }
            index = index + 1;
        } else if ch < 0x800 {
            if room < 2 {
                proof {
                    lemma_utf8_prefix_le(input@, j + 1 as int);
                    assert(utf8_of_units(input@.take(j as int)).len() <= old(buffer)@.len());
                    assert(utf8_of_units(input@.take(j + 1 as int)).len() > old(buffer)@.len());
                }
                return Err(Error::BufferOverFlow);
            }
            buffer[index] = (0xC0 + ch / 0x40) as u8;
            buffer[index + 1] = (0x80 + ch % 0x40) as u8;
            proof {
                assert(buffer@ =~= utf8_of_units(input@.take(j + 1 as int))
                    + old(buffer)@.skip(index + 2 as int));
            }
            index = index + 2;
        } else {
            if room < 3 {
                proof {
                    lemma_utf8_prefix_le(input@, j + 1 as int);
                    assert(utf8_of_units(input@.take(j as int)).len() <= old(buffer)@.len());
                    assert(utf8_of_units(input@.take(j + 1 as int)).len() > old(buffer)@.len());
                }
                return Err(Error::BufferOverFlow);
            }
            buffer[index] = (0xE0 + ch / 0x1000) as u8;
            buffer[index + 1] = (0x80 + (ch / 0x40) % 0x40) as u8;
            buffer[index + 2] = (0x80 + ch % 0x40) as u8;
            proof {
                assert(buffer@ =~= utf8_of_units(input@.take(j + 1 as int))
                    + old(buffer)@.skip(index + 3 as int));
            }
            index = index + 3;
        }
        j = j + 1;
    }
    proof {
        assert(input@.take(n as int) =~= input@);
    }
    Ok(index)
}

} // verus!
