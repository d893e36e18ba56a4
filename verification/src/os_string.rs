//! An owned UCS-2 string.

use vstd::prelude::*;

use crate::encoder::{encodable_prefix_len, fits_ucs2, lemma_encodable_prefix_len, ucs2_of};
use crate::os_str::OsStr;

verus! {

/// An owned UCS-2 string: a growable vector of code units.
pub struct OsString {
    units: Vec<u16>,
}

impl View for OsString {
    type V = Seq<u16>;

    closed spec fn view(&self) -> Seq<u16> {
        self.units@
    }
}

impl OsString {
    /// An empty string.
    pub fn new() -> (r: OsString)
        ensures
            r@ == Seq::<u16>::empty(),
    {
        OsString { units: Vec::new() }
    }

    /// Append the code units of a borrowed string.
    pub fn push(&mut self, s: &OsStr<'_>)
        ensures
            final(self)@ == old(self)@ + s@,
    {
        let sl = s.as_u16_slice();
        let n = sl.len();
        let mut j: usize = 0;
        while j < n
            invariant
                0 <= j <= n,
                n == sl@.len(),
                sl@ == s@,
                self@ == old(self)@ + sl@.take(j as int),
            decreases n - j,
        {
            self.units.push(sl[j]);
            proof {
                assert(old(self)@ + sl@.take(j + 1 as int)
                    =~= (old(self)@ + sl@.take(j as int)).push(sl@[j as int]));
            }
            j = j + 1;
        }
        proof {
            assert(sl@.take(n as int) =~= sl@);
        }
    }

    /// Borrow as an `OsStr`.
    pub fn as_os_str(&self) -> (r: OsStr<'_>)
        ensures
            r@ == self@,
    {
        OsStr::from_u16_slice(self.units.as_slice())
    }

    /// The underlying code units.
    pub fn as_u16_slice(&self) -> (r: &[u16])
        ensures
            r@ == self@,
    {
        self.units.as_slice()
    }

    /// The number of code units.
    pub fn len(&self) -> (r: usize)
        ensures
            r == self@.len(),
    {
        self.units.len()
    }
}

impl Default for OsString {
    /// An empty string.
    fn default() -> (r: OsString)
        ensures
            r@ == Seq::<u16>::empty(),
    {
        OsString::new()
    }
}

impl OsString {
    /// Encode as much of the text as UCS-2 can hold, then terminate with a
    /// nul unit. A character outside the basic multilingual plane ends the
    /// conversion early, exactly as feeding the encoder a collecting sink
    /// would.
    pub fn from_str(s: &str) -> (r: OsString)
        ensures
            r@ == ucs2_of(s@.take(encodable_prefix_len(s@) as int)).push(0u16),
    {
        let ghost cs = s@;
        let n = s.unicode_len();
        let mut units: Vec<u16> = Vec::new();
        let mut i: usize = 0;
        let mut stopped = false;
        while i < n && !stopped
            invariant
                0 <= i <= n,
                n == cs.len(),
                cs == s@,
                !stopped ==> forall|k: int| 0 <= k < i ==> fits_ucs2(#[trigger] cs[k]),
                stopped ==> i < n && !fits_ucs2(cs[i as int]) && forall|k: int|
                    0 <= k < i ==> fits_ucs2(#[trigger] cs[k]),
                units@ == ucs2_of(cs.take(i as int)),
            decreases n - i + (if stopped { 0int } else { 1int }),
        {
            let c = s.get_char(i);
            let u = c as u32;
            if u >= 0x10000 {
                stopped = true;
            } else {
                units.push(u as u16);
                proof {
                    assert(ucs2_of(cs.take(i + 1 as int))
                        =~= ucs2_of(cs.take(i as int)).push((cs[i as int] as u32) as u16));
                }
                i = i + 1;
            }
        }
        proof {
            if stopped {
                lemma_encodable_prefix_len(cs, i as int);
            } else {
                lemma_encodable_prefix_len(cs, n as int);
            }
        }
        units.push(0u16);
        OsString { units }
    }
}

} // verus!
