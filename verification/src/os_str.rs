//! A borrowed UCS-2 string.
//!
//! Firmware hands text over as slices of `u16` code units, sometimes
//! nul-terminated. `OsStr` is a typed view over such a slice; `OsString`
//! is its owned counterpart.

use vstd::prelude::*;

use crate::encoder::{decode, lemma_utf8_len_le, utf8_of_units, Error};
use crate::os_string::OsString;

verus! {

/// A borrowed UCS-2 string: a typed view over a slice of code units.
#[derive(Debug)]
pub struct OsStr<'a> {
    units: &'a [u16],
}

impl<'a> View for OsStr<'a> {
    type V = Seq<u16>;

    closed spec fn view(&self) -> Seq<u16> {
        self.units@
    }
}

/// How many code units come before the first nul, or all of them when no
/// nul occurs.
pub open spec fn nul_prefix_len(s: Seq<u16>) -> nat
    decreases s.len(),
{
    if s.len() == 0 {
        0
    } else if s[0] == 0 {
        0
    } else {
        1 + nul_prefix_len(s.drop_first())
    }
}

/// The code units spell exactly these characters, one unit per character.
pub open spec fn matches_str(units: Seq<u16>, s: Seq<char>) -> bool {
    units.len() == s.len() && forall|i: int|
        0 <= i < s.len() ==> #[trigger] units[i] as u32 == s[i] as u32
}

/// If the first `j` units are non-nul and the `j`-th is nul (or the slice
/// ends there), then `j` is exactly the nul prefix length.
pub proof fn lemma_nul_prefix_len(s: Seq<u16>, j: int)
    requires
        0 <= j <= s.len(),
        forall|k: int| 0 <= k < j ==> #[trigger] s[k] != 0,
        j == s.len() || s[j] == 0,
    ensures
        nul_prefix_len(s) == j,
    decreases s.len(),
{
    if s.len() != 0 && j != 0 {
        assert(forall|k: int| 0 <= k < j - 1 ==> #[trigger] s.drop_first()[k] == s[k + 1]);
        lemma_nul_prefix_len(s.drop_first(), j - 1);
    }
}

impl<'a> OsStr<'a> {
    /// View a slice of code units as a string.
    pub fn new(s: &'a [u16]) -> (r: OsStr<'a>)
        ensures
            r@ == s@,
    {
        OsStr { units: s }
    }

    /// View a slice of code units as a string, nothing dropped.
    pub fn from_u16_slice(s: &'a [u16]) -> (r: OsStr<'a>)
        ensures
            r@ == s@,
    {
        OsStr { units: s }
    }

    /// View the part of the slice before its first nul unit as a string.
    pub fn from_u16_slice_with_nul(s: &'a [u16]) -> (r: OsStr<'a>)
        ensures
            r@ == s@.take(nul_prefix_len(s@) as int),
    {
        let mut len: usize = 0;
        while len < s.len() && s[len] != 0
            invariant
                0 <= len <= s@.len(),
                forall|k: int| 0 <= k < len ==> #[trigger] s@[k] != 0,
            decreases s@.len() - len,
        {
            len = len + 1;
        }
        proof {
            lemma_nul_prefix_len(s@, len as int);
        }
        OsStr { units: &s[0..len] }
    }

    /// The underlying code units.
    pub fn as_u16_slice(&self) -> (r: &'a [u16])
        ensures
            r@ == self@,
    {
        self.units
    }

    /// Copy into an owned string.
    pub fn to_os_string(&self) -> (r: OsString)
        ensures
            r@ == self@,
    {
        let mut s = OsString::new();
        s.push(self);
        s
    }

    /// The number of code units.
    pub fn len(&self) -> (r: usize)
        ensures
            r == self@.len(),
    {
        self.units.len()
    }

    /// Whether there are no code units at all.
    pub fn is_empty(&self) -> (r: bool)
        ensures
            r == (self@.len() == 0),
    {
        self.units.len() == 0
    }

    /// Iterate over the code units.
    pub fn iter(&self) -> (r: core::slice::Iter<'a, u16>)
        ensures
            vstd::std_specs::slice::into_iter_elts(r) == self@,
    {
        let it = self.units.iter();
        proof {
            broadcast use vstd::std_specs::slice::axiom_spec_slice_iter;

            assert(vstd::std_specs::slice::into_iter_elts(it) =~= self.units@);
        }
        it
    }

    /// The UTF-8 bytes this string decodes to; fails only when the text
    /// is too large for a byte count to address.
    pub fn to_utf8(&self) -> (r: Result<Vec<u8>, Error>)
        ensures
            self@.len() <= usize::MAX / 3 ==> (r matches Ok(b) && b@ == utf8_of_units(self@)),
            r is Err ==> r == Result::<Vec<u8>, Error>::Err(Error::BufferOverFlow),
    {
        if self.units.len() > usize::MAX / 3 {
            return Err(Error::BufferOverFlow);
        }
        let mut buffer = vec![0u8; 3 * self.units.len()];
        proof {
            lemma_utf8_len_le(self@);
        }
        match decode(self.units, &mut buffer) {
            Ok(n) => {
                buffer.truncate(n);
                proof {
                    assert(buffer@ =~= utf8_of_units(self@));
                }
                Ok(buffer)
            },
            Err(e) => {
                proof {
                    assert(false);
                }
                Err(e)
            },
        }
    }

    /// Whether this string spells the same characters as `other`, one code
    /// unit per character.
    pub fn eq_str(&self, other: &str) -> (r: bool)
        ensures
            r == matches_str(self@, other@),
    {
        let n = other.unicode_len();
        if self.units.len() != n {
            return false;
        }
        let mut i: usize = 0;
        while i < n
            invariant
                0 <= i <= n,
                n == other@.len(),
                self@.len() == n,
                forall|k: int| 0 <= k < i ==> #[trigger] self@[k] as u32 == other@[k] as u32,
            decreases n - i,
        {
            let c = other.get_char(i);
            if (self.units[i] as u32) != (c as u32) {
                return false;
            }
            i = i + 1;
        }
        true
    }
}

impl<'a> PartialEq for OsStr<'a> {
    fn eq(&self, other: &OsStr<'a>) -> (r: bool) {
        let a = self.units;
        let b = other.units;
        if a.len() != b.len() {
            return false;
        }
        let mut i: usize = 0;
        while i < a.len()
            invariant
                0 <= i <= a@.len(),
                a@.len() == b@.len(),
                a@ == self@,
                b@ == other@,
                forall|k: int| 0 <= k < i ==> #[trigger] a@[k] == b@[k],
            decreases a@.len() - i,
        {
            if a[i] != b[i] {
                return false;
            }
            i = i + 1;
        }
        proof {
            assert(a@ =~= b@);
        }
        true
    }
}

impl<'a> Eq for OsStr<'a> {}

impl<'a> vstd::std_specs::cmp::PartialEqSpecImpl for OsStr<'a> {
    open spec fn obeys_eq_spec() -> bool {
        true
    }

    open spec fn eq_spec(&self, other: &OsStr<'a>) -> bool {
        self@ == other@
    }
}

} // verus!
