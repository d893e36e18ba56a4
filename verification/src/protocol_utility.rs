//! Value types for protocol resolution.
//!
//! Firmware identifies a protocol by a 128-bit identifier and a handle to
//! the component that installed it. Both are modelled here as plain
//! values: the identifier by its raw byte representation, the handle by
//! the integer value of the firmware pointer, never dereferenced, only
//! compared and carried. `EfiProtocolPtr` holds the non-null address of an
//! opened protocol interface.

use vstd::prelude::*;

use core::cmp::Ordering;

verus! {

/// A 128-bit firmware identifier, held in its raw byte representation:
/// the three leading fields little-endian, then the two clock bytes, then
/// the six node bytes.
#[derive(Debug, Clone, Copy, PartialEq, Eq)]
pub struct EfiGuid {
    /// The sixteen raw bytes.
    pub bytes: [u8; 16],
}

/// The byte representation an identifier built from its specification
/// fields takes.
pub open spec fn guid_field_bytes(
    time_low: u32,
    time_mid: u16,
    time_hi_and_version: u16,
    clk_seq_hi_res: u8,
    clk_seq_low: u8,
    node: Seq<u8>,
) -> Seq<u8> {
    seq![
        (time_low & 0xFF) as u8,
        ((time_low >> 8) & 0xFF) as u8,
        ((time_low >> 16) & 0xFF) as u8,
        ((time_low >> 24) & 0xFF) as u8,
        (time_mid & 0xFF) as u8,
        ((time_mid >> 8) & 0xFF) as u8,
        (time_hi_and_version & 0xFF) as u8,
        ((time_hi_and_version >> 8) & 0xFF) as u8,
        clk_seq_hi_res,
        clk_seq_low,
    ] + node
}

impl View for EfiGuid {
    type V = Seq<u8>;

    open spec fn view(&self) -> Seq<u8> {
        self.bytes@
    }
}

impl EfiGuid {
    /// An identifier from its raw bytes.
    pub fn new(bytes: [u8; 16]) -> (r: EfiGuid)
        ensures
            r@ == bytes@,
    {
        EfiGuid { bytes }
    }

    /// An identifier from its specification fields, laid out as the
    /// firmware ABI does: the integer fields little-endian, the node bytes
    /// as given.
    pub fn from_fields(
        time_low: u32,
        time_mid: u16,
        time_hi_and_version: u16,
        clk_seq_hi_res: u8,
        clk_seq_low: u8,
        node: &[u8; 6],
    ) -> (r: EfiGuid)
        ensures
            r@ == guid_field_bytes(
                time_low,
                time_mid,
                time_hi_and_version,
                clk_seq_hi_res,
                clk_seq_low,
                node@,
            ),
    {
        let bytes: [u8; 16] = [
            (time_low & 0xFF) as u8,
            ((time_low >> 8) & 0xFF) as u8,
            ((time_low >> 16) & 0xFF) as u8,
            ((time_low >> 24) & 0xFF) as u8,
            (time_mid & 0xFF) as u8,
            ((time_mid >> 8) & 0xFF) as u8,
            (time_hi_and_version & 0xFF) as u8,
            ((time_hi_and_version >> 8) & 0xFF) as u8,
            clk_seq_hi_res,
            clk_seq_low,
            node[0],
            node[1],
            node[2],
            node[3],
            node[4],
            node[5],
        ];
        let r = EfiGuid { bytes };
        proof {
            assert(r@ =~= guid_field_bytes(
                time_low,
                time_mid,
                time_hi_and_version,
                clk_seq_hi_res,
                clk_seq_low,
                node@,
            ));
        }
        r
    }

    /// An identifier from the first sixteen bytes of a slice.
    pub fn from_slice(s: &[u8]) -> (r: EfiGuid)
        requires
            s@.len() >= 16,
        ensures
            r@ == s@.take(16),
    {
        let bytes: [u8; 16] = [
            s[0],
            s[1],
            s[2],
            s[3],
            s[4],
            s[5],
            s[6],
            s[7],
            s[8],
            s[9],
            s[10],
            s[11],
            s[12],
            s[13],
            s[14],
            s[15],
        ];
        let r = EfiGuid { bytes };
        proof {
            assert(r@ =~= s@.take(16));
        }
        r
    }

    /// The raw bytes.
    pub fn as_bytes(&self) -> (r: &[u8; 16])
        ensures
            r@ == self@,
    {
        &self.bytes
    }
}

/// An opaque firmware-issued handle: the integer value of the pointer the
/// firmware handed out. It is never dereferenced here, only compared and
/// carried back.
#[derive(Debug, Clone, Copy, PartialEq, Eq, PartialOrd, Ord, Hash, Structural)]
pub struct EfiOpaqueHandle(pub usize);

impl EfiOpaqueHandle {
    /// Wrap a raw handle value.
    pub fn from_raw(raw: usize) -> (r: EfiOpaqueHandle)
        ensures
            r.0 == raw,
    {
        EfiOpaqueHandle(raw)
    }

    /// The raw handle value, for handing back to firmware.
    pub fn as_raw(&self) -> (r: usize)
        ensures
            r == self.0,
    {
        self.0
    }
}

/// A typed view of an opened protocol interface: the non-null address the
/// firmware returned. Dereferencing it is firmware-side work; this
/// library only guarantees it is never null.
#[derive(Debug, Clone, Copy, PartialEq, Eq, Structural)]
pub struct EfiProtocolPtr {
    addr: usize,
}

impl View for EfiProtocolPtr {
    type V = usize;

    closed spec fn view(&self) -> usize {
        self.addr
    }
}

impl EfiProtocolPtr {
    /// Wrap a raw interface address; a null address is refused.
    pub fn try_from(raw: usize) -> (r: Result<EfiProtocolPtr, RustProtocolError>)
        ensures
            raw != 0 ==> (r matches Ok(p) && p@ == raw),
            raw == 0 ==> r == Result::<EfiProtocolPtr, RustProtocolError>::Err(
                RustProtocolError::InvalidParameter,
            ),
    {
        if raw == 0 {
            Err(RustProtocolError::InvalidParameter)
        } else {
            Ok(EfiProtocolPtr { addr: raw })
        }
    }

    /// The wrapped address; never null.
    pub fn addr(&self) -> (r: usize)
        ensures
            r == self@,
    {
        self.addr
    }
}

/// Why a protocol operation failed.
#[derive(Debug, Clone, Copy, PartialEq, Eq, Structural)]
pub enum RustProtocolError {
    /// No instance exists for the identifier, or the handle does not
    /// expose it.
    NotFound,
    /// A buffer is smaller than the data it must hold or describe.
    BadBufferSize,
    /// A null firmware pointer was supplied.
    InvalidParameter,
    /// The cached cell was cleared; the consumer must treat the facade as
    /// end-of-life.
    Unregistered,
    /// An opaque lower-layer failure code, propagated verbatim.
    Underlying(usize),
}

/// The result type protocol operations use.
pub type RustProtocolResult<T> = Result<T, RustProtocolError>;

/// The key under which one protocol instance is cached: identifier bytes
/// first, handle second.
#[derive(Debug, Clone, Copy, PartialEq, Eq)]
pub struct ProtocolCacheKey {
    /// The protocol identifier.
    pub guid: EfiGuid,
    /// The firmware handle the instance lives on.
    pub handle: EfiOpaqueHandle,
}

/// Strict lexicographic order on byte sequences of equal length.
pub open spec fn bytes_lt(a: Seq<u8>, b: Seq<u8>) -> bool
    decreases a.len(),
{
    if a.len() == 0 || b.len() == 0 {
        false
    } else if a[0] != b[0] {
        a[0] < b[0]
    } else {
        bytes_lt(a.drop_first(), b.drop_first())
    }
}

/// Strict order on cache keys: identifier bytes first, handle second.
pub open spec fn key_lt(a: ProtocolCacheKey, b: ProtocolCacheKey) -> bool {
    bytes_lt(a.guid@, b.guid@) || (a.guid@ == b.guid@ && a.handle.0 < b.handle.0)
}

/// If the first difference between two equal-length byte sequences is at
/// position `i`, that position decides the order.
pub proof fn lemma_bytes_lt_diff(a: Seq<u8>, b: Seq<u8>, i: int)
    requires
        a.len() == b.len(),
        0 <= i < a.len(),
        forall|k: int| 0 <= k < i ==> a[k] == b[k],
        a[i] < b[i],
    ensures
        bytes_lt(a, b),
    decreases a.len(),
{
    if i > 0 {
        assert(forall|k: int| 0 <= k < i - 1 ==> a.drop_first()[k] == #[trigger] b.drop_first()[k]);
        assert(a.drop_first()[i - 1] == a[i] && b.drop_first()[i - 1] == b[i]);
        lemma_bytes_lt_diff(a.drop_first(), b.drop_first(), i - 1);
    }
}

/// No byte sequence is below itself.
pub proof fn lemma_bytes_lt_irrefl(a: Seq<u8>)
    ensures
        !bytes_lt(a, a),
    decreases a.len(),
{
    if a.len() > 0 {
        lemma_bytes_lt_irrefl(a.drop_first());
    }
}

/// The byte order runs one way only.
pub proof fn lemma_bytes_lt_asym(a: Seq<u8>, b: Seq<u8>)
    requires
        bytes_lt(a, b),
    ensures
        !bytes_lt(b, a),
    decreases a.len(),
{
    if a.len() > 0 && b.len() > 0 && a[0] == b[0] {
        lemma_bytes_lt_asym(a.drop_first(), b.drop_first());
    }
}

/// The byte order chains.
pub proof fn lemma_bytes_lt_trans(a: Seq<u8>, b: Seq<u8>, c: Seq<u8>)
    requires
        bytes_lt(a, b),
        bytes_lt(b, c),
    ensures
        bytes_lt(a, c),
    decreases a.len(),
{
    if a.len() > 0 && b.len() > 0 && c.len() > 0 && a[0] == b[0] && b[0] == c[0] {
        lemma_bytes_lt_trans(a.drop_first(), b.drop_first(), c.drop_first());
    }
}

/// The key order chains.
pub proof fn lemma_key_lt_trans(a: ProtocolCacheKey, b: ProtocolCacheKey, c: ProtocolCacheKey)
    requires
        key_lt(a, b),
        key_lt(b, c),
    ensures
        key_lt(a, c),
{
    if bytes_lt(a.guid@, b.guid@) && bytes_lt(b.guid@, c.guid@) {
        lemma_bytes_lt_trans(a.guid@, b.guid@, c.guid@);
    }
}

/// The key order runs one way only; in particular it never relates a key
/// to itself.
pub proof fn lemma_key_lt_asym(a: ProtocolCacheKey, b: ProtocolCacheKey)
    requires
        key_lt(a, b),
    ensures
        !key_lt(b, a),
{
    lemma_bytes_lt_irrefl(a.guid@);
    lemma_bytes_lt_irrefl(b.guid@);
    if bytes_lt(a.guid@, b.guid@) {
        lemma_bytes_lt_asym(a.guid@, b.guid@);
    }
}

impl ProtocolCacheKey {
    /// Compare two keys: identifier bytes lexicographically, then handle
    /// values.
    pub fn cmp_key(&self, other: &ProtocolCacheKey) -> (r: Ordering)
        ensures
            r == Ordering::Less <==> key_lt(*self, *other),
            r == Ordering::Greater <==> key_lt(*other, *self),
            r == Ordering::Equal <==> *self == *other,
    {
        let a = &self.guid.bytes;
        let b = &other.guid.bytes;
        let mut i: usize = 0;
        while i < 16
            invariant
                0 <= i <= 16,
                a@ == self.guid@,
                b@ == other.guid@,
                forall|k: int| 0 <= k < i ==> a@[k] == b@[k],
            decreases 16 - i,
        {
            if a[i] < b[i] {
                proof {
                    lemma_bytes_lt_diff(a@, b@, i as int);
                    lemma_bytes_lt_asym(a@, b@);
                }
                return Ordering::Less;
            }
            if a[i] > b[i] {
                proof {
                    lemma_bytes_lt_diff(b@, a@, i as int);
                    lemma_bytes_lt_asym(b@, a@);
                }
                return Ordering::Greater;
            }
            i = i + 1;
        }
        proof {
            assert(a@ =~= b@);
            lemma_bytes_lt_irrefl(a@);
            assert(self.guid.bytes =~= other.guid.bytes);
        }
        if self.handle.0 < other.handle.0 {
            Ordering::Less
        } else if self.handle.0 > other.handle.0 {
            Ordering::Greater
        } else {
            Ordering::Equal
        }
    }
}

impl PartialOrd for ProtocolCacheKey {
    fn partial_cmp(&self, other: &ProtocolCacheKey) -> (r: Option<Ordering>) {
        let c = self.cmp_key(other);
        proof {
            lemma_bytes_lt_irrefl(self.guid@);
            if key_lt(*self, *other) {
                lemma_key_lt_asym(*self, *other);
            }
            if key_lt(*other, *self) {
                lemma_key_lt_asym(*other, *self);
            }
        }
        Some(c)
    }
}

impl vstd::std_specs::cmp::PartialOrdSpecImpl for ProtocolCacheKey {
    open spec fn obeys_partial_cmp_spec() -> bool {
        true
    }

    open spec fn partial_cmp_spec(&self, other: &ProtocolCacheKey) -> Option<Ordering> {
        if key_lt(*self, *other) {
            Some(Ordering::Less)
        } else if key_lt(*other, *self) {
            Some(Ordering::Greater)
        } else {
            Some(Ordering::Equal)
        }
    }
}

} // verus!
