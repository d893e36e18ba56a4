//! Secure-boot signature lists, parsed from their byte layout.
//!
//! A signature list starts with a sixteen-byte type identifier and three
//! little-endian sizes: the whole list, an optional header, and the size
//! each signature element takes. Elements follow the header back to
//! back, each one a sixteen-byte owner identifier plus signature data.

use vstd::prelude::*;

use vstd::arithmetic::div_mod::lemma_fundamental_div_mod;
use vstd::arithmetic::mul::lemma_mul_inequality;

use crate::protocol_utility::{guid_field_bytes, EfiGuid, RustProtocolError};

verus! {

/// The identifier marking a list of X.509 certificates.
pub fn efi_cert_x509_guid() -> (r: EfiGuid)
    ensures
        r@ == guid_field_bytes(
            0xa5c059a1,
            0x94e4,
            0x4aa7,
            0x87,
            0xb5,
            seq![0xabu8, 0x15, 0x5c, 0x2b, 0xf0, 0x72],
        ),
{
    let node: [u8; 6] = [0xab, 0x15, 0x5c, 0x2b, 0xf0, 0x72];
    let r = EfiGuid::from_fields(0xa5c059a1, 0x94e4, 0x4aa7, 0x87, 0xb5, &node);
    proof {
        assert(node@ =~= seq![0xabu8, 0x15, 0x5c, 0x2b, 0xf0, 0x72]);
    }
    r
}

/// The identifier marking a list of SHA-256 digests.
pub fn efi_cert_sha256_guid() -> (r: EfiGuid)
    ensures
        r@ == guid_field_bytes(
            0xc1c41626,
            0x504c,
            0x4092,
            0xac,
            0xa9,
            seq![0x41u8, 0xf9, 0x36, 0x93, 0x43, 0x28],
        ),
{
    let node: [u8; 6] = [0x41, 0xf9, 0x36, 0x93, 0x43, 0x28];
    let r = EfiGuid::from_fields(0xc1c41626, 0x504c, 0x4092, 0xac, 0xa9, &node);
    proof {
        assert(node@ =~= seq![0x41u8, 0xf9, 0x36, 0x93, 0x43, 0x28]);
    }
    r
}

/// The bytes the list header takes before any signature element: the
/// type identifier and the three sizes.
pub const RAW_EFI_SIGNATURE_LIST_SIZE: usize = 28;

/// The little-endian thirty-two-bit value at an offset.
pub open spec fn le32_at(b: Seq<u8>, off: int) -> u32 {
    (b[off] as u32) | ((b[off + 1] as u32) << 8) | ((b[off + 2] as u32) << 16) | ((b[off + 3]
        as u32) << 24)
}

/// The declared size of the whole list.
pub open spec fn sl_list_size(b: Seq<u8>) -> u32 {
    le32_at(b, 16)
}

/// The declared size of the optional header.
pub open spec fn sl_header_size(b: Seq<u8>) -> u32 {
    le32_at(b, 20)
}

/// The declared size of each signature element.
pub open spec fn sl_sig_size(b: Seq<u8>) -> u32 {
    le32_at(b, 24)
}

/// A structurally sound list: the fixed header fits, the declared sizes
/// fit inside the declared list size, the element size is positive and
/// divides the space left for elements, and the whole declared list lies
/// within the buffer.
pub open spec fn sl_well_formed(b: Seq<u8>) -> bool {
    &&& b.len() >= 28
    &&& 28 + sl_header_size(b) + sl_sig_size(b) <= sl_list_size(b)
    &&& sl_sig_size(b) > 0
    &&& (sl_list_size(b) - 28 - sl_header_size(b)) % (sl_sig_size(b) as int) == 0
    &&& sl_list_size(b) <= b.len()
}

/// How many signature elements the list declares.
pub open spec fn sl_count(b: Seq<u8>) -> int {
    (sl_list_size(b) - 28 - sl_header_size(b)) / (sl_sig_size(b) as int)
}

/// Where the element at an index starts.
pub open spec fn sl_elem_start(b: Seq<u8>, e: int) -> int {
    28 + sl_header_size(b) + e * (sl_sig_size(b) as int)
}

/// Whether every declared element is large enough to hold its owner
/// identifier.
pub open spec fn sl_elems_ok(b: Seq<u8>) -> bool {
    sl_count(b) == 0 || sl_sig_size(b) >= 16
}

fn read_u32_le(s: &[u8], off: usize) -> (r: u32)
    requires
        off + 4 <= s@.len(),
    ensures
        r == le32_at(s@, off as int),
{
    (s[off] as u32) | ((s[off + 1] as u32) << 8) | ((s[off + 2] as u32) << 16) | ((s[off + 3]
        as u32) << 24)
}

/// One signature element: the identifier of the signature's owner and
/// the signature bytes themselves.
#[derive(Debug, Clone)]
pub struct SignatureListElement {
    /// Who owns the signature.
    pub owner: EfiGuid,
    /// The signature bytes.
    pub data: Vec<u8>,
}

impl SignatureListElement {
    /// Parse one element: sixteen bytes of owner identifier, the rest
    /// signature data. A shorter buffer is refused.
    pub fn from_bytes(buffer: &[u8]) -> (r: Result<SignatureListElement, RustProtocolError>)
        ensures
            r is Ok <==> buffer@.len() >= 16,
            r is Err ==> r == Result::<SignatureListElement, RustProtocolError>::Err(
                RustProtocolError::BadBufferSize,
            ),
            r matches Ok(el) ==> el.owner@ == buffer@.take(16) && el.data@ == buffer@.skip(16),
    {
        if buffer.len() < 16 {
            return Err(RustProtocolError::BadBufferSize);
        }
        let owner = EfiGuid::from_slice(buffer);
        let data = vstd::slice::slice_to_vec(&buffer[16..buffer.len()]);
        proof {
            assert(data@ =~= buffer@.skip(16));
        }
        Ok(SignatureListElement { owner, data })
    }
}

/// One parsed signature list.
#[derive(Debug, Clone)]
pub struct SignatureList {
    /// What kind of signatures the list holds.
    pub list_type: EfiGuid,
    /// The optional list header, verbatim.
    pub header: Option<Vec<u8>>,
    /// The signature elements, in order.
    pub elements: Vec<SignatureListElement>,
}

impl SignatureList {
    /// Parse a signature list from its byte layout.
    ///
    /// A buffer too short for the fixed header is refused as
    /// `InvalidParameter`; inconsistent declared sizes — including a zero
    /// element size, which the layout cannot mean — or elements too small
    /// for an owner identifier are refused as `BadBufferSize`. On success
    /// every field is exactly the slice of the buffer the layout assigns
    /// it.
    pub fn from_bytes(buffer: &[u8]) -> (r: Result<SignatureList, RustProtocolError>)
        ensures
            r is Ok <==> sl_well_formed(buffer@) && sl_elems_ok(buffer@),
            buffer@.len() < 28 ==> r == Result::<SignatureList, RustProtocolError>::Err(
                RustProtocolError::InvalidParameter,
            ),
            (buffer@.len() >= 28 && !(sl_well_formed(buffer@) && sl_elems_ok(buffer@))) ==> r
                == Result::<SignatureList, RustProtocolError>::Err(
                RustProtocolError::BadBufferSize,
            ),
            r matches Ok(sl) ==> ({
                let b = buffer@;
                let h = sl_header_size(b) as int;
                let s = sl_sig_size(b) as int;
                &&& sl.list_type@ == b.take(16)
                &&& (h == 0 ==> sl.header is None)
                &&& (h > 0 ==> (sl.header matches Some(hd) && hd@ == b.subrange(28, 28 + h)))
                &&& sl.elements@.len() == sl_count(b)
                &&& forall|e: int|
                    0 <= e < sl_count(b) ==> {
                        let start = sl_elem_start(b, e);
                        &&& (#[trigger] sl.elements@[e]).owner@ == b.subrange(start, start + 16)
                        &&& sl.elements@[e].data@ == b.subrange(start + 16, start + s)
                    }
            }),
    {
        if buffer.len() < RAW_EFI_SIGNATURE_LIST_SIZE {
            return Err(RustProtocolError::InvalidParameter);
        }
        let total_size = read_u32_le(buffer, 16);
        let header_size = read_u32_le(buffer, 20);
        let signature_size = read_u32_le(buffer, 24);

        if signature_size == 0 {
            return Err(RustProtocolError::BadBufferSize);
        }
        if 28u64 + (header_size as u64) + (signature_size as u64) > (total_size as u64) {
            return Err(RustProtocolError::BadBufferSize);
        }
        let total: usize = total_size as usize;
        let header: usize = header_size as usize;
        let sig: usize = signature_size as usize;
        if (total - 28 - header) % sig != 0 {
            return Err(RustProtocolError::BadBufferSize);
        }
        if total > buffer.len() {
            return Err(RustProtocolError::BadBufferSize);
        }

        let list_type = EfiGuid::from_slice(buffer);
        let list_header: Option<Vec<u8>> = if header == 0 {
            None
        } else {
            Some(vstd::slice::slice_to_vec(&buffer[28..28 + header]))
        };

        let elements_start: usize = 28 + header;
        let elements_size: usize = total - elements_start;
        let count: usize = elements_size / sig;
        proof {
            lemma_fundamental_div_mod(elements_size as int, sig as int);
            assert(count == sl_count(buffer@));
        }

        let mut elements: Vec<SignatureListElement> = Vec::new();
        let mut e: usize = 0;
        while e < count
            invariant
                0 <= e <= count,
                sl_well_formed(buffer@),
                buffer@.len() >= total,
                total == sl_list_size(buffer@),
                header == sl_header_size(buffer@),
                sig == sl_sig_size(buffer@),
                sig >= 1,
                elements_start == 28 + header,
                elements_size == total - elements_start,
                count == sl_count(buffer@),
                elements_size == count * sig,
                elements@.len() == e,
                e > 0 ==> sig >= 16,
                forall|j: int|
                    0 <= j < e ==> {
                        let start = sl_elem_start(buffer@, j);
                        &&& (#[trigger] elements@[j]).owner@ == buffer@.subrange(start, start + 16)
                        &&& elements@[j].data@ == buffer@.subrange(
                            start + 16,
                            start + sig as int,
                        )
                    },
            decreases count - e,
        {
            proof {
                lemma_mul_inequality(e as int + 1, count as int, sig as int);
                assert((e as int + 1) * (sig as int) == e as int * (sig as int) + (sig as int))
                    by (nonlinear_arith);
            }
            let start = elements_start + e * sig;
            let elem_slice = &buffer[start..start + sig];
            match SignatureListElement::from_bytes(elem_slice) {
                Ok(el) => {
                    proof {
                        let bstart = sl_elem_start(buffer@, e as int);
                        assert(elem_slice@.take(16) =~= buffer@.subrange(bstart, bstart + 16));
                        assert(elem_slice@.skip(16) =~= buffer@.subrange(
                            bstart + 16,
                            bstart + sig as int,
                        ));
                    }
                    elements.push(el);
                },
                Err(er) => {
                    return Err(er);
                },
            }
            e = e + 1;
        }

        proof {
            assert(list_type@ =~= buffer@.take(16));
        }
        Ok(SignatureList { list_type, header: list_header, elements })
    }
}

/// A whole signature database: the lists of one variable, in order.
#[derive(Debug, Clone)]
pub struct SignatureDatabase {
    /// The parsed lists.
    pub entries: Vec<SignatureList>,
}

} // verus!
