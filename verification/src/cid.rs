//! Content-identifier codec.
//!
//! An encrypted CID is an opaque string: one leading scheme character,
//! then the URL-safe unpadded base64 text of a binary payload laid out as
//!
//! ```text
//! [0]       type-is-encrypted marker        (1 byte)
//! [1]       encryption algorithm identifier (1 byte)
//! [2]       chunk-size-as-power-of-two      (1 byte)
//! [3..36)   encrypted blob hash             (33 bytes)
//! [36..68)  symmetric key                   (32 bytes)
//! ```
//!
//! The extractors strip the text down to that payload, decode it, slice the
//! field out and re-encode it; they return `None` when the decode fails or
//! the payload is shorter than 68 bytes. The encoder in the other direction
//! builds a plain CID from a hash and a file size, the size appended
//! little-endian with trailing zero bytes stripped.

use vstd::prelude::*;

use crate::b64::{
    b64_val_of, base64url_of, base64url_to_bytes, bytes_of_base64url, bytes_to_base64url,
    is_base64url, lemma_base64url_round_trip,
};
use crate::strutil::{find_last_char, last_index_of, lemma_last_index_of};

verus! {

/// Offset of the encrypted blob hash in a decoded payload.
pub const BLOB_HASH_OFFSET: usize = 3;

/// Length of the encrypted blob hash field.
pub const BLOB_HASH_LEN: usize = 33;

/// Offset of the symmetric key in a decoded payload.
pub const KEY_OFFSET: usize = 36;

/// Length of the symmetric key field.
pub const KEY_LEN: usize = 32;

/// `s` without its trailing extension: everything from the last `.` on is
/// dropped; a string without a `.` stays whole.
pub open spec fn strip_extension(s: Seq<char>) -> Seq<char> {
    if last_index_of(s, '.') == -1 {
        s
    } else {
        s.take(last_index_of(s, '.'))
    }
}

/// The payload field at `[lo, hi)` of a CID text `s`, re-encoded: `s` minus
/// its leading scheme character is decoded and the byte range re-encoded.
/// `None` when `s` is empty, the decode fails, or the payload is shorter
/// than `need` bytes.
pub open spec fn cid_field(s: Seq<char>, lo: int, hi: int, need: int) -> Option<Seq<char>> {
    if s.len() < 1 {
        None
    } else if !is_base64url(s.skip(1)) {
        None
    } else {
        let payload = bytes_of_base64url(s.skip(1));
        if payload.len() < need {
            None
        } else {
            Some(base64url_of(payload.subrange(lo, hi)))
        }
    }
}

/// The re-encoded symmetric key of an encrypted CID text, its trailing
/// extension stripped first.
pub open spec fn key_of_encrypted_cid(s: Seq<char>) -> Option<Seq<char>> {
    cid_field(strip_extension(s), 36, 68, 68)
}

/// The re-encoded blob hash of an encrypted CID text.
pub open spec fn blob_hash_of_encrypted_cid(s: Seq<char>) -> Option<Seq<char>> {
    cid_field(s, 3, 36, 68)
}

/// Slices the byte range `[lo, hi)` out of `payload` and re-encodes it.
fn reencode_range(payload: &Vec<u8>, lo: usize, hi: usize) -> (r: String)
    requires
        lo <= hi <= payload@.len(),
    ensures
        r@ == base64url_of(payload@.subrange(lo as int, hi as int)),
{
    let mut field: Vec<u8> = Vec::new();
    let mut j: usize = lo;
    while j < hi
        invariant
            lo <= j <= hi <= payload@.len(),
            field@ == payload@.subrange(lo as int, j as int),
        decreases hi - j,
    {
        field.push(payload[j]);
        proof {
            assert(field@ =~= payload@.subrange(lo as int, j + 1));
        }
        j = j + 1;
    }
    bytes_to_base64url(field.as_slice())
}

/// Extracts the symmetric key of an encrypted CID: any trailing extension
/// and the leading scheme character are stripped, the rest is decoded from
/// URL-safe base64, and bytes `[36, 68)` are re-encoded. Returns `None`
/// when the decode fails or the payload is shorter than 68 bytes.
pub fn get_key_from_encrypted_cid(encrypted_cid: &str) -> (r: Option<String>)
    ensures
        match r {
            Some(k) => key_of_encrypted_cid(encrypted_cid@) == Some(k@),
            None => key_of_encrypted_cid(encrypted_cid@) is None,
        },
{
    let dot = find_last_char(encrypted_cid, '.');
    proof {
        lemma_last_index_of(encrypted_cid@, '.');
    }
    let cid_without_extension = match dot {
        Some(i) => encrypted_cid.substring_char(0, i),
        None => encrypted_cid,
    };
    proof {
        if dot is None {
            assert(strip_extension(encrypted_cid@) == encrypted_cid@);
        }
    }
    extract_field(cid_without_extension, 36, 68)
}

/// Extracts the encrypted blob hash of an encrypted CID: the leading scheme
/// character is stripped, the rest is decoded from URL-safe base64, and
/// bytes `[3, 36)` are re-encoded. Returns `None` when the decode fails or
/// the payload is shorter than 68 bytes. The result keys location lookups
/// against the storage network's metadata interface.
pub fn get_base64_url_encrypted_blob_hash(encrypted_cid: &str) -> (r: Option<String>)
    ensures
        match r {
            Some(h) => blob_hash_of_encrypted_cid(encrypted_cid@) == Some(h@),
            None => blob_hash_of_encrypted_cid(encrypted_cid@) is None,
        },
{
    extract_field(encrypted_cid, 3, 36)
}

/// Law: the extractors recover exactly the key and hash fields of any
/// encoded payload of 68 bytes or more. A CID built as one scheme
/// character (any but `.`) followed by the URL-safe base64 text of the
/// payload yields the re-encoded bytes `[36, 68)` as its key and `[3, 36)`
/// as its blob hash.
pub proof fn lemma_cid_extractors_invert_encoding(payload: Seq<u8>, scheme: char)
    requires
        payload.len() >= 68,
        scheme != '.',
    ensures
        key_of_encrypted_cid(seq![scheme] + base64url_of(payload)) == Some(
            base64url_of(payload.subrange(36, 68)),
        ),
        blob_hash_of_encrypted_cid(seq![scheme] + base64url_of(payload)) == Some(
            base64url_of(payload.subrange(3, 36)),
        ),
{
    let text = base64url_of(payload);
    let cid = seq![scheme] + text;
    lemma_base64url_round_trip(payload);
    assert forall|j: int| 0 <= j < cid.len() implies cid[j] != '.' by {
        if j > 0 {
            assert(cid[j] == text[j - 1]);
            assert(b64_val_of(text[j - 1]) < 64);
            assert(b64_val_of('.') == 255);
        }
    }
    lemma_last_index_of(cid, '.');
    assert(last_index_of(cid, '.') == -1);
    assert(strip_extension(cid) == cid);
    assert(cid.skip(1) =~= text);
}

/// The little-endian bytes of `size` with trailing zero bytes stripped:
/// the minimal-length little-endian encoding. Size 0 encodes as no bytes
/// at all.
pub open spec fn le_size_bytes(size: nat) -> Seq<u8>
    decreases size,
{
    if size == 0 {
        Seq::empty()
    } else {
        seq![(size % 256) as u8] + le_size_bytes(size / 256)
    }
}

/// The value a little-endian byte string denotes.
pub open spec fn le_value(s: Seq<u8>) -> nat
    decreases s.len(),
{
    if s.len() == 0 {
        0
    } else {
        (s[0] + 256 * le_value(s.skip(1))) as nat
    }
}

/// The number of bytes needed to hold a value: at least one, and one more
/// for each further power of 256.
pub open spec fn byte_len(v: nat) -> nat
    decreases v,
{
    if v < 256 {
        1
    } else {
        1 + byte_len(v / 256)
    }
}

/// Law: the size encoding is minimal and faithful. It spends exactly
/// `byte_len` bytes on a nonzero size and none on zero, never ends in a
/// zero byte, and decodes back to the size it encodes.
pub proof fn lemma_le_size_bytes_minimal(size: nat)
    ensures
        size == 0 ==> le_size_bytes(size).len() == 0,
        size > 0 ==> le_size_bytes(size).len() == byte_len(size),
        size > 0 ==> le_size_bytes(size).last() != 0,
        le_value(le_size_bytes(size)) == size,
    decreases size,
{
    if size > 0 {
        lemma_le_size_bytes_minimal(size / 256);
        let s = le_size_bytes(size);
        if size / 256 == 0 {
            assert(s =~= seq![(size % 256) as u8]);
        } else {
            assert(s.last() == le_size_bytes(size / 256).last());
        }
        assert(s.skip(1) =~= le_size_bytes(size / 256));
    }
}

/// Builds a plain CID from a blob hash and a file size: the two fixed
/// marker bytes 0x26 and 0x1f, then the hash, then the size little-endian
/// with trailing zero bytes stripped.
pub fn hash_bytes_to_cid(hash: Vec<u8>, file_size: u64) -> (r: Vec<u8>)
    ensures
        r@ == seq![0x26u8, 0x1fu8] + hash@ + le_size_bytes(file_size as nat),
{
    let mut out: Vec<u8> = Vec::new();
    out.push(0x26);
    out.push(0x1f);
    let mut j: usize = 0;
    while j < hash.len()
        invariant
            j <= hash@.len(),
            out@ == seq![0x26u8, 0x1fu8] + hash@.take(j as int),
        decreases hash@.len() - j,
    {
        out.push(hash[j]);
        proof {
            assert(out@ =~= seq![0x26u8, 0x1fu8] + hash@.take(j + 1));
        }
        j = j + 1;
    }
    proof {
        assert(hash@.take(hash@.len() as int) =~= hash@);
    }
    let mut size = file_size;
    let ghost base = out@;
    let ghost mut pushed: Seq<u8> = Seq::empty();
    proof {
        assert(base + pushed =~= out@);
        assert(pushed + le_size_bytes(size as nat) =~= le_size_bytes(file_size as nat));
    }
    while size > 0
        invariant
            out@ == base + pushed,
            pushed + le_size_bytes(size as nat) == le_size_bytes(file_size as nat),
        decreases size,
    {
        out.push((size % 256) as u8);
        proof {
            let old_pushed = pushed;
            pushed = pushed.push((size % 256) as u8);
            assert(pushed =~= old_pushed + seq![(size % 256) as u8]);
            assert(le_size_bytes(size as nat) == seq![(size % 256) as u8] + le_size_bytes(
                (size as nat) / 256,
            ));
            assert(pushed + le_size_bytes((size as nat) / 256) =~= old_pushed + le_size_bytes(
                size as nat,
            ));
            assert((size / 256) as nat == (size as nat) / 256);
        }
        size = size / 256;
    }
    proof {
        assert(le_size_bytes(0) =~= Seq::<u8>::empty());
        assert(pushed =~= pushed + le_size_bytes(0));
        assert(out@ =~= seq![0x26u8, 0x1fu8] + hash@ + le_size_bytes(file_size as nat));
    }
    out
}

/// A 32-bit value needs between one and four bytes.
proof fn lemma_byte_len_u32(v: nat)
    requires
        v < 0x100000000,
    ensures
        1 <= byte_len(v) <= 4,
{
    if v >= 256 {
        let v1 = v / 256;
        assert(byte_len(v) == 1 + byte_len(v1));
        if v1 >= 256 {
            let v2 = v1 / 256;
            assert(byte_len(v1) == 1 + byte_len(v2));
            if v2 >= 256 {
                let v3 = v2 / 256;
                assert(byte_len(v2) == 1 + byte_len(v3));
                assert(v3 < 256);
            }
        }
    }
}

/// The number of bytes needed to hold `value`: at least one, and one more
/// for each further factor of 256.
pub fn number_of_bytes(value: u32) -> (r: usize)
    ensures
        r == byte_len(value as nat),
{
    let mut value = value;
    let mut bytes: usize = 1;
    let ghost orig = value;
    proof {
        lemma_byte_len_u32(orig as nat);
    }
    while value >= 256
        invariant
            1 <= bytes <= 4,
            bytes + byte_len(value as nat) == 1 + byte_len(orig as nat),
            byte_len(orig as nat) <= 4,
        decreases value,
    {
        proof {
            assert(byte_len(value as nat) == 1 + byte_len((value as nat) / 256));
            assert((value / 256) as nat == (value as nat) / 256);
        }
        value = value / 256;
        bytes = bytes + 1;
    }
    bytes
}

/// Strips the scheme character of `cid`, decodes the rest and re-encodes
/// the payload bytes at `[lo, hi)`.
fn extract_field(cid: &str, lo: usize, hi: usize) -> (r: Option<String>)
    requires
        lo <= hi <= 68,
    ensures
        match r {
            Some(k) => cid_field(cid@, lo as int, hi as int, 68) == Some(k@),
            None => cid_field(cid@, lo as int, hi as int, 68) is None,
        },
{
    let n = cid.unicode_len();
    if n < 1 {
        return None;
    }
    let body = cid.substring_char(1, n);
    proof {
        assert(body@ =~= cid@.skip(1));
    }
    let payload = match base64url_to_bytes(body) {
        Some(p) => p,
        None => {
            return None;
        },
    };
    if payload.len() < 68 {
        return None;
    }
    Some(reencode_range(&payload, lo, hi))
}

} // verus!
