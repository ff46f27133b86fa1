//! URL-safe unpadded base64 codec.
//!
//! Encrypted content identifiers carry their binary payload in this text
//! form: the standard base64 alphabet with `+` replaced by `-` and `/` by
//! `_`, and no padding characters. The decoder accepts exactly the strings
//! the encoder produces: every character must be from the URL-safe alphabet,
//! the length must not be 1 modulo 4, and the unused low bits of the final
//! character must be zero. Encoding and decoding are proved to be true
//! inverses for every byte string.

use vstd::prelude::*;

verus! {

/// The alphabet character standing for the six-bit value `v`.
pub open spec fn b64_char_of(v: u8) -> char
    recommends
        v < 64,
{
    if v < 26 {
        ((65 + v) as u8) as char
    } else if v < 52 {
        ((97 + (v - 26)) as u8) as char
    } else if v < 62 {
        ((48 + (v - 52)) as u8) as char
    } else if v == 62 {
        '-'
    } else {
        '_'
    }
}

/// The six-bit value of an alphabet character; 255 for a character outside
/// the alphabet.
pub open spec fn b64_val_of(c: char) -> u8 {
    let n = c as u32;
    if 65 <= n && n <= 90 {
        (n - 65) as u8
    } else if 97 <= n && n <= 122 {
        ((n - 97) + 26) as u8
    } else if 48 <= n && n <= 57 {
        ((n - 48) + 52) as u8
    } else if n == 45 {
        62
    } else if n == 95 {
        63
    } else {
        255
    }
}

/// The URL-safe base64 text of the byte string `s`, unpadded.
pub open spec fn base64url_of(s: Seq<u8>) -> Seq<char>
    decreases s.len(),
{
    if s.len() == 0 {
        Seq::empty()
    } else if s.len() == 1 {
        let b0 = s[0];
        seq![b64_char_of(b0 >> 2), b64_char_of((b0 & 3) << 4)]
    } else if s.len() == 2 {
        let b0 = s[0];
        let b1 = s[1];
        seq![
            b64_char_of(b0 >> 2),
            b64_char_of(((b0 & 3) << 4) | (b1 >> 4)),
            b64_char_of((b1 & 15) << 2),
        ]
    } else {
        let b0 = s[0];
        let b1 = s[1];
        let b2 = s[2];
        seq![
            b64_char_of(b0 >> 2),
            b64_char_of(((b0 & 3) << 4) | (b1 >> 4)),
            b64_char_of(((b1 & 15) << 2) | (b2 >> 6)),
            b64_char_of(b2 & 63),
        ] + base64url_of(s.skip(3))
    }
}

/// Whether `t` is a well-formed URL-safe unpadded base64 text: alphabet
/// characters only, a length that is never 1 modulo 4, and zero unused
/// low bits in the final character.
pub open spec fn is_base64url(t: Seq<char>) -> bool {
    &&& forall|i: int| 0 <= i < t.len() ==> b64_val_of(#[trigger] t[i]) < 64
    &&& t.len() % 4 != 1
    &&& (t.len() % 4 == 2 ==> b64_val_of(t.last()) & 15 == 0)
    &&& (t.len() % 4 == 3 ==> b64_val_of(t.last()) & 3 == 0)
}

/// The byte string denoted by a well-formed URL-safe base64 text.
pub open spec fn bytes_of_base64url(t: Seq<char>) -> Seq<u8>
    recommends
        is_base64url(t),
    decreases t.len(),
{
    if t.len() < 2 {
        Seq::empty()
    } else if t.len() == 2 {
        let v0 = b64_val_of(t[0]);
        let v1 = b64_val_of(t[1]);
        seq![(v0 << 2) | (v1 >> 4)]
    } else if t.len() == 3 {
        let v0 = b64_val_of(t[0]);
        let v1 = b64_val_of(t[1]);
        let v2 = b64_val_of(t[2]);
        seq![(v0 << 2) | (v1 >> 4), ((v1 & 15) << 4) | (v2 >> 2)]
    } else {
        let v0 = b64_val_of(t[0]);
        let v1 = b64_val_of(t[1]);
        let v2 = b64_val_of(t[2]);
        let v3 = b64_val_of(t[3]);
        seq![
            (v0 << 2) | (v1 >> 4),
            ((v1 & 15) << 4) | (v2 >> 2),
            ((v2 & 3) << 6) | v3,
        ] + bytes_of_base64url(t.skip(4))
    }
}

/// Every alphabet character decodes back to the six-bit value it stands for.
proof fn lemma_b64_char_val(v: u8)
    requires
        v < 64,
    ensures
        b64_val_of(b64_char_of(v)) == v,
{
}

/// Decoding distributes over concatenation at a four-character boundary.
proof fn lemma_bytes_of_base64url_append(a: Seq<char>, b: Seq<char>)
    requires
        a.len() % 4 == 0,
    ensures
        bytes_of_base64url(a + b) == bytes_of_base64url(a) + bytes_of_base64url(b),
    decreases a.len(),
{
    if a.len() == 0 {
        assert(a + b =~= b);
        assert(bytes_of_base64url(a) + bytes_of_base64url(b) =~= bytes_of_base64url(b));
    } else {
        let ab = a + b;
        assert(ab.len() >= 4);
        assert(ab[0] == a[0] && ab[1] == a[1] && ab[2] == a[2] && ab[3] == a[3]);
        assert(ab.skip(4) =~= a.skip(4) + b);
        lemma_bytes_of_base64url_append(a.skip(4), b);
        assert(bytes_of_base64url(a + b) =~= bytes_of_base64url(a) + bytes_of_base64url(b));
    }
}

/// Encoding distributes over concatenation at a three-byte boundary.
proof fn lemma_base64url_of_append(a: Seq<u8>, b: Seq<u8>)
    requires
        a.len() % 3 == 0,
    ensures
        base64url_of(a + b) == base64url_of(a) + base64url_of(b),
    decreases a.len(),
{
    if a.len() == 0 {
        assert(a + b =~= b);
        assert(base64url_of(a) + base64url_of(b) =~= base64url_of(b));
    } else {
        let ab = a + b;
        assert(ab.len() >= 3);
        assert(ab[0] == a[0] && ab[1] == a[1] && ab[2] == a[2]);
        assert(ab.skip(3) =~= a.skip(3) + b);
        lemma_base64url_of_append(a.skip(3), b);
        assert(base64url_of(a + b) =~= base64url_of(a) + base64url_of(b));
    }
}

/// Relies on String's implementation of FromIterator<char>: building a
/// string from characters yields exactly those characters in order.
#[verifier::external_body]
pub(crate) fn chars_to_string(v: Vec<char>) -> (r: String)
    ensures
        r@ == v@,
{
    String::from_iter(v)
}

/// The alphabet character standing for the six-bit value `v`.
fn b64_char(v: u8) -> (c: char)
    requires
        v < 64,
    ensures
        c == b64_char_of(v),
{
    if v < 26 {
        (65 + v) as char
    } else if v < 52 {
        (97 + (v - 26)) as char
    } else if v < 62 {
        (48 + (v - 52)) as char
    } else if v == 62 {
        '-'
    } else {
        '_'
    }
}

/// Encodes a byte string as URL-safe unpadded base64 text.
pub fn bytes_to_base64url(bytes: &[u8]) -> (r: String)
    ensures
        r@ == base64url_of(bytes@),
{
    let n = bytes.len();
    let mut out: Vec<char> = Vec::new();
    let mut i: usize = 0;
    while n - i >= 3
        invariant
            i <= n,
            n == bytes@.len(),
            i % 3 == 0,
            out@ == base64url_of(bytes@.take(i as int)),
        decreases n - i,
    {
        let b0 = bytes[i];
        let b1 = bytes[i + 1];
        let b2 = bytes[i + 2];
        proof {
            assert(((b0 & 3) << 4) | (b1 >> 4) < 64 && ((b1 & 15) << 2) | (b2 >> 6) < 64
                && b0 >> 2 < 64 && b2 & 63 < 64) by (bit_vector);
        }
        out.push(b64_char(b0 >> 2));
        out.push(b64_char(((b0 & 3) << 4) | (b1 >> 4)));
        out.push(b64_char(((b1 & 15) << 2) | (b2 >> 6)));
        out.push(b64_char(b2 & 63));
        proof {
            let pre = bytes@.take(i as int);
            let grp = bytes@.subrange(i as int, i + 3);
            lemma_base64url_of_append(pre, grp);
            assert(pre + grp =~= bytes@.take(i + 3));
            assert(grp.skip(3) =~= Seq::<u8>::empty());
            assert(base64url_of(Seq::<u8>::empty()) == Seq::<char>::empty());
            assert(base64url_of(grp) =~= seq![
                b64_char_of(b0 >> 2),
                b64_char_of(((b0 & 3) << 4) | (b1 >> 4)),
                b64_char_of(((b1 & 15) << 2) | (b2 >> 6)),
                b64_char_of(b2 & 63),
            ]);
        }
        i = i + 3;
    }
    if n - i == 1 {
        let b0 = bytes[i];
        proof {
            assert(b0 >> 2 < 64 && (b0 & 3) << 4 < 64) by (bit_vector);
        }
        out.push(b64_char(b0 >> 2));
        out.push(b64_char((b0 & 3) << 4));
        proof {
            let pre = bytes@.take(i as int);
            let grp = bytes@.subrange(i as int, n as int);
            lemma_base64url_of_append(pre, grp);
            assert(pre + grp =~= bytes@);
        }
    } else if n - i == 2 {
        let b0 = bytes[i];
        let b1 = bytes[i + 1];
        proof {
            assert(b0 >> 2 < 64 && ((b0 & 3) << 4) | (b1 >> 4) < 64 && (b1 & 15) << 2
                < 64) by (bit_vector);
        }
        out.push(b64_char(b0 >> 2));
        out.push(b64_char(((b0 & 3) << 4) | (b1 >> 4)));
        out.push(b64_char((b1 & 15) << 2));
        proof {
            let pre = bytes@.take(i as int);
            let grp = bytes@.subrange(i as int, n as int);
            lemma_base64url_of_append(pre, grp);
            assert(pre + grp =~= bytes@);
        }
    } else {
        proof {
            assert(bytes@.take(i as int) =~= bytes@);
        }
    }
    chars_to_string(out)
}

/// The six-bit value of an alphabet character; 255 for a character outside
/// the alphabet.
fn b64_val(c: char) -> (v: u8)
    ensures
        v == b64_val_of(c),
{
    let n = c as u32;
    if 65 <= n && n <= 90 {
        (n - 65) as u8
    } else if 97 <= n && n <= 122 {
        ((n - 97) + 26) as u8
    } else if 48 <= n && n <= 57 {
        ((n - 48) + 52) as u8
    } else if n == 45 {
        62
    } else if n == 95 {
        63
    } else {
        255
    }
}

/// Decodes URL-safe unpadded base64 text back to bytes. Returns `None`
/// exactly when the text is not well formed: a character outside the
/// URL-safe alphabet (padding included), a length of 1 modulo 4, or nonzero
/// unused low bits in the final character.
pub fn base64url_to_bytes(s: &str) -> (r: Option<Vec<u8>>)
    ensures
        match r {
            Some(v) => is_base64url(s@) && v@ == bytes_of_base64url(s@),
            None => !is_base64url(s@),
        },
{
    let n = s.unicode_len();
    if n % 4 == 1 {
        return None;
    }
    let mut vals: Vec<u8> = Vec::new();
    let mut i: usize = 0;
    while i < n
        invariant
            i <= n,
            n == s@.len(),
            vals@.len() == i as int,
            forall|j: int| 0 <= j < i ==> #[trigger] vals@[j] == b64_val_of(s@[j]) && vals@[j]
                < 64,
        decreases n - i,
    {
        let c = s.get_char(i);
        let v = b64_val(c);
        if v >= 64 {
            proof {
                assert(!(b64_val_of(s@[i as int]) < 64));
            }
            return None;
        }
        vals.push(v);
        i = i + 1;
    }
    if n % 4 == 2 && vals[n - 1] & 15 != 0 {
        proof {
            assert(s@.last() == s@[n - 1]);
        }
        return None;
    }
    if n % 4 == 3 && vals[n - 1] & 3 != 0 {
        proof {
            assert(s@.last() == s@[n - 1]);
        }
        return None;
    }
    proof {
        if n > 0 {
            assert(s@.last() == s@[n - 1]);
        }
        assert forall|j: int| 0 <= j < s@.len() implies b64_val_of(#[trigger] s@[j]) < 64 by {
            assert(vals@[j] == b64_val_of(s@[j]));
        }
        assert(is_base64url(s@));
    }
    let mut out: Vec<u8> = Vec::new();
    let mut i: usize = 0;
    while n - i >= 4
        invariant
            i <= n,
            i % 4 == 0,
            n == s@.len(),
            vals@.len() == n as int,
            forall|j: int| 0 <= j < n ==> #[trigger] vals@[j] == b64_val_of(s@[j]) && vals@[j]
                < 64,
            out@ == bytes_of_base64url(s@.take(i as int)),
        decreases n - i,
    {
        let v0 = vals[i];
        let v1 = vals[i + 1];
        let v2 = vals[i + 2];
        let v3 = vals[i + 3];
        out.push((v0 << 2) | (v1 >> 4));
        out.push(((v1 & 15) << 4) | (v2 >> 2));
        out.push(((v2 & 3) << 6) | v3);
        proof {
            let pre = s@.take(i as int);
            let grp = s@.subrange(i as int, i + 4);
            lemma_bytes_of_base64url_append(pre, grp);
            assert(pre + grp =~= s@.take(i + 4));
            assert(grp.skip(4) =~= Seq::<char>::empty());
            assert(bytes_of_base64url(Seq::<char>::empty()) == Seq::<u8>::empty());
            assert(bytes_of_base64url(grp) =~= seq![
                (v0 << 2) | (v1 >> 4),
                ((v1 & 15) << 4) | (v2 >> 2),
                ((v2 & 3) << 6) | v3,
            ]);
        }
        i = i + 4;
    }
    if n - i == 2 {
        let v0 = vals[i];
        let v1 = vals[i + 1];
        out.push((v0 << 2) | (v1 >> 4));
        proof {
            let pre = s@.take(i as int);
            let grp = s@.subrange(i as int, n as int);
            lemma_bytes_of_base64url_append(pre, grp);
            assert(pre + grp =~= s@);
        }
    } else if n - i == 3 {
        let v0 = vals[i];
        let v1 = vals[i + 1];
        let v2 = vals[i + 2];
        out.push((v0 << 2) | (v1 >> 4));
        out.push(((v1 & 15) << 4) | (v2 >> 2));
        proof {
            let pre = s@.take(i as int);
            let grp = s@.subrange(i as int, n as int);
            lemma_bytes_of_base64url_append(pre, grp);
            assert(pre + grp =~= s@);
        }
    } else {
        proof {
            assert(s@.take(i as int) =~= s@);
        }
    }
    Some(out)
}

/// Law: decoding inverts encoding. The URL-safe unpadded base64 text of any
/// byte string is well formed and decodes back to exactly that byte string.
pub proof fn lemma_base64url_round_trip(s: Seq<u8>)
    ensures
        is_base64url(base64url_of(s)),
        bytes_of_base64url(base64url_of(s)) == s,
    decreases s.len(),
{
    let t = base64url_of(s);
    if s.len() == 0 {
        assert(bytes_of_base64url(t) =~= s);
    } else if s.len() == 1 {
        let b0 = s[0];
        let s0 = b0 >> 2;
        let s1 = (b0 & 3) << 4;
        assert(s0 < 64 && s1 < 64 && s1 & 15 == 0 && ((s0 << 2) | (s1 >> 4)) == b0)
            by (bit_vector)
            requires
                s0 == b0 >> 2,
                s1 == (b0 & 3) << 4,
        ;
        lemma_b64_char_val(s0);
        lemma_b64_char_val(s1);
        assert(bytes_of_base64url(t) =~= s);
    } else if s.len() == 2 {
        let b0 = s[0];
        let b1 = s[1];
        let s0 = b0 >> 2;
        let s1 = ((b0 & 3) << 4) | (b1 >> 4);
        let s2 = (b1 & 15) << 2;
        assert(s0 < 64 && s1 < 64 && s2 < 64 && s2 & 3 == 0 && ((s0 << 2) | (s1 >> 4)) == b0
            && (((s1 & 15) << 4) | (s2 >> 2)) == b1) by (bit_vector)
            requires
                s0 == b0 >> 2,
                s1 == ((b0 & 3) << 4) | (b1 >> 4),
                s2 == (b1 & 15) << 2,
        ;
        lemma_b64_char_val(s0);
        lemma_b64_char_val(s1);
        lemma_b64_char_val(s2);
        assert(bytes_of_base64url(t) =~= s);
    } else {
        let b0 = s[0];
        let b1 = s[1];
        let b2 = s[2];
        let s0 = b0 >> 2;
        let s1 = ((b0 & 3) << 4) | (b1 >> 4);
        let s2 = ((b1 & 15) << 2) | (b2 >> 6);
        let s3 = b2 & 63;
        assert(s0 < 64 && s1 < 64 && s2 < 64 && s3 < 64 && ((s0 << 2) | (s1 >> 4)) == b0
            && (((s1 & 15) << 4) | (s2 >> 2)) == b1 && (((s2 & 3) << 6) | s3) == b2)
            by (bit_vector)
            requires
                s0 == b0 >> 2,
                s1 == ((b0 & 3) << 4) | (b1 >> 4),
                s2 == ((b1 & 15) << 2) | (b2 >> 6),
                s3 == b2 & 63,
        ;
        lemma_b64_char_val(s0);
        lemma_b64_char_val(s1);
        lemma_b64_char_val(s2);
        lemma_b64_char_val(s3);
        lemma_base64url_round_trip(s.skip(3));
        let grp = seq![b64_char_of(s0), b64_char_of(s1), b64_char_of(s2), b64_char_of(s3)];
        let rest = base64url_of(s.skip(3));
        assert(t == grp + rest);
        assert(t.len() == 4 + rest.len());
        assert(t.len() % 4 == rest.len() % 4);
        assert forall|i: int| 0 <= i < t.len() implies b64_val_of(#[trigger] t[i]) < 64 by {
            if i < 4 {
                assert(t[i] == grp[i]);
            } else {
                assert(t[i] == rest[i - 4]);
            }
        }
        if rest.len() > 0 {
            assert(t.last() == rest.last());
        }
        lemma_bytes_of_base64url_append(grp, rest);
        assert(grp.skip(4) =~= Seq::<char>::empty());
        assert(bytes_of_base64url(Seq::<char>::empty()) == Seq::<u8>::empty());
        assert(bytes_of_base64url(grp) =~= seq![b0, b1, b2]);
        assert(bytes_of_base64url(t) =~= s);
    }
}

} // verus!
