//! Format descriptors and the serialized result list.
//!
//! A format descriptor carries a numeric identifier, an output
//! container/codec extension and an optional destination network
//! discriminator. After a successful transcode the descriptor is annotated
//! with the produced output identifier, scheme-prefixed by its destination
//! network: `ipfs://` when the descriptor names that network, `s5://`
//! otherwise. The annotated list is serialized to JSON text for the result
//! store by a verified writer.

use vstd::prelude::*;

use crate::strutil::str_eq_str;

verus! {

/// One requested output format.
pub struct MediaFormat {
    /// The numeric format identifier.
    pub id: u32,
    /// The output container/codec extension.
    pub ext: String,
    /// The destination network discriminator, if the descriptor names one.
    pub dest: Option<String>,
}

/// A format descriptor annotated with its produced output identifier.
pub struct AnnotatedFormat {
    /// The numeric format identifier.
    pub id: u32,
    /// The output container/codec extension.
    pub ext: String,
    /// The destination network discriminator, if the descriptor names one.
    pub dest: Option<String>,
    /// The scheme-prefixed output identifier.
    pub cid: String,
}

/// Whether a destination discriminator names the `ipfs` network.
pub open spec fn is_ipfs_dest(dest: Option<String>) -> bool {
    match dest {
        Option::Some(d) => d@ == "ipfs"@,
        Option::None => false,
    }
}

/// The scheme-prefixed output identifier of a finished format: `ipfs://`
/// when the descriptor names that network, `s5://` otherwise.
pub open spec fn annotated_cid(dest: Option<String>, output_cid: Seq<char>) -> Seq<char> {
    if is_ipfs_dest(dest) {
        "ipfs://"@ + output_cid
    } else {
        "s5://"@ + output_cid
    }
}

/// Annotates a finished format with its produced output identifier,
/// prefixed by the declared destination network's scheme.
pub fn annotate_format(media_format: MediaFormat, output_cid: &str) -> (r: AnnotatedFormat)
    ensures
        r.id == media_format.id,
        r.ext == media_format.ext,
        r.dest == media_format.dest,
        r.cid@ == annotated_cid(media_format.dest, output_cid@),
{
    let is_ipfs = match &media_format.dest {
        Some(d) => str_eq_str(d.as_str(), "ipfs"),
        None => false,
    };
    let cid = if is_ipfs {
        crate::strutil::concat2("ipfs://", output_cid)
    } else {
        crate::strutil::concat2("s5://", output_cid)
    };
    AnnotatedFormat { id: media_format.id, ext: media_format.ext, dest: media_format.dest, cid }
}

/// The character of a hexadecimal digit, lower case.
pub open spec fn hex_digit(v: u8) -> char
    recommends
        v < 16,
{
    if v < 10 {
        ((48 + v) as u8) as char
    } else {
        ((87 + v) as u8) as char
    }
}

/// The JSON escape of one character: `"` and `\` get a backslash, control
/// characters become `\u00XX`, everything else stands as itself.
pub open spec fn json_escaped_char(c: char) -> Seq<char> {
    if c == '"' {
        seq!['\\', '"']
    } else if c == '\\' {
        seq!['\\', '\\']
    } else if (c as u32) < 32 {
        seq!['\\', 'u', '0', '0', hex_digit(((c as u32) / 16) as u8), hex_digit(
            ((c as u32) % 16) as u8,
        )]
    } else {
        seq![c]
    }
}

/// The JSON escape of a string body.
pub open spec fn json_escaped(s: Seq<char>) -> Seq<char>
    decreases s.len(),
{
    if s.len() == 0 {
        Seq::empty()
    } else {
        json_escaped_char(s[0]) + json_escaped(s.skip(1))
    }
}

/// The decimal digits of `n`, most significant first.
pub open spec fn dec_str_of(n: nat) -> Seq<char>
    decreases n,
{
    if n < 10 {
        seq![((48 + n) as u8) as char]
    } else {
        dec_str_of(n / 10) + seq![((48 + n % 10) as u8) as char]
    }
}

/// The JSON object of one annotated format; the `dest` member is omitted
/// when the descriptor names no destination network.
pub open spec fn json_of_format(f: AnnotatedFormat) -> Seq<char> {
    "{\"id\":"@ + dec_str_of(f.id as nat) + ",\"ext\":\""@ + json_escaped(f.ext@) + "\""@ + (
    match f.dest {
        Option::Some(d) => ",\"dest\":\""@ + json_escaped(d@) + "\""@,
        Option::None => Seq::<char>::empty(),
    }) + ",\"cid\":\""@ + json_escaped(f.cid@) + "\"}"@
}

/// The comma-joined JSON objects of a result list.
pub open spec fn json_items(l: Seq<AnnotatedFormat>) -> Seq<char>
    decreases l.len(),
{
    if l.len() == 0 {
        Seq::empty()
    } else if l.len() == 1 {
        json_of_format(l[0])
    } else {
        json_of_format(l[0]) + seq![','] + json_items(l.skip(1))
    }
}

/// The JSON array of a result list.
pub open spec fn json_of_formats(l: Seq<AnnotatedFormat>) -> Seq<char> {
    seq!['['] + json_items(l) + seq![']']
}

/// Escaping distributes over concatenation.
proof fn lemma_json_escaped_append(a: Seq<char>, b: Seq<char>)
    ensures
        json_escaped(a + b) == json_escaped(a) + json_escaped(b),
    decreases a.len(),
{
    if a.len() == 0 {
        assert(a + b =~= b);
        assert(json_escaped(a) + json_escaped(b) =~= json_escaped(b));
    } else {
        assert((a + b)[0] == a[0]);
        assert((a + b).skip(1) =~= a.skip(1) + b);
        lemma_json_escaped_append(a.skip(1), b);
        assert(json_escaped(a + b) =~= json_escaped(a) + json_escaped(b));
    }
}

/// Joining one more item: the joined text grows by a comma and the item,
/// the comma only when something came before.
proof fn lemma_json_items_push(l: Seq<AnnotatedFormat>, f: AnnotatedFormat)
    ensures
        l.len() == 0 ==> json_items(l.push(f)) == json_of_format(f),
        l.len() > 0 ==> json_items(l.push(f)) == json_items(l) + seq![','] + json_of_format(f),
    decreases l.len(),
{
    if l.len() == 0 {
        assert(l.push(f)[0] == f);
        assert(l.push(f).len() == 1);
    } else {
        assert(l.push(f)[0] == l[0]);
        assert(l.push(f).skip(1) =~= l.skip(1).push(f));
        lemma_json_items_push(l.skip(1), f);
        if l.len() == 1 {
            assert(json_items(l.push(f)) =~= json_items(l) + seq![','] + json_of_format(f));
        } else {
            assert(json_items(l.push(f)) =~= json_items(l) + seq![','] + json_of_format(f));
        }
    }
}

/// Appends the characters of `s` to `out`.
fn push_str_chars(out: &mut Vec<char>, s: &str)
    ensures
        final(out)@ == old(out)@ + s@,
{
    let n = s.unicode_len();
    let mut i: usize = 0;
    while i < n
        invariant
            i <= n,
            n == s@.len(),
            out@ == old(out)@ + s@.take(i as int),
        decreases n - i,
    {
        out.push(s.get_char(i));
        proof {
            assert(old(out)@ + s@.take(i + 1) =~= (old(out)@ + s@.take(i as int)).push(
                s@[i as int],
            ));
        }
        i = i + 1;
    }
    proof {
        assert(s@.take(n as int) =~= s@);
    }
}

/// Appends the JSON escape of `s` to `out`.
fn push_escaped(out: &mut Vec<char>, s: &str)
    ensures
        final(out)@ == old(out)@ + json_escaped(s@),
{
    let n = s.unicode_len();
    let mut i: usize = 0;
    proof {
        assert(json_escaped(s@.take(0)) =~= Seq::<char>::empty());
        assert(out@ =~= old(out)@ + json_escaped(s@.take(0)));
    }
    while i < n
        invariant
            i <= n,
            n == s@.len(),
            out@ == old(out)@ + json_escaped(s@.take(i as int)),
        decreases n - i,
    {
        let c = s.get_char(i);
        let code = c as u32;
        if c == '"' {
            out.push('\\');
            out.push('"');
        } else if c == '\\' {
            out.push('\\');
            out.push('\\');
        } else if code < 32 {
            out.push('\\');
            out.push('u');
            out.push('0');
            out.push('0');
            let hi = (code / 16) as u8;
            let lo = (code % 16) as u8;
            out.push(if hi < 10 {
                (48 + hi) as char
            } else {
                (87 + hi) as char
            });
            out.push(if lo < 10 {
                (48 + lo) as char
            } else {
                (87 + lo) as char
            });
        } else {
            out.push(c);
        }
        proof {
            let pre = s@.take(i as int);
            let one = seq![s@[i as int]];
            lemma_json_escaped_append(pre, one);
            assert(pre + one =~= s@.take(i + 1));
            assert(one.skip(1) =~= Seq::<char>::empty());
            assert(json_escaped(Seq::<char>::empty()) =~= Seq::<char>::empty());
            assert(json_escaped(one) =~= json_escaped_char(s@[i as int]));
            assert(out@ =~= old(out)@ + json_escaped(s@.take(i + 1)));
        }
        i = i + 1;
    }
    proof {
        assert(s@.take(n as int) =~= s@);
    }
}

/// Appends the decimal digits of `n` to `out`.
pub fn push_dec(out: &mut Vec<char>, n: u32)
    ensures
        final(out)@ == old(out)@ + dec_str_of(n as nat),
    decreases n,
{
    if n < 10 {
        out.push((48 + n as u8) as char);
        proof {
            assert(out@ =~= old(out)@ + dec_str_of(n as nat));
        }
    } else {
        push_dec(out, n / 10);
        out.push((48 + (n % 10) as u8) as char);
        proof {
            assert((n / 10) as nat == (n as nat) / 10);
            assert((n % 10) as nat == (n as nat) % 10);
            assert(out@ =~= old(out)@ + dec_str_of(n as nat));
        }
    }
}

/// Appends the JSON object of one annotated format to `out`.
fn push_format(out: &mut Vec<char>, f: &AnnotatedFormat)
    ensures
        final(out)@ == old(out)@ + json_of_format(*f),
{
    push_str_chars(out, "{\"id\":");
    push_dec(out, f.id);
    push_str_chars(out, ",\"ext\":\"");
    push_escaped(out, f.ext.as_str());
    push_str_chars(out, "\"");
    match &f.dest {
        Some(d) => {
            push_str_chars(out, ",\"dest\":\"");
            push_escaped(out, d.as_str());
            push_str_chars(out, "\"");
        },
        None => {},
    }
    push_str_chars(out, ",\"cid\":\"");
    push_escaped(out, f.cid.as_str());
    push_str_chars(out, "\"}");
    proof {
        assert(out@ =~= old(out)@ + json_of_format(*f));
    }
}

/// Serializes an annotated result list to its JSON array text.
pub fn serialize_formats(formats: &Vec<AnnotatedFormat>) -> (r: String)
    ensures
        r@ == json_of_formats(formats@),
{
    let mut out: Vec<char> = Vec::new();
    out.push('[');
    let n = formats.len();
    let mut i: usize = 0;
    while i < n
        invariant
            i <= n,
            n == formats@.len(),
            out@ == seq!['['] + json_items(formats@.take(i as int)),
        decreases n - i,
    {
        if i > 0 {
            out.push(',');
        }
        push_format(&mut out, &formats[i]);
        proof {
            let pre = formats@.take(i as int);
            lemma_json_items_push(pre, formats@[i as int]);
            assert(pre.push(formats@[i as int]) =~= formats@.take(i + 1));
            if i == 0 {
                assert(out@ =~= seq!['['] + json_items(formats@.take(i + 1)));
            } else {
                assert(out@ =~= seq!['['] + json_items(formats@.take(i + 1)));
            }
        }
        i = i + 1;
    }
    out.push(']');
    proof {
        assert(formats@.take(n as int) =~= formats@);
        assert(out@ =~= json_of_formats(formats@));
    }
    crate::b64::chars_to_string(out)
}

} // verus!
