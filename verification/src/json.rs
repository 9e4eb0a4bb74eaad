//! Compact JSON text, laid out as serde_json's `to_vec` writes it (no
//! whitespace, struct fields in declaration order, tuples and sequences as
//! arrays, maps as objects in key order, string literals as
//! serde_json escapes them), and the SHA-256 content hash that the cognition
//! artifacts carry.
use vstd::prelude::*;
use crate::text::{dec_int, dec_nat, hex_bytes, hex_fixed, hex_of_bytes, join,
    push_i64, push_str, push_usize, push_utf8_bytes, sha256_digest, sha256_of, views};

verus! {

/// How one character stands inside a JSON string literal: `"` and `\`
/// are escaped with a backslash, the control characters with a short escape
/// where JSON has one and as `\u00XX` (lower-case hex) otherwise, and every
/// other character stands as it is.
pub open spec fn json_escape_char(c: char) -> Seq<char> {
    if c == '"' {
        seq!['\\', '"']
    } else if c == '\\' {
        seq!['\\', '\\']
    } else if c == '\n' {
        seq!['\\', 'n']
    } else if c == '\r' {
        seq!['\\', 'r']
    } else if c == '\t' {
        seq!['\\', 't']
    } else if c == '\x08' {
        seq!['\\', 'b']
    } else if c == '\x0c' {
        seq!['\\', 'f']
    } else if (c as u32) < 0x20 {
        seq!['\\', 'u', '0', '0'] + hex_fixed(c as nat, 2)
    } else {
        seq![c]
    }
}

/// The escaped body of a JSON string literal.
pub open spec fn json_escape(s: Seq<char>) -> Seq<char>
    decreases s.len(),
{
    if s.len() == 0 {
        Seq::empty()
    } else {
        json_escape(s.drop_last()) + json_escape_char(s.last())
    }
}

/// A JSON string literal for `s`: the escaped text between double quotes.
pub open spec fn json_str(s: Seq<char>) -> Seq<char> {
    seq!['"'] + json_escape(s) + seq!['"']
}

/// A JSON array of already rendered values.
pub open spec fn json_list(items: Seq<Seq<char>>) -> Seq<char> {
    seq!['['] + join(items, seq![',']) + seq![']']
}

/// A JSON array of strings.
pub open spec fn json_strs(v: Seq<Seq<char>>) -> Seq<char> {
    json_list(v.map_values(|s: Seq<char>| json_str(s)))
}

/// A JSON array of natural numbers.
pub open spec fn json_nats(v: Seq<usize>) -> Seq<char> {
    json_list(v.map_values(|n: usize| dec_nat(n as nat)))
}

/// A JSON object of already rendered `"key":value` members.
pub open spec fn json_object(members: Seq<Seq<char>>) -> Seq<char> {
    seq!['{'] + join(members, seq![',']) + seq!['}']
}

/// One `"key":value` member whose key is an arbitrary text.
pub open spec fn json_member(key: Seq<char>, value: Seq<char>) -> Seq<char> {
    json_str(key) + seq![':'] + value
}

/// The content hash of a JSON text: lower-case hex of the SHA-256 digest of
/// its UTF-8 bytes.
pub open spec fn json_hash(text: Seq<char>) -> Seq<char> {
    hex_bytes(sha256_of(vstd::utf8::encode_utf8(text)))
}

/// `join` grows by one part.
pub proof fn lemma_join_push(parts: Seq<Seq<char>>, sep: Seq<char>, x: Seq<char>)
    ensures
        join(parts.push(x), sep) == (if parts.len() == 0 {
            x
        } else {
            join(parts, sep) + sep + x
        }),
{
    assert(parts.push(x).drop_last() =~= parts);
    if parts.len() == 0 {
        assert(parts.push(x)[0] == x);
    }
}

/// serde_json's `to_string` of a `str`. Its contract claims that the result
/// is the quoted literal with serde_json's escapes: `"` and `\` behind a
/// backslash, `\b \t \n \f \r` for those control characters, `\u00XX`
/// in lower-case hex for the other characters below U+0020, every other
/// character unchanged. Serializing a `str` into a `String` cannot fail, so
/// the error arm is never taken.
#[verifier::external_body]
fn json_string_of(s: &str) -> (r: String)
    ensures
        r@ == json_str(s@),
{
    match serde_json::to_string(s) {
        Ok(t) => t,
        Err(_) => String::new(),
    }
}

/// Appends `s` as a JSON string literal.
pub fn push_json_str(out: &mut String, s: &str)
    ensures
        final(out)@ == old(out)@ + json_str(s@),
{
    let lit = json_string_of(s);
    push_str(out, lit.as_str());
}

/// Appends a JSON array of the strings in `v`.
pub fn push_json_strs(out: &mut String, v: &Vec<String>)
    ensures
        final(out)@ == old(out)@ + json_strs(views(v@)),
{
    let ghost before = out@;
    let ghost items = views(v@).map_values(|s: Seq<char>| json_str(s));
    out.append("[");
    proof { reveal_strlit("["); }
    let mut i: usize = 0;
    while i < v.len()
        invariant
            i <= v@.len(),
            items == views(v@).map_values(|s: Seq<char>| json_str(s)),
            out@ == before + seq!['['] + join(items.subrange(0, i as int), seq![',']),
        decreases v@.len() - i,
    {
        proof {
            assert(items.subrange(0, i + 1) =~= items.subrange(0, i as int).push(items[i as int]));
            lemma_join_push(items.subrange(0, i as int), seq![','], items[i as int]);
        }
        if i > 0 {
            out.append(",");
            proof { reveal_strlit(","); }
        }
        push_json_str(out, v[i].as_str());
        i = i + 1;
    }
    assert(items.subrange(0, v@.len() as int) =~= items);
    out.append("]");
    proof { reveal_strlit("]"); }
    assert(out@ =~= before + json_strs(views(v@)));
}

/// Appends a JSON array of the numbers in `v`.
pub fn push_json_nats(out: &mut String, v: &Vec<usize>)
    ensures
        final(out)@ == old(out)@ + json_nats(v@),
{
    let ghost before = out@;
    let ghost items = v@.map_values(|n: usize| dec_nat(n as nat));
    out.append("[");
    proof { reveal_strlit("["); }
    let mut i: usize = 0;
    while i < v.len()
        invariant
            i <= v@.len(),
            items == v@.map_values(|n: usize| dec_nat(n as nat)),
            out@ == before + seq!['['] + join(items.subrange(0, i as int), seq![',']),
        decreases v@.len() - i,
    {
        proof {
            assert(items.subrange(0, i + 1) =~= items.subrange(0, i as int).push(items[i as int]));
            lemma_join_push(items.subrange(0, i as int), seq![','], items[i as int]);
        }
        if i > 0 {
            out.append(",");
            proof { reveal_strlit(","); }
        }
        push_usize(out, v[i]);
        i = i + 1;
    }
    assert(items.subrange(0, v@.len() as int) =~= items);
    out.append("]");
    proof { reveal_strlit("]"); }
    assert(out@ =~= before + json_nats(v@));
}

/// Appends a JSON array whose members were rendered already.
pub fn push_json_list(out: &mut String, parts: &Vec<String>)
    ensures
        final(out)@ == old(out)@ + json_list(views(parts@)),
{
    let ghost before = out@;
    let ghost items = views(parts@);
    out.append("[");
    proof { reveal_strlit("["); }
    let mut i: usize = 0;
    while i < parts.len()
        invariant
            i <= parts@.len(),
            items == views(parts@),
            out@ == before + seq!['['] + join(items.subrange(0, i as int), seq![',']),
        decreases parts@.len() - i,
    {
        proof {
            assert(items.subrange(0, i + 1) =~= items.subrange(0, i as int).push(items[i as int]));
            lemma_join_push(items.subrange(0, i as int), seq![','], items[i as int]);
        }
        if i > 0 {
            out.append(",");
            proof { reveal_strlit(","); }
        }
        out.append(parts[i].as_str());
        i = i + 1;
    }
    assert(items.subrange(0, parts@.len() as int) =~= items);
    out.append("]");
    proof { reveal_strlit("]"); }
    assert(out@ =~= before + json_list(views(parts@)));
}

/// Appends a JSON object whose members were rendered already.
pub fn push_json_object(out: &mut String, members: &Vec<String>)
    ensures
        final(out)@ == old(out)@ + json_object(views(members@)),
{
    let ghost before = out@;
    let ghost items = views(members@);
    out.append("{");
    proof { reveal_strlit("{"); }
    let mut i: usize = 0;
    while i < members.len()
        invariant
            i <= members@.len(),
            items == views(members@),
            out@ == before + seq!['{'] + join(items.subrange(0, i as int), seq![',']),
        decreases members@.len() - i,
    {
        proof {
            assert(items.subrange(0, i + 1) =~= items.subrange(0, i as int).push(items[i as int]));
            lemma_join_push(items.subrange(0, i as int), seq![','], items[i as int]);
        }
        if i > 0 {
            out.append(",");
            proof { reveal_strlit(","); }
        }
        out.append(members[i].as_str());
        i = i + 1;
    }
    assert(items.subrange(0, members@.len() as int) =~= items);
    out.append("}");
    proof { reveal_strlit("}"); }
    assert(out@ =~= before + json_object(views(members@)));
}

/// The JSON string literal of `s` as a fresh text.
pub fn json_str_text(s: &str) -> (r: String)
    ensures
        r@ == json_str(s@),
{
    let mut out = String::new();
    push_json_str(&mut out, s);
    out
}

/// The JSON array of the strings in `v` as a fresh text.
pub fn json_strs_text(v: &Vec<String>) -> (r: String)
    ensures
        r@ == json_strs(views(v@)),
{
    let mut out = String::new();
    push_json_strs(&mut out, v);
    out
}

/// `"key":value` with the value given as an integer.
pub fn json_int_member(key: &str, value: i64) -> (r: String)
    ensures
        r@ == json_member(key@, dec_int(value as int)),
{
    let mut out = String::new();
    push_json_str(&mut out, key);
    out.append(":");
    proof { reveal_strlit(":"); }
    push_i64(&mut out, value);
    out
}

/// `"key":"value"` with a text value.
pub fn json_str_member(key: &str, value: &str) -> (r: String)
    ensures
        r@ == json_member(key@, json_str(value@)),
{
    let mut out = String::new();
    push_json_str(&mut out, key);
    out.append(":");
    proof { reveal_strlit(":"); }
    push_json_str(&mut out, value);
    out
}

/// The content hash of a JSON text.
pub fn json_hash_text(text: &String) -> (r: String)
    ensures
        r@ == json_hash(text@),
        r@.len() == 64,
{
    let mut bytes: Vec<u8> = Vec::new();
    push_utf8_bytes(&mut bytes, text.as_str());
    assert(bytes@ =~= vstd::utf8::encode_utf8(text@));
    let digest = sha256_digest(bytes.as_slice());
    proof {
        lemma_hex_bytes_len(digest@);
    }
    hex_of_bytes(&digest)
}

/// Two hex digits per byte.
pub proof fn lemma_hex_bytes_len(b: Seq<u8>)
    ensures
        hex_bytes(b).len() == 2 * b.len(),
    decreases b.len(),
{
    if b.len() > 0 {
        lemma_hex_bytes_len(b.drop_last());
        crate::text::lemma_hex_fixed_len(b.last() as nat, 2);
    }
}

/// Appends `text` (a helper that keeps call sites short).
pub fn push_text(out: &mut String, text: &String)
    ensures
        final(out)@ == old(out)@ + text@,
{
    push_str(out, text.as_str());
}

} // verus!
