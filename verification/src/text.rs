//! Text building blocks shared by the cognition kernels: decimal and
//! hexadecimal rendering, string assembly, substring search, whitespace
//! normalisation and the two digest primitives (std's default hasher and
//! SHA-256) whose results are named rather than restated.
use vstd::prelude::*;
use vstd::string::*;

verus! {

// ── digits ───────────────────────────────────────────────────────────────────

/// The decimal digit character for `d` (0..=9).
pub open spec fn dec_digit(d: int) -> char {
    if d == 0 { '0' } else if d == 1 { '1' } else if d == 2 { '2' } else if d == 3 { '3' }
    else if d == 4 { '4' } else if d == 5 { '5' } else if d == 6 { '6' } else if d == 7 { '7' }
    else if d == 8 { '8' } else { '9' }
}

/// The lower-case hexadecimal digit character for `d` (0..=15).
pub open spec fn hex_digit(d: int) -> char {
    if d < 10 { dec_digit(d) } else if d == 10 { 'a' } else if d == 11 { 'b' } else if d == 12 { 'c' }
    else if d == 13 { 'd' } else if d == 14 { 'e' } else { 'f' }
}

/// Decimal rendering of a natural number, as `{}` prints it.
pub open spec fn dec_nat(n: nat) -> Seq<char>
    decreases n,
{
    if n < 10 {
        seq![dec_digit(n as int)]
    } else {
        dec_nat(n / 10).push(dec_digit((n % 10) as int))
    }
}

/// Decimal rendering of an integer, as `{}` prints it.
pub open spec fn dec_int(i: int) -> Seq<char> {
    if i < 0 { seq!['-'] + dec_nat((-i) as nat) } else { dec_nat(i as nat) }
}

/// Lower-case hexadecimal rendering without padding, as `{:x}` prints it.
pub open spec fn hex_nat(n: nat) -> Seq<char>
    decreases n,
{
    if n < 16 {
        seq![hex_digit(n as int)]
    } else {
        hex_nat(n / 16).push(hex_digit((n % 16) as int))
    }
}

/// The lowest `k` hexadecimal digits of `n`, zero padded, most significant first.
pub open spec fn hex_fixed(n: nat, k: nat) -> Seq<char>
    decreases k,
{
    if k == 0 {
        Seq::empty()
    } else {
        hex_fixed(n / 16, (k - 1) as nat).push(hex_digit((n % 16) as int))
    }
}

/// `{:016x}` of a 64-bit value.
pub open spec fn hex16(n: u64) -> Seq<char> {
    hex_fixed(n as nat, 16)
}

/// `{}` of a boolean.
pub open spec fn bool_text(b: bool) -> Seq<char> {
    if b { "true"@ } else { "false"@ }
}

/// Lower-case hex rendering of a byte string, two digits per byte.
pub open spec fn hex_bytes(b: Seq<u8>) -> Seq<char>
    decreases b.len(),
{
    if b.len() == 0 {
        Seq::empty()
    } else {
        hex_bytes(b.drop_last()) + hex_fixed(b.last() as nat, 2)
    }
}

// ── joins ────────────────────────────────────────────────────────────────────

/// `parts.join(sep)`.
pub open spec fn join(parts: Seq<Seq<char>>, sep: Seq<char>) -> Seq<char>
    decreases parts.len(),
{
    if parts.len() == 0 {
        Seq::empty()
    } else if parts.len() == 1 {
        parts[0]
    } else {
        join(parts.drop_last(), sep) + sep + parts.last()
    }
}

/// The views of a vector of strings.
pub open spec fn views(v: Seq<String>) -> Seq<Seq<char>> {
    v.map_values(|s: String| s@)
}

// ── digest primitives ─────────────────────────────────────────────────────────

/// What std's `DefaultHasher` (created by `DefaultHasher::new`) finishes with
/// after hashing one `str`.
pub uninterp spec fn std_hash_of_str(s: Seq<char>) -> u64;

/// What std's `DefaultHasher` finishes with after hashing, in this order, a
/// `str`, a `str` and a `u8`.
pub uninterp spec fn std_hash_of_str_str_u8(a: Seq<char>, b: Seq<char>, c: u8) -> u64;

/// What std's `DefaultHasher` finishes with after hashing a `str`, two `u8`
/// and a `u16`.
pub uninterp spec fn std_hash_of_str_u8_u8_u16(a: Seq<char>, b: u8, c: u8, d: u16) -> u64;

/// What std's `DefaultHasher` finishes with after hashing a `str`, a `u8`,
/// a `u16` and a `usize`.
pub uninterp spec fn std_hash_of_str_u8_u16_usize(a: Seq<char>, b: u8, c: u16, d: usize) -> u64;

/// What std's `DefaultHasher` finishes with after hashing a `str` and two `u8`.
pub uninterp spec fn std_hash_of_str_u8_u8(a: Seq<char>, b: u8, c: u8) -> u64;

/// What std's `DefaultHasher` finishes with after hashing a `str`, a `u8` and a `str`.
pub uninterp spec fn std_hash_of_str_u8_str(a: Seq<char>, b: u8, c: Seq<char>) -> u64;

/// What std's `DefaultHasher` finishes with after hashing a `str`, a `u8` and a `usize`.
pub uninterp spec fn std_hash_of_str_u8_usize(a: Seq<char>, b: u8, c: usize) -> u64;

/// The SHA-256 digest (sha2's `Sha256`) of a byte string.
pub uninterp spec fn sha256_of(data: Seq<u8>) -> Seq<u8>;

/// std's `BuildHasher::hash_one` for a `BuildHasherDefault<DefaultHasher>`:
/// a fresh `DefaultHasher` (`DefaultHasher::default`, which is `new`) fed
/// `s` and then finished. `DefaultHasher::new` is documented to give
/// identical hashers every time, so the result is named as a function of the
/// text; its value is not stated. The wrappers below do the same for a
/// tuple, whose `Hash` feeds its fields in order.
#[verifier::external_body]
pub(crate) fn default_hash_str(s: &str) -> (h: u64)
    ensures
        h == std_hash_of_str(s@),
{
    std::hash::BuildHasher::hash_one(
        &std::hash::BuildHasherDefault::<std::collections::hash_map::DefaultHasher>::default(),
        s,
    )
}

/// Same hasher as `default_hash_str`, fed a `str`, a `str` and a `u8` in turn.
#[verifier::external_body]
pub(crate) fn default_hash_str_str_u8(a: &str, b: &str, c: u8) -> (h: u64)
    ensures
        h == std_hash_of_str_str_u8(a@, b@, c),
{
    std::hash::BuildHasher::hash_one(
        &std::hash::BuildHasherDefault::<std::collections::hash_map::DefaultHasher>::default(),
        (a, b, c),
    )
}

/// Same hasher, fed a `str`, two `u8` and a `u16` in turn.
#[verifier::external_body]
pub(crate) fn default_hash_str_u8_u8_u16(a: &str, b: u8, c: u8, d: u16) -> (h: u64)
    ensures
        h == std_hash_of_str_u8_u8_u16(a@, b, c, d),
{
    std::hash::BuildHasher::hash_one(
        &std::hash::BuildHasherDefault::<std::collections::hash_map::DefaultHasher>::default(),
        (a, b, c, d),
    )
}

/// Same hasher, fed a `str`, a `u8`, a `u16` and a `usize` in turn.
#[verifier::external_body]
pub(crate) fn default_hash_str_u8_u16_usize(a: &str, b: u8, c: u16, d: usize) -> (h: u64)
    ensures
        h == std_hash_of_str_u8_u16_usize(a@, b, c, d),
{
    std::hash::BuildHasher::hash_one(
        &std::hash::BuildHasherDefault::<std::collections::hash_map::DefaultHasher>::default(),
        (a, b, c, d),
    )
}

/// Same hasher, fed a `str` and two `u8` in turn.
#[verifier::external_body]
pub(crate) fn default_hash_str_u8_u8(a: &str, b: u8, c: u8) -> (h: u64)
    ensures
        h == std_hash_of_str_u8_u8(a@, b, c),
{
    std::hash::BuildHasher::hash_one(
        &std::hash::BuildHasherDefault::<std::collections::hash_map::DefaultHasher>::default(),
        (a, b, c),
    )
}

/// Same hasher, fed a `str`, a `u8` and a `str` in turn.
#[verifier::external_body]
pub(crate) fn default_hash_str_u8_str(a: &str, b: u8, c: &str) -> (h: u64)
    ensures
        h == std_hash_of_str_u8_str(a@, b, c@),
{
    std::hash::BuildHasher::hash_one(
        &std::hash::BuildHasherDefault::<std::collections::hash_map::DefaultHasher>::default(),
        (a, b, c),
    )
}

/// Same hasher, fed a `str`, a `u8` and a `usize` in turn.
#[verifier::external_body]
pub(crate) fn default_hash_str_u8_usize(a: &str, b: u8, c: usize) -> (h: u64)
    ensures
        h == std_hash_of_str_u8_usize(a@, b, c),
{
    std::hash::BuildHasher::hash_one(
        &std::hash::BuildHasherDefault::<std::collections::hash_map::DefaultHasher>::default(),
        (a, b, c),
    )
}

/// sha2's `Sha256::digest` of `data`. The contract names the digest and
/// states its length (32 bytes, sha2's `OutputSize` for `Sha256`); the digest
/// bytes themselves are not restated.
#[verifier::external_body]
pub(crate) fn sha256_digest(data: &[u8]) -> (d: Vec<u8>)
    ensures
        d@ == sha256_of(data@),
        d@.len() == 32,
{
    <sha2::Sha256 as sha2::Digest>::digest(data).to_vec()
}

// ── string assembly ──────────────────────────────────────────────────────────

/// A fresh `String` holding `s`.
pub fn text(s: &str) -> (r: String)
    ensures
        r@ == s@,
{
    String::from_str(s)
}

/// Appends `s`.
pub fn push_str(out: &mut String, s: &str)
    ensures
        final(out)@ == old(out)@ + s@,
{
    out.append(s);
}

/// Appends one decimal digit.
pub fn push_dec_digit(out: &mut String, d: u64)
    requires
        d < 10,
    ensures
        final(out)@ == old(out)@.push(dec_digit(d as int)),
{
    proof {
        reveal_strlit("0"); reveal_strlit("1"); reveal_strlit("2"); reveal_strlit("3");
        reveal_strlit("4"); reveal_strlit("5"); reveal_strlit("6"); reveal_strlit("7");
        reveal_strlit("8"); reveal_strlit("9");
    }
    let ghost before = out@;
    if d == 0 { out.append("0"); } else if d == 1 { out.append("1"); }
    else if d == 2 { out.append("2"); } else if d == 3 { out.append("3"); }
    else if d == 4 { out.append("4"); } else if d == 5 { out.append("5"); }
    else if d == 6 { out.append("6"); } else if d == 7 { out.append("7"); }
    else if d == 8 { out.append("8"); } else { out.append("9"); }
    assert(out@ =~= before.push(dec_digit(d as int)));
}

/// Appends one lower-case hexadecimal digit.
pub fn push_hex_digit(out: &mut String, d: u64)
    requires
        d < 16,
    ensures
        final(out)@ == old(out)@.push(hex_digit(d as int)),
{
    if d < 10 {
        push_dec_digit(out, d);
    } else {
        proof {
            reveal_strlit("a"); reveal_strlit("b"); reveal_strlit("c");
            reveal_strlit("d"); reveal_strlit("e"); reveal_strlit("f");
        }
        let ghost before = out@;
        if d == 10 { out.append("a"); } else if d == 11 { out.append("b"); }
        else if d == 12 { out.append("c"); } else if d == 13 { out.append("d"); }
        else if d == 14 { out.append("e"); } else { out.append("f"); }
        assert(out@ =~= before.push(hex_digit(d as int)));
    }
}

/// Appends the decimal rendering of `n`.
pub fn push_u64(out: &mut String, n: u64)
    ensures
        final(out)@ == old(out)@ + dec_nat(n as nat),
    decreases n,
{
    let ghost before = out@;
    if n >= 10 {
        push_u64(out, n / 10);
    }
    push_dec_digit(out, n % 10);
    proof {
        if n >= 10 {
            assert(out@ =~= before + dec_nat(n as nat));
        } else {
            assert(out@ =~= before + dec_nat(n as nat));
        }
    }
}

/// Appends the decimal rendering of `n`.
pub fn push_i64(out: &mut String, n: i64)
    ensures
        final(out)@ == old(out)@ + dec_int(n as int),
{
    let ghost before = out@;
    if n < 0 {
        proof { reveal_strlit("-"); }
        out.append("-");
        let m: u64 = (-(n as i128)) as u64;
        push_u64(out, m);
        assert(out@ =~= before + dec_int(n as int));
    } else {
        push_u64(out, n as u64);
    }
}

/// Appends the decimal rendering of `n`.
pub fn push_usize(out: &mut String, n: usize)
    ensures
        final(out)@ == old(out)@ + dec_nat(n as nat),
{
    push_u64(out, n as u64);
}

/// Appends `true` or `false`.
pub fn push_bool(out: &mut String, b: bool)
    ensures
        final(out)@ == old(out)@ + bool_text(b),
{
    if b {
        out.append("true");
    } else {
        out.append("false");
    }
}

/// Appends the lowest `k` hex digits of `n`, zero padded.
pub fn push_hex_fixed(out: &mut String, n: u64, k: u64)
    ensures
        final(out)@ == old(out)@ + hex_fixed(n as nat, k as nat),
    decreases k,
{
    let ghost before = out@;
    if k > 0 {
        push_hex_fixed(out, n / 16, k - 1);
        push_hex_digit(out, n % 16);
        assert(out@ =~= before + hex_fixed(n as nat, k as nat));
    } else {
        assert(out@ =~= before + hex_fixed(n as nat, k as nat));
    }
}

/// Appends `{:x}` of `n`.
pub fn push_hex(out: &mut String, n: u64)
    ensures
        final(out)@ == old(out)@ + hex_nat(n as nat),
    decreases n,
{
    let ghost before = out@;
    if n >= 16 {
        push_hex(out, n / 16);
    }
    push_hex_digit(out, n % 16);
    assert(out@ =~= before + hex_nat(n as nat));
}

/// `{:016x}` of `n` as a fresh string.
pub fn hex16_text(n: u64) -> (r: String)
    ensures
        r@ == hex16(n),
{
    let mut out = String::new();
    push_hex_fixed(&mut out, n, 16);
    assert(out@ =~= hex16(n));
    out
}

/// `{:x}` of `n` as a fresh string.
pub fn hex_text(n: u64) -> (r: String)
    ensures
        r@ == hex_nat(n as nat),
{
    let mut out = String::new();
    push_hex(&mut out, n);
    assert(out@ =~= hex_nat(n as nat));
    out
}

/// `{:x}` of a byte string: two lower-case digits per byte.
pub fn hex_of_bytes(b: &Vec<u8>) -> (r: String)
    ensures
        r@ == hex_bytes(b@),
{
    let mut out = String::new();
    let mut i: usize = 0;
    while i < b.len()
        invariant
            i <= b.len(),
            out@ == hex_bytes(b@.subrange(0, i as int)),
        decreases b.len() - i,
    {
        let ghost prev = out@;
        push_hex_fixed(&mut out, b[i] as u64, 2);
        proof {
            let s = b@.subrange(0, i + 1);
            assert(s.drop_last() =~= b@.subrange(0, i as int));
            assert(s.last() == b@[i as int]);
        }
        i = i + 1;
    }
    assert(b@.subrange(0, b.len() as int) =~= b@);
    out
}

/// The name that `hash_text` gives to a text: `{:016x}` of its default hash.
pub open spec fn hash16(s: Seq<char>) -> Seq<char> {
    hex16(std_hash_of_str(s))
}

pub proof fn lemma_hex_fixed_len(n: nat, k: nat)
    ensures
        hex_fixed(n, k).len() == k,
    decreases k,
{
    if k > 0 {
        lemma_hex_fixed_len(n / 16, (k - 1) as nat);
    }
}

/// Every hash name is sixteen characters long.
pub proof fn lemma_hash16_len(s: Seq<char>)
    ensures
        hash16(s).len() == 16,
{
    lemma_hex_fixed_len(std_hash_of_str(s) as nat, 16);
}

/// `{:016x}` of the default hash of `s`.
pub fn hash_text(s: &str) -> (r: String)
    ensures
        r@ == hash16(s@),
{
    hex16_text(default_hash_str(s))
}

/// `parts.join(sep)`.
pub fn join_strings(parts: &Vec<String>, sep: &str) -> (r: String)
    ensures
        r@ == join(views(parts@), sep@),
{
    let mut out = String::new();
    let ghost vs = views(parts@);
    let mut i: usize = 0;
    while i < parts.len()
        invariant
            i <= parts.len(),
            vs == views(parts@),
            out@ == join(vs.subrange(0, i as int), sep@),
        decreases parts.len() - i,
    {
        let ghost sub = vs.subrange(0, i + 1);
        assert(sub.drop_last() =~= vs.subrange(0, i as int));
        if i > 0 {
            out.append(sep);
        }
        out.append(parts[i].as_str());
        proof {
            if i == 0 {
                assert(out@ =~= join(sub, sep@));
            } else {
                assert(out@ =~= join(sub, sep@));
            }
        }
        i = i + 1;
    }
    assert(vs.subrange(0, parts.len() as int) =~= vs);
    out
}

/// Whether the text is empty.
pub fn is_blank(s: &String) -> (r: bool)
    ensures
        r == (s@.len() == 0),
{
    s.as_str().is_empty()
}

/// Whether two texts are equal.
pub fn same_text(a: &String, b: &String) -> (r: bool)
    ensures
        r == (a@ == b@),
{
    a.eq(b)
}

// ── comparison and padding ───────────────────────────────────────────────────

/// Lexicographic order on texts, character by character (code point order,
/// which is also the byte order of their UTF-8 encodings).
pub open spec fn text_lt(a: Seq<char>, b: Seq<char>) -> bool
    decreases a.len(),
{
    if a.len() == 0 {
        b.len() > 0
    } else if b.len() == 0 {
        false
    } else if a[0] != b[0] {
        (a[0] as int) < (b[0] as int)
    } else {
        text_lt(a.drop_first(), b.drop_first())
    }
}

/// `text_lt` is transitive.
pub proof fn lemma_text_lt_transitive(a: Seq<char>, b: Seq<char>, c: Seq<char>)
    requires
        text_lt(a, b),
        text_lt(b, c),
    ensures
        text_lt(a, c),
    decreases a.len(),
{
    if a.len() > 0 && b.len() > 0 && c.len() > 0 && a[0] == b[0] && b[0] == c[0] {
        lemma_text_lt_transitive(a.drop_first(), b.drop_first(), c.drop_first());
    }
}

/// `text_lt` is irreflexive.
pub proof fn lemma_text_lt_irreflexive(a: Seq<char>)
    ensures
        !text_lt(a, a),
    decreases a.len(),
{
    if a.len() > 0 {
        lemma_text_lt_irreflexive(a.drop_first());
    }
}

/// Of two different texts, one sorts before the other.
pub proof fn lemma_text_lt_total(a: Seq<char>, b: Seq<char>)
    requires
        a != b,
    ensures
        text_lt(a, b) || text_lt(b, a),
    decreases a.len(),
{
    if a.len() > 0 && b.len() > 0 && a[0] == b[0] {
        if a.drop_first() == b.drop_first() {
            assert(a =~= seq![a[0]] + a.drop_first());
            assert(b =~= seq![b[0]] + b.drop_first());
        }
        lemma_text_lt_total(a.drop_first(), b.drop_first());
    } else if a.len() == 0 && b.len() == 0 {
        assert(a =~= b);
    } else if a.len() > 0 && b.len() > 0 {
        assert((a[0] as int) != (b[0] as int));
    }
}

/// Whether `a` sorts strictly before `b`.
pub fn less_than(a: &str, b: &str) -> (r: bool)
    ensures
        r == text_lt(a@, b@),
{
    let la = a.unicode_len();
    let lb = b.unicode_len();
    let mut i: usize = 0;
    assert(a@.subrange(0, la as int) =~= a@);
    assert(b@.subrange(0, lb as int) =~= b@);
    while i < la && i < lb
        invariant
            la == a@.len(),
            lb == b@.len(),
            i <= la,
            i <= lb,
            text_lt(a@, b@) == text_lt(a@.subrange(i as int, la as int), b@.subrange(i as int, lb as int)),
        decreases la - i,
    {
        let ca = a.get_char(i);
        let cb = b.get_char(i);
        let ghost sa = a@.subrange(i as int, la as int);
        let ghost sb = b@.subrange(i as int, lb as int);
        assert(sa[0] == ca && sb[0] == cb);
        if ca != cb {
            return (ca as u32) < (cb as u32);
        }
        assert(sa.drop_first() =~= a@.subrange(i + 1, la as int));
        assert(sb.drop_first() =~= b@.subrange(i + 1, lb as int));
        i = i + 1;
    }
    i == la && i < lb
}

/// `s` left-padded with zeros to at least `w` characters.
pub open spec fn zero_pad(s: Seq<char>, w: nat) -> Seq<char> {
    if s.len() >= w {
        s
    } else {
        Seq::new((w - s.len()) as nat, |_i: int| '0') + s
    }
}

pub proof fn lemma_dec_nat_len(n: nat)
    ensures
        dec_nat(n).len() >= 1,
        n < 10 ==> dec_nat(n).len() == 1,
        10 <= n < 100 ==> dec_nat(n).len() == 2,
        100 <= n < 1000 ==> dec_nat(n).len() == 3,
        n >= 1000 ==> dec_nat(n).len() >= 4,
    decreases n,
{
    if n >= 10 {
        lemma_dec_nat_len(n / 10);
    }
}

/// Appends `n` in decimal, zero padded to four digits (`{:04}`).
pub fn push_u64_pad4(out: &mut String, n: u64)
    ensures
        final(out)@ == old(out)@ + zero_pad(dec_nat(n as nat), 4),
{
    let ghost before = out@;
    proof {
        lemma_dec_nat_len(n as nat);
        reveal_strlit("000");
        reveal_strlit("00");
        reveal_strlit("0");
    }
    if n < 10 {
        out.append("000");
    } else if n < 100 {
        out.append("00");
    } else if n < 1000 {
        out.append("0");
    }
    push_u64(out, n);
    assert(out@ =~= before + zero_pad(dec_nat(n as nat), 4));
}

/// Appends `n` in decimal, zero padded to two digits (`{:02}`).
pub fn push_u64_pad2(out: &mut String, n: u64)
    ensures
        final(out)@ == old(out)@ + zero_pad(dec_nat(n as nat), 2),
{
    let ghost before = out@;
    proof {
        lemma_dec_nat_len(n as nat);
        reveal_strlit("0");
    }
    if n < 10 {
        out.append("0");
    }
    push_u64(out, n);
    assert(out@ =~= before + zero_pad(dec_nat(n as nat), 2));
}


// ── whitespace, case and search ──────────────────────────────────────────────

/// `char::is_whitespace`: the Unicode `White_Space` property.
pub open spec fn is_ws(c: char) -> bool {
    let u = c as u32;
    (9 <= u <= 13) || u == 32 || u == 0x85 || u == 0xa0 || u == 0x1680 || (0x2000 <= u <= 0x200a)
        || u == 0x2028 || u == 0x2029 || u == 0x202f || u == 0x205f || u == 0x3000
}

/// Whether `c` is a Unicode whitespace character.
pub fn is_whitespace_char(c: char) -> (r: bool)
    ensures
        r == is_ws(c),
{
    let u = c as u32;
    (9 <= u && u <= 13) || u == 32 || u == 0x85 || u == 0xa0 || u == 0x1680 || (0x2000 <= u && u
        <= 0x200a) || u == 0x2028 || u == 0x2029 || u == 0x202f || u == 0x205f || u == 0x3000
}

pub open spec fn trim_start(s: Seq<char>) -> Seq<char>
    decreases s.len(),
{
    if s.len() > 0 && is_ws(s[0]) {
        trim_start(s.drop_first())
    } else {
        s
    }
}

pub open spec fn trim_end(s: Seq<char>) -> Seq<char>
    decreases s.len(),
{
    if s.len() > 0 && is_ws(s.last()) {
        trim_end(s.drop_last())
    } else {
        s
    }
}

/// `str::trim`: leading and trailing whitespace removed.
pub open spec fn trim_ws(s: Seq<char>) -> Seq<char> {
    trim_end(trim_start(s))
}

/// `s` without its leading and trailing whitespace.
pub fn trim_text(s: &str) -> (r: &str)
    ensures
        r@ == trim_ws(s@),
{
    let n = s.unicode_len();
    let mut a: usize = 0;
    assert(s@.subrange(0, n as int) =~= s@);
    while a < n && is_whitespace_char(s.get_char(a))
        invariant
            n == s@.len(),
            a <= n,
            trim_start(s@) == trim_start(s@.subrange(a as int, n as int)),
        decreases n - a,
    {
        assert(s@.subrange(a as int, n as int).drop_first() =~= s@.subrange(a + 1, n as int));
        a = a + 1;
    }
    let mut b: usize = n;
    assert(trim_start(s@) == s@.subrange(a as int, n as int));
    while b > a && is_whitespace_char(s.get_char(b - 1))
        invariant
            n == s@.len(),
            a <= b <= n,
            trim_ws(s@) == trim_end(s@.subrange(a as int, b as int)),
        decreases b,
    {
        assert(s@.subrange(a as int, b as int).drop_last() =~= s@.subrange(a as int, b - 1));
        b = b - 1;
    }
    s.substring_char(a, b)
}

/// What `str::to_lowercase` gives for a text.
pub uninterp spec fn std_lowercase(s: Seq<char>) -> Seq<char>;

/// Calls std's `str::to_lowercase`. Its result follows Unicode's case tables
/// (with the context rule for a final capital sigma); it is named here as a
/// function of the text. Beyond the name the contract states one fact: std
/// documents that every character lowercases to one or more characters, so
/// the result is empty exactly when the text is.
#[verifier::external_body]
pub(crate) fn to_lowercase_text(s: &str) -> (r: String)
    ensures
        r@ == std_lowercase(s@),
        r@.len() == 0 <==> s@.len() == 0,
{
    s.to_lowercase()
}

/// The words of `s` (maximal runs of non-whitespace) joined by single
/// spaces. `started` says whether a word was already emitted, `gap` whether
/// whitespace followed it.
pub open spec fn squeeze(s: Seq<char>, started: bool, gap: bool) -> Seq<char>
    decreases s.len(),
{
    if s.len() == 0 {
        Seq::empty()
    } else if is_ws(s[0]) {
        squeeze(s.drop_first(), started, started)
    } else {
        (if gap {
            seq![' ']
        } else {
            Seq::empty()
        }) + seq![s[0]] + squeeze(s.drop_first(), true, false)
    }
}

/// `s.split_whitespace().collect::<Vec<_>>().join(" ")`.
pub fn collapse_whitespace(s: &str) -> (r: String)
    ensures
        r@ == squeeze(s@, false, false),
{
    let n = s.unicode_len();
    let mut out = String::new();
    let mut started = false;
    let mut gap = false;
    let mut i: usize = 0;
    assert(s@.subrange(0, n as int) =~= s@);
    while i < n
        invariant
            n == s@.len(),
            i <= n,
            started == (out@.len() > 0),
            !started ==> !gap,
            out@ + squeeze(s@.subrange(i as int, n as int), started, gap) == squeeze(s@, false, false),
        decreases n - i,
    {
        let ghost rest = s@.subrange(i as int, n as int);
        assert(rest.drop_first() =~= s@.subrange(i + 1, n as int));
        proof {
            reveal_strlit(" ");
        }
        let c = s.get_char(i);
        assert(rest[0] == c);
        if is_whitespace_char(c) {
            gap = started;
        } else {
            let ghost before = out@;
            if gap {
                out.append(" ");
            }
            let piece = s.substring_char(i, i + 1);
            assert(piece@ =~= seq![c]);
            out.append(piece);
            assert(out@ =~= before + (if gap {
                seq![' ']
            } else {
                Seq::empty()
            }) + seq![c]);
            started = true;
            gap = false;
        }
        i = i + 1;
    }
    out
}

/// `t` occurs in `s` as a contiguous run of characters.
pub open spec fn has_sub(s: Seq<char>, t: Seq<char>) -> bool {
    exists|i: int| 0 <= i && i + t.len() <= s.len() && #[trigger] s.subrange(i, i + t.len()) == t
}

fn matches_at(s: &str, t: &str, i: usize, n: usize, m: usize) -> (r: bool)
    requires
        n == s@.len(),
        m == t@.len(),
        i + m <= n,
    ensures
        r == (s@.subrange(i as int, i + m) == t@),
{
    let mut k: usize = 0;
    while k < m
        invariant
            n == s@.len(),
            m == t@.len(),
            i + m <= n,
            k <= m,
            s@.subrange(i as int, i + k) =~= t@.subrange(0, k as int),
        decreases m - k,
    {
        if s.get_char(i + k) != t.get_char(k) {
            assert(s@.subrange(i as int, i + m)[k as int] != t@[k as int]);
            return false;
        }
        k = k + 1;
        assert(s@.subrange(i as int, i + k) =~= t@.subrange(0, k as int));
    }
    assert(t@.subrange(0, m as int) =~= t@);
    true
}

/// `str::contains` with a text pattern.
pub fn contains_text(s: &str, t: &str) -> (r: bool)
    ensures
        r == has_sub(s@, t@),
{
    let n = s.unicode_len();
    let m = t.unicode_len();
    if m > n {
        return false;
    }
    let mut i: usize = 0;
    loop
        invariant
            n == s@.len(),
            m == t@.len(),
            m <= n,
            i <= n - m,
            forall|j: int| 0 <= j < i ==> #[trigger] s@.subrange(j, j + m) != t@,
        decreases n - m - i,
    {
        if matches_at(s, t, i, n, m) {
            return true;
        }
        if i == n - m {
            return false;
        }
        i = i + 1;
    }
}

// ── prefixes and decimal parsing ─────────────────────────────────────────────

/// The rest of `s` after prefix `p`, as `str::strip_prefix` gives it.
pub fn strip_prefix_text<'a>(s: &'a str, p: &str) -> (r: Option<&'a str>)
    ensures
        match r {
            Some(rest) => s@.len() >= p@.len() && s@.subrange(0, p@.len() as int) == p@ && rest@
                == s@.subrange(p@.len() as int, s@.len() as int),
            None => !(s@.len() >= p@.len() && s@.subrange(0, p@.len() as int) == p@),
        },
{
    let n = s.unicode_len();
    let m = p.unicode_len();
    if m > n {
        return None;
    }
    if matches_at(s, p, 0, n, m) {
        Some(s.substring_char(m, n))
    } else {
        None
    }
}

pub open spec fn is_digit(c: char) -> bool {
    48 <= (c as u32) <= 57
}

pub open spec fn all_digits(s: Seq<char>) -> bool {
    forall|i: int| 0 <= i < s.len() ==> is_digit(#[trigger] s[i])
}

/// The number that a run of decimal digits spells.
pub open spec fn dec_value(s: Seq<char>) -> nat
    decreases s.len(),
{
    if s.len() == 0 {
        0
    } else {
        dec_value(s.drop_last()) * 10 + ((s.last() as u32) - 48) as nat
    }
}

/// `str::parse::<usize>`: an optional `+`, then one or more decimal digits
/// whose value fits in `usize`.
pub open spec fn parse_usize(s: Seq<char>) -> Option<usize> {
    let d = if s.len() > 0 && s[0] == '+' {
        s.drop_first()
    } else {
        s
    };
    if d.len() > 0 && all_digits(d) && dec_value(d) <= usize::MAX {
        Some(dec_value(d) as usize)
    } else {
        None
    }
}

proof fn lemma_dec_value_prefix(s: Seq<char>, k: int)
    requires
        all_digits(s),
        0 <= k <= s.len(),
    ensures
        dec_value(s.subrange(0, k)) <= dec_value(s),
    decreases s.len(),
{
    if k < s.len() {
        assert(s.drop_last() =~= s.subrange(0, s.len() - 1));
        assert(s.drop_last().subrange(0, k) =~= s.subrange(0, k));
        lemma_dec_value_prefix(s.drop_last(), k);
    } else {
        assert(s.subrange(0, k) =~= s);
    }
}

/// Parses a decimal `usize` as `str::parse::<usize>` does.
pub fn parse_usize_text(s: &str) -> (r: Option<usize>)
    ensures
        r == parse_usize(s@),
{
    let n = s.unicode_len();
    let mut i: usize = 0;
    if n > 0 && s.get_char(0) == '+' {
        i = 1;
    }
    let ghost d = s@.subrange(i as int, n as int);
    let ghost dd = if s@.len() > 0 && s@[0] == '+' {
        s@.drop_first()
    } else {
        s@
    };
    assert(d =~= dd);
    if i == n {
        assert(dd.len() == 0);
        return None;
    }
    let start = i;
    let mut k: usize = i;
    while k < n
        invariant
            n == s@.len(),
            start <= k <= n,
            d == s@.subrange(start as int, n as int),
            d == dd,
            dd == (if s@.len() > 0 && s@[0] == '+' {
                s@.drop_first()
            } else {
                s@
            }),
            forall|j: int| 0 <= j < k - start ==> is_digit(#[trigger] d[j]),
        decreases n - k,
    {
        let c = s.get_char(k);
        if !((c as u32) >= 48 && (c as u32) <= 57) {
            assert(!is_digit(d[k - start]));
            return None;
        }
        k = k + 1;
    }
    let mut value: usize = 0;
    let mut j: usize = start;
    while j < n
        invariant
            n == s@.len(),
            start <= j <= n,
            d == s@.subrange(start as int, n as int),
            d == dd,
            dd == (if s@.len() > 0 && s@[0] == '+' {
                s@.drop_first()
            } else {
                s@
            }),
            all_digits(d),
            value == dec_value(d.subrange(0, j - start)),
        decreases n - j,
    {
        let c = s.get_char(j);
        assert(d[j - start] == c);
        assert(is_digit(d[j - start]));
        let digit = ((c as u32) - 48) as usize;
        assert(d.subrange(0, j - start + 1).drop_last() =~= d.subrange(0, j - start));
        assert(d.subrange(0, j - start + 1).last() == c);
        proof {
            lemma_dec_value_prefix(d, j - start + 1);
        }
        let scaled = match value.checked_mul(10) {
            Some(v) => v,
            None => return None,
        };
        let next = match scaled.checked_add(digit) {
            Some(v) => v,
            None => return None,
        };
        value = next;
        j = j + 1;
    }
    assert(d.subrange(0, n - start) =~= d);
    Some(value)
}

/// Decimal renderings spell their own value.
pub proof fn lemma_dec_nat_value(n: nat)
    ensures
        all_digits(dec_nat(n)),
        dec_value(dec_nat(n)) == n,
    decreases n,
{
    if n >= 10 {
        lemma_dec_nat_value(n / 10);
        lemma_dec_digit_value((n % 10) as int);
        let d = dec_nat(n);
        assert(d.drop_last() =~= dec_nat(n / 10));
        assert(d.last() == dec_digit((n % 10) as int));
        assert(n == (n / 10) * 10 + n % 10);
        assert(dec_value(d.drop_last()) == n / 10);
        assert(((d.last() as u32) - 48) as nat == n % 10);
        assert(dec_value(d) == dec_value(d.drop_last()) * 10 + ((d.last() as u32) - 48) as nat);
        assert(all_digits(d)) by {
            assert forall|i: int| 0 <= i < d.len() implies is_digit(#[trigger] d[i]) by {
                if i < d.len() - 1 {
                    assert(d[i] == dec_nat(n / 10)[i]);
                }
            }
        }
    } else {
        lemma_dec_digit_value(n as int);
        assert(dec_nat(n).drop_last() =~= Seq::<char>::empty());
        assert(dec_value(Seq::<char>::empty()) == 0);
        assert(dec_nat(n).last() == dec_digit(n as int));
    }
}

proof fn lemma_dec_digit_value(k: int)
    requires
        0 <= k < 10,
    ensures
        is_digit(dec_digit(k)),
        (dec_digit(k) as u32) - 48 == k,
{
}

proof fn lemma_dec_value_zeros(z: Seq<char>, s: Seq<char>)
    requires
        forall|i: int| 0 <= i < z.len() ==> #[trigger] z[i] == '0',
    ensures
        dec_value(z + s) == dec_value(s),
    decreases s.len() + z.len(),
{
    if s.len() == 0 {
        if z.len() > 0 {
            assert((z + s).drop_last() =~= z.drop_last() + s);
            lemma_dec_value_zeros(z.drop_last(), s);
        } else {
            assert(z + s =~= s);
        }
    } else {
        assert((z + s).drop_last() =~= z + s.drop_last());
        lemma_dec_value_zeros(z, s.drop_last());
    }
}

/// A zero-padded decimal rendering parses back to its value.
pub proof fn lemma_zero_pad_value(n: nat, w: nat)
    ensures
        all_digits(zero_pad(dec_nat(n), w)),
        dec_value(zero_pad(dec_nat(n), w)) == n,
        zero_pad(dec_nat(n), w).len() > 0,
{
    lemma_dec_nat_value(n);
    lemma_dec_nat_len(n);
    let d = dec_nat(n);
    if d.len() < w {
        let z = Seq::new((w - d.len()) as nat, |_i: int| '0');
        lemma_dec_value_zeros(z, d);
        assert(zero_pad(d, w) == z + d);
    }
}


// ── bytes and ordering of texts ──────────────────────────────────────────────

/// Appends the UTF-8 encoding of `s`.
pub fn push_utf8_bytes(out: &mut Vec<u8>, s: &str)
    ensures
        final(out)@ == old(out)@ + vstd::utf8::encode_utf8(s@),
{
    let b = s.as_bytes();
    let ghost start = out@;
    let mut i: usize = 0;
    while i < b.len()
        invariant
            i <= b@.len(),
            b@ == vstd::utf8::encode_utf8(s@),
            out@ == start + b@.subrange(0, i as int),
        decreases b@.len() - i,
    {
        out.push(b[i]);
        i = i + 1;
        assert(out@ =~= start + b@.subrange(0, i as int));
    }
    assert(b@.subrange(0, b@.len() as int) =~= b@);
}

/// The texts never decrease.
pub open spec fn sorted_texts(v: Seq<Seq<char>>) -> bool {
    forall|i: int, j: int| 0 <= i < j < v.len() ==> !text_lt(#[trigger] v[j], #[trigger] v[i])
}

/// Sorts texts in code point order, keeping equal texts in their order.
pub fn sort_texts(v: Vec<String>) -> (r: Vec<String>)
    ensures
        sorted_texts(views(r@)),
        views(r@).to_multiset() == views(v@).to_multiset(),
        r@.len() == v@.len(),
{
    broadcast use vstd::seq_lib::group_to_multiset_ensures;
    let ghost orig = views(v@);
    let mut rest = v;
    let mut out: Vec<String> = Vec::new();
    while rest.len() > 0
        invariant
            sorted_texts(views(out@)),
            views(out@).to_multiset().add(views(rest@).to_multiset()) == orig.to_multiset(),
            out@.len() + rest@.len() == orig.len(),
        decreases rest@.len(),
    {
        let ghost before_rest = views(rest@);
        let x = rest.remove(0);
        proof {
            assert(views(rest@) =~= before_rest.remove(0));
            vstd::seq_lib::to_multiset_remove(before_rest, 0);
        }
        let mut p: usize = 0;
        while p < out.len() && !less_than(x.as_str(), out[p].as_str())
            invariant
                p <= out@.len(),
                forall|k: int| 0 <= k < p ==> !text_lt(x@, #[trigger] views(out@)[k]),
            decreases out@.len() - p,
        {
            p = p + 1;
        }
        let ghost before = views(out@);
        out.insert(p, x);
        proof {
            assert(views(out@) =~= before.insert(p as int, x@));
            vstd::seq_lib::to_multiset_insert(before, p as int, x@);
            assert(before_rest[0] == x@);
            assert(before_rest.contains(x@));
            vstd::seq_lib::to_multiset_contains(before_rest, x@);
            assert(views(out@).to_multiset().add(views(rest@).to_multiset()) =~= before.to_multiset().add(
                before_rest.to_multiset(),
            ));
            let now = views(out@);
            assert forall|i: int, j: int| 0 <= i < j < now.len() implies !text_lt(
                #[trigger] now[j],
                #[trigger] now[i],
            ) by {
                if i < p && j == p {
                } else if i < p && j > p {
                    assert(now[j] == before[j - 1]);
                    assert(now[i] == before[i]);
                } else if i == p {
                    assert(now[j] == before[j - 1]);
                    assert(text_lt(x@, before[p as int]));
                    if text_lt(before[j - 1], x@) {
                        if j - 1 > p {
                            assert(!text_lt(before[j - 1], before[p as int]));
                        }
                        lemma_text_lt_transitive(before[j - 1], x@, before[p as int]);
                        if j - 1 == p {
                            lemma_text_lt_irreflexive(before[p as int]);
                        }
                    }
                } else if i < p {
                    assert(now[i] == before[i]);
                    assert(now[j] == before[j]);
                } else {
                    assert(now[i] == before[i - 1]);
                    assert(now[j] == before[j - 1]);
                }
            }
        }
    }
    proof {
        assert(views(rest@).to_multiset() =~= vstd::multiset::Multiset::empty());
    }
    out
}

/// The texts strictly increase.
pub open spec fn strictly_sorted_texts(v: Seq<Seq<char>>) -> bool {
    forall|i: int, j: int| 0 <= i < j < v.len() ==> text_lt(#[trigger] v[i], #[trigger] v[j])
}

/// The distinct texts of `v` in increasing order (what collecting into a
/// `BTreeSet` and back yields).
pub fn distinct_sorted_texts(v: &Vec<String>) -> (r: Vec<String>)
    ensures
        strictly_sorted_texts(views(r@)),
        views(r@).to_set() == views(v@).to_set(),
{
    let mut copy: Vec<String> = Vec::new();
    let mut c: usize = 0;
    while c < v.len()
        invariant
            c <= v@.len(),
            copy@ == v@.subrange(0, c as int),
        decreases v@.len() - c,
    {
        copy.push(v[c].clone());
        c = c + 1;
        assert(copy@ =~= v@.subrange(0, c as int));
    }
    assert(v@.subrange(0, v@.len() as int) =~= v@);
    let sorted = sort_texts(copy);
    let ghost sv = views(sorted@);
    let ghost vv = views(v@);
    assert(sv.to_set() =~= vv.to_set()) by {
        assert forall|x: Seq<char>| sv.to_set().contains(x) <==> vv.to_set().contains(x) by {
            vstd::seq_lib::to_multiset_contains(sv, x);
            vstd::seq_lib::to_multiset_contains(vv, x);
        }
    }
    let mut out: Vec<String> = Vec::new();
    let mut i: usize = 0;
    while i < sorted.len()
        invariant
            i <= sorted@.len(),
            sv == views(sorted@),
            sorted_texts(sv),
            strictly_sorted_texts(views(out@)),
            views(out@).to_set() == sv.subrange(0, i as int).to_set(),
            i > 0 ==> out@.len() > 0 && views(out@).last() == sv[i - 1],
            i == 0 ==> out@.len() == 0,
        decreases sorted@.len() - i,
    {
        let ghost before = views(out@);
        let fresh = out.len() == 0 || !same_text(&out[out.len() - 1], &sorted[i]);
        if fresh {
            proof {
                if before.len() > 0 {
                    assert(before.last() != sv[i as int]);
                    assert(!text_lt(sv[i as int], sv[i - 1]));
                    lemma_text_lt_total(sv[i as int], sv[i - 1]);
                }
            }
            out.push(sorted[i].clone());
            proof {
                let now = views(out@);
                assert(now =~= before.push(sv[i as int]));
                assert forall|a: int, b: int| 0 <= a < b < now.len() implies text_lt(
                    #[trigger] now[a],
                    #[trigger] now[b],
                ) by {
                    if b == now.len() - 1 && a < b - 1 {
                        lemma_text_lt_transitive(before[a], before.last(), sv[i as int]);
                    }
                }
            }
        }
        proof {
            assert(sv.subrange(0, i + 1) =~= sv.subrange(0, i as int).push(sv[i as int]));
            let prev = sv.subrange(0, i as int);
            let next = sv.subrange(0, i + 1);
            let now = views(out@);
            assert forall|x: Seq<char>| now.to_set().contains(x) <==> next.to_set().contains(x) by {
                if next.contains(x) {
                    let k = choose|k: int| 0 <= k < next.len() && next[k] == x;
                    if k < i {
                        assert(prev[k] == x);
                        assert(prev.to_set().contains(x));
                        assert(before.to_set().contains(x));
                        assert(before.contains(x));
                        let m = choose|m: int| 0 <= m < before.len() && before[m] == x;
                        assert(now[m] == x);
                    } else {
                        assert(x == sv[i as int]);
                        if fresh {
                            assert(now[now.len() - 1] == x);
                        } else {
                            assert(now[now.len() - 1] == x);
                        }
                    }
                }
                if now.contains(x) {
                    let m = choose|m: int| 0 <= m < now.len() && now[m] == x;
                    if fresh && m == now.len() - 1 {
                        assert(next[i as int] == x);
                    } else {
                        assert(before[m] == x);
                        assert(before.to_set().contains(x));
                        assert(prev.to_set().contains(x));
                        assert(prev.contains(x));
                        let k = choose|k: int| 0 <= k < prev.len() && prev[k] == x;
                        assert(next[k] == x);
                    }
                }
            }
            assert(now.to_set() =~= next.to_set());
        }
        i = i + 1;
    }
    assert(sv.subrange(0, sorted@.len() as int) =~= sv);
    out
}

// ── ASCII case folding and suffixes ──────────────────────────────────────────

/// `char::to_ascii_lowercase`: 'A'..='Z' become 'a'..='z', every other
/// character is kept.
pub open spec fn ascii_lower_char(c: char) -> char {
    if 'A' <= c && c <= 'Z' {
        ((c as u32) + 32) as char
    } else {
        c
    }
}

/// `str::to_ascii_lowercase`, character by character.
pub open spec fn ascii_lower(s: Seq<char>) -> Seq<char> {
    s.map_values(|c: char| ascii_lower_char(c))
}

fn lowered_char_is(c: char, d: char) -> (r: bool)
    ensures
        r == (ascii_lower_char(c) == d),
{
    if 'A' <= c && c <= 'Z' {
        let v = (c as u32) + 32;
        assert(((v as char) == d) == (v == (d as u32)));
        v == (d as u32)
    } else {
        c == d
    }
}

fn lowered_matches_at(s: &str, t: &str, i: usize, n: usize, m: usize) -> (r: bool)
    requires
        n == s@.len(),
        m == t@.len(),
        i + m <= n,
    ensures
        r == (ascii_lower(s@).subrange(i as int, i + m) == t@),
{
    let ghost ls = ascii_lower(s@);
    let mut k: usize = 0;
    while k < m
        invariant
            n == s@.len(),
            m == t@.len(),
            ls == ascii_lower(s@),
            i + m <= n,
            k <= m,
            ls.subrange(i as int, i + k) =~= t@.subrange(0, k as int),
        decreases m - k,
    {
        let c = s.get_char(i + k);
        if !lowered_char_is(c, t.get_char(k)) {
            assert(ls.subrange(i as int, i + m)[k as int] != t@[k as int]);
            return false;
        }
        k = k + 1;
        assert(ls.subrange(i as int, i + k) =~= t@.subrange(0, k as int));
    }
    assert(t@.subrange(0, m as int) =~= t@);
    true
}

/// Whether `t` occurs in the ASCII-lower-cased `s`
/// (`s.to_ascii_lowercase().contains(t)`).
pub fn contains_ascii_lower(s: &str, t: &str) -> (r: bool)
    ensures
        r == has_sub(ascii_lower(s@), t@),
{
    let n = s.unicode_len();
    let m = t.unicode_len();
    let ghost ls = ascii_lower(s@);
    if m > n {
        return false;
    }
    let mut i: usize = 0;
    loop
        invariant
            n == s@.len(),
            m == t@.len(),
            ls == ascii_lower(s@),
            ls.len() == n,
            m <= n,
            i <= n - m,
            forall|j: int| 0 <= j < i ==> #[trigger] ls.subrange(j, j + m) != t@,
        decreases n - m - i,
    {
        if lowered_matches_at(s, t, i, n, m) {
            return true;
        }
        if i == n - m {
            return false;
        }
        i = i + 1;
    }
}

/// `t` ends `s`.
pub open spec fn has_suffix(s: Seq<char>, t: Seq<char>) -> bool {
    s.len() >= t.len() && s.subrange(s.len() - t.len(), s.len() as int) == t
}

/// `str::ends_with` with a text pattern.
pub fn ends_with_text(s: &str, t: &str) -> (r: bool)
    ensures
        r == has_suffix(s@, t@),
{
    let n = s.unicode_len();
    let m = t.unicode_len();
    if m > n {
        return false;
    }
    matches_at(s, t, n - m, n, m)
}

/// Whether the ASCII-lower-cased `s` ends with `t`.
pub fn ends_with_ascii_lower(s: &str, t: &str) -> (r: bool)
    ensures
        r == has_suffix(ascii_lower(s@), t@),
{
    let n = s.unicode_len();
    let m = t.unicode_len();
    if m > n {
        return false;
    }
    lowered_matches_at(s, t, n - m, n, m)
}


/// Two strictly increasing text lists with the same members are equal.
pub proof fn lemma_strictly_sorted_texts_unique(a: Seq<Seq<char>>, b: Seq<Seq<char>>)
    requires
        strictly_sorted_texts(a),
        strictly_sorted_texts(b),
        a.to_set() == b.to_set(),
    ensures
        a == b,
    decreases a.len(),
{
    if a.len() == 0 {
        if b.len() > 0 {
            assert(b.to_set().contains(b[0]));
        }
        assert(a =~= b);
    } else {
        assert(a.to_set().contains(a[0]));
        assert(b.to_set().contains(a[0]));
        assert(b.len() > 0);
        assert(b.to_set().contains(b[0]));
        assert(a.to_set().contains(b[0]));
        let m = choose|m: int| 0 <= m < b.len() && b[m] == a[0];
        let p = choose|q: int| 0 <= q < a.len() && a[q] == b[0];
        if m > 0 {
            assert(text_lt(b[0], b[m]));
            if p == 0 {
                lemma_text_lt_irreflexive(b[0]);
            } else {
                assert(text_lt(a[0], a[p]));
                lemma_text_lt_transitive(a[0], b[0], a[0]);
                lemma_text_lt_irreflexive(a[0]);
            }
        }
        let ta = a.drop_first();
        let tb = b.drop_first();
        assert forall|x: Seq<char>| ta.to_set().contains(x) <==> tb.to_set().contains(x) by {
            if ta.to_set().contains(x) {
                let i = choose|i: int| 0 <= i < ta.len() && ta[i] == x;
                assert(a[i + 1] == x);
                assert(text_lt(a[0], a[i + 1]));
                lemma_text_lt_irreflexive(x);
                assert(a.to_set().contains(x));
                let j = choose|j: int| 0 <= j < b.len() && b[j] == x;
                assert(j != 0);
                assert(tb[j - 1] == x);
            }
            if tb.to_set().contains(x) {
                let i = choose|i: int| 0 <= i < tb.len() && tb[i] == x;
                assert(b[i + 1] == x);
                assert(text_lt(b[0], b[i + 1]));
                lemma_text_lt_irreflexive(x);
                assert(b.to_set().contains(x));
                let j = choose|j: int| 0 <= j < a.len() && a[j] == x;
                assert(j != 0);
                assert(ta[j - 1] == x);
            }
        }
        assert(ta.to_set() =~= tb.to_set());
        assert forall|i: int, j: int| 0 <= i < j < ta.len() implies text_lt(#[trigger] ta[i], #[trigger] ta[j]) by {
            assert(ta[i] == a[i + 1] && ta[j] == a[j + 1]);
        }
        assert forall|i: int, j: int| 0 <= i < j < tb.len() implies text_lt(#[trigger] tb[i], #[trigger] tb[j]) by {
            assert(tb[i] == b[i + 1] && tb[j] == b[j + 1]);
        }
        lemma_strictly_sorted_texts_unique(ta, tb);
        assert(a =~= seq![a[0]] + ta);
        assert(b =~= seq![b[0]] + tb);
    }
}


/// Whether the ASCII-lower-cased `s` equals `t`.
pub fn equals_ascii_lower(s: &str, t: &str) -> (r: bool)
    ensures
        r == (ascii_lower(s@) == t@),
{
    let n = s.unicode_len();
    let m = t.unicode_len();
    if n != m {
        assert(ascii_lower(s@).len() != t@.len());
        return false;
    }
    let r = lowered_matches_at(s, t, 0, n, m);
    assert(ascii_lower(s@).subrange(0, n as int) =~= ascii_lower(s@));
    r
}


/// Strictly increasing texts hold no text twice.
pub proof fn lemma_strictly_sorted_no_duplicates(v: Seq<Seq<char>>)
    requires
        strictly_sorted_texts(v),
    ensures
        v.no_duplicates(),
        v.to_set().len() == v.len(),
{
    assert forall|i: int, j: int| 0 <= i < v.len() && 0 <= j < v.len() && i != j implies v[i] != v[j] by {
        if i < j {
            assert(text_lt(v[i], v[j]));
        } else {
            assert(text_lt(v[j], v[i]));
        }
        lemma_text_lt_irreflexive(v[i]);
    }
    v.unique_seq_to_set();
}

/// Whether `s` is one of the texts of `v`.
pub fn has_text(v: &Vec<String>, s: &str) -> (r: bool)
    ensures
        r == views(v@).contains(s@),
{
    let t = text(s);
    let mut i: usize = 0;
    while i < v.len()
        invariant
            i <= v@.len(),
            t@ == s@,
            forall|k: int| 0 <= k < i ==> #[trigger] views(v@)[k] != s@,
        decreases v@.len() - i,
    {
        if same_text(&v[i], &t) {
            assert(views(v@)[i as int] == s@);
            return true;
        }
        i = i + 1;
    }
    proof {
        if views(v@).contains(s@) {
            let k = choose|k: int| 0 <= k < views(v@).len() && views(v@)[k] == s@;
            assert(views(v@)[k] != s@);
        }
    }
    false
}

/// The texts of `src` that `excl` does not hold, in their order.
pub fn texts_not_in(src: &Vec<String>, excl: &Vec<String>) -> (r: Vec<String>)
    requires
        strictly_sorted_texts(views(src@)),
    ensures
        strictly_sorted_texts(views(r@)),
        views(r@).to_set() == views(src@).to_set().difference(views(excl@).to_set()),
{
    let ghost sv = views(src@);
    let ghost ev = views(excl@);
    let mut out: Vec<String> = Vec::new();
    let mut i: usize = 0;
    while i < src.len()
        invariant
            i <= src@.len(),
            sv == views(src@),
            ev == views(excl@),
            strictly_sorted_texts(sv),
            strictly_sorted_texts(views(out@)),
            forall|m: int, j: int|
                0 <= m < out@.len() && i <= j < sv.len() ==> text_lt(#[trigger] views(out@)[m], #[trigger] sv[j]),
            views(out@).to_set() == sv.subrange(0, i as int).to_set().difference(ev.to_set()),
        decreases src@.len() - i,
    {
        let ghost before = views(out@);
        let keep = !has_text(excl, src[i].as_str());
        if keep {
            out.push(src[i].clone());
        }
        proof {
            let now = views(out@);
            if keep {
                assert(now =~= before.push(sv[i as int]));
            } else {
                assert(now =~= before);
            }
            assert(sv.subrange(0, i + 1) =~= sv.subrange(0, i as int).push(sv[i as int]));
            assert forall|m: int, j: int|
                0 <= m < now.len() && i + 1 <= j < sv.len() implies text_lt(#[trigger] now[m], #[trigger] sv[j]) by {
                if keep && m == now.len() - 1 {
                    assert(text_lt(sv[i as int], sv[j]));
                } else {
                    assert(now[m] == before[m]);
                }
            }
            assert forall|a: int, b: int| 0 <= a < b < now.len() implies text_lt(#[trigger] now[a], #[trigger] now[b]) by {
                if keep && b == now.len() - 1 {
                    assert(now[a] == before[a]);
                } else {
                    assert(now[a] == before[a]);
                    assert(now[b] == before[b]);
                }
            }
            let prev = sv.subrange(0, i as int);
            let next = sv.subrange(0, i + 1);
            assert forall|x: Seq<char>| #[trigger] now.to_set().contains(x) <==> next.to_set().difference(ev.to_set()).contains(x) by {
                if now.contains(x) {
                    let m = choose|m: int| 0 <= m < now.len() && now[m] == x;
                    if keep && m == now.len() - 1 {
                        assert(next[i as int] == x);
                    } else {
                        assert(before[m] == x);
                        assert(before.to_set().contains(x));
                        assert(prev.contains(x));
                        let k = choose|k: int| 0 <= k < prev.len() && prev[k] == x;
                        assert(next[k] == x);
                    }
                }
                if next.contains(x) && !ev.contains(x) {
                    let k = choose|k: int| 0 <= k < next.len() && next[k] == x;
                    if k == i {
                        assert(now[now.len() - 1] == x);
                    } else {
                        assert(prev[k] == x);
                        assert(prev.to_set().difference(ev.to_set()).contains(x));
                        assert(before.contains(x));
                        let m = choose|m: int| 0 <= m < before.len() && before[m] == x;
                        assert(now[m] == x);
                    }
                }
            }
            assert(now.to_set() =~= next.to_set().difference(ev.to_set()));
        }
        i = i + 1;
    }
    assert(sv.subrange(0, src@.len() as int) =~= sv);
    out
}

/// A copy of a vector of texts.
pub fn copy_texts(v: &Vec<String>) -> (r: Vec<String>)
    ensures
        r@ == v@,
{
    let mut out: Vec<String> = Vec::new();
    let mut i: usize = 0;
    while i < v.len()
        invariant
            i <= v@.len(),
            out@ == v@.subrange(0, i as int),
        decreases v@.len() - i,
    {
        out.push(v[i].clone());
        i = i + 1;
        assert(out@ =~= v@.subrange(0, i as int));
    }
    assert(v@.subrange(0, v@.len() as int) =~= v@);
    out
}


/// The texts of a finite set in increasing order (what a `BTreeSet` of them
/// yields).
pub open spec fn listing(s: Set<Seq<char>>) -> Seq<Seq<char>> {
    choose|v: Seq<Seq<char>>| strictly_sorted_texts(v) && v.to_set() == s
}

proof fn lemma_to_seq_no_duplicates(s: Set<Seq<char>>)
    requires
        s.finite(),
    ensures
        s.to_seq().no_duplicates(),
        s.to_seq().to_set() == s,
    decreases s.len(),
{
    s.lemma_to_seq_to_set_id();
    if s.len() > 0 {
        let x = s.choose();
        let r = s.remove(x);
        lemma_to_seq_no_duplicates(r);
        let t = s.to_seq();
        assert(t == Seq::<Seq<char>>::empty().push(x) + r.to_seq());
        assert forall|i: int, j: int| 0 <= i < t.len() && 0 <= j < t.len() && i != j implies t[i] != t[j] by {
            if i == 0 && j > 0 {
                assert(r.to_seq().contains(t[j]));
                assert(r.to_seq().to_set().contains(t[j]));
            } else if j == 0 && i > 0 {
                assert(r.to_seq().contains(t[i]));
                assert(r.to_seq().to_set().contains(t[i]));
            } else if i > 0 && j > 0 {
                assert(t[i] == r.to_seq()[i - 1] && t[j] == r.to_seq()[j - 1]);
            }
        }
    }
}

/// The order `listing` sorts by: equal, or before in text order.
pub open spec fn text_le() -> spec_fn(Seq<char>, Seq<char>) -> bool {
    |a: Seq<char>, b: Seq<char>| a == b || text_lt(a, b)
}

proof fn lemma_text_le_total()
    ensures
        vstd::relations::total_ordering(text_le()),
{
    let le = text_le();
    assert forall|a: Seq<char>, b: Seq<char>| #[trigger] le(a, b) && #[trigger] le(b, a) implies a == b by {
        if a != b {
            lemma_text_lt_transitive(a, b, a);
            lemma_text_lt_irreflexive(a);
        }
    }
    assert forall|a: Seq<char>, b: Seq<char>, c: Seq<char>| #[trigger] le(a, b) && #[trigger] le(b, c) implies le(a, c) by {
        if a != b && b != c {
            lemma_text_lt_transitive(a, b, c);
        }
    }
    assert forall|a: Seq<char>, b: Seq<char>| #[trigger] le(a, b) || #[trigger] le(b, a) by {
        if a != b {
            lemma_text_lt_total(a, b);
        }
    }
    assert(vstd::relations::reflexive(le));
    assert(vstd::relations::antisymmetric(le));
    assert(vstd::relations::transitive(le));
    assert(vstd::relations::strongly_connected(le));
}

/// Every finite set of texts has a listing: its texts in increasing order,
/// each once.
pub proof fn lemma_listing_exists(s: Set<Seq<char>>)
    requires
        s.finite(),
    ensures
        strictly_sorted_texts(listing(s)),
        listing(s).to_set() == s,
{
    broadcast use vstd::seq_lib::group_to_multiset_ensures;
    lemma_to_seq_no_duplicates(s);
    lemma_text_le_total();
    let v = s.to_seq();
    let w = v.sort_by(text_le());
    v.lemma_sort_by_ensures(text_le());
    v.lemma_multiset_has_no_duplicates();
    assert forall|x: Seq<char>| w.to_multiset().contains(x) implies w.to_multiset().count(x) == 1 by {
        assert(v.to_multiset().count(x) == w.to_multiset().count(x));
    }
    w.lemma_multiset_has_no_duplicates_conv();
    assert forall|i: int, j: int| 0 <= i < j < w.len() implies text_lt(#[trigger] w[i], #[trigger] w[j]) by {
        assert(text_le()(w[i], w[j]));
        assert(w[i] != w[j]);
    }
    assert forall|x: Seq<char>| w.to_set().contains(x) <==> s.contains(x) by {
        assert(w.contains(x) <==> w.to_multiset().contains(x));
        assert(v.contains(x) <==> v.to_multiset().contains(x));
        assert(v.to_set().contains(x) <==> v.contains(x));
    }
    assert(w.to_set() =~= s);
    assert(strictly_sorted_texts(w) && w.to_set() == s);
}

/// An increasing sequence of texts is the listing of its set.
pub proof fn lemma_listing(v: Seq<Seq<char>>)
    requires
        strictly_sorted_texts(v),
    ensures
        listing(v.to_set()) == v,
{
    let w = listing(v.to_set());
    assert(strictly_sorted_texts(w) && w.to_set() == v.to_set());
    lemma_strictly_sorted_texts_unique(w, v);
}


// ── stable sorting by a text key ─────────────────────────────────────────────

/// `x` inserted into `s` before the first element whose key sorts after
/// `x`'s key.
pub open spec fn insert_keyed<T>(s: Seq<T>, x: T, key: spec_fn(T) -> Seq<char>) -> Seq<T>
    decreases s.len(),
{
    if s.len() == 0 {
        seq![x]
    } else if text_lt(key(x), key(s[0])) {
        seq![x] + s
    } else {
        seq![s[0]] + insert_keyed(s.drop_first(), x, key)
    }
}

/// `s` ordered by key, elements with equal keys kept in their order (a
/// stable sort).
pub open spec fn keyed_sorted<T>(s: Seq<T>, key: spec_fn(T) -> Seq<char>) -> Seq<T>
    decreases s.len(),
{
    if s.len() == 0 {
        Seq::empty()
    } else {
        insert_keyed(keyed_sorted(s.drop_last(), key), s.last(), key)
    }
}

/// A text is its own key.
pub open spec fn text_key() -> spec_fn(Seq<char>) -> Seq<char> {
    |t: Seq<char>| t
}

/// Where `insert_keyed` puts `x`: after every element whose key does not
/// sort after `x`'s.
pub proof fn lemma_insert_keyed_at<T>(s: Seq<T>, x: T, key: spec_fn(T) -> Seq<char>, p: int)
    requires
        0 <= p <= s.len(),
        forall|k: int| 0 <= k < p ==> !text_lt(key(x), #[trigger] key(s[k])),
        p < s.len() ==> text_lt(key(x), key(s[p])),
    ensures
        insert_keyed(s, x, key) == s.subrange(0, p) + seq![x] + s.subrange(p, s.len() as int),
    decreases p,
{
    if p == 0 {
        if s.len() == 0 {
            assert(s.subrange(0, 0) + seq![x] + s.subrange(0, 0) =~= seq![x]);
        } else {
            assert(s.subrange(0, 0) + seq![x] + s.subrange(0, s.len() as int) =~= seq![x] + s);
        }
    } else {
        let t = s.drop_first();
        assert forall|k: int| 0 <= k < p - 1 implies !text_lt(key(x), #[trigger] key(t[k])) by {
            assert(t[k] == s[k + 1]);
        }
        if p - 1 < t.len() {
            assert(t[p - 1] == s[p]);
        }
        lemma_insert_keyed_at(t, x, key, p - 1);
        assert(s.subrange(0, p) + seq![x] + s.subrange(p, s.len() as int) =~= seq![s[0]] + (t.subrange(
            0,
            p - 1,
        ) + seq![x] + t.subrange(p - 1, t.len() as int)));
    }
}

/// The texts of `v` in increasing order (with repeats).
pub fn sorted_text_copy(v: &Vec<String>) -> (r: Vec<String>)
    ensures
        views(r@) == keyed_sorted(views(v@), text_key()),
{
    let ghost s = views(v@);
    let mut out: Vec<String> = Vec::new();
    let mut i: usize = 0;
    while i < v.len()
        invariant
            s == views(v@),
            i <= s.len(),
            views(out@) == keyed_sorted(s.subrange(0, i as int), text_key()),
        decreases s.len() - i,
    {
        let x = v[i].clone();
        let mut p: usize = 0;
        while p < out.len() && !less_than(x.as_str(), out[p].as_str())
            invariant
                p <= out@.len(),
                forall|k: int| 0 <= k < p ==> !text_lt(x@, #[trigger] views(out@)[k]),
            decreases out@.len() - p,
        {
            p = p + 1;
        }
        let ghost before = views(out@);
        proof {
            lemma_insert_keyed_at(before, x@, text_key(), p as int);
            let t = s.subrange(0, i + 1);
            assert(t.drop_last() =~= s.subrange(0, i as int));
        }
        out.insert(p, x);
        proof {
            assert(views(out@) =~= before.subrange(0, p as int) + seq![x@] + before.subrange(
                p as int,
                before.len() as int,
            ));
        }
        i = i + 1;
        assert(views(out@) =~= keyed_sorted(s.subrange(0, i as int), text_key()));
    }
    assert(s.subrange(0, s.len() as int) =~= s);
    out
}


pub proof fn lemma_insert_keyed_contents<T>(s: Seq<T>, x: T, key: spec_fn(T) -> Seq<char>)
    ensures
        insert_keyed(s, x, key).len() == s.len() + 1,
        forall|y: T| #[trigger] insert_keyed(s, x, key).contains(y) ==> s.contains(y) || y == x,
    decreases s.len(),
{
    if s.len() > 0 && !text_lt(key(x), key(s[0])) {
        lemma_insert_keyed_contents(s.drop_first(), x, key);
        assert forall|y: T| #[trigger] insert_keyed(s, x, key).contains(y) implies s.contains(y) || y == x by {
            let r = insert_keyed(s, x, key);
            let k = choose|k: int| 0 <= k < r.len() && r[k] == y;
            if k == 0 {
                assert(s[0] == y);
            } else {
                let t = insert_keyed(s.drop_first(), x, key);
                assert(t[k - 1] == y);
                assert(t.contains(y));
                if s.drop_first().contains(y) {
                    let m = choose|m: int| 0 <= m < s.drop_first().len() && s.drop_first()[m] == y;
                    assert(s[m + 1] == y);
                }
            }
        }
    } else if s.len() > 0 {
        assert forall|y: T| #[trigger] insert_keyed(s, x, key).contains(y) implies s.contains(y) || y == x by {
            let r = insert_keyed(s, x, key);
            let k = choose|k: int| 0 <= k < r.len() && r[k] == y;
            if k > 0 {
                assert(s[k - 1] == y);
            }
        }
    } else {
        assert forall|y: T| #[trigger] insert_keyed(s, x, key).contains(y) implies s.contains(y) || y == x by {
            let r = insert_keyed(s, x, key);
            let k = choose|k: int| 0 <= k < r.len() && r[k] == y;
        }
    }
}

/// Sorting keeps the length and draws every element from the input.
pub proof fn lemma_keyed_sorted_contents<T>(s: Seq<T>, key: spec_fn(T) -> Seq<char>)
    ensures
        keyed_sorted(s, key).len() == s.len(),
        forall|y: T| #[trigger] keyed_sorted(s, key).contains(y) ==> s.contains(y),
    decreases s.len(),
{
    if s.len() > 0 {
        lemma_keyed_sorted_contents(s.drop_last(), key);
        lemma_insert_keyed_contents(keyed_sorted(s.drop_last(), key), s.last(), key);
        assert forall|y: T| #[trigger] keyed_sorted(s, key).contains(y) implies s.contains(y) by {
            if keyed_sorted(s.drop_last(), key).contains(y) {
                assert(s.drop_last().contains(y));
                let m = choose|m: int| 0 <= m < s.drop_last().len() && s.drop_last()[m] == y;
                assert(s[m] == y);
            } else {
                assert(s[s.len() - 1] == y);
            }
        }
    }
}


// ── stable sorting by a strict order ─────────────────────────────────────────

/// `x` inserted into `s` before the first element that `x` goes before.
pub open spec fn insert_ordered<T>(s: Seq<T>, x: T, before: spec_fn(T, T) -> bool) -> Seq<T>
    decreases s.len(),
{
    if s.len() == 0 {
        seq![x]
    } else if before(x, s[0]) {
        seq![x] + s
    } else {
        seq![s[0]] + insert_ordered(s.drop_first(), x, before)
    }
}

/// `s` sorted by `before`, elements that neither goes before kept in their
/// order (a stable sort).
pub open spec fn ordered<T>(s: Seq<T>, before: spec_fn(T, T) -> bool) -> Seq<T>
    decreases s.len(),
{
    if s.len() == 0 {
        Seq::empty()
    } else {
        insert_ordered(ordered(s.drop_last(), before), s.last(), before)
    }
}

pub proof fn lemma_insert_ordered_at<T>(s: Seq<T>, x: T, before: spec_fn(T, T) -> bool, p: int)
    requires
        0 <= p <= s.len(),
        forall|k: int| 0 <= k < p ==> !before(x, #[trigger] s[k]),
        p < s.len() ==> before(x, s[p]),
    ensures
        insert_ordered(s, x, before) == s.subrange(0, p) + seq![x] + s.subrange(p, s.len() as int),
    decreases p,
{
    if p == 0 {
        if s.len() == 0 {
            assert(s.subrange(0, 0) + seq![x] + s.subrange(0, 0) =~= seq![x]);
        } else {
            assert(s.subrange(0, 0) + seq![x] + s.subrange(0, s.len() as int) =~= seq![x] + s);
        }
    } else {
        let t = s.drop_first();
        assert forall|k: int| 0 <= k < p - 1 implies !before(x, #[trigger] t[k]) by {
            assert(t[k] == s[k + 1]);
        }
        if p - 1 < t.len() {
            assert(t[p - 1] == s[p]);
        }
        lemma_insert_ordered_at(t, x, before, p - 1);
        assert(s.subrange(0, p) + seq![x] + s.subrange(p, s.len() as int) =~= seq![s[0]] + (t.subrange(
            0,
            p - 1,
        ) + seq![x] + t.subrange(p - 1, t.len() as int)));
    }
}

} // verus!
