//! The text header encoding: structured UTF-8 text with field names
//! preserved, in object notation.  Strings are quoted with the quote,
//! backslash and control characters escaped; optional fields encode as
//! `null`; lists as comma-separated arrays; headers as objects with a fixed
//! field order.  The decoder accepts exactly the canonical text the encoder
//! emits, and decoding an encoded header always gives the header back.

use vstd::prelude::*;
use vstd::utf8::char_u32_cast;

use crate::codec_binary::key_body_path;
use crate::codec_binary::key_category;
use crate::codec_binary::key_covered_elements;
use crate::codec_binary::key_covered_relations;
use crate::codec_binary::key_dst;
use crate::codec_binary::key_dst_port;
use crate::codec_binary::key_elements;
use crate::codec_binary::key_label;
use crate::codec_binary::key_model_paths;
use crate::codec_binary::key_relations;
use crate::codec_binary::key_src;
use crate::codec_binary::key_src_port;
use crate::codec_binary::lemma_key_views;
use crate::strutil::chars_to_string;
use crate::strutil::string_chars;

verus! {

// ---------------------------------------------------------------------------
// Characters and escapes.
// ---------------------------------------------------------------------------

/// The hexadecimal digit character for a value below sixteen.
pub open spec fn hex_char(n: int) -> char {
    if n == 0 {
        '0'
    } else if n == 1 {
        '1'
    } else if n == 2 {
        '2'
    } else if n == 3 {
        '3'
    } else if n == 4 {
        '4'
    } else if n == 5 {
        '5'
    } else if n == 6 {
        '6'
    } else if n == 7 {
        '7'
    } else if n == 8 {
        '8'
    } else if n == 9 {
        '9'
    } else if n == 10 {
        'a'
    } else if n == 11 {
        'b'
    } else if n == 12 {
        'c'
    } else if n == 13 {
        'd'
    } else if n == 14 {
        'e'
    } else {
        'f'
    }
}

/// The value of a hexadecimal digit character; sixteen when it is none.
pub open spec fn hex_val(c: char) -> int {
    if '0' <= c <= '9' {
        (c as u32) - ('0' as u32)
    } else if 'a' <= c <= 'f' {
        (c as u32) - ('a' as u32) + 10
    } else {
        16
    }
}

/// Reading a written hexadecimal digit gives its value back.
proof fn lemma_hex_round_trip(n: int)
    requires
        0 <= n < 16,
    ensures
        hex_val(hex_char(n)) == n,
{
}

/// The escape of one character: quote and backslash get a backslash escape,
/// control characters a four-digit escape, anything else stands as itself.
pub open spec fn esc_char(c: char) -> Seq<char> {
    if c == '"' {
        seq!['\\', '"']
    } else if c == '\\' {
        seq!['\\', '\\']
    } else if (c as u32) < 0x20 {
        seq!['\\', 'u', '0', '0', hex_char((c as u32) as int / 16), hex_char((c as u32) as int % 16)]
    } else {
        seq![c]
    }
}

/// The escaped body of a string.
pub open spec fn esc(s: Seq<char>) -> Seq<char>
    decreases s.len(),
{
    if s.len() == 0 {
        Seq::empty()
    } else {
        esc_char(s.first()) + esc(s.drop_first())
    }
}

/// A quoted string.
pub open spec fn enc_txt_str(s: Seq<char>) -> Seq<char> {
    seq!['"'] + esc(s) + seq!['"']
}

/// Scan a quoted string's body from position `i` until its closing quote,
/// unescaping onto `acc`.
pub open spec fn dec_txt_str_body(b: Seq<char>, i: int, acc: Seq<char>) -> Option<
    (Seq<char>, int),
>
    decreases b.len() - i,
{
    if !(0 <= i < b.len()) {
        None
    } else if b[i] == '"' {
        Some((acc, i + 1))
    } else if b[i] == '\\' {
        if i + 1 >= b.len() {
            None
        } else if b[i + 1] == '"' {
            dec_txt_str_body(b, i + 2, acc.push('"'))
        } else if b[i + 1] == '\\' {
            dec_txt_str_body(b, i + 2, acc.push('\\'))
        } else if b[i + 1] == 'u' {
            if i + 6 > b.len() {
                None
            } else if b[i + 2] == '0' && b[i + 3] == '0' && hex_val(b[i + 4]) < 16 && hex_val(
                b[i + 5],
            ) < 16 && hex_val(b[i + 4]) * 16 + hex_val(b[i + 5]) < 0x20 {
                dec_txt_str_body(
                    b,
                    i + 6,
                    acc.push((((hex_val(b[i + 4]) * 16 + hex_val(b[i + 5])) as u32) as char)),
                )
            } else {
                None
            }
        } else {
            None
        }
    } else {
        dec_txt_str_body(b, i + 1, acc.push(b[i]))
    }
}

/// Decode a quoted string at position `i`.
pub open spec fn dec_txt_str(b: Seq<char>, i: int) -> Option<(Seq<char>, int)> {
    if 0 <= i < b.len() && b[i] == '"' {
        dec_txt_str_body(b, i + 1, Seq::empty())
    } else {
        None
    }
}

/// A buffer that carries the escaped body of `s` followed by a closing quote
/// scans to `acc` extended with `s`.
proof fn lemma_dec_txt_str_body(b: Seq<char>, i: int, s: Seq<char>, acc: Seq<char>)
    requires
        0 <= i,
        i + esc(s).len() + 1 <= b.len(),
        b.subrange(i, i + esc(s).len() + 1) == esc(s) + seq!['"'],
    ensures
        dec_txt_str_body(b, i, acc) == Some((acc + s, i + esc(s).len() + 1)),
    decreases s.len(),
{
    if s.len() == 0 {
        assert(b[i] == (esc(s) + seq!['"'])[0]);
        assert(acc + s =~= acc);
    } else {
        let c = s.first();
        let e0 = esc_char(c);
        let erest = esc(s.drop_first());
        assert(esc(s) == e0 + erest);
        assert forall|k: int| 0 <= k < e0.len() implies b[i + k] == e0[k] by {
            assert(b.subrange(i, i + esc(s).len() + 1)[k] == b[i + k]);
            assert((esc(s) + seq!['"'])[k] == e0[k]);
        }
        assert(b.subrange(i + e0.len(), i + e0.len() + erest.len() + 1) =~= erest + seq!['"']) by {
            assert forall|k: int| 0 <= k < erest.len() + 1 implies b[i + e0.len() + k] == (erest
                + seq!['"'])[k] by {
                assert(b.subrange(i, i + esc(s).len() + 1)[e0.len() + k] == b[i + e0.len() + k]);
                assert((esc(s) + seq!['"'])[e0.len() + k] == (erest + seq!['"'])[k]);
            }
        }
        lemma_dec_txt_str_body(b, i + e0.len(), s.drop_first(), acc.push(c));
        assert(acc.push(c) + s.drop_first() =~= acc + s);
        if c == '"' {
            assert(b[i] == '\\' && b[i + 1] == '"');
        } else if c == '\\' {
            assert(b[i] == '\\' && b[i + 1] == '\\');
        } else if (c as u32) < 0x20 {
            let hi = ((c as u32) as int) / 16;
            let lo = ((c as u32) as int) % 16;
            assert(b[i] == '\\' && b[i + 1] == 'u' && b[i + 2] == '0' && b[i + 3] == '0');
            assert(b[i + 4] == hex_char(hi) && b[i + 5] == hex_char(lo));
            lemma_hex_round_trip(hi);
            lemma_hex_round_trip(lo);
            assert(hex_val(b[i + 4]) * 16 + hex_val(b[i + 5]) == c as u32);
            char_u32_cast(c, c as u32);
            assert((((hex_val(b[i + 4]) * 16 + hex_val(b[i + 5])) as u32) as char) == c);
            assert(hex_char(hi) != '"');
            assert(hex_char(hi) != '\\');
        } else {
            assert(b[i + 0] == e0[0]);
            assert(e0[0] == c);
            assert(c != '"' && c != '\\');
        }
    }
}

/// A buffer that carries the quoted form of `s` at position `i` decodes to
/// `s` there.
pub proof fn lemma_dec_txt_str(b: Seq<char>, i: int, s: Seq<char>)
    requires
        0 <= i,
        i + enc_txt_str(s).len() <= b.len(),
        b.subrange(i, i + enc_txt_str(s).len()) == enc_txt_str(s),
    ensures
        dec_txt_str(b, i) == Some((s, i + enc_txt_str(s).len())),
{
    let e = enc_txt_str(s);
    assert(b[i] == e[0]);
    assert(b.subrange(i + 1, i + 1 + esc(s).len() + 1) =~= esc(s) + seq!['"']) by {
        assert forall|k: int| 0 <= k < esc(s).len() + 1 implies b[i + 1 + k] == (esc(s)
            + seq!['"'])[k] by {
            assert(b.subrange(i, i + e.len())[1 + k] == b[i + 1 + k]);
            assert(e[1 + k] == (esc(s) + seq!['"'])[k]);
        }
    }
    lemma_dec_txt_str_body(b, i + 1, s, Seq::empty());
    assert(Seq::<char>::empty() + s =~= s);
}

// ---------------------------------------------------------------------------
// Splitting, optional strings, keys.
// ---------------------------------------------------------------------------

/// A buffer that carries `s1 + s2` at position `i` carries `s1` there and
/// `s2` right after it.
proof fn lemma_split_chars(b: Seq<char>, i: int, s1: Seq<char>, s2: Seq<char>)
    requires
        0 <= i,
        i + s1.len() + s2.len() <= b.len(),
        b.subrange(i, i + s1.len() + s2.len()) == s1 + s2,
    ensures
        b.subrange(i, i + s1.len()) == s1,
        b.subrange(i + s1.len(), i + s1.len() + s2.len()) == s2,
{
    assert forall|k: int| 0 <= k < s1.len() implies b[i + k] == s1[k] by {
        assert(b.subrange(i, i + s1.len() + s2.len())[k] == b[i + k]);
        assert((s1 + s2)[k] == s1[k]);
    }
    assert forall|k: int| 0 <= k < s2.len() implies b[i + s1.len() + k] == s2[k] by {
        assert(b.subrange(i, i + s1.len() + s2.len())[s1.len() + k] == b[i + s1.len() + k]);
        assert((s1 + s2)[s1.len() + k] == s2[k]);
    }
    assert(b.subrange(i, i + s1.len()) =~= s1);
    assert(b.subrange(i + s1.len(), i + s1.len() + s2.len()) =~= s2);
}

/// An optional string: `null`, or a quoted string.
pub open spec fn enc_txt_opt_str(o: Option<Seq<char>>) -> Seq<char> {
    match o {
        Some(s) => enc_txt_str(s),
        None => seq!['n', 'u', 'l', 'l'],
    }
}

/// Decode an optional string at position `i`.
pub open spec fn dec_txt_opt_str(b: Seq<char>, i: int) -> Option<(Option<Seq<char>>, int)> {
    if 0 <= i && i + 4 <= b.len() && b[i] == 'n' {
        if b[i + 1] == 'u' && b[i + 2] == 'l' && b[i + 3] == 'l' {
            Some((None, i + 4))
        } else {
            None
        }
    } else {
        match dec_txt_str(b, i) {
            Some((s, j)) => Some((Some(s), j)),
            None => None,
        }
    }
}

/// A buffer that carries an encoded optional string at position `i` decodes
/// to it there.
pub proof fn lemma_dec_txt_opt_str(b: Seq<char>, i: int, o: Option<Seq<char>>)
    requires
        0 <= i,
        i + enc_txt_opt_str(o).len() <= b.len(),
        b.subrange(i, i + enc_txt_opt_str(o).len()) == enc_txt_opt_str(o),
    ensures
        dec_txt_opt_str(b, i) == Some((o, i + enc_txt_opt_str(o).len())),
{
    match o {
        Some(s) => {
            assert(b[i] == enc_txt_str(s)[0]);
            lemma_dec_txt_str(b, i, s);
        },
        None => {
            assert(b[i] == enc_txt_opt_str(o)[0]);
            assert(b[i + 1] == enc_txt_opt_str(o)[1]);
            assert(b[i + 2] == enc_txt_opt_str(o)[2]);
            assert(b[i + 3] == enc_txt_opt_str(o)[3]);
        },
    }
}

/// A field key: the quoted key followed by a colon.
pub open spec fn enc_txt_key(key: Seq<char>) -> Seq<char> {
    enc_txt_str(key) + seq![':']
}

/// Decode the quoted string at `i`, accept it only as the given key, and
/// pass the colon after it.
pub open spec fn dec_txt_key(b: Seq<char>, i: int, key: Seq<char>) -> Option<int> {
    match dec_txt_str(b, i) {
        Some((s, j)) => if s == key && j < b.len() && b[j] == ':' {
            Some(j + 1)
        } else {
            None
        },
        None => None,
    }
}

/// A buffer that carries the encoded key at `i` passes the key check.
proof fn lemma_dec_txt_key(b: Seq<char>, i: int, key: Seq<char>)
    requires
        0 <= i,
        i + enc_txt_key(key).len() <= b.len(),
        b.subrange(i, i + enc_txt_key(key).len()) == enc_txt_key(key),
    ensures
        dec_txt_key(b, i, key) == Some(i + enc_txt_key(key).len()),
{
    lemma_split_chars(b, i, enc_txt_str(key), seq![':']);
    lemma_dec_txt_str(b, i, key);
    assert(b[i + enc_txt_str(key).len()] == b.subrange(
        i + enc_txt_str(key).len(),
        i + enc_txt_str(key).len() + 1,
    )[0]);
}

// ---------------------------------------------------------------------------
// Executable characters, strings, optional strings.
// ---------------------------------------------------------------------------

/// The hexadecimal digit character of a value below sixteen.
fn hex_digit(n: u32) -> (c: char)
    requires
        n < 16,
    ensures
        c == hex_char(n as int),
{
    if n == 0 {
        '0'
    } else if n == 1 {
        '1'
    } else if n == 2 {
        '2'
    } else if n == 3 {
        '3'
    } else if n == 4 {
        '4'
    } else if n == 5 {
        '5'
    } else if n == 6 {
        '6'
    } else if n == 7 {
        '7'
    } else if n == 8 {
        '8'
    } else if n == 9 {
        '9'
    } else if n == 10 {
        'a'
    } else if n == 11 {
        'b'
    } else if n == 12 {
        'c'
    } else if n == 13 {
        'd'
    } else if n == 14 {
        'e'
    } else {
        'f'
    }
}

/// The value of a hexadecimal digit character; sixteen when it is none.
fn hex_value(c: char) -> (n: u32)
    ensures
        n as int == hex_val(c),
{
    let u = c as u32;
    if '0' <= c && c <= '9' {
        u - ('0' as u32)
    } else if 'a' <= c && c <= 'f' {
        u - ('a' as u32) + 10
    } else {
        16
    }
}

/// Relies on `char::from_u32`: it returns the character of a Unicode scalar
/// value, and nothing for a surrogate or out-of-range value.
#[verifier::external_body]
fn char_of_u32(u: u32) -> (c: Option<char>)
    ensures
        c is Some <==> (u < 0xD800 || (0xE000 <= u && u <= 0x10FFFF)),
        c matches Some(ch) ==> ch == u as char,
{
    char::from_u32(u)
}

/// Appending one more character to a string appends its escape to the
/// string's escaped body.
proof fn lemma_esc_snoc(s: Seq<char>, c: char)
    ensures
        esc(s.push(c)) == esc(s) + esc_char(c),
    decreases s.len(),
{
    if s.len() == 0 {
        assert(s.push(c).drop_first() =~= s);
        assert(esc(s.push(c)) =~= esc(s) + esc_char(c));
    } else {
        assert(s.push(c).first() == s.first());
        assert(s.push(c).drop_first() =~= s.drop_first().push(c));
        lemma_esc_snoc(s.drop_first(), c);
        assert(esc(s.push(c)) =~= esc(s) + esc_char(c));
    }
}

/// Append the quoted form of `s`.
fn encode_txt_str_into(out: &mut Vec<char>, s: &String)
    ensures
        final(out)@ == old(out)@ + enc_txt_str(s@),
{
    let chars = string_chars(s);
    out.push('"');
    let ghost base = out@;
    let mut i: usize = 0;
    while i < chars.len()
        invariant
            i <= chars.len(),
            chars@ == s@,
            out@ == base + esc(s@.take(i as int)),
        decreases chars.len() - i,
    {
        let ghost before = out@;
        let c = chars[i];
        let u = c as u32;
        if c == '"' {
            out.push('\\');
            out.push('"');
        } else if c == '\\' {
            out.push('\\');
            out.push('\\');
        } else if u < 0x20 {
            out.push('\\');
            out.push('u');
            out.push('0');
            out.push('0');
            out.push(hex_digit(u / 16));
            out.push(hex_digit(u % 16));
        } else {
            out.push(c);
        }
        proof {
            assert(out@ =~= before + esc_char(c));
            lemma_esc_snoc(s@.take(i as int), c);
            assert(s@.take(i as int).push(c) =~= s@.take(i as int + 1));
            assert(out@ =~= base + esc(s@.take(i as int + 1)));
        }
        i += 1;
    }
    out.push('"');
    proof {
        assert(s@.take(s@.len() as int) =~= s@);
        assert(out@ =~= old(out)@ + enc_txt_str(s@));
    }
}

/// Append the form of the optional string `o`.
fn encode_txt_opt_str_into(out: &mut Vec<char>, o: &Option<String>)
    ensures
        final(out)@ == old(out)@ + enc_txt_opt_str(o.deep_view()),
{
    match o {
        Some(s) => encode_txt_str_into(out, s),
        None => {
            out.push('n');
            out.push('u');
            out.push('l');
            out.push('l');
            proof {
                assert(final(out)@ =~= old(out)@ + enc_txt_opt_str(o.deep_view()));
            }
        },
    }
}

/// Decode the quoted string at position `i`.
#[verifier::rlimit(100)]
fn decode_txt_str_at(v: &Vec<char>, i: usize) -> (r: Option<(String, usize)>)
    ensures
        match r {
            Some((s, j)) => dec_txt_str(v@, i as int) == Some((s@, j as int)),
            None => dec_txt_str(v@, i as int) is None,
        },
{
    if i >= v.len() || v[i] != '"' {
        return None;
    }
    let mut acc: Vec<char> = Vec::new();
    proof {
        assert(acc@ =~= Seq::<char>::empty());
    }
    let mut pos: usize = i + 1;
    loop
        invariant
            i < v@.len(),
            v@[i as int] == '"',
            i as int + 1 <= pos as int <= v@.len(),
            dec_txt_str_body(v@, i as int + 1, Seq::empty()) == dec_txt_str_body(
                v@,
                pos as int,
                acc@,
            ),
        decreases v@.len() - pos,
    {
        if pos >= v.len() {
            return None;
        }
        let c = v[pos];
        if c == '"' {
            let s = chars_to_string(&acc);
            return Some((s, pos + 1));
        } else if c == '\\' {
            if pos + 1 >= v.len() {
                return None;
            }
            let e = v[pos + 1];
            if e == '"' {
                acc.push('"');
                pos = pos + 2;
            } else if e == '\\' {
                acc.push('\\');
                pos = pos + 2;
            } else if e == 'u' {
                if v.len() - pos < 6 {
                    return None;
                }
                if v[pos + 2] != '0' || v[pos + 3] != '0' {
                    return None;
                }
                let h1 = hex_value(v[pos + 4]);
                let h2 = hex_value(v[pos + 5]);
                if h1 >= 16 || h2 >= 16 || h1 * 16 + h2 >= 0x20 {
                    return None;
                }
                match char_of_u32(h1 * 16 + h2) {
                    Some(ch) => {
                        acc.push(ch);
                        pos = pos + 6;
                    },
                    None => {
                        return None;
                    },
                }
            } else {
                return None;
            }
        } else {
            acc.push(c);
            pos = pos + 1;
        }
    }
}

/// Decode the optional string at position `i`.
fn decode_txt_opt_str_at(v: &Vec<char>, i: usize) -> (r: Option<(Option<String>, usize)>)
    ensures
        match r {
            Some((o, j)) => dec_txt_opt_str(v@, i as int) == Some((o.deep_view(), j as int)),
            None => dec_txt_opt_str(v@, i as int) is None,
        },
{
    if i < v.len() && v[i] == 'n' {
        if v.len() - i >= 4 && v[i + 1] == 'u' && v[i + 2] == 'l' && v[i + 3] == 'l' {
            return Some((None, i + 4));
        }
        return None;
    }
    match decode_txt_str_at(v, i) {
        Some((s, j)) => Some((Some(s), j)),
        None => None,
    }
}

/// Decode the key at `i` and check it against the expected key.
fn decode_txt_key_at(v: &Vec<char>, i: usize, key: &str) -> (r: Option<usize>)
    ensures
        match r {
            Some(j) => dec_txt_key(v@, i as int, key@) == Some(j as int),
            None => dec_txt_key(v@, i as int, key@) is None,
        },
{
    match decode_txt_str_at(v, i) {
        Some((s, j)) => {
            let ks = key.to_owned();
            if s.eq(&ks) && j < v.len() && v[j] == ':' {
                Some(j + 1)
            } else {
                None
            }
        },
        None => None,
    }
}

// ---------------------------------------------------------------------------
// String lists.
// ---------------------------------------------------------------------------

/// The comma-separated quoted strings of `l`.
pub open spec fn enc_txt_str_items(l: Seq<Seq<char>>) -> Seq<char>
    decreases l.len(),
{
    if l.len() == 0 {
        Seq::empty()
    } else if l.len() == 1 {
        enc_txt_str(l.first())
    } else {
        enc_txt_str(l.first()) + seq![','] + enc_txt_str_items(l.drop_first())
    }
}

/// A string array: the bracketed comma-separated quoted strings.
pub open spec fn enc_txt_str_list(l: Seq<Seq<char>>) -> Seq<char> {
    seq!['['] + enc_txt_str_items(l) + seq![']']
}

/// Decode array elements from position `i`, collecting onto `acc`, until the
/// closing bracket.
pub open spec fn dec_txt_str_items(b: Seq<char>, i: int, acc: Seq<Seq<char>>) -> Option<
    (Seq<Seq<char>>, int),
>
    decreases b.len() - i,
{
    if !(0 <= i < b.len()) {
        None
    } else {
        match dec_txt_str(b, i) {
            Some((s, j)) => if !(i < j && j < b.len()) {
                None
            } else if b[j] == ',' {
                dec_txt_str_items(b, j + 1, acc.push(s))
            } else if b[j] == ']' {
                Some((acc.push(s), j + 1))
            } else {
                None
            },
            None => None,
        }
    }
}

/// Decode a string array at position `i`.
pub open spec fn dec_txt_str_list(b: Seq<char>, i: int) -> Option<(Seq<Seq<char>>, int)> {
    if !(0 <= i && i + 2 <= b.len()) {
        None
    } else if b[i] != '[' {
        None
    } else if b[i + 1] == ']' {
        Some((Seq::empty(), i + 2))
    } else {
        dec_txt_str_items(b, i + 1, Seq::empty())
    }
}

/// The decoder consumes a buffer that carries the comma-separated elements
/// of a nonempty list followed by the closing bracket, and collects them.
#[verifier::rlimit(100)]
#[verifier::spinoff_prover]
proof fn lemma_dec_txt_str_items(b: Seq<char>, i: int, l: Seq<Seq<char>>, acc: Seq<Seq<char>>)
    requires
        l.len() > 0,
        0 <= i,
        i + enc_txt_str_items(l).len() + 1 <= b.len(),
        b.subrange(i, i + enc_txt_str_items(l).len() + 1) == enc_txt_str_items(l) + seq![']'],
    ensures
        dec_txt_str_items(b, i, acc) == Some((acc + l, i + enc_txt_str_items(l).len() + 1)),
    decreases l.len(),
{
    let e0 = enc_txt_str(l.first());
    if l.len() == 1 {
        lemma_split_chars(b, i, e0, seq![']']);
        lemma_dec_txt_str(b, i, l.first());
        let j = i + e0.len();
        assert(b[j] == b.subrange(j, j + 1)[0]);
        assert(acc.push(l.first()) =~= acc + l);
    } else {
        let erest = enc_txt_str_items(l.drop_first());
        assert(enc_txt_str_items(l) + seq![']'] =~= e0 + seq![','] + (erest + seq![']']));
        lemma_split_chars(b, i, e0 + seq![','], erest + seq![']']);
        lemma_split_chars(b, i, e0, seq![',']);
        lemma_dec_txt_str(b, i, l.first());
        let j = i + e0.len();
        assert(b[j] == b.subrange(j, j + 1)[0]);
        assert(b[j] == ',');
        lemma_dec_txt_str_items(b, j + 1, l.drop_first(), acc.push(l.first()));
        assert(acc.push(l.first()) + l.drop_first() =~= acc + l);
    }
}

/// A buffer that carries an encoded string array at position `i` decodes to
/// the list there.
#[verifier::rlimit(100)]
#[verifier::spinoff_prover]
pub proof fn lemma_dec_txt_str_list(b: Seq<char>, i: int, l: Seq<Seq<char>>)
    requires
        0 <= i,
        i + enc_txt_str_list(l).len() <= b.len(),
        b.subrange(i, i + enc_txt_str_list(l).len()) == enc_txt_str_list(l),
    ensures
        dec_txt_str_list(b, i) == Some((l, i + enc_txt_str_list(l).len())),
{
    let e = enc_txt_str_list(l);
    assert(b[i] == e[0]);
    if l.len() == 0 {
        assert(e =~= seq!['[', ']']);
        assert(b[i + 1] == e[1]);
        assert(l =~= Seq::<Seq<char>>::empty());
    } else {
        assert(b[i + 1] == e[1]);
        assert(e[1] == enc_txt_str(l.first())[0]);
        assert(b[i + 1] == '"');
        assert(b.subrange(i + 1, i + 1 + enc_txt_str_items(l).len() + 1) =~= enc_txt_str_items(l)
            + seq![']']) by {
            assert forall|k: int|
                0 <= k < enc_txt_str_items(l).len() + 1 implies b[i + 1 + k] == (enc_txt_str_items(
                l,
            ) + seq![']'])[k] by {
                assert(b.subrange(i, i + e.len())[1 + k] == b[i + 1 + k]);
                assert(e[1 + k] == (enc_txt_str_items(l) + seq![']'])[k]);
            }
        }
        lemma_dec_txt_str_items(b, i + 1, l, Seq::empty());
        assert(Seq::<Seq<char>>::empty() + l =~= l);
    }
}

/// Appending one more string to a nonempty list appends a comma and its
/// quoted form to the list's elements.
#[verifier::rlimit(100)]
#[verifier::spinoff_prover]
proof fn lemma_enc_txt_str_items_snoc(l: Seq<Seq<char>>, s: Seq<char>)
    requires
        l.len() > 0,
    ensures
        enc_txt_str_items(l.push(s)) == enc_txt_str_items(l) + seq![','] + enc_txt_str(s),
    decreases l.len(),
{
    if l.len() == 1 {
        assert(l.push(s).drop_first() =~= seq![s]);
        assert(seq![s].first() == s);
        assert(enc_txt_str_items(seq![s]) == enc_txt_str(s));
        assert(l.push(s).first() == l.first());
        assert(enc_txt_str_items(l.push(s)) =~= enc_txt_str_items(l) + seq![','] + enc_txt_str(s));
    } else {
        assert(l.push(s).first() == l.first());
        assert(l.push(s).drop_first() =~= l.drop_first().push(s));
        lemma_enc_txt_str_items_snoc(l.drop_first(), s);
        assert(enc_txt_str_items(l.push(s)) =~= enc_txt_str_items(l) + seq![','] + enc_txt_str(s));
    }
}

/// Append the array form of the string list `v`.
#[verifier::rlimit(100)]
#[verifier::spinoff_prover]
fn encode_txt_str_list_into(out: &mut Vec<char>, v: &Vec<String>)
    ensures
        final(out)@ == old(out)@ + enc_txt_str_list(v.deep_view()),
{
    let ghost l = v.deep_view();
    out.push('[');
    let ghost base = out@;
    let mut i: usize = 0;
    while i < v.len()
        invariant
            i <= v.len(),
            l == v.deep_view(),
            out@ == base + enc_txt_str_items(l.take(i as int)),
        decreases v.len() - i,
    {
        let ghost before = out@;
        if i > 0 {
            out.push(',');
        }
        encode_txt_str_into(out, &v[i]);
        proof {
            assert(l.take(i as int).push(l[i as int]) =~= l.take(i as int + 1));
            if i == 0 {
                assert(l.take(1) =~= seq![l[0]]);
                assert(out@ =~= base + enc_txt_str_items(l.take(1)));
            } else {
                lemma_enc_txt_str_items_snoc(l.take(i as int), l[i as int]);
                assert(out@ =~= base + enc_txt_str_items(l.take(i as int + 1)));
            }
        }
        i += 1;
    }
    out.push(']');
    proof {
        assert(l.take(v@.len() as int) =~= l);
        assert(final(out)@ =~= old(out)@ + enc_txt_str_list(l));
    }
}

/// Decode the string array at position `i`.
#[verifier::rlimit(100)]
#[verifier::spinoff_prover]
fn decode_txt_str_list_at(v: &Vec<char>, i: usize) -> (r: Option<(Vec<String>, usize)>)
    ensures
        match r {
            Some((l, j)) => dec_txt_str_list(v@, i as int) == Some((l.deep_view(), j as int)),
            None => dec_txt_str_list(v@, i as int) is None,
        },
{
    if i >= v.len() || v.len() - i < 2 {
        return None;
    }
    if v[i] != '[' {
        return None;
    }
    if v[i + 1] == ']' {
        let empty_list: Vec<String> = Vec::new();
        proof {
            assert(empty_list.deep_view() =~= Seq::<Seq<char>>::empty());
        }
        return Some((empty_list, i + 2));
    }
    let mut acc: Vec<String> = Vec::new();
    proof {
        assert(acc.deep_view() =~= Seq::<Seq<char>>::empty());
    }
    let mut pos: usize = i + 1;
    loop
        invariant
            i as int + 1 <= pos as int <= v@.len(),
            dec_txt_str_items(v@, i as int + 1, Seq::empty()) == dec_txt_str_items(
                v@,
                pos as int,
                acc.deep_view(),
            ),
            dec_txt_str_list(v@, i as int) == dec_txt_str_items(v@, i as int + 1, Seq::empty()),
        decreases v@.len() - pos,
    {
        match decode_txt_str_at(v, pos) {
            Some((s, j)) => {
                let ghost acc_before = acc.deep_view();
                acc.push(s);
                proof {
                    assert(acc.deep_view() =~= acc_before.push(s@));
                }
                if j <= pos || j >= v.len() {
                    return None;
                }
                if v[j] == ',' {
                    pos = j + 1;
                } else if v[j] == ']' {
                    return Some((acc, j + 1));
                } else {
                    return None;
                }
            },
            None => {
                return None;
            },
        }
    }
}

// ---------------------------------------------------------------------------
// Arcs and arc lists.
// ---------------------------------------------------------------------------

/// The object form of an arc: five named fields in fixed order.
pub open spec fn enc_txt_arc(a: crate::headers::ArcView) -> Seq<char> {
    seq!['{'] + enc_txt_key(key_src()) + enc_txt_str(a.src) + seq![','] + enc_txt_key(
        key_src_port(),
    ) + enc_txt_opt_str(a.src_port) + seq![','] + enc_txt_key(key_label()) + enc_txt_opt_str(
        a.label,
    ) + seq![','] + enc_txt_key(key_dst()) + enc_txt_str(a.dst) + seq![','] + enc_txt_key(
        key_dst_port(),
    ) + enc_txt_opt_str(a.dst_port) + seq!['}']
}

/// Pass one expected character at position `i`.
pub open spec fn dec_txt_lit(b: Seq<char>, i: int, c: char) -> Option<int> {
    if 0 <= i < b.len() && b[i] == c {
        Some(i + 1)
    } else {
        None
    }
}

/// Decode the object form of an arc at position `i`.
pub open spec fn dec_txt_arc(b: Seq<char>, i: int) -> Option<(crate::headers::ArcView, int)> {
    match dec_txt_lit(b, i, '{') {
        Some(i0) => match dec_txt_key(b, i0, key_src()) {
            Some(i1) => match dec_txt_str(b, i1) {
                Some((src, i2)) => match dec_txt_lit(b, i2, ',') {
                    Some(i3) => match dec_txt_key(b, i3, key_src_port()) {
                        Some(i4) => match dec_txt_opt_str(b, i4) {
                            Some((src_port, i5)) => match dec_txt_lit(b, i5, ',') {
                                Some(i6) => match dec_txt_key(b, i6, key_label()) {
                                    Some(i7) => match dec_txt_opt_str(b, i7) {
                                        Some((label, i8)) => match dec_txt_lit(b, i8, ',') {
                                            Some(i9) => match dec_txt_key(b, i9, key_dst()) {
                                                Some(i10) => match dec_txt_str(b, i10) {
                                                    Some((dst, i11)) => match dec_txt_lit(
                                                        b,
                                                        i11,
                                                        ',',
                                                    ) {
                                                        Some(i12) => match dec_txt_key(
                                                            b,
                                                            i12,
                                                            key_dst_port(),
                                                        ) {
                                                            Some(i13) => match dec_txt_opt_str(
                                                                b,
                                                                i13,
                                                            ) {
                                                                Some((dst_port, i14)) => match
                                                                    dec_txt_lit(b, i14, '}') {
                                                                    Some(i15) => Some(
                                                                        (
                                                                            crate::headers::ArcView {
                                                                                src,
                                                                                src_port,
                                                                                label,
                                                                                dst,
                                                                                dst_port,
                                                                            },
                                                                            i15,
                                                                        ),
                                                                    ),
                                                                    None => None,
                                                                },
                                                                None => None,
                                                            },
                                                            None => None,
                                                        },
                                                        None => None,
                                                    },
                                                    None => None,
                                                },
                                                None => None,
                                            },
                                            None => None,
                                        },
                                        None => None,
                                    },
                                    None => None,
                                },
                                None => None,
                            },
                            None => None,
                        },
                        None => None,
                    },
                    None => None,
                },
                None => None,
            },
            None => None,
        },
        None => None,
    }
}

/// A buffer that carries one expected character at position `i` passes it.
proof fn lemma_dec_txt_lit(b: Seq<char>, i: int, c: char)
    requires
        0 <= i,
        i + 1 <= b.len(),
        b.subrange(i, i + 1) == seq![c],
    ensures
        dec_txt_lit(b, i, c) == Some(i + 1),
{
    assert(b[i] == b.subrange(i, i + 1)[0]);
}

/// A buffer that carries an encoded arc at position `i` decodes to the arc
/// there.
#[verifier::rlimit(100)]
#[verifier::spinoff_prover]
pub proof fn lemma_dec_txt_arc(b: Seq<char>, i: int, a: crate::headers::ArcView)
    requires
        0 <= i,
        i + enc_txt_arc(a).len() <= b.len(),
        b.subrange(i, i + enc_txt_arc(a).len()) == enc_txt_arc(a),
    ensures
        dec_txt_arc(b, i) == Some((a, i + enc_txt_arc(a).len())),
{
    let p0 = seq!['{'];
    let p1 = enc_txt_key(key_src());
    let p2 = enc_txt_str(a.src);
    let p3 = seq![','];
    let p4 = enc_txt_key(key_src_port());
    let p5 = enc_txt_opt_str(a.src_port);
    let p6 = seq![','];
    let p7 = enc_txt_key(key_label());
    let p8 = enc_txt_opt_str(a.label);
    let p9 = seq![','];
    let p10 = enc_txt_key(key_dst());
    let p11 = enc_txt_str(a.dst);
    let p12 = seq![','];
    let p13 = enc_txt_key(key_dst_port());
    let p14 = enc_txt_opt_str(a.dst_port);
    let p15 = seq!['}'];
    assert(enc_txt_arc(a) == p0 + p1 + p2 + p3 + p4 + p5 + p6 + p7 + p8 + p9 + p10 + p11 + p12
        + p13 + p14 + p15);
    lemma_split_chars(
        b,
        i,
        p0 + p1 + p2 + p3 + p4 + p5 + p6 + p7 + p8 + p9 + p10 + p11 + p12 + p13 + p14,
        p15,
    );
    lemma_split_chars(
        b,
        i,
        p0 + p1 + p2 + p3 + p4 + p5 + p6 + p7 + p8 + p9 + p10 + p11 + p12 + p13,
        p14,
    );
    lemma_split_chars(b, i, p0 + p1 + p2 + p3 + p4 + p5 + p6 + p7 + p8 + p9 + p10 + p11 + p12, p13);
    lemma_split_chars(b, i, p0 + p1 + p2 + p3 + p4 + p5 + p6 + p7 + p8 + p9 + p10 + p11, p12);
    lemma_split_chars(b, i, p0 + p1 + p2 + p3 + p4 + p5 + p6 + p7 + p8 + p9 + p10, p11);
    lemma_split_chars(b, i, p0 + p1 + p2 + p3 + p4 + p5 + p6 + p7 + p8 + p9, p10);
    lemma_split_chars(b, i, p0 + p1 + p2 + p3 + p4 + p5 + p6 + p7 + p8, p9);
    lemma_split_chars(b, i, p0 + p1 + p2 + p3 + p4 + p5 + p6 + p7, p8);
    lemma_split_chars(b, i, p0 + p1 + p2 + p3 + p4 + p5 + p6, p7);
    lemma_split_chars(b, i, p0 + p1 + p2 + p3 + p4 + p5, p6);
    lemma_split_chars(b, i, p0 + p1 + p2 + p3 + p4, p5);
    lemma_split_chars(b, i, p0 + p1 + p2 + p3, p4);
    lemma_split_chars(b, i, p0 + p1 + p2, p3);
    lemma_split_chars(b, i, p0 + p1, p2);
    lemma_split_chars(b, i, p0, p1);
    let o1 = i + p0.len();
    let o2 = o1 + p1.len();
    let o3 = o2 + p2.len();
    let o4 = o3 + p3.len();
    let o5 = o4 + p4.len();
    let o6 = o5 + p5.len();
    let o7 = o6 + p6.len();
    let o8 = o7 + p7.len();
    let o9 = o8 + p8.len();
    let o10 = o9 + p9.len();
    let o11 = o10 + p10.len();
    let o12 = o11 + p11.len();
    let o13 = o12 + p12.len();
    let o14 = o13 + p13.len();
    let o15 = o14 + p14.len();
    lemma_dec_txt_lit(b, i, '{');
    lemma_dec_txt_key(b, o1, key_src());
    lemma_dec_txt_str(b, o2, a.src);
    lemma_dec_txt_lit(b, o3, ',');
    lemma_dec_txt_key(b, o4, key_src_port());
    lemma_dec_txt_opt_str(b, o5, a.src_port);
    lemma_dec_txt_lit(b, o6, ',');
    lemma_dec_txt_key(b, o7, key_label());
    lemma_dec_txt_opt_str(b, o8, a.label);
    lemma_dec_txt_lit(b, o9, ',');
    lemma_dec_txt_key(b, o10, key_dst());
    lemma_dec_txt_str(b, o11, a.dst);
    lemma_dec_txt_lit(b, o12, ',');
    lemma_dec_txt_key(b, o13, key_dst_port());
    lemma_dec_txt_opt_str(b, o14, a.dst_port);
    lemma_dec_txt_lit(b, o15, '}');
}

/// Append the object form of the arc.
#[verifier::rlimit(100)]
#[verifier::spinoff_prover]
fn encode_txt_arc_into(out: &mut Vec<char>, arc: &crate::headers::LabelledArcWithPorts)
    ensures
        final(out)@ == old(out)@ + enc_txt_arc(arc@),
{
    proof {
        lemma_key_views();
    }
    out.push('{');
    let src_key = "src".to_owned();
    encode_txt_str_into(out, &src_key);
    out.push(':');
    encode_txt_str_into(out, &arc.src);
    out.push(',');
    let src_port_key = "src_port".to_owned();
    encode_txt_str_into(out, &src_port_key);
    out.push(':');
    encode_txt_opt_str_into(out, &arc.src_port);
    out.push(',');
    let label_key = "label".to_owned();
    encode_txt_str_into(out, &label_key);
    out.push(':');
    encode_txt_opt_str_into(out, &arc.label);
    out.push(',');
    let dst_key = "dst".to_owned();
    encode_txt_str_into(out, &dst_key);
    out.push(':');
    encode_txt_str_into(out, &arc.dst);
    out.push(',');
    let dst_port_key = "dst_port".to_owned();
    encode_txt_str_into(out, &dst_port_key);
    out.push(':');
    encode_txt_opt_str_into(out, &arc.dst_port);
    out.push('}');
    proof {
        assert(final(out)@ =~= old(out)@ + enc_txt_arc(arc@));
    }
}

/// Decode the object form of an arc at position `i`.
#[verifier::rlimit(100)]
#[verifier::spinoff_prover]
fn decode_txt_arc_at(v: &Vec<char>, i: usize) -> (r: Option<
    (crate::headers::LabelledArcWithPorts, usize),
>)
    ensures
        match r {
            Some((arc, j)) => dec_txt_arc(v@, i as int) == Some((arc@, j as int)),
            None => dec_txt_arc(v@, i as int) is None,
        },
{
    proof {
        lemma_key_views();
    }
    if i >= v.len() || v[i] != '{' {
        return None;
    }
    let i1 = match decode_txt_key_at(v, i + 1, "src") {
        Some(j) => j,
        None => {
            return None;
        },
    };
    let (src, i2) = match decode_txt_str_at(v, i1) {
        Some(p) => p,
        None => {
            return None;
        },
    };
    if i2 >= v.len() || v[i2] != ',' {
        return None;
    }
    let i3 = match decode_txt_key_at(v, i2 + 1, "src_port") {
        Some(j) => j,
        None => {
            return None;
        },
    };
    let (src_port, i4) = match decode_txt_opt_str_at(v, i3) {
        Some(p) => p,
        None => {
            return None;
        },
    };
    if i4 >= v.len() || v[i4] != ',' {
        return None;
    }
    let i5 = match decode_txt_key_at(v, i4 + 1, "label") {
        Some(j) => j,
        None => {
            return None;
        },
    };
    let (label, i6) = match decode_txt_opt_str_at(v, i5) {
        Some(p) => p,
        None => {
            return None;
        },
    };
    if i6 >= v.len() || v[i6] != ',' {
        return None;
    }
    let i7 = match decode_txt_key_at(v, i6 + 1, "dst") {
        Some(j) => j,
        None => {
            return None;
        },
    };
    let (dst, i8) = match decode_txt_str_at(v, i7) {
        Some(p) => p,
        None => {
            return None;
        },
    };
    if i8 >= v.len() || v[i8] != ',' {
        return None;
    }
    let i9 = match decode_txt_key_at(v, i8 + 1, "dst_port") {
        Some(j) => j,
        None => {
            return None;
        },
    };
    let (dst_port, i10) = match decode_txt_opt_str_at(v, i9) {
        Some(p) => p,
        None => {
            return None;
        },
    };
    if i10 >= v.len() || v[i10] != '}' {
        return None;
    }
    let arc = crate::headers::LabelledArcWithPorts { src, src_port, label, dst, dst_port };
    Some((arc, i10 + 1))
}

/// The comma-separated object forms of the arcs of `l`.
pub open spec fn enc_txt_arc_items(l: Seq<crate::headers::ArcView>) -> Seq<char>
    decreases l.len(),
{
    if l.len() == 0 {
        Seq::empty()
    } else if l.len() == 1 {
        enc_txt_arc(l.first())
    } else {
        enc_txt_arc(l.first()) + seq![','] + enc_txt_arc_items(l.drop_first())
    }
}

/// An arc array: the bracketed comma-separated arc objects.
pub open spec fn enc_txt_arc_list(l: Seq<crate::headers::ArcView>) -> Seq<char> {
    seq!['['] + enc_txt_arc_items(l) + seq![']']
}

/// Decode arc array elements from position `i`, collecting onto `acc`.
pub open spec fn dec_txt_arc_items(
    b: Seq<char>,
    i: int,
    acc: Seq<crate::headers::ArcView>,
) -> Option<(Seq<crate::headers::ArcView>, int)>
    decreases b.len() - i,
{
    if !(0 <= i < b.len()) {
        None
    } else {
        match dec_txt_arc(b, i) {
            Some((a, j)) => if !(i < j && j < b.len()) {
                None
            } else if b[j] == ',' {
                dec_txt_arc_items(b, j + 1, acc.push(a))
            } else if b[j] == ']' {
                Some((acc.push(a), j + 1))
            } else {
                None
            },
            None => None,
        }
    }
}

/// Decode an arc array at position `i`.
pub open spec fn dec_txt_arc_list(b: Seq<char>, i: int) -> Option<
    (Seq<crate::headers::ArcView>, int),
> {
    if !(0 <= i && i + 2 <= b.len()) {
        None
    } else if b[i] != '[' {
        None
    } else if b[i + 1] == ']' {
        Some((Seq::empty(), i + 2))
    } else {
        dec_txt_arc_items(b, i + 1, Seq::empty())
    }
}

/// The decoder consumes a buffer that carries the comma-separated objects of
/// a nonempty arc list followed by the closing bracket, and collects them.
#[verifier::rlimit(100)]
#[verifier::spinoff_prover]
proof fn lemma_dec_txt_arc_items(
    b: Seq<char>,
    i: int,
    l: Seq<crate::headers::ArcView>,
    acc: Seq<crate::headers::ArcView>,
)
    requires
        l.len() > 0,
        0 <= i,
        i + enc_txt_arc_items(l).len() + 1 <= b.len(),
        b.subrange(i, i + enc_txt_arc_items(l).len() + 1) == enc_txt_arc_items(l) + seq![']'],
    ensures
        dec_txt_arc_items(b, i, acc) == Some((acc + l, i + enc_txt_arc_items(l).len() + 1)),
    decreases l.len(),
{
    let e0 = enc_txt_arc(l.first());
    if l.len() == 1 {
        lemma_split_chars(b, i, e0, seq![']']);
        lemma_dec_txt_arc(b, i, l.first());
        let j = i + e0.len();
        assert(b[j] == b.subrange(j, j + 1)[0]);
        assert(acc.push(l.first()) =~= acc + l);
    } else {
        let erest = enc_txt_arc_items(l.drop_first());
        assert(enc_txt_arc_items(l) + seq![']'] =~= e0 + seq![','] + (erest + seq![']']));
        lemma_split_chars(b, i, e0 + seq![','], erest + seq![']']);
        lemma_split_chars(b, i, e0, seq![',']);
        lemma_dec_txt_arc(b, i, l.first());
        let j = i + e0.len();
        assert(b[j] == b.subrange(j, j + 1)[0]);
        assert(b[j] == ',');
        lemma_dec_txt_arc_items(b, j + 1, l.drop_first(), acc.push(l.first()));
        assert(acc.push(l.first()) + l.drop_first() =~= acc + l);
    }
}

/// A buffer that carries an encoded arc array at position `i` decodes to the
/// list there.
#[verifier::rlimit(100)]
#[verifier::spinoff_prover]
pub proof fn lemma_dec_txt_arc_list(b: Seq<char>, i: int, l: Seq<crate::headers::ArcView>)
    requires
        0 <= i,
        i + enc_txt_arc_list(l).len() <= b.len(),
        b.subrange(i, i + enc_txt_arc_list(l).len()) == enc_txt_arc_list(l),
    ensures
        dec_txt_arc_list(b, i) == Some((l, i + enc_txt_arc_list(l).len())),
{
    let e = enc_txt_arc_list(l);
    assert(b[i] == e[0]);
    if l.len() == 0 {
        assert(e =~= seq!['[', ']']);
        assert(b[i + 1] == e[1]);
        assert(l =~= Seq::<crate::headers::ArcView>::empty());
    } else {
        assert(b[i + 1] == e[1]);
        assert(e[1] == enc_txt_arc(l.first())[0]);
        assert(b[i + 1] == '{');
        assert(b.subrange(i + 1, i + 1 + enc_txt_arc_items(l).len() + 1) =~= enc_txt_arc_items(l)
            + seq![']']) by {
            assert forall|k: int|
                0 <= k < enc_txt_arc_items(l).len() + 1 implies b[i + 1 + k] == (enc_txt_arc_items(
                l,
            ) + seq![']'])[k] by {
                assert(b.subrange(i, i + e.len())[1 + k] == b[i + 1 + k]);
                assert(e[1 + k] == (enc_txt_arc_items(l) + seq![']'])[k]);
            }
        }
        lemma_dec_txt_arc_items(b, i + 1, l, Seq::empty());
        assert(Seq::<crate::headers::ArcView>::empty() + l =~= l);
    }
}

/// Appending one more arc to a nonempty list appends a comma and its object
/// form to the list's elements.
#[verifier::rlimit(100)]
#[verifier::spinoff_prover]
proof fn lemma_enc_txt_arc_items_snoc(l: Seq<crate::headers::ArcView>, a: crate::headers::ArcView)
    requires
        l.len() > 0,
    ensures
        enc_txt_arc_items(l.push(a)) == enc_txt_arc_items(l) + seq![','] + enc_txt_arc(a),
    decreases l.len(),
{
    if l.len() == 1 {
        assert(l.push(a).drop_first() =~= seq![a]);
        assert(seq![a].first() == a);
        assert(enc_txt_arc_items(seq![a]) == enc_txt_arc(a));
        assert(l.push(a).first() == l.first());
        assert(enc_txt_arc_items(l.push(a)) =~= enc_txt_arc_items(l) + seq![','] + enc_txt_arc(a));
    } else {
        assert(l.push(a).first() == l.first());
        assert(l.push(a).drop_first() =~= l.drop_first().push(a));
        lemma_enc_txt_arc_items_snoc(l.drop_first(), a);
        assert(enc_txt_arc_items(l.push(a)) =~= enc_txt_arc_items(l) + seq![','] + enc_txt_arc(a));
    }
}

/// Append the array form of the arc list `v`.
#[verifier::rlimit(100)]
#[verifier::spinoff_prover]
fn encode_txt_arc_list_into(out: &mut Vec<char>, v: &Vec<crate::headers::LabelledArcWithPorts>)
    ensures
        final(out)@ == old(out)@ + enc_txt_arc_list(v.deep_view()),
{
    let ghost l = v.deep_view();
    out.push('[');
    let ghost base = out@;
    let mut i: usize = 0;
    while i < v.len()
        invariant
            i <= v.len(),
            l == v.deep_view(),
            out@ == base + enc_txt_arc_items(l.take(i as int)),
        decreases v.len() - i,
    {
        if i > 0 {
            out.push(',');
        }
        encode_txt_arc_into(out, &v[i]);
        proof {
            assert(l.take(i as int).push(l[i as int]) =~= l.take(i as int + 1));
            if i == 0 {
                assert(l.take(1) =~= seq![l[0]]);
                assert(out@ =~= base + enc_txt_arc_items(l.take(1)));
            } else {
                lemma_enc_txt_arc_items_snoc(l.take(i as int), l[i as int]);
                assert(out@ =~= base + enc_txt_arc_items(l.take(i as int + 1)));
            }
        }
        i += 1;
    }
    out.push(']');
    proof {
        assert(l.take(v@.len() as int) =~= l);
        assert(final(out)@ =~= old(out)@ + enc_txt_arc_list(l));
    }
}

/// Decode the arc array at position `i`.
#[verifier::rlimit(100)]
#[verifier::spinoff_prover]
fn decode_txt_arc_list_at(v: &Vec<char>, i: usize) -> (r: Option<
    (Vec<crate::headers::LabelledArcWithPorts>, usize),
>)
    ensures
        match r {
            Some((l, j)) => dec_txt_arc_list(v@, i as int) == Some((l.deep_view(), j as int)),
            None => dec_txt_arc_list(v@, i as int) is None,
        },
{
    if i >= v.len() || v.len() - i < 2 {
        return None;
    }
    if v[i] != '[' {
        return None;
    }
    if v[i + 1] == ']' {
        let empty_list: Vec<crate::headers::LabelledArcWithPorts> = Vec::new();
        proof {
            assert(empty_list.deep_view() =~= Seq::<crate::headers::ArcView>::empty());
        }
        return Some((empty_list, i + 2));
    }
    let mut acc: Vec<crate::headers::LabelledArcWithPorts> = Vec::new();
    proof {
        assert(acc.deep_view() =~= Seq::<crate::headers::ArcView>::empty());
    }
    let mut pos: usize = i + 1;
    loop
        invariant
            i as int + 1 <= pos as int <= v@.len(),
            dec_txt_arc_items(v@, i as int + 1, Seq::empty()) == dec_txt_arc_items(
                v@,
                pos as int,
                acc.deep_view(),
            ),
            dec_txt_arc_list(v@, i as int) == dec_txt_arc_items(v@, i as int + 1, Seq::empty()),
        decreases v@.len() - pos,
    {
        match decode_txt_arc_at(v, pos) {
            Some((a, j)) => {
                let ghost acc_before = acc.deep_view();
                let ghost av = a@;
                acc.push(a);
                proof {
                    assert(acc.deep_view() =~= acc_before.push(av));
                }
                if j <= pos || j >= v.len() {
                    return None;
                }
                if v[j] == ',' {
                    pos = j + 1;
                } else if v[j] == ']' {
                    return Some((acc, j + 1));
                } else {
                    return None;
                }
            },
            None => {
                return None;
            },
        }
    }
}


// ---------------------------------------------------------------------------
// Header objects.
// ---------------------------------------------------------------------------

/// The object form of a decision header: four named fields in fixed order.
pub open spec fn enc_txt_decision(h: crate::headers::DecisionHeaderView) -> Seq<char> {
    seq!['{'] + enc_txt_key(key_category()) + enc_txt_str(h.category) + seq![','] + enc_txt_key(
        key_body_path(),
    ) + enc_txt_opt_str(h.body_path) + seq![','] + enc_txt_key(key_covered_elements())
        + enc_txt_str_list(h.covered_elements) + seq![','] + enc_txt_key(key_covered_relations())
        + enc_txt_arc_list(h.covered_relations) + seq!['}']
}

/// Decode the object form of a decision header at position `i`.
pub open spec fn dec_txt_decision(b: Seq<char>, i: int) -> Option<
    (crate::headers::DecisionHeaderView, int),
> {
    match dec_txt_lit(b, i, '{') {
        Some(i0) => match dec_txt_key(b, i0, key_category()) {
            Some(i1) => match dec_txt_str(b, i1) {
                Some((category, i2)) => match dec_txt_lit(b, i2, ',') {
                    Some(i3) => match dec_txt_key(b, i3, key_body_path()) {
                        Some(i4) => match dec_txt_opt_str(b, i4) {
                            Some((body_path, i5)) => match dec_txt_lit(b, i5, ',') {
                                Some(i6) => match dec_txt_key(b, i6, key_covered_elements()) {
                                    Some(i7) => match dec_txt_str_list(b, i7) {
                                        Some((covered_elements, i8)) => match dec_txt_lit(
                                            b,
                                            i8,
                                            ',',
                                        ) {
                                            Some(i9) => match dec_txt_key(
                                                b,
                                                i9,
                                                key_covered_relations(),
                                            ) {
                                                Some(i10) => match dec_txt_arc_list(b, i10) {
                                                    Some((covered_relations, i11)) => match
                                                        dec_txt_lit(b, i11, '}') {
                                                        Some(i12) => Some(
                                                            (
                                                                crate::headers::DecisionHeaderView {
                                                                    category,
                                                                    body_path,
                                                                    covered_elements,
                                                                    covered_relations,
                                                                },
                                                                i12,
                                                            ),
                                                        ),
                                                        None => None,
                                                    },
                                                    None => None,
                                                },
                                                None => None,
                                            },
                                            None => None,
                                        },
                                        None => None,
                                    },
                                    None => None,
                                },
                                None => None,
                            },
                            None => None,
                        },
                        None => None,
                    },
                    None => None,
                },
                None => None,
            },
            None => None,
        },
        None => None,
    }
}

/// A buffer that carries an encoded decision header at position `i` decodes
/// to the header there.
#[verifier::rlimit(100)]
#[verifier::spinoff_prover]
pub proof fn lemma_dec_txt_decision(b: Seq<char>, i: int, h: crate::headers::DecisionHeaderView)
    requires
        0 <= i,
        i + enc_txt_decision(h).len() <= b.len(),
        b.subrange(i, i + enc_txt_decision(h).len()) == enc_txt_decision(h),
    ensures
        dec_txt_decision(b, i) == Some((h, i + enc_txt_decision(h).len())),
{
    let p0 = seq!['{'];
    let p1 = enc_txt_key(key_category());
    let p2 = enc_txt_str(h.category);
    let p3 = seq![','];
    let p4 = enc_txt_key(key_body_path());
    let p5 = enc_txt_opt_str(h.body_path);
    let p6 = seq![','];
    let p7 = enc_txt_key(key_covered_elements());
    let p8 = enc_txt_str_list(h.covered_elements);
    let p9 = seq![','];
    let p10 = enc_txt_key(key_covered_relations());
    let p11 = enc_txt_arc_list(h.covered_relations);
    let p12 = seq!['}'];
    assert(enc_txt_decision(h) == p0 + p1 + p2 + p3 + p4 + p5 + p6 + p7 + p8 + p9 + p10 + p11
        + p12);
    lemma_split_chars(b, i, p0 + p1 + p2 + p3 + p4 + p5 + p6 + p7 + p8 + p9 + p10 + p11, p12);
    lemma_split_chars(b, i, p0 + p1 + p2 + p3 + p4 + p5 + p6 + p7 + p8 + p9 + p10, p11);
    lemma_split_chars(b, i, p0 + p1 + p2 + p3 + p4 + p5 + p6 + p7 + p8 + p9, p10);
    lemma_split_chars(b, i, p0 + p1 + p2 + p3 + p4 + p5 + p6 + p7 + p8, p9);
    lemma_split_chars(b, i, p0 + p1 + p2 + p3 + p4 + p5 + p6 + p7, p8);
    lemma_split_chars(b, i, p0 + p1 + p2 + p3 + p4 + p5 + p6, p7);
    lemma_split_chars(b, i, p0 + p1 + p2 + p3 + p4 + p5, p6);
    lemma_split_chars(b, i, p0 + p1 + p2 + p3 + p4, p5);
    lemma_split_chars(b, i, p0 + p1 + p2 + p3, p4);
    lemma_split_chars(b, i, p0 + p1 + p2, p3);
    lemma_split_chars(b, i, p0 + p1, p2);
    lemma_split_chars(b, i, p0, p1);
    let o1 = i + p0.len();
    let o2 = o1 + p1.len();
    let o3 = o2 + p2.len();
    let o4 = o3 + p3.len();
    let o5 = o4 + p4.len();
    let o6 = o5 + p5.len();
    let o7 = o6 + p6.len();
    let o8 = o7 + p7.len();
    let o9 = o8 + p8.len();
    let o10 = o9 + p9.len();
    let o11 = o10 + p10.len();
    let o12 = o11 + p11.len();
    lemma_dec_txt_lit(b, i, '{');
    lemma_dec_txt_key(b, o1, key_category());
    lemma_dec_txt_str(b, o2, h.category);
    lemma_dec_txt_lit(b, o3, ',');
    lemma_dec_txt_key(b, o4, key_body_path());
    lemma_dec_txt_opt_str(b, o5, h.body_path);
    lemma_dec_txt_lit(b, o6, ',');
    lemma_dec_txt_key(b, o7, key_covered_elements());
    lemma_dec_txt_str_list(b, o8, h.covered_elements);
    lemma_dec_txt_lit(b, o9, ',');
    lemma_dec_txt_key(b, o10, key_covered_relations());
    lemma_dec_txt_arc_list(b, o11, h.covered_relations);
    lemma_dec_txt_lit(b, o12, '}');
}

/// The object form of a design header: four named fields in fixed order.
pub open spec fn enc_txt_design(h: crate::headers::DesignHeaderView) -> Seq<char> {
    seq!['{'] + enc_txt_key(key_category()) + enc_txt_str(h.category) + seq![','] + enc_txt_key(
        key_model_paths(),
    ) + enc_txt_str_list(h.model_paths) + seq![','] + enc_txt_key(key_elements())
        + enc_txt_str_list(h.elements) + seq![','] + enc_txt_key(key_relations())
        + enc_txt_arc_list(h.relations) + seq!['}']
}

/// Decode the object form of a design header at position `i`.
pub open spec fn dec_txt_design(b: Seq<char>, i: int) -> Option<
    (crate::headers::DesignHeaderView, int),
> {
    match dec_txt_lit(b, i, '{') {
        Some(i0) => match dec_txt_key(b, i0, key_category()) {
            Some(i1) => match dec_txt_str(b, i1) {
                Some((category, i2)) => match dec_txt_lit(b, i2, ',') {
                    Some(i3) => match dec_txt_key(b, i3, key_model_paths()) {
                        Some(i4) => match dec_txt_str_list(b, i4) {
                            Some((model_paths, i5)) => match dec_txt_lit(b, i5, ',') {
                                Some(i6) => match dec_txt_key(b, i6, key_elements()) {
                                    Some(i7) => match dec_txt_str_list(b, i7) {
                                        Some((elements, i8)) => match dec_txt_lit(b, i8, ',') {
                                            Some(i9) => match dec_txt_key(b, i9, key_relations()) {
                                                Some(i10) => match dec_txt_arc_list(b, i10) {
                                                    Some((relations, i11)) => match dec_txt_lit(
                                                        b,
                                                        i11,
                                                        '}',
                                                    ) {
                                                        Some(i12) => Some(
                                                            (
                                                                crate::headers::DesignHeaderView {
                                                                    category,
                                                                    model_paths,
                                                                    elements,
                                                                    relations,
                                                                },
                                                                i12,
                                                            ),
                                                        ),
                                                        None => None,
                                                    },
                                                    None => None,
                                                },
                                                None => None,
                                            },
                                            None => None,
                                        },
                                        None => None,
                                    },
                                    None => None,
                                },
                                None => None,
                            },
                            None => None,
                        },
                        None => None,
                    },
                    None => None,
                },
                None => None,
            },
            None => None,
        },
        None => None,
    }
}

/// A buffer that carries an encoded design header at position `i` decodes to
/// the header there.
#[verifier::rlimit(100)]
#[verifier::spinoff_prover]
pub proof fn lemma_dec_txt_design(b: Seq<char>, i: int, h: crate::headers::DesignHeaderView)
    requires
        0 <= i,
        i + enc_txt_design(h).len() <= b.len(),
        b.subrange(i, i + enc_txt_design(h).len()) == enc_txt_design(h),
    ensures
        dec_txt_design(b, i) == Some((h, i + enc_txt_design(h).len())),
{
    let p0 = seq!['{'];
    let p1 = enc_txt_key(key_category());
    let p2 = enc_txt_str(h.category);
    let p3 = seq![','];
    let p4 = enc_txt_key(key_model_paths());
    let p5 = enc_txt_str_list(h.model_paths);
    let p6 = seq![','];
    let p7 = enc_txt_key(key_elements());
    let p8 = enc_txt_str_list(h.elements);
    let p9 = seq![','];
    let p10 = enc_txt_key(key_relations());
    let p11 = enc_txt_arc_list(h.relations);
    let p12 = seq!['}'];
    assert(enc_txt_design(h) == p0 + p1 + p2 + p3 + p4 + p5 + p6 + p7 + p8 + p9 + p10 + p11 + p12);
    lemma_split_chars(b, i, p0 + p1 + p2 + p3 + p4 + p5 + p6 + p7 + p8 + p9 + p10 + p11, p12);
    lemma_split_chars(b, i, p0 + p1 + p2 + p3 + p4 + p5 + p6 + p7 + p8 + p9 + p10, p11);
    lemma_split_chars(b, i, p0 + p1 + p2 + p3 + p4 + p5 + p6 + p7 + p8 + p9, p10);
    lemma_split_chars(b, i, p0 + p1 + p2 + p3 + p4 + p5 + p6 + p7 + p8, p9);
    lemma_split_chars(b, i, p0 + p1 + p2 + p3 + p4 + p5 + p6 + p7, p8);
    lemma_split_chars(b, i, p0 + p1 + p2 + p3 + p4 + p5 + p6, p7);
    lemma_split_chars(b, i, p0 + p1 + p2 + p3 + p4 + p5, p6);
    lemma_split_chars(b, i, p0 + p1 + p2 + p3 + p4, p5);
    lemma_split_chars(b, i, p0 + p1 + p2 + p3, p4);
    lemma_split_chars(b, i, p0 + p1 + p2, p3);
    lemma_split_chars(b, i, p0 + p1, p2);
    lemma_split_chars(b, i, p0, p1);
    let o1 = i + p0.len();
    let o2 = o1 + p1.len();
    let o3 = o2 + p2.len();
    let o4 = o3 + p3.len();
    let o5 = o4 + p4.len();
    let o6 = o5 + p5.len();
    let o7 = o6 + p6.len();
    let o8 = o7 + p7.len();
    let o9 = o8 + p8.len();
    let o10 = o9 + p9.len();
    let o11 = o10 + p10.len();
    let o12 = o11 + p11.len();
    lemma_dec_txt_lit(b, i, '{');
    lemma_dec_txt_key(b, o1, key_category());
    lemma_dec_txt_str(b, o2, h.category);
    lemma_dec_txt_lit(b, o3, ',');
    lemma_dec_txt_key(b, o4, key_model_paths());
    lemma_dec_txt_str_list(b, o5, h.model_paths);
    lemma_dec_txt_lit(b, o6, ',');
    lemma_dec_txt_key(b, o7, key_elements());
    lemma_dec_txt_str_list(b, o8, h.elements);
    lemma_dec_txt_lit(b, o9, ',');
    lemma_dec_txt_key(b, o10, key_relations());
    lemma_dec_txt_arc_list(b, o11, h.relations);
    lemma_dec_txt_lit(b, o12, '}');
}

// ---------------------------------------------------------------------------
// Public encoding and decoding, and the round-trip laws.
// ---------------------------------------------------------------------------

/// Encode a decision model header into its canonical text form.
#[verifier::rlimit(100)]
#[verifier::spinoff_prover]
pub fn encode_text_decision_header(h: &crate::headers::DecisionModelHeader) -> (r: String)
    ensures
        r@ == enc_txt_decision(h@),
{
    proof {
        lemma_key_views();
    }
    let mut out: Vec<char> = Vec::new();
    out.push('{');
    let category_key = "category".to_owned();
    encode_txt_str_into(&mut out, &category_key);
    out.push(':');
    encode_txt_str_into(&mut out, &h.category);
    out.push(',');
    let body_path_key = "body_path".to_owned();
    encode_txt_str_into(&mut out, &body_path_key);
    out.push(':');
    encode_txt_opt_str_into(&mut out, &h.body_path);
    out.push(',');
    let covered_elements_key = "covered_elements".to_owned();
    encode_txt_str_into(&mut out, &covered_elements_key);
    out.push(':');
    encode_txt_str_list_into(&mut out, &h.covered_elements);
    out.push(',');
    let covered_relations_key = "covered_relations".to_owned();
    encode_txt_str_into(&mut out, &covered_relations_key);
    out.push(':');
    encode_txt_arc_list_into(&mut out, &h.covered_relations);
    out.push('}');
    proof {
        assert(out@ =~= enc_txt_decision(h@));
    }
    chars_to_string(&out)
}

/// Encode a design model header into its canonical text form.
#[verifier::rlimit(100)]
#[verifier::spinoff_prover]
pub fn encode_text_design_header(h: &crate::headers::DesignModelHeader) -> (r: String)
    ensures
        r@ == enc_txt_design(h@),
{
    proof {
        lemma_key_views();
    }
    let mut out: Vec<char> = Vec::new();
    out.push('{');
    let category_key = "category".to_owned();
    encode_txt_str_into(&mut out, &category_key);
    out.push(':');
    encode_txt_str_into(&mut out, &h.category);
    out.push(',');
    let model_paths_key = "model_paths".to_owned();
    encode_txt_str_into(&mut out, &model_paths_key);
    out.push(':');
    encode_txt_str_list_into(&mut out, &h.model_paths);
    out.push(',');
    let elements_key = "elements".to_owned();
    encode_txt_str_into(&mut out, &elements_key);
    out.push(':');
    encode_txt_str_list_into(&mut out, &h.elements);
    out.push(',');
    let relations_key = "relations".to_owned();
    encode_txt_str_into(&mut out, &relations_key);
    out.push(':');
    encode_txt_arc_list_into(&mut out, &h.relations);
    out.push('}');
    proof {
        assert(out@ =~= enc_txt_design(h@));
    }
    chars_to_string(&out)
}

/// Decode the decision-header object at position `i`.
fn decode_txt_decision_at(v: &Vec<char>, i: usize) -> (r: Option<
    (crate::headers::DecisionModelHeader, usize),
>)
    ensures
        match r {
            Some((h, j)) => dec_txt_decision(v@, i as int) == Some((h@, j as int)),
            None => dec_txt_decision(v@, i as int) is None,
        },
{
    proof {
        lemma_key_views();
    }
    if i >= v.len() || v[i] != '{' {
        return None;
    }
    let i1 = match decode_txt_key_at(v, i + 1, "category") {
        Some(j) => j,
        None => {
            return None;
        },
    };
    let (category, i2) = match decode_txt_str_at(v, i1) {
        Some(p) => p,
        None => {
            return None;
        },
    };
    if i2 >= v.len() || v[i2] != ',' {
        return None;
    }
    let i3 = match decode_txt_key_at(v, i2 + 1, "body_path") {
        Some(j) => j,
        None => {
            return None;
        },
    };
    let (body_path, i4) = match decode_txt_opt_str_at(v, i3) {
        Some(p) => p,
        None => {
            return None;
        },
    };
    if i4 >= v.len() || v[i4] != ',' {
        return None;
    }
    let i5 = match decode_txt_key_at(v, i4 + 1, "covered_elements") {
        Some(j) => j,
        None => {
            return None;
        },
    };
    let (covered_elements, i6) = match decode_txt_str_list_at(v, i5) {
        Some(p) => p,
        None => {
            return None;
        },
    };
    if i6 >= v.len() || v[i6] != ',' {
        return None;
    }
    let i7 = match decode_txt_key_at(v, i6 + 1, "covered_relations") {
        Some(j) => j,
        None => {
            return None;
        },
    };
    let (covered_relations, i8) = match decode_txt_arc_list_at(v, i7) {
        Some(p) => p,
        None => {
            return None;
        },
    };
    if i8 >= v.len() || v[i8] != '}' {
        return None;
    }
    let h = crate::headers::DecisionModelHeader {
        category,
        body_path,
        covered_elements,
        covered_relations,
    };
    Some((h, i8 + 1))
}

/// Decode the design-header object at position `i`.
fn decode_txt_design_at(v: &Vec<char>, i: usize) -> (r: Option<
    (crate::headers::DesignModelHeader, usize),
>)
    ensures
        match r {
            Some((h, j)) => dec_txt_design(v@, i as int) == Some((h@, j as int)),
            None => dec_txt_design(v@, i as int) is None,
        },
{
    proof {
        lemma_key_views();
    }
    if i >= v.len() || v[i] != '{' {
        return None;
    }
    let i1 = match decode_txt_key_at(v, i + 1, "category") {
        Some(j) => j,
        None => {
            return None;
        },
    };
    let (category, i2) = match decode_txt_str_at(v, i1) {
        Some(p) => p,
        None => {
            return None;
        },
    };
    if i2 >= v.len() || v[i2] != ',' {
        return None;
    }
    let i3 = match decode_txt_key_at(v, i2 + 1, "model_paths") {
        Some(j) => j,
        None => {
            return None;
        },
    };
    let (model_paths, i4) = match decode_txt_str_list_at(v, i3) {
        Some(p) => p,
        None => {
            return None;
        },
    };
    if i4 >= v.len() || v[i4] != ',' {
        return None;
    }
    let i5 = match decode_txt_key_at(v, i4 + 1, "elements") {
        Some(j) => j,
        None => {
            return None;
        },
    };
    let (elements, i6) = match decode_txt_str_list_at(v, i5) {
        Some(p) => p,
        None => {
            return None;
        },
    };
    if i6 >= v.len() || v[i6] != ',' {
        return None;
    }
    let i7 = match decode_txt_key_at(v, i6 + 1, "relations") {
        Some(j) => j,
        None => {
            return None;
        },
    };
    let (relations, i8) = match decode_txt_arc_list_at(v, i7) {
        Some(p) => p,
        None => {
            return None;
        },
    };
    if i8 >= v.len() || v[i8] != '}' {
        return None;
    }
    let h = crate::headers::DesignModelHeader { category, model_paths, elements, relations };
    Some((h, i8 + 1))
}

/// Decode a canonical text decision header; the whole text must be one
/// object.
pub fn decode_text_decision_header(s: &String) -> (r: Option<
    crate::headers::DecisionModelHeader,
>)
    ensures
        match r {
            Some(h) => dec_txt_decision(s@, 0) == Some((h@, s@.len() as int)),
            None => match dec_txt_decision(s@, 0) {
                Some((v, j)) => j != s@.len(),
                None => true,
            },
        },
{
    let chars = string_chars(s);
    match decode_txt_decision_at(&chars, 0) {
        Some((h, j)) => {
            if j == chars.len() {
                Some(h)
            } else {
                None
            }
        },
        None => None,
    }
}

/// Decode a canonical text design header; the whole text must be one object.
pub fn decode_text_design_header(s: &String) -> (r: Option<crate::headers::DesignModelHeader>)
    ensures
        match r {
            Some(h) => dec_txt_design(s@, 0) == Some((h@, s@.len() as int)),
            None => match dec_txt_design(s@, 0) {
                Some((v, j)) => j != s@.len(),
                None => true,
            },
        },
{
    let chars = string_chars(s);
    match decode_txt_design_at(&chars, 0) {
        Some((h, j)) => {
            if j == chars.len() {
                Some(h)
            } else {
                None
            }
        },
        None => None,
    }
}

/// Round trip of the text form: decoding the canonical text of any decision
/// header gives the header back, consuming the whole text.
pub proof fn lemma_text_round_trip_decision(h: crate::headers::DecisionHeaderView)
    ensures
        dec_txt_decision(enc_txt_decision(h), 0) == Some((h, enc_txt_decision(h).len() as int)),
{
    let b = enc_txt_decision(h);
    assert(b.subrange(0, b.len() as int) =~= b);
    lemma_dec_txt_decision(b, 0, h);
}

/// Round trip of the text form: decoding the canonical text of any design
/// header gives the header back, consuming the whole text.
pub proof fn lemma_text_round_trip_design(h: crate::headers::DesignHeaderView)
    ensures
        dec_txt_design(enc_txt_design(h), 0) == Some((h, enc_txt_design(h).len() as int)),
{
    let b = enc_txt_design(h);
    assert(b.subrange(0, b.len() as int) =~= b);
    lemma_dec_txt_design(b, 0, h);
}


} // verus!
