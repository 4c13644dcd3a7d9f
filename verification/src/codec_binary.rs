//! The compact binary header encoding: a self-describing binary map format.
//! Every value is framed with an explicit marker byte — a map with its entry
//! count, an array with its element count, a string with its byte length
//! followed by its UTF-8 bytes, or nil — and field names are preserved as
//! map keys.  The decoder accepts exactly the canonical frames the encoder
//! emits, and decoding an encoded header always gives the header back.

use vstd::prelude::*;
use vstd::string::StrSliceExecFns;
use vstd::string::StringSliceAdditionalSpecFns;
use vstd::utf8::decode_utf8;
use vstd::utf8::encode_utf8;
use vstd::utf8::encode_utf8_decode_utf8;
use vstd::utf8::encode_utf8_valid_utf8;
use vstd::utf8::valid_utf8;

verus! {

// ---------------------------------------------------------------------------
// Big-endian 32-bit lengths.
// ---------------------------------------------------------------------------

/// The four big-endian bytes of a 32-bit length.
pub open spec fn be32(n: int) -> Seq<u8> {
    let b0 = n / 0x1000000;
    let r0 = n % 0x1000000;
    let b1 = r0 / 0x10000;
    let r1 = r0 % 0x10000;
    let b2 = r1 / 0x100;
    let b3 = r1 % 0x100;
    seq![b0 as u8, b1 as u8, b2 as u8, b3 as u8]
}

/// The length a big-endian 4-byte frame carries.
pub open spec fn be32_val(b: Seq<u8>) -> int {
    (b[0] as int) * 0x1000000 + (b[1] as int) * 0x10000 + (b[2] as int) * 0x100 + (b[3] as int)
}

/// Reading back the four big-endian bytes of a length gives the length.
pub proof fn lemma_be32_round_trip(n: int)
    requires
        0 <= n <= 0xFFFFFFFF,
    ensures
        be32(n).len() == 4,
        be32_val(be32(n)) == n,
{
    let b0 = n / 0x1000000;
    let r0 = n % 0x1000000;
    let b1 = r0 / 0x10000;
    let r1 = r0 % 0x10000;
    let b2 = r1 / 0x100;
    let b3 = r1 % 0x100;
    assert(0 <= b0 < 256);
    assert(0 <= r0 < 0x1000000);
    assert(0 <= b1 < 256);
    assert(0 <= r1 < 0x10000);
    assert(0 <= b2 < 256);
    assert(0 <= b3 < 256);
    assert(n == b0 * 0x1000000 + r0);
    assert(r0 == b1 * 0x10000 + r1);
    assert(r1 == b2 * 0x100 + b3);
}

/// Append the four big-endian bytes of `n`.
fn write_be32(out: &mut Vec<u8>, n: u32)
    ensures
        final(out)@ == old(out)@ + be32(n as int),
{
    let b0 = n / 0x1000000;
    let r0 = n % 0x1000000;
    let b1 = r0 / 0x10000;
    let r1 = r0 % 0x10000;
    let b2 = r1 / 0x100;
    let b3 = r1 % 0x100;
    out.push(b0 as u8);
    out.push(b1 as u8);
    out.push(b2 as u8);
    out.push(b3 as u8);
    proof {
        assert(final(out)@ =~= old(out)@ + be32(n as int));
    }
}

/// Read the big-endian length stored at position `i`.
fn read_be32(b: &Vec<u8>, i: usize) -> (n: u32)
    requires
        i + 4 <= b@.len(),
    ensures
        n as int == be32_val(b@.subrange(i as int, i as int + 4)),
{
    let byte_count = b.len();
    assert(b@.len() == byte_count as nat);
    assert(i + 4 <= byte_count);
    let n0 = b[i] as u32;
    let n1 = b[i + 1] as u32;
    let n2 = b[i + 2] as u32;
    let n3 = b[i + 3] as u32;
    n0 * 0x1000000 + n1 * 0x10000 + n2 * 0x100 + n3
}

/// Append all of `add`.
fn push_bytes(out: &mut Vec<u8>, add: &Vec<u8>)
    ensures
        final(out)@ == old(out)@ + add@,
{
    let mut i: usize = 0;
    while i < add.len()
        invariant
            i <= add.len(),
            out@ == old(out)@ + add@.take(i as int),
        decreases add.len() - i,
    {
        out.push(add[i]);
        proof {
            assert(old(out)@ + add@.take(i as int) + seq![add@[i as int]] =~= old(out)@
                + add@.take(i as int + 1));
        }
        i += 1;
    }
    proof {
        assert(old(out)@ + add@.take(add@.len() as int) =~= old(out)@ + add@);
    }
}

/// Relies on `String::from_utf8`: it succeeds exactly on valid UTF-8 byte
/// sequences, and the string returned holds the characters those bytes
/// encode.
#[verifier::external_body]
fn string_from_utf8(bytes: Vec<u8>) -> (r: Option<String>)
    ensures
        r is Some <==> valid_utf8(bytes@),
        r matches Some(s) ==> s@ == decode_utf8(bytes@),
{
    String::from_utf8(bytes).ok()
}

// ---------------------------------------------------------------------------
// Strings and optional strings.
// ---------------------------------------------------------------------------

/// Whether a string fits a 32-bit byte-length frame.
pub open spec fn str_bin_encodable(s: Seq<char>) -> bool {
    encode_utf8(s).len() <= 0xFFFFFFFF
}

/// A framed string: marker, byte length, UTF-8 bytes.
pub open spec fn enc_bin_str(s: Seq<char>) -> Seq<u8> {
    seq![0xdbu8] + be32(encode_utf8(s).len() as int) + encode_utf8(s)
}

/// Decode a framed string at position `i`.
pub open spec fn dec_bin_str(b: Seq<u8>, i: int) -> Option<(Seq<char>, int)> {
    if !(0 <= i && i + 5 <= b.len()) {
        None
    } else if b[i] != 0xdbu8 {
        None
    } else {
        let n = be32_val(b.subrange(i + 1, i + 5));
        if i + 5 + n > b.len() {
            None
        } else {
            let bytes = b.subrange(i + 5, i + 5 + n);
            if valid_utf8(bytes) {
                Some((decode_utf8(bytes), i + 5 + n))
            } else {
                None
            }
        }
    }
}

/// A buffer that carries an encoded string at position `i` decodes to that
/// string there.
pub proof fn lemma_dec_bin_str(b: Seq<u8>, i: int, s: Seq<char>)
    requires
        str_bin_encodable(s),
        0 <= i,
        i + enc_bin_str(s).len() <= b.len(),
        b.subrange(i, i + enc_bin_str(s).len()) == enc_bin_str(s),
    ensures
        dec_bin_str(b, i) == Some((s, i + enc_bin_str(s).len())),
{
    let e = enc_bin_str(s);
    let n = encode_utf8(s).len() as int;
    lemma_be32_round_trip(n);
    assert(b[i] == e[0]);
    assert(b.subrange(i + 1, i + 5) =~= e.subrange(1, 5));
    assert(e.subrange(1, 5) =~= be32(n));
    assert(b.subrange(i + 5, i + 5 + n) =~= e.subrange(5, 5 + n));
    assert(e.subrange(5, 5 + n) =~= encode_utf8(s));
    encode_utf8_valid_utf8(s);
    encode_utf8_decode_utf8(s);
}

/// Whether an optional string fits its frame.
pub open spec fn opt_str_bin_encodable(o: Option<Seq<char>>) -> bool {
    match o {
        Some(s) => str_bin_encodable(s),
        None => true,
    }
}

/// A framed optional string: nil, or a framed string.
pub open spec fn enc_bin_opt_str(o: Option<Seq<char>>) -> Seq<u8> {
    match o {
        Some(s) => enc_bin_str(s),
        None => seq![0xc0u8],
    }
}

/// Decode a framed optional string at position `i`.
pub open spec fn dec_bin_opt_str(b: Seq<u8>, i: int) -> Option<(Option<Seq<char>>, int)> {
    if 0 <= i < b.len() && b[i] == 0xc0u8 {
        Some((None, i + 1))
    } else {
        match dec_bin_str(b, i) {
            Some((s, j)) => Some((Some(s), j)),
            None => None,
        }
    }
}

/// A buffer that carries an encoded optional string at position `i` decodes
/// to it there.
pub proof fn lemma_dec_bin_opt_str(b: Seq<u8>, i: int, o: Option<Seq<char>>)
    requires
        opt_str_bin_encodable(o),
        0 <= i,
        i + enc_bin_opt_str(o).len() <= b.len(),
        b.subrange(i, i + enc_bin_opt_str(o).len()) == enc_bin_opt_str(o),
    ensures
        dec_bin_opt_str(b, i) == Some((o, i + enc_bin_opt_str(o).len())),
{
    match o {
        Some(s) => {
            assert(b[i] == enc_bin_str(s)[0]);
            lemma_dec_bin_str(b, i, s);
        },
        None => {
            assert(enc_bin_opt_str(o) =~= seq![0xc0u8]);
            assert(b[i] == b.subrange(i, i + 1)[0]);
        },
    }
}

/// Append the frame of `s`; fails only when the string outgrows the frame.
fn encode_str_into(out: &mut Vec<u8>, s: &String) -> (ok: bool)
    ensures
        ok == str_bin_encodable(s@),
        ok ==> final(out)@ == old(out)@ + enc_bin_str(s@),
{
    let bytes = s.as_str().as_bytes_vec();
    if bytes.len() as u64 > 0xFFFFFFFFu64 {
        return false;
    }
    out.push(0xdb);
    write_be32(out, bytes.len() as u32);
    push_bytes(out, &bytes);
    proof {
        assert(final(out)@ =~= old(out)@ + enc_bin_str(s@));
    }
    true
}

/// Append the frame of `o`; fails only when the string outgrows the frame.
fn encode_opt_str_into(out: &mut Vec<u8>, o: &Option<String>) -> (ok: bool)
    ensures
        ok == opt_str_bin_encodable(o.deep_view()),
        ok ==> final(out)@ == old(out)@ + enc_bin_opt_str(o.deep_view()),
{
    match o {
        Some(s) => encode_str_into(out, s),
        None => {
            out.push(0xc0);
            proof {
                assert(final(out)@ =~= old(out)@ + enc_bin_opt_str(o.deep_view()));
            }
            true
        },
    }
}

/// Decode the string frame at position `i`.
fn decode_str_at(b: &Vec<u8>, i: usize) -> (r: Option<(String, usize)>)
    ensures
        match r {
            Some((s, j)) => dec_bin_str(b@, i as int) == Some((s@, j as int)),
            None => dec_bin_str(b@, i as int) is None,
        },
{
    if b.len() < 5 || i > b.len() - 5 {
        return None;
    }
    if b[i] != 0xdb {
        return None;
    }
    let n32 = read_be32(b, i + 1);
    proof {
        assert(b@.subrange(i as int + 1, i as int + 5) =~= b@.subrange(i as int + 1, i as int + 1
            + 4));
    }
    let n = n32 as usize;
    if n > b.len() - (i + 5) {
        return None;
    }
    let mut bytes: Vec<u8> = Vec::new();
    let mut k: usize = 0;
    while k < n
        invariant
            i + 5 + n <= b@.len(),
            b@.len() <= usize::MAX,
            k <= n,
            bytes@ == b@.subrange(i as int + 5, i as int + 5 + k as int),
        decreases n - k,
    {
        bytes.push(b[i + 5 + k]);
        proof {
            assert(bytes@ =~= b@.subrange(i as int + 5, i as int + 5 + k as int + 1));
        }
        k += 1;
    }
    match string_from_utf8(bytes) {
        Some(s) => Some((s, i + 5 + n)),
        None => None,
    }
}

/// Decode the optional-string frame at position `i`.
fn decode_opt_str_at(b: &Vec<u8>, i: usize) -> (r: Option<(Option<String>, usize)>)
    ensures
        match r {
            Some((o, j)) => dec_bin_opt_str(b@, i as int) == Some((o.deep_view(), j as int)),
            None => dec_bin_opt_str(b@, i as int) is None,
        },
{
    if i < b.len() && b[i] == 0xc0 {
        return Some((None, i + 1));
    }
    match decode_str_at(b, i) {
        Some((s, j)) => Some((Some(s), j)),
        None => None,
    }
}

// ---------------------------------------------------------------------------
// Splitting a buffer that carries a concatenation.
// ---------------------------------------------------------------------------

/// A buffer that carries `s1 + s2` at position `i` carries `s1` there and
/// `s2` right after it.
proof fn lemma_split_concat(b: Seq<u8>, i: int, s1: Seq<u8>, s2: Seq<u8>)
    requires
        0 <= i,
        i + s1.len() + s2.len() <= b.len(),
        b.subrange(i, i + s1.len() + s2.len()) == s1 + s2,
    ensures
        b.subrange(i, i + s1.len()) == s1,
        b.subrange(i + s1.len(), i + s1.len() + s2.len()) == s2,
{
    assert forall|k: int| 0 <= k < s1.len() implies b[i + k] == s1[k] by {
        assert(b.subrange(i, i + s1.len() + s2.len())[k] == b[i + k]);
        assert((s1 + s2)[k] == s1[k]);
    }
    assert forall|k: int| 0 <= k < s2.len() implies b[i + s1.len() + k] == s2[k] by {
        assert(b.subrange(i, i + s1.len() + s2.len())[s1.len() + k] == b[i + s1.len() + k]);
        assert((s1 + s2)[s1.len() + k] == s2[k]);
    }
    assert(b.subrange(i, i + s1.len()) =~= s1);
    assert(b.subrange(i + s1.len(), i + s1.len() + s2.len()) =~= s2);
}

// ---------------------------------------------------------------------------
// String lists.
// ---------------------------------------------------------------------------

/// The concatenated frames of the strings of `l`.
pub open spec fn enc_bin_str_items(l: Seq<Seq<char>>) -> Seq<u8>
    decreases l.len(),
{
    if l.len() == 0 {
        Seq::empty()
    } else {
        enc_bin_str(l.first()) + enc_bin_str_items(l.drop_first())
    }
}

/// Whether a string list fits its frame.
pub open spec fn str_list_bin_encodable(l: Seq<Seq<char>>) -> bool {
    l.len() <= 0xFFFFFFFF && forall|k: int| 0 <= k < l.len() ==> str_bin_encodable(#[trigger] l[k])
}

/// A framed string list: marker, element count, element frames.
pub open spec fn enc_bin_str_list(l: Seq<Seq<char>>) -> Seq<u8> {
    seq![0xddu8] + be32(l.len() as int) + enc_bin_str_items(l)
}

/// Decode `n` string frames starting at position `i`, collecting onto `acc`.
pub open spec fn dec_bin_str_items(b: Seq<u8>, i: int, n: int, acc: Seq<Seq<char>>) -> Option<
    (Seq<Seq<char>>, int),
>
    decreases n,
{
    if n <= 0 {
        Some((acc, i))
    } else {
        match dec_bin_str(b, i) {
            Some((s, j)) => dec_bin_str_items(b, j, n - 1, acc.push(s)),
            None => None,
        }
    }
}

/// Decode a framed string list at position `i`.
pub open spec fn dec_bin_str_list(b: Seq<u8>, i: int) -> Option<(Seq<Seq<char>>, int)> {
    if !(0 <= i && i + 5 <= b.len()) {
        None
    } else if b[i] != 0xddu8 {
        None
    } else {
        let n = be32_val(b.subrange(i + 1, i + 5));
        dec_bin_str_items(b, i + 5, n, Seq::empty())
    }
}

/// A buffer that carries the concatenated frames of `l` at position `i`
/// decodes, over `l.len()` steps, to `acc` extended with `l`.
#[verifier::rlimit(100)]
#[verifier::spinoff_prover]
proof fn lemma_dec_bin_str_items(b: Seq<u8>, i: int, l: Seq<Seq<char>>, acc: Seq<Seq<char>>)
    requires
        forall|k: int| 0 <= k < l.len() ==> str_bin_encodable(#[trigger] l[k]),
        0 <= i,
        i + enc_bin_str_items(l).len() <= b.len(),
        b.subrange(i, i + enc_bin_str_items(l).len()) == enc_bin_str_items(l),
    ensures
        dec_bin_str_items(b, i, l.len() as int, acc) == Some(
            (acc + l, i + enc_bin_str_items(l).len()),
        ),
    decreases l.len(),
{
    if l.len() == 0 {
        assert(acc + l =~= acc);
    } else {
        let e0 = enc_bin_str(l.first());
        let erest = enc_bin_str_items(l.drop_first());
        lemma_split_concat(b, i, e0, erest);
        lemma_dec_bin_str(b, i, l.first());
        let j = i + e0.len();
        lemma_dec_bin_str_items(b, j, l.drop_first(), acc.push(l.first()));
        assert(acc.push(l.first()) + l.drop_first() =~= acc + l);
    }
}

/// A buffer that carries an encoded string list at position `i` decodes to
/// the list there.
#[verifier::rlimit(100)]
#[verifier::spinoff_prover]
pub proof fn lemma_dec_bin_str_list(b: Seq<u8>, i: int, l: Seq<Seq<char>>)
    requires
        str_list_bin_encodable(l),
        0 <= i,
        i + enc_bin_str_list(l).len() <= b.len(),
        b.subrange(i, i + enc_bin_str_list(l).len()) == enc_bin_str_list(l),
    ensures
        dec_bin_str_list(b, i) == Some((l, i + enc_bin_str_list(l).len())),
{
    let n = l.len() as int;
    lemma_be32_round_trip(n);
    let hdr = seq![0xddu8] + be32(n);
    let items = enc_bin_str_items(l);
    assert(enc_bin_str_list(l) =~= hdr + items);
    lemma_split_concat(b, i, hdr, items);
    assert(b[i] == hdr[0]);
    assert(b.subrange(i + 1, i + 5) =~= hdr.subrange(1, 5));
    assert(hdr.subrange(1, 5) =~= be32(n));
    lemma_dec_bin_str_items(b, i + 5, l, Seq::empty());
    assert(Seq::<Seq<char>>::empty() + l =~= l);
}

/// Append the frame of the string list `v`; fails only when a string or the
/// list outgrows its frame.
#[verifier::rlimit(100)]
#[verifier::spinoff_prover]
fn encode_str_list_into(out: &mut Vec<u8>, v: &Vec<String>) -> (ok: bool)
    ensures
        ok == str_list_bin_encodable(v.deep_view()),
        ok ==> final(out)@ == old(out)@ + enc_bin_str_list(v.deep_view()),
{
    let ghost l = v.deep_view();
    if v.len() as u64 > 0xFFFFFFFFu64 {
        return false;
    }
    out.push(0xdd);
    write_be32(out, v.len() as u32);
    let ghost hdr_done = out@;
    let mut i: usize = 0;
    while i < v.len()
        invariant
            i <= v.len(),
            l == v.deep_view(),
            forall|k: int| 0 <= k < i ==> str_bin_encodable(#[trigger] l[k]),
            out@ == hdr_done + enc_bin_str_items(l.take(i as int)),
        decreases v.len() - i,
    {
        let ghost before = out@;
        let ok = encode_str_into(out, &v[i]);
        if !ok {
            proof {
                assert(l[i as int] == v@[i as int]@);
                assert(!str_bin_encodable(l[i as int]));
            }
            return false;
        }
        proof {
            lemma_enc_bin_str_items_snoc(l.take(i as int), l[i as int]);
            assert(l.take(i as int).push(l[i as int]) =~= l.take(i as int + 1));
            assert(out@ =~= hdr_done + enc_bin_str_items(l.take(i as int + 1)));
        }
        i += 1;
    }
    proof {
        assert(l.take(v.len() as int) =~= l);
        assert(out@ =~= old(out)@ + enc_bin_str_list(l));
    }
    true
}

/// Appending one more string to a list appends its frame to the list's
/// frames.
proof fn lemma_enc_bin_str_items_snoc(l: Seq<Seq<char>>, s: Seq<char>)
    ensures
        enc_bin_str_items(l.push(s)) == enc_bin_str_items(l) + enc_bin_str(s),
    decreases l.len(),
{
    if l.len() == 0 {
        assert(l.push(s).drop_first() =~= l);
        assert(enc_bin_str_items(l.push(s)) =~= enc_bin_str_items(l) + enc_bin_str(s));
    } else {
        assert(l.push(s).first() == l.first());
        assert(l.push(s).drop_first() =~= l.drop_first().push(s));
        lemma_enc_bin_str_items_snoc(l.drop_first(), s);
        assert(enc_bin_str_items(l.push(s)) =~= enc_bin_str_items(l) + enc_bin_str(s));
    }
}

/// Decode the string-list frame at position `i`.
#[verifier::rlimit(100)]
#[verifier::spinoff_prover]
fn decode_str_list_at(b: &Vec<u8>, i: usize) -> (r: Option<(Vec<String>, usize)>)
    ensures
        match r {
            Some((l, j)) => dec_bin_str_list(b@, i as int) == Some((l.deep_view(), j as int)),
            None => dec_bin_str_list(b@, i as int) is None,
        },
{
    if b.len() < 5 || i > b.len() - 5 {
        return None;
    }
    if b[i] != 0xdd {
        return None;
    }
    let n32 = read_be32(b, i + 1);
    proof {
        assert(b@.subrange(i as int + 1, i as int + 5) =~= b@.subrange(i as int + 1, i as int + 1
            + 4));
    }
    let n = n32 as usize;
    let mut acc: Vec<String> = Vec::new();
    proof {
        assert(acc.deep_view() =~= Seq::<Seq<char>>::empty());
    }
    let mut pos: usize = i + 5;
    let mut k: usize = 0;
    while k < n
        invariant
            k <= n,
            i as int + 5 <= b@.len(),
            b@[i as int] == 0xdd,
            n as int == be32_val(b@.subrange(i as int + 1, i as int + 5)),
            dec_bin_str_items(b@, i as int + 5, n as int, Seq::empty()) == dec_bin_str_items(
                b@,
                pos as int,
                n as int - k as int,
                acc.deep_view(),
            ),
        decreases n - k,
    {
        match decode_str_at(b, pos) {
            Some((s, j)) => {
                let ghost acc_before = acc.deep_view();
                acc.push(s);
                proof {
                    assert(acc.deep_view() =~= acc_before.push(s@));
                }
                pos = j;
            },
            None => {
                proof {
                    assert(dec_bin_str_items(
                        b@,
                        pos as int,
                        n as int - k as int,
                        acc.deep_view(),
                    ) is None);
                    assert(dec_bin_str_items(b@, i as int + 5, n as int, Seq::empty()) is None);
                    assert(dec_bin_str_list(b@, i as int) is None);
                }
                return None;
            },
        }
        k += 1;
    }
    Some((acc, pos))
}

// ---------------------------------------------------------------------------
// Map keys.
// ---------------------------------------------------------------------------

pub open spec fn key_src() -> Seq<char> {
    seq!['s', 'r', 'c']
}

pub open spec fn key_src_port() -> Seq<char> {
    seq!['s', 'r', 'c', '_', 'p', 'o', 'r', 't']
}

pub open spec fn key_label() -> Seq<char> {
    seq!['l', 'a', 'b', 'e', 'l']
}

pub open spec fn key_dst() -> Seq<char> {
    seq!['d', 's', 't']
}

pub open spec fn key_dst_port() -> Seq<char> {
    seq!['d', 's', 't', '_', 'p', 'o', 'r', 't']
}

pub open spec fn key_category() -> Seq<char> {
    seq!['c', 'a', 't', 'e', 'g', 'o', 'r', 'y']
}

pub open spec fn key_body_path() -> Seq<char> {
    seq!['b', 'o', 'd', 'y', '_', 'p', 'a', 't', 'h']
}

pub open spec fn key_covered_elements() -> Seq<char> {
    seq!['c', 'o', 'v', 'e', 'r', 'e', 'd', '_', 'e', 'l', 'e', 'm', 'e', 'n', 't', 's']
}

pub open spec fn key_covered_relations() -> Seq<char> {
    seq!['c', 'o', 'v', 'e', 'r', 'e', 'd', '_', 'r', 'e', 'l', 'a', 't', 'i', 'o', 'n', 's']
}

pub open spec fn key_model_paths() -> Seq<char> {
    seq!['m', 'o', 'd', 'e', 'l', '_', 'p', 'a', 't', 'h', 's']
}

pub open spec fn key_elements() -> Seq<char> {
    seq!['e', 'l', 'e', 'm', 'e', 'n', 't', 's']
}

pub open spec fn key_relations() -> Seq<char> {
    seq!['r', 'e', 'l', 'a', 't', 'i', 'o', 'n', 's']
}

/// The UTF-8 encoding of an ASCII sequence is one byte per character.
proof fn lemma_ascii_encodable(s: Seq<char>)
    requires
        vstd::utf8::is_ascii_chars(s),
        s.len() <= 0xFFFFFFFF,
    ensures
        str_bin_encodable(s),
{
    vstd::utf8::is_ascii_chars_encode_utf8(s);
}

/// Every map key of the header formats fits its frame.
proof fn lemma_keys_encodable()
    ensures
        str_bin_encodable(key_src()),
        str_bin_encodable(key_src_port()),
        str_bin_encodable(key_label()),
        str_bin_encodable(key_dst()),
        str_bin_encodable(key_dst_port()),
        str_bin_encodable(key_category()),
        str_bin_encodable(key_body_path()),
        str_bin_encodable(key_covered_elements()),
        str_bin_encodable(key_covered_relations()),
        str_bin_encodable(key_model_paths()),
        str_bin_encodable(key_elements()),
        str_bin_encodable(key_relations()),
{
    lemma_ascii_encodable(key_src());
    lemma_ascii_encodable(key_src_port());
    lemma_ascii_encodable(key_label());
    lemma_ascii_encodable(key_dst());
    lemma_ascii_encodable(key_dst_port());
    lemma_ascii_encodable(key_category());
    lemma_ascii_encodable(key_body_path());
    lemma_ascii_encodable(key_covered_elements());
    lemma_ascii_encodable(key_covered_relations());
    lemma_ascii_encodable(key_model_paths());
    lemma_ascii_encodable(key_elements());
    lemma_ascii_encodable(key_relations());
}

/// The key literals carry exactly the key character sequences.
pub(crate) proof fn lemma_key_views()
    ensures
        "src"@ == key_src(),
        "src_port"@ == key_src_port(),
        "label"@ == key_label(),
        "dst"@ == key_dst(),
        "dst_port"@ == key_dst_port(),
        "category"@ == key_category(),
        "body_path"@ == key_body_path(),
        "covered_elements"@ == key_covered_elements(),
        "covered_relations"@ == key_covered_relations(),
        "model_paths"@ == key_model_paths(),
        "elements"@ == key_elements(),
        "relations"@ == key_relations(),
{
    reveal_strlit("src");
    reveal_strlit("src_port");
    reveal_strlit("label");
    reveal_strlit("dst");
    reveal_strlit("dst_port");
    reveal_strlit("category");
    reveal_strlit("body_path");
    reveal_strlit("covered_elements");
    reveal_strlit("covered_relations");
    reveal_strlit("model_paths");
    reveal_strlit("elements");
    reveal_strlit("relations");
    assert("src"@ =~= key_src());
    assert("src_port"@ =~= key_src_port());
    assert("label"@ =~= key_label());
    assert("dst"@ =~= key_dst());
    assert("dst_port"@ =~= key_dst_port());
    assert("category"@ =~= key_category());
    assert("body_path"@ =~= key_body_path());
    assert("covered_elements"@ =~= key_covered_elements());
    assert("covered_relations"@ =~= key_covered_relations());
    assert("model_paths"@ =~= key_model_paths());
    assert("elements"@ =~= key_elements());
    assert("relations"@ =~= key_relations());
}

/// Decode the string frame at `i` and accept it only as the given key.
pub open spec fn dec_bin_key(b: Seq<u8>, i: int, key: Seq<char>) -> Option<int> {
    match dec_bin_str(b, i) {
        Some((s, j)) => if s == key {
            Some(j)
        } else {
            None
        },
        None => None,
    }
}

/// A buffer that carries the encoded key at `i` passes the key check.
proof fn lemma_dec_bin_key(b: Seq<u8>, i: int, key: Seq<char>)
    requires
        str_bin_encodable(key),
        0 <= i,
        i + enc_bin_str(key).len() <= b.len(),
        b.subrange(i, i + enc_bin_str(key).len()) == enc_bin_str(key),
    ensures
        dec_bin_key(b, i, key) == Some(i + enc_bin_str(key).len()),
{
    lemma_dec_bin_str(b, i, key);
}

/// Append the frame of the key.
fn encode_key_into(out: &mut Vec<u8>, key: &str) -> (ok: bool)
    ensures
        ok == str_bin_encodable(key@),
        ok ==> final(out)@ == old(out)@ + enc_bin_str(key@),
{
    let ks = key.to_owned();
    encode_str_into(out, &ks)
}

/// Decode the key frame at `i` and check it against the expected key.
fn decode_key_at(b: &Vec<u8>, i: usize, key: &str) -> (r: Option<usize>)
    ensures
        match r {
            Some(j) => dec_bin_key(b@, i as int, key@) == Some(j as int),
            None => dec_bin_key(b@, i as int, key@) is None,
        },
{
    match decode_str_at(b, i) {
        Some((s, j)) => {
            let ks = key.to_owned();
            if s.eq(&ks) {
                Some(j)
            } else {
                None
            }
        },
        None => None,
    }
}

// ---------------------------------------------------------------------------
// Arcs.
// ---------------------------------------------------------------------------

/// Whether every field of an arc fits its frame.
pub open spec fn arc_bin_encodable(a: crate::headers::ArcView) -> bool {
    str_bin_encodable(a.src) && opt_str_bin_encodable(a.src_port) && opt_str_bin_encodable(a.label)
        && str_bin_encodable(a.dst) && opt_str_bin_encodable(a.dst_port)
}

/// The framed arc: a five-entry map from field names to field values.
pub open spec fn enc_bin_arc(a: crate::headers::ArcView) -> Seq<u8> {
    seq![0xdfu8] + be32(5) + enc_bin_str(key_src()) + enc_bin_str(a.src) + enc_bin_str(
        key_src_port(),
    ) + enc_bin_opt_str(a.src_port) + enc_bin_str(key_label()) + enc_bin_opt_str(a.label)
        + enc_bin_str(key_dst()) + enc_bin_str(a.dst) + enc_bin_str(key_dst_port())
        + enc_bin_opt_str(a.dst_port)
}

/// Decode the framed arc at position `i`.
pub open spec fn dec_bin_arc(b: Seq<u8>, i: int) -> Option<(crate::headers::ArcView, int)> {
    if !(0 <= i && i + 5 <= b.len()) {
        None
    } else if b[i] != 0xdfu8 {
        None
    } else if be32_val(b.subrange(i + 1, i + 5)) != 5 {
        None
    } else {
        match dec_bin_key(b, i + 5, key_src()) {
            Some(i1) => match dec_bin_str(b, i1) {
                Some((src, i2)) => match dec_bin_key(b, i2, key_src_port()) {
                    Some(i3) => match dec_bin_opt_str(b, i3) {
                        Some((src_port, i4)) => match dec_bin_key(b, i4, key_label()) {
                            Some(i5) => match dec_bin_opt_str(b, i5) {
                                Some((label, i6)) => match dec_bin_key(b, i6, key_dst()) {
                                    Some(i7) => match dec_bin_str(b, i7) {
                                        Some((dst, i8)) => match dec_bin_key(b, i8, key_dst_port()) {
                                            Some(i9) => match dec_bin_opt_str(b, i9) {
                                                Some((dst_port, i10)) => Some(
                                                    (
                                                        crate::headers::ArcView {
                                                            src,
                                                            src_port,
                                                            label,
                                                            dst,
                                                            dst_port,
                                                        },
                                                        i10,
                                                    ),
                                                ),
                                                None => None,
                                            },
                                            None => None,
                                        },
                                        None => None,
                                    },
                                    None => None,
                                },
                                None => None,
                            },
                            None => None,
                        },
                        None => None,
                    },
                    None => None,
                },
                None => None,
            },
            None => None,
        }
    }
}

/// A buffer that carries an encoded arc at position `i` decodes to the arc
/// there.
#[verifier::rlimit(100)]
pub proof fn lemma_dec_bin_arc(b: Seq<u8>, i: int, a: crate::headers::ArcView)
    requires
        arc_bin_encodable(a),
        0 <= i,
        i + enc_bin_arc(a).len() <= b.len(),
        b.subrange(i, i + enc_bin_arc(a).len()) == enc_bin_arc(a),
    ensures
        dec_bin_arc(b, i) == Some((a, i + enc_bin_arc(a).len())),
{
    lemma_keys_encodable();
    let hdr = seq![0xdfu8] + be32(5);
    let p1 = enc_bin_str(key_src());
    let p2 = enc_bin_str(a.src);
    let p3 = enc_bin_str(key_src_port());
    let p4 = enc_bin_opt_str(a.src_port);
    let p5 = enc_bin_str(key_label());
    let p6 = enc_bin_opt_str(a.label);
    let p7 = enc_bin_str(key_dst());
    let p8 = enc_bin_str(a.dst);
    let p9 = enc_bin_str(key_dst_port());
    let p10 = enc_bin_opt_str(a.dst_port);
    let e = enc_bin_arc(a);
    assert(e =~= hdr + p1 + p2 + p3 + p4 + p5 + p6 + p7 + p8 + p9 + p10);
    lemma_split_concat(b, i, hdr + p1 + p2 + p3 + p4 + p5 + p6 + p7 + p8 + p9, p10);
    let o10 = i + (hdr + p1 + p2 + p3 + p4 + p5 + p6 + p7 + p8 + p9).len();
    lemma_split_concat(b, i, hdr + p1 + p2 + p3 + p4 + p5 + p6 + p7 + p8, p9);
    let o9 = i + (hdr + p1 + p2 + p3 + p4 + p5 + p6 + p7 + p8).len();
    lemma_split_concat(b, i, hdr + p1 + p2 + p3 + p4 + p5 + p6 + p7, p8);
    let o8 = i + (hdr + p1 + p2 + p3 + p4 + p5 + p6 + p7).len();
    lemma_split_concat(b, i, hdr + p1 + p2 + p3 + p4 + p5 + p6, p7);
    let o7 = i + (hdr + p1 + p2 + p3 + p4 + p5 + p6).len();
    lemma_split_concat(b, i, hdr + p1 + p2 + p3 + p4 + p5, p6);
    let o6 = i + (hdr + p1 + p2 + p3 + p4 + p5).len();
    lemma_split_concat(b, i, hdr + p1 + p2 + p3 + p4, p5);
    let o5 = i + (hdr + p1 + p2 + p3 + p4).len();
    lemma_split_concat(b, i, hdr + p1 + p2 + p3, p4);
    let o4 = i + (hdr + p1 + p2 + p3).len();
    lemma_split_concat(b, i, hdr + p1 + p2, p3);
    let o3 = i + (hdr + p1 + p2).len();
    lemma_split_concat(b, i, hdr + p1, p2);
    let o2 = i + (hdr + p1).len();
    lemma_split_concat(b, i, hdr, p1);
    let o1 = i + hdr.len();
    lemma_be32_round_trip(5);
    assert(b[i] == hdr[0]);
    assert(b.subrange(i + 1, i + 5) =~= hdr.subrange(1, 5));
    assert(hdr.subrange(1, 5) =~= be32(5));
    lemma_dec_bin_key(b, o1, key_src());
    lemma_dec_bin_str(b, o1 + p1.len(), a.src);
    lemma_dec_bin_key(b, o2 + p2.len(), key_src_port());
    lemma_dec_bin_opt_str(b, o3 + p3.len(), a.src_port);
    lemma_dec_bin_key(b, o4 + p4.len(), key_label());
    lemma_dec_bin_opt_str(b, o5 + p5.len(), a.label);
    lemma_dec_bin_key(b, o6 + p6.len(), key_dst());
    lemma_dec_bin_str(b, o7 + p7.len(), a.dst);
    lemma_dec_bin_key(b, o8 + p8.len(), key_dst_port());
    lemma_dec_bin_opt_str(b, o9 + p9.len(), a.dst_port);
}

/// Append the frame of the arc; fails only when a field outgrows its frame.
#[verifier::rlimit(100)]
fn encode_arc_into(out: &mut Vec<u8>, arc: &crate::headers::LabelledArcWithPorts) -> (ok: bool)
    ensures
        ok == arc_bin_encodable(arc@),
        ok ==> final(out)@ == old(out)@ + enc_bin_arc(arc@),
{
    proof {
        lemma_keys_encodable();
        lemma_key_views();
    }
    out.push(0xdf);
    write_be32(out, 5);
    let k1 = encode_key_into(out, "src");
    assert(k1);
    let v1 = encode_str_into(out, &arc.src);
    if !v1 {
        return false;
    }
    let k2 = encode_key_into(out, "src_port");
    assert(k2);
    let v2 = encode_opt_str_into(out, &arc.src_port);
    if !v2 {
        return false;
    }
    let k3 = encode_key_into(out, "label");
    assert(k3);
    let v3 = encode_opt_str_into(out, &arc.label);
    if !v3 {
        return false;
    }
    let k4 = encode_key_into(out, "dst");
    assert(k4);
    let v4 = encode_str_into(out, &arc.dst);
    if !v4 {
        return false;
    }
    let k5 = encode_key_into(out, "dst_port");
    assert(k5);
    let v5 = encode_opt_str_into(out, &arc.dst_port);
    if !v5 {
        return false;
    }
    proof {
        assert(final(out)@ =~= old(out)@ + enc_bin_arc(arc@));
    }
    true
}

/// Decode the arc frame at position `i`.
fn decode_arc_at(b: &Vec<u8>, i: usize) -> (r: Option<(crate::headers::LabelledArcWithPorts, usize)>)
    ensures
        match r {
            Some((arc, j)) => dec_bin_arc(b@, i as int) == Some((arc@, j as int)),
            None => dec_bin_arc(b@, i as int) is None,
        },
{
    proof {
        lemma_key_views();
    }
    if b.len() < 5 || i > b.len() - 5 {
        return None;
    }
    if b[i] != 0xdf {
        return None;
    }
    let n32 = read_be32(b, i + 1);
    proof {
        assert(b@.subrange(i as int + 1, i as int + 5) =~= b@.subrange(i as int + 1, i as int + 1
            + 4));
    }
    if n32 != 5 {
        return None;
    }
    let i1 = match decode_key_at(b, i + 5, "src") {
        Some(j) => j,
        None => {
            return None;
        },
    };
    let (src, i2) = match decode_str_at(b, i1) {
        Some(p) => p,
        None => {
            return None;
        },
    };
    let i3 = match decode_key_at(b, i2, "src_port") {
        Some(j) => j,
        None => {
            return None;
        },
    };
    let (src_port, i4) = match decode_opt_str_at(b, i3) {
        Some(p) => p,
        None => {
            return None;
        },
    };
    let i5 = match decode_key_at(b, i4, "label") {
        Some(j) => j,
        None => {
            return None;
        },
    };
    let (label, i6) = match decode_opt_str_at(b, i5) {
        Some(p) => p,
        None => {
            return None;
        },
    };
    let i7 = match decode_key_at(b, i6, "dst") {
        Some(j) => j,
        None => {
            return None;
        },
    };
    let (dst, i8) = match decode_str_at(b, i7) {
        Some(p) => p,
        None => {
            return None;
        },
    };
    let i9 = match decode_key_at(b, i8, "dst_port") {
        Some(j) => j,
        None => {
            return None;
        },
    };
    let (dst_port, i10) = match decode_opt_str_at(b, i9) {
        Some(p) => p,
        None => {
            return None;
        },
    };
    let arc = crate::headers::LabelledArcWithPorts { src, src_port, label, dst, dst_port };
    Some((arc, i10))
}

// ---------------------------------------------------------------------------
// Arc lists.
// ---------------------------------------------------------------------------

/// The concatenated frames of the arcs of `l`.
pub open spec fn enc_bin_arc_items(l: Seq<crate::headers::ArcView>) -> Seq<u8>
    decreases l.len(),
{
    if l.len() == 0 {
        Seq::empty()
    } else {
        enc_bin_arc(l.first()) + enc_bin_arc_items(l.drop_first())
    }
}

/// Whether an arc list fits its frame.
pub open spec fn arc_list_bin_encodable(l: Seq<crate::headers::ArcView>) -> bool {
    l.len() <= 0xFFFFFFFF && forall|k: int| 0 <= k < l.len() ==> arc_bin_encodable(#[trigger] l[k])
}

/// A framed arc list: marker, element count, element frames.
pub open spec fn enc_bin_arc_list(l: Seq<crate::headers::ArcView>) -> Seq<u8> {
    seq![0xddu8] + be32(l.len() as int) + enc_bin_arc_items(l)
}

/// Decode `n` arc frames starting at position `i`, collecting onto `acc`.
pub open spec fn dec_bin_arc_items(
    b: Seq<u8>,
    i: int,
    n: int,
    acc: Seq<crate::headers::ArcView>,
) -> Option<(Seq<crate::headers::ArcView>, int)>
    decreases n,
{
    if n <= 0 {
        Some((acc, i))
    } else {
        match dec_bin_arc(b, i) {
            Some((a, j)) => dec_bin_arc_items(b, j, n - 1, acc.push(a)),
            None => None,
        }
    }
}

/// Decode a framed arc list at position `i`.
pub open spec fn dec_bin_arc_list(b: Seq<u8>, i: int) -> Option<
    (Seq<crate::headers::ArcView>, int),
> {
    if !(0 <= i && i + 5 <= b.len()) {
        None
    } else if b[i] != 0xddu8 {
        None
    } else {
        let n = be32_val(b.subrange(i + 1, i + 5));
        dec_bin_arc_items(b, i + 5, n, Seq::empty())
    }
}

/// A buffer that carries the concatenated frames of `l` at position `i`
/// decodes, over `l.len()` steps, to `acc` extended with `l`.
#[verifier::rlimit(100)]
#[verifier::spinoff_prover]
proof fn lemma_dec_bin_arc_items(
    b: Seq<u8>,
    i: int,
    l: Seq<crate::headers::ArcView>,
    acc: Seq<crate::headers::ArcView>,
)
    requires
        forall|k: int| 0 <= k < l.len() ==> arc_bin_encodable(#[trigger] l[k]),
        0 <= i,
        i + enc_bin_arc_items(l).len() <= b.len(),
        b.subrange(i, i + enc_bin_arc_items(l).len()) == enc_bin_arc_items(l),
    ensures
        dec_bin_arc_items(b, i, l.len() as int, acc) == Some(
            (acc + l, i + enc_bin_arc_items(l).len()),
        ),
    decreases l.len(),
{
    if l.len() == 0 {
        assert(acc + l =~= acc);
    } else {
        let e0 = enc_bin_arc(l.first());
        let erest = enc_bin_arc_items(l.drop_first());
        lemma_split_concat(b, i, e0, erest);
        lemma_dec_bin_arc(b, i, l.first());
        let j = i + e0.len();
        lemma_dec_bin_arc_items(b, j, l.drop_first(), acc.push(l.first()));
        assert(acc.push(l.first()) + l.drop_first() =~= acc + l);
    }
}

/// A buffer that carries an encoded arc list at position `i` decodes to the
/// list there.
#[verifier::rlimit(100)]
#[verifier::spinoff_prover]
pub proof fn lemma_dec_bin_arc_list(b: Seq<u8>, i: int, l: Seq<crate::headers::ArcView>)
    requires
        arc_list_bin_encodable(l),
        0 <= i,
        i + enc_bin_arc_list(l).len() <= b.len(),
        b.subrange(i, i + enc_bin_arc_list(l).len()) == enc_bin_arc_list(l),
    ensures
        dec_bin_arc_list(b, i) == Some((l, i + enc_bin_arc_list(l).len())),
{
    let n = l.len() as int;
    lemma_be32_round_trip(n);
    let hdr = seq![0xddu8] + be32(n);
    let items = enc_bin_arc_items(l);
    assert(enc_bin_arc_list(l) =~= hdr + items);
    lemma_split_concat(b, i, hdr, items);
    assert(b[i] == hdr[0]);
    assert(b.subrange(i + 1, i + 5) =~= hdr.subrange(1, 5));
    assert(hdr.subrange(1, 5) =~= be32(n));
    lemma_dec_bin_arc_items(b, i + 5, l, Seq::empty());
    assert(Seq::<crate::headers::ArcView>::empty() + l =~= l);
}

/// Appending one more arc to a list appends its frame to the list's frames.
proof fn lemma_enc_bin_arc_items_snoc(l: Seq<crate::headers::ArcView>, a: crate::headers::ArcView)
    ensures
        enc_bin_arc_items(l.push(a)) == enc_bin_arc_items(l) + enc_bin_arc(a),
    decreases l.len(),
{
    if l.len() == 0 {
        assert(l.push(a).drop_first() =~= l);
        assert(enc_bin_arc_items(l.push(a)) =~= enc_bin_arc_items(l) + enc_bin_arc(a));
    } else {
        assert(l.push(a).first() == l.first());
        assert(l.push(a).drop_first() =~= l.drop_first().push(a));
        lemma_enc_bin_arc_items_snoc(l.drop_first(), a);
        assert(enc_bin_arc_items(l.push(a)) =~= enc_bin_arc_items(l) + enc_bin_arc(a));
    }
}

/// Append the frame of the arc list `v`; fails only when an arc or the list
/// outgrows its frame.
#[verifier::rlimit(100)]
#[verifier::spinoff_prover]
fn encode_arc_list_into(out: &mut Vec<u8>, v: &Vec<crate::headers::LabelledArcWithPorts>) -> (ok:
    bool)
    ensures
        ok == arc_list_bin_encodable(v.deep_view()),
        ok ==> final(out)@ == old(out)@ + enc_bin_arc_list(v.deep_view()),
{
    let ghost l = v.deep_view();
    if v.len() as u64 > 0xFFFFFFFFu64 {
        return false;
    }
    out.push(0xdd);
    write_be32(out, v.len() as u32);
    let ghost hdr_done = out@;
    let mut i: usize = 0;
    while i < v.len()
        invariant
            i <= v.len(),
            l == v.deep_view(),
            forall|k: int| 0 <= k < i ==> arc_bin_encodable(#[trigger] l[k]),
            out@ == hdr_done + enc_bin_arc_items(l.take(i as int)),
        decreases v.len() - i,
    {
        let ok = encode_arc_into(out, &v[i]);
        if !ok {
            proof {
                assert(l[i as int] == v@[i as int]@);
                assert(!arc_bin_encodable(l[i as int]));
            }
            return false;
        }
        proof {
            lemma_enc_bin_arc_items_snoc(l.take(i as int), l[i as int]);
            assert(l.take(i as int).push(l[i as int]) =~= l.take(i as int + 1));
            assert(out@ =~= hdr_done + enc_bin_arc_items(l.take(i as int + 1)));
        }
        i += 1;
    }
    proof {
        assert(l.take(v.len() as int) =~= l);
        assert(out@ =~= old(out)@ + enc_bin_arc_list(l));
    }
    true
}

/// Decode the arc-list frame at position `i`.
#[verifier::rlimit(100)]
#[verifier::spinoff_prover]
fn decode_arc_list_at(b: &Vec<u8>, i: usize) -> (r: Option<
    (Vec<crate::headers::LabelledArcWithPorts>, usize),
>)
    ensures
        match r {
            Some((l, j)) => dec_bin_arc_list(b@, i as int) == Some((l.deep_view(), j as int)),
            None => dec_bin_arc_list(b@, i as int) is None,
        },
{
    if b.len() < 5 || i > b.len() - 5 {
        return None;
    }
    if b[i] != 0xdd {
        return None;
    }
    let n32 = read_be32(b, i + 1);
    proof {
        assert(b@.subrange(i as int + 1, i as int + 5) =~= b@.subrange(i as int + 1, i as int + 1
            + 4));
    }
    let n = n32 as usize;
    let mut acc: Vec<crate::headers::LabelledArcWithPorts> = Vec::new();
    proof {
        assert(acc.deep_view() =~= Seq::<crate::headers::ArcView>::empty());
    }
    let mut pos: usize = i + 5;
    let mut k: usize = 0;
    while k < n
        invariant
            k <= n,
            i as int + 5 <= b@.len(),
            b@[i as int] == 0xdd,
            n as int == be32_val(b@.subrange(i as int + 1, i as int + 5)),
            dec_bin_arc_items(b@, i as int + 5, n as int, Seq::empty()) == dec_bin_arc_items(
                b@,
                pos as int,
                n as int - k as int,
                acc.deep_view(),
            ),
        decreases n - k,
    {
        match decode_arc_at(b, pos) {
            Some((a, j)) => {
                let ghost acc_before = acc.deep_view();
                let ghost av = a@;
                acc.push(a);
                proof {
                    assert(acc.deep_view() =~= acc_before.push(av));
                }
                pos = j;
            },
            None => {
                proof {
                    assert(dec_bin_arc_items(
                        b@,
                        pos as int,
                        n as int - k as int,
                        acc.deep_view(),
                    ) is None);
                    assert(dec_bin_arc_items(b@, i as int + 5, n as int, Seq::empty()) is None);
                    assert(dec_bin_arc_list(b@, i as int) is None);
                }
                return None;
            },
        }
        k += 1;
    }
    Some((acc, pos))
}


// ---------------------------------------------------------------------------
// Header frames.
// ---------------------------------------------------------------------------

/// Whether every field of a decision header fits its frame.
pub open spec fn decision_bin_encodable(h: crate::headers::DecisionHeaderView) -> bool {
    str_bin_encodable(h.category) && opt_str_bin_encodable(h.body_path) && str_list_bin_encodable(
        h.covered_elements,
    ) && arc_list_bin_encodable(h.covered_relations)
}

/// The framed decision header: a four-entry map from field names to values.
pub open spec fn enc_bin_decision(h: crate::headers::DecisionHeaderView) -> Seq<u8> {
    seq![0xdfu8] + be32(4) + enc_bin_str(key_category()) + enc_bin_str(h.category) + enc_bin_str(
        key_body_path(),
    ) + enc_bin_opt_str(h.body_path) + enc_bin_str(key_covered_elements()) + enc_bin_str_list(
        h.covered_elements,
    ) + enc_bin_str(key_covered_relations()) + enc_bin_arc_list(h.covered_relations)
}

/// Decode the framed decision header at position `i`.
pub open spec fn dec_bin_decision(b: Seq<u8>, i: int) -> Option<
    (crate::headers::DecisionHeaderView, int),
> {
    if !(0 <= i && i + 5 <= b.len()) {
        None
    } else if b[i] != 0xdfu8 {
        None
    } else if be32_val(b.subrange(i + 1, i + 5)) != 4 {
        None
    } else {
        match dec_bin_key(b, i + 5, key_category()) {
            Some(i1) => match dec_bin_str(b, i1) {
                Some((category, i2)) => match dec_bin_key(b, i2, key_body_path()) {
                    Some(i3) => match dec_bin_opt_str(b, i3) {
                        Some((body_path, i4)) => match dec_bin_key(b, i4, key_covered_elements()) {
                            Some(i5) => match dec_bin_str_list(b, i5) {
                                Some((covered_elements, i6)) => match dec_bin_key(
                                    b,
                                    i6,
                                    key_covered_relations(),
                                ) {
                                    Some(i7) => match dec_bin_arc_list(b, i7) {
                                        Some((covered_relations, i8)) => Some(
                                            (
                                                crate::headers::DecisionHeaderView {
                                                    category,
                                                    body_path,
                                                    covered_elements,
                                                    covered_relations,
                                                },
                                                i8,
                                            ),
                                        ),
                                        None => None,
                                    },
                                    None => None,
                                },
                                None => None,
                            },
                            None => None,
                        },
                        None => None,
                    },
                    None => None,
                },
                None => None,
            },
            None => None,
        }
    }
}

/// A buffer that carries an encoded decision header at position `i` decodes
/// to the header there.
#[verifier::rlimit(100)]
#[verifier::spinoff_prover]
pub proof fn lemma_dec_bin_decision(b: Seq<u8>, i: int, h: crate::headers::DecisionHeaderView)
    requires
        decision_bin_encodable(h),
        0 <= i,
        i + enc_bin_decision(h).len() <= b.len(),
        b.subrange(i, i + enc_bin_decision(h).len()) == enc_bin_decision(h),
    ensures
        dec_bin_decision(b, i) == Some((h, i + enc_bin_decision(h).len())),
{
    lemma_keys_encodable();
    let hdr = seq![0xdfu8] + be32(4);
    let p1 = enc_bin_str(key_category());
    let p2 = enc_bin_str(h.category);
    let p3 = enc_bin_str(key_body_path());
    let p4 = enc_bin_opt_str(h.body_path);
    let p5 = enc_bin_str(key_covered_elements());
    let p6 = enc_bin_str_list(h.covered_elements);
    let p7 = enc_bin_str(key_covered_relations());
    let p8 = enc_bin_arc_list(h.covered_relations);
    assert(enc_bin_decision(h) == hdr + p1 + p2 + p3 + p4 + p5 + p6 + p7 + p8);
    lemma_split_concat(b, i, hdr + p1 + p2 + p3 + p4 + p5 + p6 + p7, p8);
    lemma_split_concat(b, i, hdr + p1 + p2 + p3 + p4 + p5 + p6, p7);
    lemma_split_concat(b, i, hdr + p1 + p2 + p3 + p4 + p5, p6);
    lemma_split_concat(b, i, hdr + p1 + p2 + p3 + p4, p5);
    lemma_split_concat(b, i, hdr + p1 + p2 + p3, p4);
    lemma_split_concat(b, i, hdr + p1 + p2, p3);
    lemma_split_concat(b, i, hdr + p1, p2);
    lemma_split_concat(b, i, hdr, p1);
    lemma_be32_round_trip(4);
    assert(b[i] == hdr[0]);
    assert(b.subrange(i + 1, i + 5) =~= hdr.subrange(1, 5));
    assert(hdr.subrange(1, 5) =~= be32(4));
    let o1 = i + hdr.len();
    let o2 = i + (hdr + p1).len();
    let o3 = i + (hdr + p1 + p2).len();
    let o4 = i + (hdr + p1 + p2 + p3).len();
    let o5 = i + (hdr + p1 + p2 + p3 + p4).len();
    let o6 = i + (hdr + p1 + p2 + p3 + p4 + p5).len();
    let o7 = i + (hdr + p1 + p2 + p3 + p4 + p5 + p6).len();
    let o8 = i + (hdr + p1 + p2 + p3 + p4 + p5 + p6 + p7).len();
    lemma_dec_bin_key(b, o1, key_category());
    lemma_dec_bin_str(b, o2, h.category);
    lemma_dec_bin_key(b, o3, key_body_path());
    lemma_dec_bin_opt_str(b, o4, h.body_path);
    lemma_dec_bin_key(b, o5, key_covered_elements());
    lemma_dec_bin_str_list(b, o6, h.covered_elements);
    lemma_dec_bin_key(b, o7, key_covered_relations());
    lemma_dec_bin_arc_list(b, o8, h.covered_relations);
}

/// Whether every field of a design header fits its frame.
pub open spec fn design_bin_encodable(h: crate::headers::DesignHeaderView) -> bool {
    str_bin_encodable(h.category) && str_list_bin_encodable(h.model_paths)
        && str_list_bin_encodable(h.elements) && arc_list_bin_encodable(h.relations)
}

/// The framed design header: a four-entry map from field names to values.
pub open spec fn enc_bin_design(h: crate::headers::DesignHeaderView) -> Seq<u8> {
    seq![0xdfu8] + be32(4) + enc_bin_str(key_category()) + enc_bin_str(h.category) + enc_bin_str(
        key_model_paths(),
    ) + enc_bin_str_list(h.model_paths) + enc_bin_str(key_elements()) + enc_bin_str_list(
        h.elements,
    ) + enc_bin_str(key_relations()) + enc_bin_arc_list(h.relations)
}

/// Decode the framed design header at position `i`.
pub open spec fn dec_bin_design(b: Seq<u8>, i: int) -> Option<
    (crate::headers::DesignHeaderView, int),
> {
    if !(0 <= i && i + 5 <= b.len()) {
        None
    } else if b[i] != 0xdfu8 {
        None
    } else if be32_val(b.subrange(i + 1, i + 5)) != 4 {
        None
    } else {
        match dec_bin_key(b, i + 5, key_category()) {
            Some(i1) => match dec_bin_str(b, i1) {
                Some((category, i2)) => match dec_bin_key(b, i2, key_model_paths()) {
                    Some(i3) => match dec_bin_str_list(b, i3) {
                        Some((model_paths, i4)) => match dec_bin_key(b, i4, key_elements()) {
                            Some(i5) => match dec_bin_str_list(b, i5) {
                                Some((elements, i6)) => match dec_bin_key(b, i6, key_relations()) {
                                    Some(i7) => match dec_bin_arc_list(b, i7) {
                                        Some((relations, i8)) => Some(
                                            (
                                                crate::headers::DesignHeaderView {
                                                    category,
                                                    model_paths,
                                                    elements,
                                                    relations,
                                                },
                                                i8,
                                            ),
                                        ),
                                        None => None,
                                    },
                                    None => None,
                                },
                                None => None,
                            },
                            None => None,
                        },
                        None => None,
                    },
                    None => None,
                },
                None => None,
            },
            None => None,
        }
    }
}

/// A buffer that carries an encoded design header at position `i` decodes to
/// the header there.
#[verifier::rlimit(100)]
#[verifier::spinoff_prover]
pub proof fn lemma_dec_bin_design(b: Seq<u8>, i: int, h: crate::headers::DesignHeaderView)
    requires
        design_bin_encodable(h),
        0 <= i,
        i + enc_bin_design(h).len() <= b.len(),
        b.subrange(i, i + enc_bin_design(h).len()) == enc_bin_design(h),
    ensures
        dec_bin_design(b, i) == Some((h, i + enc_bin_design(h).len())),
{
    lemma_keys_encodable();
    let hdr = seq![0xdfu8] + be32(4);
    let p1 = enc_bin_str(key_category());
    let p2 = enc_bin_str(h.category);
    let p3 = enc_bin_str(key_model_paths());
    let p4 = enc_bin_str_list(h.model_paths);
    let p5 = enc_bin_str(key_elements());
    let p6 = enc_bin_str_list(h.elements);
    let p7 = enc_bin_str(key_relations());
    let p8 = enc_bin_arc_list(h.relations);
    assert(enc_bin_design(h) == hdr + p1 + p2 + p3 + p4 + p5 + p6 + p7 + p8);
    lemma_split_concat(b, i, hdr + p1 + p2 + p3 + p4 + p5 + p6 + p7, p8);
    lemma_split_concat(b, i, hdr + p1 + p2 + p3 + p4 + p5 + p6, p7);
    lemma_split_concat(b, i, hdr + p1 + p2 + p3 + p4 + p5, p6);
    lemma_split_concat(b, i, hdr + p1 + p2 + p3 + p4, p5);
    lemma_split_concat(b, i, hdr + p1 + p2 + p3, p4);
    lemma_split_concat(b, i, hdr + p1 + p2, p3);
    lemma_split_concat(b, i, hdr + p1, p2);
    lemma_split_concat(b, i, hdr, p1);
    lemma_be32_round_trip(4);
    assert(b[i] == hdr[0]);
    assert(b.subrange(i + 1, i + 5) =~= hdr.subrange(1, 5));
    assert(hdr.subrange(1, 5) =~= be32(4));
    let o1 = i + hdr.len();
    let o2 = i + (hdr + p1).len();
    let o3 = i + (hdr + p1 + p2).len();
    let o4 = i + (hdr + p1 + p2 + p3).len();
    let o5 = i + (hdr + p1 + p2 + p3 + p4).len();
    let o6 = i + (hdr + p1 + p2 + p3 + p4 + p5).len();
    let o7 = i + (hdr + p1 + p2 + p3 + p4 + p5 + p6).len();
    let o8 = i + (hdr + p1 + p2 + p3 + p4 + p5 + p6 + p7).len();
    lemma_dec_bin_key(b, o1, key_category());
    lemma_dec_bin_str(b, o2, h.category);
    lemma_dec_bin_key(b, o3, key_model_paths());
    lemma_dec_bin_str_list(b, o4, h.model_paths);
    lemma_dec_bin_key(b, o5, key_elements());
    lemma_dec_bin_str_list(b, o6, h.elements);
    lemma_dec_bin_key(b, o7, key_relations());
    lemma_dec_bin_arc_list(b, o8, h.relations);
}

// ---------------------------------------------------------------------------
// Public encoding and decoding, and the round-trip laws.
// ---------------------------------------------------------------------------

/// Encode a decision model header into its canonical binary frame.  `None`
/// exactly when some field outgrows a 32-bit frame.
#[verifier::rlimit(100)]
pub fn encode_binary_decision_header(h: &crate::headers::DecisionModelHeader) -> (r: Option<
    Vec<u8>,
>)
    ensures
        match r {
            Some(b) => decision_bin_encodable(h@) && b@ == enc_bin_decision(h@),
            None => !decision_bin_encodable(h@),
        },
{
    proof {
        lemma_keys_encodable();
        lemma_key_views();
    }
    let mut out: Vec<u8> = Vec::new();
    out.push(0xdf);
    write_be32(&mut out, 4);
    let k1 = encode_key_into(&mut out, "category");
    assert(k1);
    if !encode_str_into(&mut out, &h.category) {
        return None;
    }
    let k2 = encode_key_into(&mut out, "body_path");
    assert(k2);
    if !encode_opt_str_into(&mut out, &h.body_path) {
        return None;
    }
    let k3 = encode_key_into(&mut out, "covered_elements");
    assert(k3);
    if !encode_str_list_into(&mut out, &h.covered_elements) {
        return None;
    }
    let k4 = encode_key_into(&mut out, "covered_relations");
    assert(k4);
    if !encode_arc_list_into(&mut out, &h.covered_relations) {
        return None;
    }
    proof {
        assert(out@ =~= enc_bin_decision(h@));
    }
    Some(out)
}

/// Encode a design model header into its canonical binary frame.  `None`
/// exactly when some field outgrows a 32-bit frame.
#[verifier::rlimit(100)]
pub fn encode_binary_design_header(h: &crate::headers::DesignModelHeader) -> (r: Option<Vec<u8>>)
    ensures
        match r {
            Some(b) => design_bin_encodable(h@) && b@ == enc_bin_design(h@),
            None => !design_bin_encodable(h@),
        },
{
    proof {
        lemma_keys_encodable();
        lemma_key_views();
    }
    let mut out: Vec<u8> = Vec::new();
    out.push(0xdf);
    write_be32(&mut out, 4);
    let k1 = encode_key_into(&mut out, "category");
    assert(k1);
    if !encode_str_into(&mut out, &h.category) {
        return None;
    }
    let k2 = encode_key_into(&mut out, "model_paths");
    assert(k2);
    if !encode_str_list_into(&mut out, &h.model_paths) {
        return None;
    }
    let k3 = encode_key_into(&mut out, "elements");
    assert(k3);
    if !encode_str_list_into(&mut out, &h.elements) {
        return None;
    }
    let k4 = encode_key_into(&mut out, "relations");
    assert(k4);
    if !encode_arc_list_into(&mut out, &h.relations) {
        return None;
    }
    proof {
        assert(out@ =~= enc_bin_design(h@));
    }
    Some(out)
}

/// Decode the decision-header frame at position `i`.
#[verifier::rlimit(100)]
#[verifier::spinoff_prover]
fn decode_decision_at(b: &Vec<u8>, i: usize) -> (r: Option<
    (crate::headers::DecisionModelHeader, usize),
>)
    ensures
        match r {
            Some((h, j)) => dec_bin_decision(b@, i as int) == Some((h@, j as int)),
            None => dec_bin_decision(b@, i as int) is None,
        },
{
    proof {
        lemma_key_views();
    }
    if b.len() < 5 || i > b.len() - 5 {
        return None;
    }
    if b[i] != 0xdf {
        return None;
    }
    let n32 = read_be32(b, i + 1);
    proof {
        assert(b@.subrange(i as int + 1, i as int + 5) =~= b@.subrange(i as int + 1, i as int + 1
            + 4));
    }
    if n32 != 4 {
        return None;
    }
    let i1 = match decode_key_at(b, i + 5, "category") {
        Some(j) => j,
        None => {
            return None;
        },
    };
    let (category, i2) = match decode_str_at(b, i1) {
        Some(p) => p,
        None => {
            return None;
        },
    };
    let i3 = match decode_key_at(b, i2, "body_path") {
        Some(j) => j,
        None => {
            return None;
        },
    };
    let (body_path, i4) = match decode_opt_str_at(b, i3) {
        Some(p) => p,
        None => {
            return None;
        },
    };
    let i5 = match decode_key_at(b, i4, "covered_elements") {
        Some(j) => j,
        None => {
            return None;
        },
    };
    let (covered_elements, i6) = match decode_str_list_at(b, i5) {
        Some(p) => p,
        None => {
            return None;
        },
    };
    let i7 = match decode_key_at(b, i6, "covered_relations") {
        Some(j) => j,
        None => {
            return None;
        },
    };
    let (covered_relations, i8) = match decode_arc_list_at(b, i7) {
        Some(p) => p,
        None => {
            return None;
        },
    };
    let h = crate::headers::DecisionModelHeader {
        category,
        body_path,
        covered_elements,
        covered_relations,
    };
    Some((h, i8))
}

/// Decode the design-header frame at position `i`.
#[verifier::rlimit(100)]
#[verifier::spinoff_prover]
fn decode_design_at(b: &Vec<u8>, i: usize) -> (r: Option<
    (crate::headers::DesignModelHeader, usize),
>)
    ensures
        match r {
            Some((h, j)) => dec_bin_design(b@, i as int) == Some((h@, j as int)),
            None => dec_bin_design(b@, i as int) is None,
        },
{
    proof {
        lemma_key_views();
    }
    if b.len() < 5 || i > b.len() - 5 {
        return None;
    }
    if b[i] != 0xdf {
        return None;
    }
    let n32 = read_be32(b, i + 1);
    proof {
        assert(b@.subrange(i as int + 1, i as int + 5) =~= b@.subrange(i as int + 1, i as int + 1
            + 4));
    }
    if n32 != 4 {
        return None;
    }
    let i1 = match decode_key_at(b, i + 5, "category") {
        Some(j) => j,
        None => {
            return None;
        },
    };
    let (category, i2) = match decode_str_at(b, i1) {
        Some(p) => p,
        None => {
            return None;
        },
    };
    let i3 = match decode_key_at(b, i2, "model_paths") {
        Some(j) => j,
        None => {
            return None;
        },
    };
    let (model_paths, i4) = match decode_str_list_at(b, i3) {
        Some(p) => p,
        None => {
            return None;
        },
    };
    let i5 = match decode_key_at(b, i4, "elements") {
        Some(j) => j,
        None => {
            return None;
        },
    };
    let (elements, i6) = match decode_str_list_at(b, i5) {
        Some(p) => p,
        None => {
            return None;
        },
    };
    let i7 = match decode_key_at(b, i6, "relations") {
        Some(j) => j,
        None => {
            return None;
        },
    };
    let (relations, i8) = match decode_arc_list_at(b, i7) {
        Some(p) => p,
        None => {
            return None;
        },
    };
    let h = crate::headers::DesignModelHeader { category, model_paths, elements, relations };
    Some((h, i8))
}

/// Decode a canonical binary decision header frame; the whole buffer must be
/// one frame.
pub fn decode_binary_decision_header(b: &Vec<u8>) -> (r: Option<
    crate::headers::DecisionModelHeader,
>)
    ensures
        match r {
            Some(h) => dec_bin_decision(b@, 0) == Some((h@, b@.len() as int)),
            None => match dec_bin_decision(b@, 0) {
                Some((v, j)) => j != b@.len(),
                None => true,
            },
        },
{
    match decode_decision_at(b, 0) {
        Some((h, j)) => {
            if j == b.len() {
                Some(h)
            } else {
                None
            }
        },
        None => None,
    }
}

/// Decode a canonical binary design header frame; the whole buffer must be
/// one frame.
pub fn decode_binary_design_header(b: &Vec<u8>) -> (r: Option<crate::headers::DesignModelHeader>)
    ensures
        match r {
            Some(h) => dec_bin_design(b@, 0) == Some((h@, b@.len() as int)),
            None => match dec_bin_design(b@, 0) {
                Some((v, j)) => j != b@.len(),
                None => true,
            },
        },
{
    match decode_design_at(b, 0) {
        Some((h, j)) => {
            if j == b.len() {
                Some(h)
            } else {
                None
            }
        },
        None => None,
    }
}

/// Round trip of the binary form: decoding the canonical binary frame of any
/// decision header gives the header back, consuming the whole frame.
pub proof fn lemma_binary_round_trip_decision(h: crate::headers::DecisionHeaderView)
    requires
        decision_bin_encodable(h),
    ensures
        dec_bin_decision(enc_bin_decision(h), 0) == Some(
            (h, enc_bin_decision(h).len() as int),
        ),
{
    let b = enc_bin_decision(h);
    assert(b.subrange(0, b.len() as int) =~= b);
    lemma_dec_bin_decision(b, 0, h);
}

/// Round trip of the binary form: decoding the canonical binary frame of any
/// design header gives the header back, consuming the whole frame.
pub proof fn lemma_binary_round_trip_design(h: crate::headers::DesignHeaderView)
    requires
        design_bin_encodable(h),
    ensures
        dec_bin_design(enc_bin_design(h), 0) == Some((h, enc_bin_design(h).len() as int)),
{
    let b = enc_bin_design(h);
    assert(b.subrange(0, b.len() as int) =~= b);
    lemma_dec_bin_design(b, 0, h);
}

} // verus!
