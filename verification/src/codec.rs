//! The session-cookie wire format.
//!
//! A login cookie carries `{"nonce":[..12 bytes..],"ciphertext":[..]}`:
//! JSON with byte values as decimal numbers and no whitespace. Encoding and
//! decoding are verified against the grammar spelled out here; decoding
//! accepts exactly the canonical strings that encoding produces.
use crate::text::digit_char;
use crate::text::digit_val;
use crate::text::match_at;
use crate::text::spec_is_digit;
use crate::text::str_chars;
use crate::text::string_from_chars;
use vstd::prelude::*;

verus! {

/// The encrypted envelope a session cookie carries.
#[derive(Clone, Debug)]
pub struct Ciphertext {
    /// The fresh random nonce the envelope was sealed with.
    pub nonce: [u8; 12],
    /// The sealed bytes, authentication tag included.
    pub ciphertext: Vec<u8>,
}

/// The canonical decimal form of a byte: no sign, no leading zeros.
pub open spec fn dec_u8(n: u8) -> Seq<char> {
    if n < 10 {
        seq![digit_char(n as int)]
    } else if n < 100 {
        seq![digit_char(n as int / 10), digit_char(n as int % 10)]
    } else {
        seq![digit_char(n as int / 100), digit_char(n as int / 10 % 10), digit_char(n as int % 10)]
    }
}

/// A comma-separated list of bytes in canonical decimal form.
pub open spec fn json_byte_list(b: Seq<u8>) -> Seq<char>
    decreases b.len(),
{
    if b.len() == 0 {
        Seq::empty()
    } else if b.len() == 1 {
        dec_u8(b[0])
    } else {
        dec_u8(b[0]) + seq![','] + json_byte_list(b.drop_first())
    }
}

pub open spec fn lit_prefix() -> Seq<char> {
    seq!['{', '"', 'n', 'o', 'n', 'c', 'e', '"', ':', '[']
}

pub open spec fn lit_mid() -> Seq<char> {
    seq![']', ',', '"', 'c', 'i', 'p', 'h', 'e', 'r', 't', 'e', 'x', 't', '"', ':', '[']
}

pub open spec fn lit_end() -> Seq<char> {
    seq![']', '}']
}

/// The full cookie value for a nonce and ciphertext pair.
pub open spec fn json_envelope(nonce: Seq<u8>, ct: Seq<u8>) -> Seq<char> {
    lit_prefix() + json_byte_list(nonce) + lit_mid() + json_byte_list(ct) + lit_end()
}

/// Appending one byte to a non-empty list appends a comma and its digits.
proof fn lemma_json_byte_list_push(b: Seq<u8>, x: u8)
    ensures
        b.len() == 0 ==> json_byte_list(b.push(x)) == dec_u8(x),
        b.len() > 0 ==> json_byte_list(b.push(x)) == json_byte_list(b) + seq![','] + dec_u8(x),
    decreases b.len(),
{
    if b.len() == 0 {
        assert(b.push(x).len() == 1);
        assert(b.push(x)[0] == x);
    } else if b.len() == 1 {
        assert(b.push(x).drop_first() =~= seq![x]);
        assert(json_byte_list(seq![x]) == dec_u8(x));
    } else {
        lemma_json_byte_list_push(b.drop_first(), x);
        assert(b.push(x).drop_first() =~= b.drop_first().push(x));
        assert(json_byte_list(b) + seq![','] + dec_u8(x) =~= dec_u8(b[0]) + seq![','] + (
        json_byte_list(b.drop_first()) + seq![','] + dec_u8(x)));
    }
}

/// Append the canonical decimal form of `n`.
fn push_dec_u8(out: &mut Vec<char>, n: u8)
    ensures
        final(out)@ == old(out)@ + dec_u8(n),
{
    if n < 10 {
        out.push((48 + n) as char);
        proof {
            assert(final(out)@ =~= old(out)@ + dec_u8(n));
        }
    } else if n < 100 {
        out.push((48 + n / 10) as char);
        out.push((48 + n % 10) as char);
        proof {
            assert(final(out)@ =~= old(out)@ + dec_u8(n));
        }
    } else {
        out.push((48 + n / 100) as char);
        out.push((48 + n / 10 % 10) as char);
        out.push((48 + n % 10) as char);
        proof {
            assert(final(out)@ =~= old(out)@ + dec_u8(n));
        }
    }
}

/// Append the comma-separated list form of `b`.
fn push_byte_list(out: &mut Vec<char>, b: &Vec<u8>)
    ensures
        final(out)@ == old(out)@ + json_byte_list(b@),
{
    let mut i: usize = 0;
    while i < b.len()
        invariant
            i <= b@.len(),
            out@ == old(out)@ + json_byte_list(b@.take(i as int)),
        decreases b@.len() - i,
    {
        if i > 0 {
            out.push(',');
        }
        push_dec_u8(out, b[i]);
        proof {
            lemma_json_byte_list_push(b@.take(i as int), b@[i as int]);
            assert(b@.take(i + 1) =~= b@.take(i as int).push(b@[i as int]));
        }
        i += 1;
    }
    proof {
        assert(b@.take(b@.len() as int) =~= b@);
    }
}

/// Parse one byte in canonical decimal form at `pos`, greedily: the number
/// must not be followed by a further digit.
pub open spec fn spec_parse_byte(s: Seq<char>, pos: int) -> Option<(u8, int)> {
    if pos < 0 || pos >= s.len() || !spec_is_digit(s[pos]) {
        None
    } else if s[pos] == '0' {
        if pos + 1 < s.len() && spec_is_digit(s[pos + 1]) {
            None
        } else {
            Some((0u8, pos + 1))
        }
    } else {
        let d0 = digit_val(s[pos]);
        if pos + 1 >= s.len() || !spec_is_digit(s[pos + 1]) {
            Some((d0 as u8, pos + 1))
        } else {
            let d1 = digit_val(s[pos + 1]);
            if pos + 2 >= s.len() || !spec_is_digit(s[pos + 2]) {
                Some(((d0 * 10 + d1) as u8, pos + 2))
            } else {
                let d2 = digit_val(s[pos + 2]);
                if pos + 3 < s.len() && spec_is_digit(s[pos + 3]) {
                    None
                } else {
                    let v = d0 * 100 + d1 * 10 + d2;
                    if v <= 255 {
                        Some((v as u8, pos + 3))
                    } else {
                        None
                    }
                }
            }
        }
    }
}

/// Parse a non-empty comma-separated byte list starting at `pos`, up to the
/// first position that continues neither a number nor a list.
pub open spec fn spec_parse_bytes(s: Seq<char>, pos: int) -> Option<(Seq<u8>, int)>
    decreases s.len() - pos,
{
    if pos < 0 || pos >= s.len() {
        None
    } else {
        match spec_parse_byte(s, pos) {
            None => None,
            Some((v, p2)) => if p2 < s.len() && s[p2] == ',' {
                match spec_parse_bytes(s, p2 + 1) {
                    None => None,
                    Some((rest, p3)) => Some((seq![v] + rest, p3)),
                }
            } else {
                Some((seq![v], p2))
            },
        }
    }
}

/// Which strings are a well-formed cookie envelope, and what they carry.
///
/// This is the exact decoding relation: a twelve-byte nonce list, then the
/// ciphertext list (possibly empty), with nothing before or after.
pub open spec fn spec_decode_envelope(s: Seq<char>) -> Option<(Seq<u8>, Seq<u8>)> {
    if !match_at(s, lit_prefix(), 0) {
        None
    } else {
        match spec_parse_bytes(s, 10) {
            None => None,
            Some((nonce, p)) => if nonce.len() == 12 && match_at(s, lit_mid(), p) {
                let q = p + 16;
                if q < s.len() && s[q] == ']' {
                    if match_at(s, lit_end(), q) && q + 2 == s.len() {
                        Some((nonce, Seq::empty()))
                    } else {
                        None
                    }
                } else {
                    match spec_parse_bytes(s, q) {
                        None => None,
                        Some((ct, p3)) => if match_at(s, lit_end(), p3) && p3 + 2 == s.len() {
                            Some((nonce, ct))
                        } else {
                            None
                        },
                    }
                }
            } else {
                None
            },
        }
    }
}

/// The digit characters carry their values and are none of the grammar's
/// punctuation.
proof fn lemma_digit_chars()
    ensures
        forall|x: int|
            0 <= x < 10 ==> #[trigger] spec_is_digit(digit_char(x)) && digit_val(digit_char(x)) == x
                && (digit_char(x) == '0' <==> x == 0) && digit_char(x) != ']' && digit_char(x)
                != ',',
{
    assert forall|x: int| 0 <= x < 10 implies #[trigger] spec_is_digit(digit_char(x)) && digit_val(
        digit_char(x),
    ) == x && (digit_char(x) == '0' <==> x == 0) && digit_char(x) != ']' && digit_char(x)
        != ',' by {
        assert(((48 + x) as u8) as char as int == 48 + x);
    }
}

/// A match of a concatenation splits into matches of the parts.
proof fn lemma_match_concat(s: Seq<char>, a: Seq<char>, b: Seq<char>, pos: int)
    requires
        match_at(s, a + b, pos),
    ensures
        match_at(s, a, pos),
        match_at(s, b, pos + a.len()),
{
    assert(s.subrange(pos, pos + a.len()) =~= a) by {
        assert forall|i: int| 0 <= i < a.len() implies s.subrange(pos, pos + a.len())[i] == a[i] by {
            assert(s.subrange(pos, pos + (a + b).len() as int)[i] == (a + b)[i]);
        }
    }
    assert(s.subrange(pos + a.len(), pos + a.len() + b.len()) =~= b) by {
        assert forall|i: int| 0 <= i < b.len() implies s.subrange(
            pos + a.len(),
            pos + a.len() + b.len(),
        )[i] == b[i] by {
            assert(s.subrange(pos, pos + (a + b).len() as int)[a.len() + i] == (a + b)[a.len()
                + i]);
        }
    }
}

/// At a canonical decimal number followed by a non-digit (or the end), the
/// greedy byte parser reads exactly that number.
proof fn lemma_parse_byte_at(s: Seq<char>, pos: int, v: u8)
    requires
        match_at(s, dec_u8(v), pos),
        pos + dec_u8(v).len() == s.len() || !spec_is_digit(s[pos + dec_u8(v).len()]),
    ensures
        spec_parse_byte(s, pos) == Some((v, pos + dec_u8(v).len())),
{
    lemma_digit_chars();
    let d = dec_u8(v);
    if v < 10 {
        assert(s[pos] == digit_char(v as int)) by {
            assert(s.subrange(pos, pos + d.len() as int)[0] == d[0]);
        }
    } else if v < 100 {
        assert(s[pos] == digit_char(v as int / 10)) by {
            assert(s.subrange(pos, pos + d.len() as int)[0] == d[0]);
        }
        assert(s[pos + 1] == digit_char(v as int % 10)) by {
            assert(s.subrange(pos, pos + d.len() as int)[1] == d[1]);
        }
        assert(v as int / 10 * 10 + v as int % 10 == v);
    } else {
        assert(s[pos] == digit_char(v as int / 100)) by {
            assert(s.subrange(pos, pos + d.len() as int)[0] == d[0]);
        }
        assert(s[pos + 1] == digit_char(v as int / 10 % 10)) by {
            assert(s.subrange(pos, pos + d.len() as int)[1] == d[1]);
        }
        assert(s[pos + 2] == digit_char(v as int % 10)) by {
            assert(s.subrange(pos, pos + d.len() as int)[2] == d[2]);
        }
        assert(v as int / 100 * 100 + v as int / 10 % 10 * 10 + v as int % 10 == v) by (
        nonlinear_arith)
            requires
                100 <= v <= 255,
        ;
    }
}

/// At a canonical byte list followed by `]`, the greedy list parser reads
/// exactly that list.
proof fn lemma_parse_bytes_at(s: Seq<char>, pos: int, b: Seq<u8>)
    requires
        b.len() > 0,
        match_at(s, json_byte_list(b), pos),
        pos + json_byte_list(b).len() < s.len(),
        s[pos + json_byte_list(b).len()] == ']',
    ensures
        spec_parse_bytes(s, pos) == Some((b, pos + json_byte_list(b).len())),
    decreases b.len(),
{
    lemma_digit_chars();
    let l = json_byte_list(b);
    if b.len() == 1 {
        assert(l == dec_u8(b[0]));
        assert(!spec_is_digit(s[pos + l.len()]));
        lemma_parse_byte_at(s, pos, b[0]);
        assert(s[pos + l.len()] != ',');
        assert(seq![b[0]] =~= b);
    } else {
        let head = dec_u8(b[0]);
        let rest = json_byte_list(b.drop_first());
        assert(l == head + seq![','] + rest);
        lemma_match_concat(s, head + seq![','], rest, pos);
        lemma_match_concat(s, head, seq![','], pos);
        assert(s[pos + head.len()] == ',') by {
            assert(s.subrange(pos + head.len(), pos + head.len() + 1)[0] == seq![','][0]);
        }
        lemma_parse_byte_at(s, pos, b[0]);
        let p2 = pos + head.len();
        assert(spec_parse_byte(s, pos) == Some((b[0], p2)));
        assert(pos + l.len() == p2 + 1 + rest.len());
        lemma_parse_bytes_at(s, p2 + 1, b.drop_first());
        assert(seq![b[0]] + b.drop_first() =~= b);
    }
}

/// Encoding then decoding gives back the same envelope: the cookie value
/// round-trips exactly.
pub proof fn lemma_envelope_roundtrip(nonce: Seq<u8>, ct: Seq<u8>)
    requires
        nonce.len() == 12,
    ensures
        spec_decode_envelope(json_envelope(nonce, ct)) == Some((nonce, ct)),
{
    lemma_digit_chars();
    let s = json_envelope(nonce, ct);
    let nl = json_byte_list(nonce);
    let cl = json_byte_list(ct);
    assert(match_at(s, lit_prefix() + nl + lit_mid() + cl + lit_end(), 0)) by {
        assert(s.subrange(0, s.len() as int) =~= s);
    }
    lemma_match_concat(s, lit_prefix() + nl + lit_mid() + cl, lit_end(), 0);
    lemma_match_concat(s, lit_prefix() + nl + lit_mid(), cl, 0);
    lemma_match_concat(s, lit_prefix() + nl, lit_mid(), 0);
    lemma_match_concat(s, lit_prefix(), nl, 0);
    let p = 10 + nl.len() as int;
    let q = p + 16;
    assert(s[p] == ']') by {
        assert(s.subrange(p, p + 16)[0] == lit_mid()[0]);
    }
    lemma_parse_bytes_at(s, 10, nonce);
    assert(spec_parse_bytes(s, 10) == Some((nonce, p)));
    if ct.len() == 0 {
        assert(cl == Seq::<char>::empty());
        assert(q + 2 == s.len());
        assert(s[q] == ']') by {
            assert(s.subrange(q, q + 2)[0] == lit_end()[0]);
        }
        assert(spec_decode_envelope(s) == Some((nonce, ct)));
    } else {
        assert(s[q + cl.len()] == ']') by {
            assert(s.subrange(q + cl.len(), q + cl.len() + 2)[0] == lit_end()[0]);
        }
        lemma_parse_bytes_at(s, q, ct);
        assert(s[q] == dec_u8(ct[0])[0]) by {
            assert(s.subrange(q, q + cl.len() as int)[0] == cl[0]);
            if ct.len() == 1 {
            } else {
                assert(cl[0] == dec_u8(ct[0])[0]);
            }
        }
        assert(s[q] != ']') by {
            if ct[0] < 10 {
                assert(dec_u8(ct[0])[0] == digit_char(ct[0] as int));
            } else if ct[0] < 100 {
                assert(dec_u8(ct[0])[0] == digit_char(ct[0] as int / 10));
            } else {
                assert(dec_u8(ct[0])[0] == digit_char(ct[0] as int / 100));
            }
        }
        assert(q + cl.len() + 2 == s.len());
        assert(spec_decode_envelope(s) == Some((nonce, ct)));
    }
}

fn exec_is_digit(c: char) -> (r: bool)
    ensures
        r == spec_is_digit(c),
{
    '0' <= c && c <= '9'
}

/// Parse one canonical decimal byte at `pos`.
fn parse_byte(s: &Vec<char>, pos: usize) -> (r: Option<(u8, usize)>)
    ensures
        match r {
            Some((v, end)) => spec_parse_byte(s@, pos as int) == Some((v, end as int)) && pos < end
                <= s@.len(),
            None => spec_parse_byte(s@, pos as int) is None,
        },
{
    let n = s.len();
    if pos >= n || !exec_is_digit(s[pos]) {
        return None;
    }
    if s[pos] == '0' {
        if pos + 1 < n && exec_is_digit(s[pos + 1]) {
            return None;
        }
        return Some((0u8, pos + 1));
    }
    let d0: u32 = (s[pos] as u32) - 48;
    if pos + 1 >= n || !exec_is_digit(s[pos + 1]) {
        return Some((d0 as u8, pos + 1));
    }
    let d1: u32 = (s[pos + 1] as u32) - 48;
    if pos + 2 >= n || !exec_is_digit(s[pos + 2]) {
        return Some(((d0 * 10 + d1) as u8, pos + 2));
    }
    let d2: u32 = (s[pos + 2] as u32) - 48;
    if pos + 3 < n && exec_is_digit(s[pos + 3]) {
        return None;
    }
    let v: u32 = d0 * 100 + d1 * 10 + d2;
    if v <= 255 {
        Some((v as u8, pos + 3))
    } else {
        None
    }
}

/// Glue an already-parsed list head onto the result for the tail.
spec fn glue(acc: Seq<u8>, r: Option<(Seq<u8>, int)>) -> Option<(Seq<u8>, int)> {
    match r {
        None => None,
        Some((b, p)) => Some((acc + b, p)),
    }
}

/// Parse a non-empty comma-separated byte list starting at `start`.
fn parse_bytes(s: &Vec<char>, start: usize) -> (r: Option<(Vec<u8>, usize)>)
    ensures
        match r {
            Some((b, end)) => spec_parse_bytes(s@, start as int) == Some((b@, end as int)) && end
                <= s@.len(),
            None => spec_parse_bytes(s@, start as int) is None,
        },
{
    let mut acc: Vec<u8> = Vec::new();
    let mut pos: usize = start;
    loop
        invariant
            start <= pos,
            spec_parse_bytes(s@, start as int) == glue(acc@, spec_parse_bytes(s@, pos as int)),
        decreases s@.len() - pos,
    {
        proof {
            if pos >= s@.len() {
                assert(spec_parse_bytes(s@, pos as int) is None);
            }
        }
        match parse_byte(s, pos) {
            None => {
                return None;
            },
            Some((v, p2)) => {
                acc.push(v);
                if p2 < s.len() && s[p2] == ',' {
                    proof {
                        let tail = spec_parse_bytes(s@, p2 + 1);
                        assert(spec_parse_bytes(s@, pos as int) == glue(seq![v], tail));
                        assert(glue(acc@.drop_last(), glue(seq![v], tail)) == glue(acc@, tail)) by {
                            match tail {
                                None => {},
                                Some((b, p)) => {
                                    assert(acc@.drop_last() + (seq![v] + b) =~= acc@ + b);
                                },
                            }
                        }
                    }
                    pos = p2 + 1;
                } else {
                    proof {
                        assert(spec_parse_bytes(s@, pos as int) == Some((seq![v], p2 as int)));
                        assert(acc@.drop_last() + seq![v] =~= acc@);
                    }
                    return Some((acc, p2));
                }
            },
        }
    }
}

/// Deserialize a cookie value; `None` on anything but a canonical envelope.
pub fn decode_envelope(s: &str) -> (r: Option<Ciphertext>)
    ensures
        match r {
            Some(c) => spec_decode_envelope(s@) == Some((c.nonce@, c.ciphertext@)),
            None => spec_decode_envelope(s@) is None,
        },
{
    let chars = str_chars(s);
    let prefix: Vec<char> = vec!['{', '"', 'n', 'o', 'n', 'c', 'e', '"', ':', '['];
    proof {
        assert(prefix@ =~= lit_prefix());
    }
    if !crate::text::check_match_at(&chars, &prefix, 0) {
        return None;
    }
    let (nonce_vec, p) = match parse_bytes(&chars, 10) {
        Some(x) => x,
        None => {
            return None;
        },
    };
    if nonce_vec.len() != 12 {
        return None;
    }
    let mid: Vec<char> = vec![
        ']',
        ',',
        '"',
        'c',
        'i',
        'p',
        'h',
        'e',
        'r',
        't',
        'e',
        'x',
        't',
        '"',
        ':',
        '[',
    ];
    proof {
        assert(mid@ =~= lit_mid());
    }
    if !crate::text::check_match_at(&chars, &mid, p) {
        return None;
    }
    let q = p + 16;
    let nonce: [u8; 12] = [
        nonce_vec[0],
        nonce_vec[1],
        nonce_vec[2],
        nonce_vec[3],
        nonce_vec[4],
        nonce_vec[5],
        nonce_vec[6],
        nonce_vec[7],
        nonce_vec[8],
        nonce_vec[9],
        nonce_vec[10],
        nonce_vec[11],
    ];
    proof {
        assert(nonce@ =~= nonce_vec@);
    }
    let endlit: Vec<char> = vec![']', '}'];
    proof {
        assert(endlit@ =~= lit_end());
    }
    if q < chars.len() && chars[q] == ']' {
        if crate::text::check_match_at(&chars, &endlit, q) && q + 2 == chars.len() {
            return Some(Ciphertext { nonce, ciphertext: Vec::new() });
        }
        return None;
    }
    let (ct, p3) = match parse_bytes(&chars, q) {
        Some(x) => x,
        None => {
            return None;
        },
    };
    if crate::text::check_match_at(&chars, &endlit, p3) && p3 + 2 == chars.len() {
        Some(Ciphertext { nonce, ciphertext: ct })
    } else {
        None
    }
}

/// Serialize an envelope to its cookie-value string.
pub fn encode_envelope(env: &Ciphertext) -> (r: String)
    ensures
        r@ == json_envelope(env.nonce@, env.ciphertext@),
{
    let mut out: Vec<char> = vec!['{', '"', 'n', 'o', 'n', 'c', 'e', '"', ':', '['];
    proof {
        assert(out@ =~= lit_prefix());
    }
    let mut nonce_vec: Vec<u8> = Vec::new();
    let mut i: usize = 0;
    while i < 12
        invariant
            i <= 12,
            nonce_vec@ == env.nonce@.take(i as int),
        decreases 12 - i,
    {
        nonce_vec.push(env.nonce[i]);
        proof {
            assert(env.nonce@.take(i + 1) =~= env.nonce@.take(i as int).push(env.nonce@[i as int]));
        }
        i += 1;
    }
    proof {
        assert(env.nonce@.take(12) =~= env.nonce@);
    }
    push_byte_list(&mut out, &nonce_vec);
    let mid: Vec<char> = vec![
        ']',
        ',',
        '"',
        'c',
        'i',
        'p',
        'h',
        'e',
        'r',
        't',
        'e',
        'x',
        't',
        '"',
        ':',
        '[',
    ];
    proof {
        assert(mid@ =~= lit_mid());
    }
    crate::text::push_all(&mut out, &mid);
    push_byte_list(&mut out, &env.ciphertext);
    out.push(']');
    out.push('}');
    proof {
        assert(out@ =~= json_envelope(env.nonce@, env.ciphertext@));
    }
    string_from_chars(&out)
}

} // verus!
