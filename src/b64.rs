use base64::engine::general_purpose;
use base64::Engine;
use vstd::prelude::*;

verus! {

/// The padding byte `=`.
pub const PAD: u8 = 61;

/// The character of the standard alphabet (`A-Z a-z 0-9 + /`) for a 6-bit value.
pub open spec fn sextet_char(v: u8) -> u8 {
    if v < 26 {
        (v + 65) as u8
    } else if v < 52 {
        (v + 71) as u8
    } else if v < 62 {
        (v - 4) as u8
    } else if v == 62 {
        43
    } else {
        47
    }
}

/// Whether `c` is one of the 64 characters of the standard alphabet.
pub open spec fn is_b64_symbol(c: u8) -> bool {
    (65 <= c <= 90) || (97 <= c <= 122) || (48 <= c <= 57) || c == 43 || c == 47
}

/// The 6-bit value of a character of the standard alphabet.
pub open spec fn sextet_value(c: u8) -> u8 {
    if 65 <= c <= 90 {
        (c - 65) as u8
    } else if 97 <= c <= 122 {
        (c - 71) as u8
    } else if 48 <= c <= 57 {
        (c + 4) as u8
    } else if c == 43 {
        62
    } else {
        63
    }
}

/// Four characters for a complete group of three bytes.
pub open spec fn quad_of_three(a: u8, b: u8, c: u8) -> Seq<u8> {
    seq![
        sextet_char(a >> 2),
        sextet_char(((a & 3) << 4) | (b >> 4)),
        sextet_char(((b & 15) << 2) | (c >> 6)),
        sextet_char(c & 63),
    ]
}

/// Four characters for a final group of two bytes: one `=`.
pub open spec fn quad_of_two(a: u8, b: u8) -> Seq<u8> {
    seq![sextet_char(a >> 2), sextet_char(((a & 3) << 4) | (b >> 4)), sextet_char((b & 15) << 2), PAD]
}

/// Four characters for a final group of one byte: two `=`.
pub open spec fn quad_of_one(a: u8) -> Seq<u8> {
    seq![sextet_char(a >> 2), sextet_char((a & 3) << 4), PAD, PAD]
}

/// Standard padded base64 (RFC 4648, section 4) of a byte sequence.
pub open spec fn b64_encode(s: Seq<u8>) -> Seq<u8>
    decreases s.len(),
{
    if s.len() == 0 {
        Seq::empty()
    } else if s.len() == 1 {
        quad_of_one(s[0])
    } else if s.len() == 2 {
        quad_of_two(s[0], s[1])
    } else {
        quad_of_three(s[0], s[1], s[2]) + b64_encode(s.subrange(3, s.len() as int))
    }
}

/// The bytes that one group of four characters stands for.
pub open spec fn bytes_of_quad(q: Seq<u8>) -> Seq<u8> {
    let v0 = sextet_value(q[0]);
    let v1 = sextet_value(q[1]);
    let v2 = sextet_value(q[2]);
    let v3 = sextet_value(q[3]);
    let a = ((v0 << 2) | (v1 >> 4)) as u8;
    let b = (((v1 & 15) << 4) | (v2 >> 2)) as u8;
    let c = (((v2 & 3) << 6) | v3) as u8;
    if q[2] == PAD {
        seq![a]
    } else if q[3] == PAD {
        seq![a, b]
    } else {
        seq![a, b, c]
    }
}

/// Standard base64 decoding of a padded text, group by group.
pub open spec fn b64_decode(t: Seq<u8>) -> Seq<u8>
    decreases t.len(),
{
    if t.len() < 4 {
        Seq::empty()
    } else {
        bytes_of_quad(t.subrange(0, 4)) + b64_decode(t.subrange(4, t.len() as int))
    }
}

/// Number of `=` at the end of the encoding of `n` bytes.
pub open spec fn pad_count(n: nat) -> int {
    if n % 3 == 1 {
        2
    } else if n % 3 == 2 {
        1
    } else {
        0
    }
}

/// `t` is alphabet characters followed by `p` padding bytes.
pub open spec fn symbols_then_pad(t: Seq<u8>, p: int) -> bool {
    forall|i: int|
        0 <= i < t.len() ==> if i < t.len() - p {
            is_b64_symbol(#[trigger] t[i])
        } else {
            t[i] == PAD
        }
}

/// A well-formed padded base64 text: whole groups of four, alphabet characters,
/// and at most two `=` at the end.
pub open spec fn is_padded_b64(t: Seq<u8>) -> bool {
    &&& t.len() % 4 == 0
    &&& exists|p: int| 0 <= p <= 2 && p <= t.len() && #[trigger] symbols_then_pad(t, p)
}

/// The longest prefix of `s` made of whole groups of three bytes.
pub open spec fn aligned(s: Seq<u8>) -> Seq<u8> {
    s.subrange(0, s.len() - s.len() % 3)
}

/// Inputs whose encoded length can be computed without overflow.
pub open spec fn encodable_len(n: nat) -> bool {
    4 * (n / 3) + 4 <= usize::MAX
}

proof fn lemma_sextet_round_trip(v: u8)
    requires
        v < 64,
    ensures
        sextet_value(sextet_char(v)) == v,
        is_b64_symbol(sextet_char(v)),
        sextet_char(v) != PAD,
{
}

proof fn lemma_split_bits(a: u8, b: u8, c: u8)
    by (bit_vector)
    ensures
        a >> 2 < 64,
        ((a & 3) << 4) | (b >> 4) < 64,
        ((b & 15) << 2) | (c >> 6) < 64,
        (b & 15) << 2 < 64,
        (a & 3) << 4 < 64,
        c & 63 < 64,
        ((a >> 2) << 2) | ((((a & 3) << 4) | (b >> 4)) >> 4) == a,
        ((((a & 3) << 4) | (b >> 4)) & 15) << 4 | ((((b & 15) << 2) | (c >> 6)) >> 2) == b,
        (((((b & 15) << 2) | (c >> 6)) & 3) << 6) | (c & 63) == c,
        ((a >> 2) << 2) | (((a & 3) << 4) >> 4) == a,
        ((((a & 3) << 4) | (b >> 4)) & 15) << 4 | (((b & 15) << 2) >> 2) == b,
{
}

proof fn lemma_quads(a: u8, b: u8, c: u8)
    ensures
        bytes_of_quad(quad_of_three(a, b, c)) == seq![a, b, c],
        bytes_of_quad(quad_of_two(a, b)) == seq![a, b],
        bytes_of_quad(quad_of_one(a)) == seq![a],
{
    lemma_split_bits(a, b, c);
    lemma_sextet_round_trip(a >> 2);
    lemma_sextet_round_trip(((a & 3) << 4) | (b >> 4));
    lemma_sextet_round_trip(((b & 15) << 2) | (c >> 6));
    lemma_sextet_round_trip(c & 63);
    lemma_sextet_round_trip((b & 15) << 2);
    lemma_sextet_round_trip((a & 3) << 4);
    assert(bytes_of_quad(quad_of_three(a, b, c)) =~= seq![a, b, c]);
    assert(bytes_of_quad(quad_of_two(a, b)) =~= seq![a, b]);
    assert(bytes_of_quad(quad_of_one(a)) =~= seq![a]);
}

/// Decoding the encoding of any byte sequence gives it back.
pub proof fn lemma_decode_encode(s: Seq<u8>)
    ensures
        b64_decode(b64_encode(s)) == s,
    decreases s.len(),
{
    if s.len() == 0 {
    } else if s.len() == 1 {
        lemma_quads(s[0], 0, 0);
        let t = b64_encode(s);
        assert(t.subrange(0, 4) =~= t);
        assert(b64_decode(t.subrange(4, 4)) == Seq::<u8>::empty());
        assert(s =~= seq![s[0]]);
    } else if s.len() == 2 {
        lemma_quads(s[0], s[1], 0);
        let t = b64_encode(s);
        assert(t.subrange(0, 4) =~= t);
        assert(b64_decode(t.subrange(4, 4)) == Seq::<u8>::empty());
        assert(s =~= seq![s[0], s[1]]);
    } else {
        let rest = s.subrange(3, s.len() as int);
        lemma_quads(s[0], s[1], s[2]);
        lemma_decode_encode(rest);
        let q = quad_of_three(s[0], s[1], s[2]);
        let t = b64_encode(s);
        assert(t == q + b64_encode(rest));
        assert(t.subrange(0, 4) =~= q);
        assert(t.subrange(4, t.len() as int) =~= b64_encode(rest));
        assert(s =~= seq![s[0], s[1], s[2]] + rest);
    }
}

/// Encoding splits at any boundary that falls between groups of three bytes.
pub proof fn lemma_encode_concat(a: Seq<u8>, b: Seq<u8>)
    requires
        a.len() % 3 == 0,
    ensures
        b64_encode(a + b) == b64_encode(a) + b64_encode(b),
    decreases a.len(),
{
    if a.len() == 0 {
        assert(a + b =~= b);
        assert(b64_encode(a) + b64_encode(b) =~= b64_encode(b));
    } else {
        let a2 = a.subrange(3, a.len() as int);
        lemma_encode_concat(a2, b);
        let ab = a + b;
        assert(ab.subrange(3, ab.len() as int) =~= a2 + b);
        assert(ab[0] == a[0] && ab[1] == a[1] && ab[2] == a[2]);
        let q = quad_of_three(a[0], a[1], a[2]);
        assert(b64_encode(ab) == q + b64_encode(a2 + b));
        assert(b64_encode(a) == q + b64_encode(a2));
        assert(q + (b64_encode(a2) + b64_encode(b)) =~= (q + b64_encode(a2)) + b64_encode(b));
    }
}

/// The encoding of `s` is `4 * ceil(len / 3)` long: alphabet characters, then
/// one `=` for two leftover bytes or two for one.
pub proof fn lemma_encode_shape(s: Seq<u8>)
    ensures
        b64_encode(s).len() == 4 * ((s.len() + 2) / 3),
        symbols_then_pad(b64_encode(s), pad_count(s.len())),
    decreases s.len(),
{
    let t = b64_encode(s);
    if s.len() == 0 {
    } else if s.len() == 1 {
        lemma_split_bits(s[0], 0, 0);
        lemma_sextet_round_trip(s[0] >> 2);
        lemma_sextet_round_trip((s[0] & 3) << 4);
    } else if s.len() == 2 {
        lemma_split_bits(s[0], s[1], 0);
        lemma_sextet_round_trip(s[0] >> 2);
        lemma_sextet_round_trip(((s[0] & 3) << 4) | (s[1] >> 4));
        lemma_sextet_round_trip((s[1] & 15) << 2);
    } else {
        let (a, b, c) = (s[0], s[1], s[2]);
        let rest = s.subrange(3, s.len() as int);
        lemma_split_bits(a, b, c);
        lemma_sextet_round_trip(a >> 2);
        lemma_sextet_round_trip(((a & 3) << 4) | (b >> 4));
        lemma_sextet_round_trip(((b & 15) << 2) | (c >> 6));
        lemma_sextet_round_trip(c & 63);
        lemma_encode_shape(rest);
        let q = quad_of_three(a, b, c);
        let tr = b64_encode(rest);
        assert(t == q + tr);
        assert(pad_count(s.len()) == pad_count(rest.len()));
        assert forall|i: int| 0 <= i < t.len() implies if i < t.len() - pad_count(s.len()) {
            is_b64_symbol(#[trigger] t[i])
        } else {
            t[i] == PAD
        } by {
            if i >= 4 {
                assert(t[i] == tr[i - 4]);
            }
        }
    }
}

/// The encoding of any byte sequence is well-formed padded base64.
pub proof fn lemma_encode_well_formed(s: Seq<u8>)
    ensures
        is_padded_b64(b64_encode(s)),
{
    lemma_encode_shape(s);
    let p = pad_count(s.len());
    let t = b64_encode(s);
    assert(4 * ((s.len() + 2) / 3) % 4 == 0) by (nonlinear_arith);
    assert(s.len() > 0 ==> t.len() >= 4) by (nonlinear_arith)
        requires t.len() == 4 * ((s.len() + 2) / 3);
    assert(0 <= p <= 2 && p <= t.len() && symbols_then_pad(t, p));
}

/// Relies on base64's `general_purpose::STANDARD.encode`: the standard alphabet
/// with `=` padding. It panics only where the encoded length overflows `usize`.
#[verifier::external_body]
pub(crate) fn encode_standard(data: &[u8]) -> (r: Vec<u8>)
    requires
        encodable_len(data@.len()),
    ensures
        r@ == b64_encode(data@),
{
    general_purpose::STANDARD.encode(data).into_bytes()
}

} // verus!
