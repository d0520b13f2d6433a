use crate::b64::{
    b64_decode, b64_encode, encodable_len, is_padded_b64, lemma_decode_encode,
    lemma_encode_well_formed,
};
use crate::bytes::append_bytes;
use crate::stream::Base64Stream;
use vstd::prelude::*;

verus! {

/// The bytes that open the sequence: `ESC ] 5 2 ; c ;`.
pub open spec fn prefix_bytes() -> Seq<u8> {
    seq![0x1b, 0x5d, 0x35, 0x32, 0x3b, 0x63, 0x3b]
}

/// The byte that closes the sequence: `BEL`.
pub open spec fn suffix_bytes() -> Seq<u8> {
    seq![0x07]
}

/// The complete OSC 52 sequence that sets the clipboard to `data`.
pub open spec fn osc52_frame(data: Seq<u8>) -> Seq<u8> {
    prefix_bytes() + b64_encode(data) + suffix_bytes()
}

/// What stands between the prefix and the suffix of a framed sequence.
pub open spec fn frame_body(t: Seq<u8>) -> Seq<u8> {
    t.subrange(prefix_bytes().len() as int, t.len() - suffix_bytes().len())
}

pub fn osc52_prefix() -> (r: Vec<u8>)
    ensures
        r@ == prefix_bytes(),
{
    let r: Vec<u8> = vec![0x1b, 0x5d, 0x35, 0x32, 0x3b, 0x63, 0x3b];
    assert(r@ =~= prefix_bytes());
    r
}

pub fn osc52_suffix() -> (r: Vec<u8>)
    ensures
        r@ == suffix_bytes(),
{
    let r: Vec<u8> = vec![0x07];
    assert(r@ =~= suffix_bytes());
    r
}

/// The whole framed sequence for `data`, built in memory through the
/// incremental encoder fed in one piece.
pub fn generate_osc52_sequence(data: &[u8]) -> (r: Vec<u8>)
    requires
        encodable_len(data@.len() + 2),
    ensures
        r@ == osc52_frame(data@),
{
    let mut out = osc52_prefix();
    let mut enc = Base64Stream::new();
    let body = enc.feed(data);
    append_bytes(&mut out, body.as_slice());
    let tail = enc.finish();
    append_bytes(&mut out, tail.as_slice());
    let suffix = osc52_suffix();
    append_bytes(&mut out, suffix.as_slice());
    assert(Seq::<u8>::empty() + data@ =~= data@);
    assert(out@ =~= osc52_frame(data@));
    out
}

/// The body of a framed sequence is exactly the encoding of the data.
pub proof fn lemma_frame_body(data: Seq<u8>)
    ensures
        frame_body(osc52_frame(data)) == b64_encode(data),
{
    assert(frame_body(osc52_frame(data)) =~= b64_encode(data));
}

/// Decoding the body of the framed sequence for any data, empty included,
/// gives the data back.
pub proof fn lemma_frame_round_trip(data: Seq<u8>)
    ensures
        b64_decode(frame_body(osc52_frame(data))) == data,
{
    lemma_frame_body(data);
    lemma_decode_encode(data);
}

/// A framed sequence starts with the seven prefix bytes, ends with `BEL`, and
/// what lies between is well-formed padded base64.
pub proof fn lemma_frame_shape(data: Seq<u8>)
    ensures
        osc52_frame(data).len() >= 8,
        osc52_frame(data).subrange(0, 7) == prefix_bytes(),
        osc52_frame(data).last() == 0x07u8,
        is_padded_b64(frame_body(osc52_frame(data))),
{
    let t = osc52_frame(data);
    lemma_frame_body(data);
    lemma_encode_well_formed(data);
    assert(t.subrange(0, 7) =~= prefix_bytes());
}

/// The framed sequence for no data is the prefix directly followed by the
/// suffix.
pub proof fn lemma_frame_empty()
    ensures
        osc52_frame(Seq::empty()) == prefix_bytes() + suffix_bytes(),
{
    assert(b64_encode(Seq::<u8>::empty()) == Seq::<u8>::empty());
    assert(osc52_frame(Seq::empty()) =~= prefix_bytes() + suffix_bytes());
}

} // verus!
