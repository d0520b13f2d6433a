use crate::bytes::{append_bytes, append_range};
use crate::b64::{aligned, b64_encode, encodable_len, encode_standard, lemma_encode_concat};
use vstd::prelude::*;

verus! {

/// The bytes of `s` after its whole groups of three.
pub open spec fn leftover(s: Seq<u8>) -> Seq<u8> {
    s.subrange(s.len() - s.len() % 3, s.len() as int)
}

/// What the encoder emits when it holds `pending` and is fed `chunk`.
pub open spec fn chunk_output(pending: Seq<u8>, chunk: Seq<u8>) -> Seq<u8> {
    b64_encode(aligned(pending + chunk))
}

/// Everything an encoder holding `pending` emits when fed `chunks` in order
/// and then finished.
pub open spec fn chunked_output(pending: Seq<u8>, chunks: Seq<Seq<u8>>) -> Seq<u8>
    decreases chunks.len(),
{
    if chunks.len() == 0 {
        b64_encode(pending)
    } else {
        chunk_output(pending, chunks[0]) + chunked_output(
            leftover(pending + chunks[0]),
            chunks.drop_first(),
        )
    }
}

proof fn lemma_chunked_from(pending: Seq<u8>, chunks: Seq<Seq<u8>>)
    ensures
        chunked_output(pending, chunks) == b64_encode(pending + chunks.flatten()),
    decreases chunks.len(),
{
    if chunks.len() == 0 {
        assert(pending + chunks.flatten() =~= pending);
    } else {
        let pc = pending + chunks[0];
        let rest = chunks.drop_first();
        lemma_chunked_from(leftover(pc), rest);
        assert(aligned(pc) + leftover(pc) =~= pc);
        assert(pending + chunks.flatten() =~= aligned(pc) + (leftover(pc) + rest.flatten()));
        lemma_encode_concat(aligned(pc), leftover(pc) + rest.flatten());
    }
}

/// Feeding the input in chunks of any sizes and then finishing emits exactly
/// the encoding of the whole input taken as one block.
pub proof fn lemma_chunked_equals_whole(chunks: Seq<Seq<u8>>)
    ensures
        chunked_output(Seq::empty(), chunks) == b64_encode(chunks.flatten()),
{
    lemma_chunked_from(Seq::empty(), chunks);
    assert(Seq::<u8>::empty() + chunks.flatten() =~= chunks.flatten());
}

proof fn lemma_step(f0: Seq<u8>, p0: Seq<u8>, chunk: Seq<u8>)
    requires
        p0.len() == f0.len() % 3,
        p0 == f0.subrange(f0.len() - p0.len(), f0.len() as int),
    ensures
        aligned(f0 + chunk) == aligned(f0) + aligned(p0 + chunk),
        leftover(p0 + chunk) == (f0 + chunk).subrange(
            (f0 + chunk).len() - (f0 + chunk).len() % 3,
            (f0 + chunk).len() as int,
        ),
        (f0 + chunk).len() % 3 == leftover(p0 + chunk).len(),
        b64_encode(aligned(f0 + chunk)) == b64_encode(aligned(f0)) + b64_encode(aligned(p0 + chunk)),
        aligned(p0 + chunk).len() == 0 ==> b64_encode(aligned(p0 + chunk)) == Seq::<u8>::empty(),
{
    let f1 = f0 + chunk;
    let pc = p0 + chunk;
    assert(f1.len() % 3 == pc.len() % 3);
    assert(aligned(f1) =~= aligned(f0) + aligned(pc));
    assert(leftover(pc) =~= f1.subrange(f1.len() - f1.len() % 3, f1.len() as int));
    lemma_encode_concat(aligned(f0), aligned(pc));
}

/// An incremental base64 encoder: it is fed chunks of any size, emits the
/// characters of each complete group of three bytes at once, and carries the
/// 0 to 2 bytes left over to the next chunk or to `finish`.
pub struct Base64Stream {
    pending: Vec<u8>,
    fed: Ghost<Seq<u8>>,
    emitted: Ghost<Seq<u8>>,
}

impl Base64Stream {
    /// Every byte fed so far, in order.
    pub closed spec fn fed(&self) -> Seq<u8> {
        self.fed@
    }

    /// Every character emitted so far, in order.
    pub closed spec fn emitted(&self) -> Seq<u8> {
        self.emitted@
    }

    /// The bytes held back: they do not yet complete a group.
    pub closed spec fn pending(&self) -> Seq<u8> {
        self.pending@
    }

    pub closed spec fn wf(&self) -> bool {
        let f = self.fed@;
        let p = self.pending@;
        &&& p.len() < 3
        &&& p.len() == f.len() % 3
        &&& p == f.subrange(f.len() - p.len(), f.len() as int)
        &&& self.emitted@ == b64_encode(aligned(f))
    }

    /// What has been emitted is exactly the encoding of the whole groups fed so
    /// far; the rest is held back.
    pub proof fn lemma_emitted(&self)
        requires
            self.wf(),
        ensures
            self.emitted() == b64_encode(aligned(self.fed())),
            self.fed() == aligned(self.fed()) + self.pending(),
            self.pending().len() == self.fed().len() % 3,
    {
        let f = self.fed@;
        assert(f =~= aligned(f) + self.pending@);
    }

    pub fn new() -> (r: Self)
        ensures
            r.wf(),
            r.fed() == Seq::<u8>::empty(),
            r.emitted() == Seq::<u8>::empty(),
    {
        let r = Base64Stream { pending: Vec::new(), fed: Ghost(Seq::empty()), emitted: Ghost(Seq::empty()) };
        assert(aligned(Seq::<u8>::empty()) =~= Seq::<u8>::empty());
        r
    }

    /// Feeds one chunk and returns the characters it completes.
    pub fn feed(&mut self, chunk: &[u8]) -> (r: Vec<u8>)
        requires
            old(self).wf(),
            encodable_len(chunk@.len() + 2),
        ensures
            final(self).wf(),
            final(self).fed() == old(self).fed() + chunk@,
            final(self).emitted() == old(self).emitted() + r@,
            r@ == chunk_output(old(self).pending(), chunk@),
            final(self).pending() == leftover(old(self).pending() + chunk@),
    {
        let ghost f0 = self.fed@;
        let ghost p0 = self.pending@;
        let ghost pc = p0 + chunk@;
        let plen = self.pending.len();
        let total = plen + chunk.len();
        let whole = total - total % 3;
        let mut group: Vec<u8> = Vec::new();
        let mut rest: Vec<u8> = Vec::new();
        if whole == 0 {
            append_bytes(&mut rest, self.pending.as_slice());
            append_bytes(&mut rest, chunk);
        } else {
            append_bytes(&mut group, self.pending.as_slice());
            append_range(&mut group, chunk, 0, whole - plen);
            append_range(&mut rest, chunk, whole - plen, chunk.len());
        }
        proof {
            assert(group@ =~= aligned(pc));
            assert(rest@ =~= leftover(pc));
        }
        let r = if whole == 0 {
            Vec::new()
        } else {
            encode_standard(group.as_slice())
        };
        proof {
            lemma_step(f0, p0, chunk@);
        }
        self.pending = rest;
        self.fed = Ghost(f0 + chunk@);
        self.emitted = Ghost(self.emitted@ + r@);
        r
    }

    /// Ends the input: returns the characters of the bytes held back, with
    /// the padding of the last group.
    pub fn finish(self) -> (r: Vec<u8>)
        requires
            self.wf(),
        ensures
            self.emitted() + r@ == b64_encode(self.fed()),
            r@ == b64_encode(self.pending()),
    {
        let r = encode_standard(self.pending.as_slice());
        proof {
            let f = self.fed@;
            assert(f =~= aligned(f) + self.pending@);
            lemma_encode_concat(aligned(f), self.pending@);
        }
        r
    }
}

} // verus!
