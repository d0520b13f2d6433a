use crate::b64::{aligned, b64_encode, encodable_len};
use crate::bytes::append_bytes;
use crate::osc52::{osc52_frame, osc52_prefix, osc52_suffix, prefix_bytes, suffix_bytes};
use crate::stream::Base64Stream;
use vstd::prelude::*;

verus! {

/// Where one copy to the clipboard stands.
#[derive(Clone, Copy, Debug, PartialEq, Eq, Structural)]
pub enum Phase {
    /// Nothing written; the source is not open yet.
    Start,
    /// The prefix is written and body characters follow.
    Body,
    /// The whole sequence is written and the sink flushed.
    Done,
    /// The copy was abandoned.
    Failed,
}

/// What the driver reports to the session.
pub enum Event {
    /// The byte source is open.
    Opened,
    /// A chunk of input bytes was read.
    Data(Vec<u8>),
    /// The source is exhausted.
    End,
    /// Opening or reading the source, or writing the sink, failed.
    Failed,
}

/// What the driver must do next.
pub enum Action {
    /// Write these bytes to the sink.
    Write(Vec<u8>),
    /// Write these bytes to the sink, then flush it.
    WriteAndFlush(Vec<u8>),
    /// Stop and report failure; write nothing more.
    Abort,
    /// Nothing to do.
    Idle,
}

/// The bytes that an action writes.
pub open spec fn action_bytes(a: Action) -> Seq<u8> {
    match a {
        Action::Write(v) => v@,
        Action::WriteAndFlush(v) => v@,
        _ => Seq::empty(),
    }
}

/// The phase after an event.
pub open spec fn next_phase(p: Phase, ev: Event) -> Phase {
    match (p, ev) {
        (Phase::Done, _) => Phase::Done,
        (Phase::Failed, _) => Phase::Failed,
        (Phase::Start, Event::Opened) => Phase::Body,
        (Phase::Body, Event::Data(_)) => Phase::Body,
        (Phase::Body, Event::End) => Phase::Done,
        _ => Phase::Failed,
    }
}

/// The input bytes that an event hands to the encoder in a phase.
pub open spec fn bytes_fed(p: Phase, ev: Event) -> Seq<u8> {
    match (p, ev) {
        (Phase::Body, Event::Data(v)) => v@,
        _ => Seq::empty(),
    }
}

/// The decisions of one copy: the prefix once the source is open, the
/// characters of each chunk as it comes, then the last characters, the suffix
/// and a flush. Any failure ends the copy.
pub struct Osc52Session {
    phase: Phase,
    encoder: Base64Stream,
    fed: Ghost<Seq<u8>>,
    written: Ghost<Seq<u8>>,
}

impl Osc52Session {
    pub closed spec fn phase_of(&self) -> Phase {
        self.phase
    }

    /// Every input byte handed over so far.
    pub closed spec fn fed(&self) -> Seq<u8> {
        self.fed@
    }

    /// Every byte that the actions so far have written.
    pub closed spec fn written(&self) -> Seq<u8> {
        self.written@
    }

    pub closed spec fn wf(&self) -> bool {
        &&& self.encoder.wf()
        &&& match self.phase {
            Phase::Start => self.written@ == Seq::<u8>::empty() && self.fed@ == Seq::<u8>::empty()
                && self.encoder.fed() == Seq::<u8>::empty(),
            Phase::Body => self.written@ == prefix_bytes() + self.encoder.emitted()
                && self.fed@ == self.encoder.fed(),
            Phase::Done => self.written@ == osc52_frame(self.fed@),
            Phase::Failed => true,
        }
    }

    pub fn new() -> (r: Self)
        ensures
            r.wf(),
            r.phase_of() == Phase::Start,
            r.fed() == Seq::<u8>::empty(),
            r.written() == Seq::<u8>::empty(),
    {
        Osc52Session {
            phase: Phase::Start,
            encoder: Base64Stream::new(),
            fed: Ghost(Seq::empty()),
            written: Ghost(Seq::empty()),
        }
    }

    pub fn phase(&self) -> (r: Phase)
        ensures
            r == self.phase_of(),
    {
        self.phase
    }

    /// Takes one event and says what to do. Every byte written is part of
    /// the framed sequence of the input handed over, in order; the sink is
    /// flushed once, after the suffix.
    pub fn step(&mut self, ev: Event) -> (a: Action)
        requires
            old(self).wf(),
            ev matches Event::Data(v) ==> encodable_len(v@.len() + 2),
        ensures
            final(self).wf(),
            final(self).phase_of() == next_phase(old(self).phase_of(), ev),
            final(self).fed() == old(self).fed() + bytes_fed(old(self).phase_of(), ev),
            final(self).written() == old(self).written() + action_bytes(a),
            final(self).phase_of() == Phase::Body ==> final(self).written() == prefix_bytes()
                + b64_encode(aligned(final(self).fed())),
            final(self).phase_of() == Phase::Done ==> final(self).written() == osc52_frame(
                final(self).fed(),
            ),
            a is WriteAndFlush <==> (old(self).phase_of() == Phase::Body && ev is End),
            a is Abort <==> (old(self).phase_of() != Phase::Failed && old(self).phase_of()
                != Phase::Done && final(self).phase_of() == Phase::Failed),
            a is Idle <==> (old(self).phase_of() == Phase::Failed || old(self).phase_of()
                == Phase::Done),
            old(self).phase_of() == Phase::Start && !(ev is Opened) ==> a is Abort
                && final(self).written() == Seq::<u8>::empty(),
    {
        let ghost w0 = self.written@;
        let ghost f0 = self.fed@;
        match (self.phase, ev) {
            (Phase::Done, _) | (Phase::Failed, _) => {
                assert(w0 + Seq::<u8>::empty() =~= w0);
                assert(f0 + Seq::<u8>::empty() =~= f0);
                Action::Idle
            },
            (Phase::Start, Event::Opened) => {
                let p = osc52_prefix();
                self.phase = Phase::Body;
                self.written = Ghost(w0 + p@);
                proof {
                    self.encoder.lemma_emitted();
                    assert(aligned(Seq::<u8>::empty()) =~= Seq::<u8>::empty());
                    assert(f0 + Seq::<u8>::empty() =~= f0);
                    assert(self.written@ =~= prefix_bytes() + self.encoder.emitted());
                }
                Action::Write(p)
            },
            (Phase::Body, Event::Data(v)) => {
                let out = self.encoder.feed(v.as_slice());
                self.fed = Ghost(f0 + v@);
                self.written = Ghost(w0 + out@);
                proof {
                    self.encoder.lemma_emitted();
                    assert(self.written@ =~= prefix_bytes() + self.encoder.emitted());
                }
                Action::Write(out)
            },
            (Phase::Body, Event::End) => {
                let mut enc = Base64Stream::new();
                std::mem::swap(&mut enc, &mut self.encoder);
                proof {
                    enc.lemma_emitted();
                }
                let mut out = enc.finish();
                let s = osc52_suffix();
                append_bytes(&mut out, s.as_slice());
                self.phase = Phase::Done;
                self.written = Ghost(w0 + out@);
                proof {
                    assert(self.written@ =~= osc52_frame(f0));
                    assert(f0 + Seq::<u8>::empty() =~= f0);
                }
                Action::WriteAndFlush(out)
            },
            _ => {
                self.phase = Phase::Failed;
                assert(w0 + Seq::<u8>::empty() =~= w0);
                assert(f0 + Seq::<u8>::empty() =~= f0);
                Action::Abort
            },
        }
    }
}

} // verus!
