//! The framing state machine: which bytes of a frame come next, and what follows
//! once a sink has accepted some of them. It holds no sink and does no I/O.

use crate::encode::{encode_usize, lemma_uvarint_fits, usize_buffer, uvarint, USIZE_LEN};
use crate::inline::{
    inline_as_slice, inline_clear, inline_contents, inline_extend_from_slice, inline_len,
    inline_new, InlineBytes,
};
use vstd::prelude::*;
use vstd::slice::slice_subrange;

verus! {

/// The region of the frame that is being written.
#[derive(Clone, Copy, Debug, PartialEq, Eq, Structural)]
pub enum Phase {
    /// No frame is in flight.
    Init,
    /// The encoded length is partly written.
    WritingLength,
    /// The constant prefix is being written.
    WritingPrefix,
    /// The payload is being written.
    WritingPayload,
    /// The constant suffix is being written; the number is how many payload
    /// bytes the step that finished the payload handed over, still to be reported.
    WritingSuffix(usize),
}

/// What a caller of [`Framer::advance`] does next.
#[derive(Clone, Copy, Debug, PartialEq, Eq, Structural)]
pub enum Step {
    /// Offer the next pending bytes to the sink.
    Proceed,
    /// Stop and report this many payload bytes as consumed.
    Report(usize),
}

impl Step {
    /// The number of payload bytes that this step reports.
    pub open spec fn amount(self) -> nat {
        match self {
            Step::Proceed => 0,
            Step::Report(n) => n as nat,
        }
    }
}

/// The bytes of one frame on the wire: the encoded total length, then prefix,
/// payload and suffix.
pub open spec fn frame(prefix: Seq<u8>, payload: Seq<u8>, suffix: Seq<u8>) -> Seq<u8> {
    uvarint(prefix.len() + payload.len() + suffix.len()) + prefix + payload + suffix
}

/// Where the region of the frame that holds position `at` ends. The regions
/// are the encoded length, the prefix, the payload and the suffix; an empty
/// region holds no position.
pub open spec fn region_end(prefix: Seq<u8>, payload: Seq<u8>, suffix: Seq<u8>, at: nat) -> nat {
    let header = uvarint(prefix.len() + payload.len() + suffix.len()).len();
    if at < header {
        header
    } else if at < header + prefix.len() {
        header + prefix.len()
    } else if at < header + prefix.len() + payload.len() {
        header + prefix.len() + payload.len()
    } else {
        header + prefix.len() + payload.len() + suffix.len()
    }
}

/// The bytes of the frame from position `at` to the end of its region: what a
/// sink that has accepted `at` bytes of the frame is to be offered next.
pub open spec fn rest_of_region(
    prefix: Seq<u8>,
    payload: Seq<u8>,
    suffix: Seq<u8>,
    at: nat,
) -> Seq<u8> {
    frame(prefix, payload, suffix).subrange(
        at as int,
        region_end(prefix, payload, suffix, at) as int,
    )
}

/// What is reported when a sink has taken `accepted` bytes of a region that is not yet done.
pub open spec fn unfinished(accepted: nat) -> Step {
    if accepted == 0 {
        Step::Report(0)
    } else {
        Step::Proceed
    }
}

fn unfinished_step(accepted: usize) -> (step: Step)
    ensures
        step == unfinished(accepted as nat),
{
    if accepted == 0 {
        Step::Report(0)
    } else {
        Step::Proceed
    }
}

/// Progress through one frame at a time.
pub struct Framer {
    prefix: InlineBytes,
    suffix: InlineBytes,
    scratch: [u8; USIZE_LEN],
    encoded: usize,
    total_len: usize,
    cursor: usize,
    phase: Phase,
    message: Ghost<Seq<u8>>,
}

impl Framer {
    /// The constant bytes put before each payload.
    pub closed spec fn prefix(&self) -> Seq<u8> {
        inline_contents(self.prefix)
    }

    /// The constant bytes put after each payload.
    pub closed spec fn suffix(&self) -> Seq<u8> {
        inline_contents(self.suffix)
    }

    /// The region being written.
    pub closed spec fn spec_phase(&self) -> Phase {
        self.phase
    }

    /// Bytes of the current region that the sink has accepted.
    pub closed spec fn spec_cursor(&self) -> nat {
        self.cursor as nat
    }

    /// The whole payload of the frame in flight.
    pub closed spec fn message(&self) -> Seq<u8> {
        self.message@
    }

    /// The total byte count that the length field of the latest frame declares.
    pub closed spec fn total_len(&self) -> nat {
        self.total_len as nat
    }

    /// The encoded length that is held ready in the scratch buffer.
    pub closed spec fn staged(&self) -> Seq<u8> {
        self.scratch@.take(self.encoded as int)
    }

    /// What ties the private fields to the model.
    pub closed spec fn repr(&self) -> bool {
        &&& self.encoded <= USIZE_LEN
        &&& self.phase != Phase::Init ==> self.staged() == uvarint(self.total_len as nat)
    }

    /// True when no frame is in flight.
    pub open spec fn idle(&self) -> bool {
        self.spec_phase() == Phase::Init
    }

    /// The number of bytes that the length field of the frame in flight takes.
    pub open spec fn header_len(&self) -> nat {
        uvarint(self.prefix().len() + self.message().len() + self.suffix().len()).len()
    }

    /// The bytes of the frame in flight.
    pub open spec fn wire(&self) -> Seq<u8> {
        frame(self.prefix(), self.message(), self.suffix())
    }

    /// The invariant of the state machine. The cursor never passes the end of
    /// its region; it may stand at the end only until the next `advance`.
    pub open spec fn wf(&self) -> bool {
        &&& self.repr()
        &&& !self.idle() ==> self.total_len() == self.prefix().len() + self.message().len()
            + self.suffix().len() <= usize::MAX
        &&& match self.spec_phase() {
            Phase::Init => self.spec_cursor() == 0,
            Phase::WritingLength => self.spec_cursor() < self.header_len(),
            Phase::WritingPrefix => self.spec_cursor() <= self.prefix().len(),
            Phase::WritingPayload => self.spec_cursor() <= self.message().len(),
            Phase::WritingSuffix(n) => self.spec_cursor() <= self.suffix().len() && n
                <= self.message().len(),
        }
    }

    /// True when the cursor stands strictly inside its region, or no frame is in flight.
    pub open spec fn settled(&self) -> bool {
        match self.spec_phase() {
            Phase::Init => true,
            Phase::WritingLength => true,
            Phase::WritingPrefix => self.spec_cursor() < self.prefix().len(),
            Phase::WritingPayload => self.spec_cursor() < self.message().len(),
            Phase::WritingSuffix(_) => self.spec_cursor() < self.suffix().len(),
        }
    }

    /// How many bytes of the frame in flight the sink has accepted.
    pub open spec fn sent(&self) -> nat {
        match self.spec_phase() {
            Phase::Init => 0,
            Phase::WritingLength => self.spec_cursor(),
            Phase::WritingPrefix => self.header_len() + self.spec_cursor(),
            Phase::WritingPayload => self.header_len() + self.prefix().len() + self.spec_cursor(),
            Phase::WritingSuffix(_) => self.header_len() + self.prefix().len()
                + self.message().len() + self.spec_cursor(),
        }
    }

    /// How many payload bytes of the frame in flight have been reported as consumed.
    pub open spec fn reported(&self) -> nat {
        match self.spec_phase() {
            Phase::WritingPayload => self.spec_cursor(),
            Phase::WritingSuffix(n) => (self.message().len() - n) as nat,
            _ => 0,
        }
    }

    /// The payload of the frame that a call with `payload` works on: the one in
    /// flight, or the one that `payload` begins.
    pub open spec fn upcoming(&self, payload: Seq<u8>) -> Seq<u8> {
        if self.idle() {
            payload
        } else {
            self.message()
        }
    }

    /// What a caller has to pass: any payload whose frame length fits `usize`
    /// when no frame is in flight, else the part of the payload in flight that
    /// has not been reported as consumed.
    pub open spec fn expects(&self, payload: Seq<u8>) -> bool {
        if self.idle() {
            self.prefix().len() + payload.len() + self.suffix().len() <= usize::MAX
        } else {
            payload == self.message().skip(self.reported() as int)
        }
    }

    /// `expects`, and the length of a new frame is encoded and held ready.
    pub open spec fn ready(&self, payload: Seq<u8>) -> bool {
        &&& self.expects(payload)
        &&& self.idle() ==> self.staged() == uvarint(
            self.prefix().len() + payload.len() + self.suffix().len(),
        )
    }

    /// The bytes to offer to the sink next: the rest of the current region.
    pub open spec fn offer(&self, payload: Seq<u8>) -> Seq<u8> {
        match self.spec_phase() {
            Phase::Init => uvarint(self.prefix().len() + payload.len() + self.suffix().len()),
            Phase::WritingLength => uvarint(
                self.prefix().len() + self.message().len() + self.suffix().len(),
            ).skip(self.spec_cursor() as int),
            Phase::WritingPrefix => self.prefix().skip(self.spec_cursor() as int),
            Phase::WritingPayload => payload,
            Phase::WritingSuffix(_) => self.suffix().skip(self.spec_cursor() as int),
        }
    }

    /// Phase, cursor and step after the sink has accepted `accepted` of the
    /// offered bytes. While bytes of the region are left, the cursor moves on by
    /// `accepted` and the phase stays; in the payload the step then reports
    /// `accepted`, elsewhere it reports 0 where nothing was accepted and
    /// proceeds otherwise. Once no bytes of the region are left, the cursor
    /// goes back to 0 and the next region begins: the prefix after the length,
    /// the payload after the prefix, the suffix after the payload, keeping
    /// `accepted` to be reported later, and after the suffix no frame is in
    /// flight and the step reports what was kept.
    #[verifier::opaque]
    pub open spec fn after(&self, payload: Seq<u8>, accepted: nat) -> (Phase, nat, Step) {
        let msg = self.upcoming(payload);
        let header = uvarint(self.prefix().len() + msg.len() + self.suffix().len()).len();
        let at = self.spec_cursor() + accepted;
        match self.spec_phase() {
            Phase::Init | Phase::WritingLength => if at < header {
                (Phase::WritingLength, at, unfinished(accepted))
            } else {
                (Phase::WritingPrefix, 0, Step::Proceed)
            },
            Phase::WritingPrefix => if at < self.prefix().len() {
                (Phase::WritingPrefix, at, unfinished(accepted))
            } else {
                (Phase::WritingPayload, 0, Step::Proceed)
            },
            Phase::WritingPayload => if at < msg.len() {
                (Phase::WritingPayload, at, Step::Report(accepted as usize))
            } else {
                (Phase::WritingSuffix(accepted as usize), 0, Step::Proceed)
            },
            Phase::WritingSuffix(n) => if at < self.suffix().len() {
                (Phase::WritingSuffix(n), at, unfinished(accepted))
            } else {
                (Phase::Init, 0, Step::Report(n))
            },
        }
    }

    /// A bound on the number of `Proceed` steps that can still follow.
    #[verifier::opaque]
    pub open spec fn fuel(&self, payload: Seq<u8>) -> nat {
        let rest = (frame(self.prefix(), self.upcoming(payload), self.suffix()).len()
            - self.sent()) as nat;
        5 * rest + match self.spec_phase() {
            Phase::Init => 5nat,
            Phase::WritingLength => 4nat,
            Phase::WritingPrefix => 3nat,
            Phase::WritingPayload => 2nat,
            Phase::WritingSuffix(_) => 1nat,
        }
    }

    /// The pending bytes are the part of the frame that follows what has been
    /// sent: sending any front part of them extends the sent part of the frame.
    pub proof fn lemma_offer_continues_wire(&self, payload: Seq<u8>, accepted: nat)
        requires
            self.wf(),
            self.expects(payload),
            accepted <= self.offer(payload).len(),
        ensures
            self.sent() + self.offer(payload).len() <= frame(
                self.prefix(),
                self.upcoming(payload),
                self.suffix(),
            ).len(),
            frame(self.prefix(), self.upcoming(payload), self.suffix()).take(self.sent() as int)
                + self.offer(payload).take(accepted as int) == frame(
                self.prefix(),
                self.upcoming(payload),
                self.suffix(),
            ).take((self.sent() + accepted) as int),
    {
    }

    /// The pending bytes, where there are any, are the rest of the region at
    /// the position up to which the frame is sent.
    pub proof fn lemma_offer_is_rest_of_region(&self, payload: Seq<u8>)
        requires
            self.wf(),
            self.expects(payload),
            self.offer(payload).len() > 0,
        ensures
            self.offer(payload) == rest_of_region(
                self.prefix(),
                self.upcoming(payload),
                self.suffix(),
                self.sent(),
            ),
    {
        assert(self.offer(payload) =~= rest_of_region(
            self.prefix(),
            self.upcoming(payload),
            self.suffix(),
            self.sent(),
        ));
    }

    /// A state machine with no frame in flight and empty prefix and suffix.
    pub fn new() -> (f: Framer)
        ensures
            f.wf(),
            f.idle(),
            f.spec_cursor() == 0,
            f.total_len() == 0,
            f.prefix() == Seq::<u8>::empty(),
            f.suffix() == Seq::<u8>::empty(),
    {
        Framer {
            prefix: inline_new(),
            suffix: inline_new(),
            scratch: usize_buffer(),
            encoded: 0,
            total_len: 0,
            cursor: 0,
            phase: Phase::Init,
            message: Ghost(Seq::empty()),
        }
    }

    /// The region being written.
    #[verifier::when_used_as_spec(spec_phase)]
    pub fn phase(&self) -> (p: Phase)
        ensures
            p == self.spec_phase(),
    {
        self.phase
    }

    /// Bytes of the current region that the sink has accepted.
    pub fn cursor(&self) -> (c: usize)
        ensures
            c == self.spec_cursor(),
    {
        self.cursor
    }

    /// Whether no frame is in flight.
    pub fn is_idle(&self) -> (b: bool)
        ensures
            b == self.idle(),
    {
        match self.phase {
            Phase::Init => true,
            _ => false,
        }
    }

    /// Whether a payload of `payload_len` bytes has the length that `expects`
    /// asks for: any whose frame length fits `usize` when no frame is in flight,
    /// else the number of payload bytes not yet reported as consumed.
    pub fn admits(&self, payload_len: usize) -> (b: bool)
        requires
            self.wf(),
        ensures
            b == if self.idle() {
                self.prefix().len() + payload_len + self.suffix().len() <= usize::MAX
            } else {
                payload_len == self.message().len() - self.reported()
            },
    {
        let prefix_len: usize = inline_len(&self.prefix);
        let suffix_len: usize = inline_len(&self.suffix);
        match self.phase {
            Phase::Init => suffix_len <= usize::MAX - prefix_len && payload_len <= usize::MAX
                - prefix_len - suffix_len,
            Phase::WritingLength | Phase::WritingPrefix => payload_len == self.total_len
                - prefix_len - suffix_len,
            Phase::WritingPayload => payload_len == self.total_len - prefix_len - suffix_len
                - self.cursor,
            Phase::WritingSuffix(n) => payload_len == n,
        }
    }

    /// Replaces the constant prefix. Only between frames.
    pub fn set_prefix(&mut self, val: &[u8])
        requires
            old(self).wf(),
            old(self).idle(),
            val@.len() <= usize::MAX / 4,
        ensures
            final(self).wf(),
            final(self).idle(),
            final(self).prefix() == val@,
            final(self).suffix() == old(self).suffix(),
    {
        inline_clear(&mut self.prefix);
        inline_extend_from_slice(&mut self.prefix, val);
    }

    /// Replaces the constant suffix. Only between frames.
    pub fn set_suffix(&mut self, val: &[u8])
        requires
            old(self).wf(),
            old(self).idle(),
            val@.len() <= usize::MAX / 4,
        ensures
            final(self).wf(),
            final(self).idle(),
            final(self).suffix() == val@,
            final(self).prefix() == old(self).prefix(),
    {
        inline_clear(&mut self.suffix);
        inline_extend_from_slice(&mut self.suffix, val);
    }

    /// Encodes the length of the frame for a payload of `payload_len` bytes and
    /// holds it ready. The frame does not begin before a sink has been offered it.
    pub fn prepare(&mut self, payload_len: usize)
        requires
            old(self).wf(),
            old(self).idle(),
            old(self).prefix().len() + payload_len + old(self).suffix().len() <= usize::MAX,
        ensures
            final(self).wf(),
            final(self).idle(),
            final(self).prefix() == old(self).prefix(),
            final(self).suffix() == old(self).suffix(),
            final(self).staged() == uvarint(
                (old(self).prefix().len() + payload_len + old(self).suffix().len()) as nat,
            ),
            forall|payload: Seq<u8>| final(self).fuel(payload) == old(self).fuel(payload),
    {
        reveal(Framer::fuel);
        let total: usize = inline_len(&self.prefix) + inline_len(&self.suffix) + payload_len;
        self.encoded = encode_usize(total, &mut self.scratch);
    }

    /// The bytes to offer to the sink next.
    pub fn pending<'a>(&'a self, payload: &'a [u8]) -> (region: &'a [u8])
        requires
            self.wf(),
            self.ready(payload@),
        ensures
            region@ == self.offer(payload@),
    {
        match self.phase {
            Phase::Init => slice_subrange(self.scratch.as_slice(), 0, self.encoded),
            Phase::WritingLength => slice_subrange(
                self.scratch.as_slice(),
                self.cursor,
                self.encoded,
            ),
            Phase::WritingPrefix => {
                let all = inline_as_slice(&self.prefix);
                slice_subrange(all, self.cursor, all.len())
            },
            Phase::WritingPayload => payload,
            Phase::WritingSuffix(_) => {
                let all = inline_as_slice(&self.suffix);
                slice_subrange(all, self.cursor, all.len())
            },
        }
    }

    /// Records that the sink has accepted the first `accepted` of the pending
    /// bytes, and says what to do next. A region with nothing left is left
    /// behind without a call to the sink: pass 0 for it.
    pub fn advance(&mut self, payload: &[u8], accepted: usize) -> (step: Step)
        requires
            old(self).wf(),
            old(self).ready(payload@),
            accepted <= old(self).offer(payload@).len(),
        ensures
            final(self).wf(),
            final(self).prefix() == old(self).prefix(),
            final(self).suffix() == old(self).suffix(),
            (final(self).spec_phase(), final(self).spec_cursor(), step) == old(self).after(
                payload@,
                accepted as nat,
            ),
            !final(self).idle() ==> {
                &&& final(self).message() == old(self).upcoming(payload@)
                &&& final(self).sent() == old(self).sent() + accepted
                &&& final(self).reported() == old(self).reported() + step.amount()
                &&& final(self).expects(payload@.skip(step.amount() as int))
                &&& step.amount() == 0 ==> final(self).expects(payload@)
                &&& step.amount() > 0 ==> final(self).spec_phase() == Phase::WritingPayload
            },
            final(self).idle() ==> {
                &&& old(self).sent() + accepted == old(self).wire().len()
                &&& old(self).reported() + step.amount() == old(self).message().len()
                &&& step.amount() == payload@.len()
            },
            step == Step::Proceed ==> !final(self).idle() && final(self).fuel(payload@) < old(
                self,
            ).fuel(payload@),
            step != Step::Proceed ==> final(self).settled(),
            !final(self).idle() && step != Step::Proceed ==> step == Step::Report(accepted)
                && accepted < old(self).offer(payload@).len(),
    {
        let prefix_len: usize = inline_len(&self.prefix);
        let suffix_len: usize = inline_len(&self.suffix);
        proof {
            reveal(Framer::after);
            reveal(Framer::fuel);
            lemma_uvarint_fits(
                (old(self).prefix().len() + old(self).upcoming(payload@).len()
                    + old(self).suffix().len()) as nat,
            );
            assert(payload@.skip(0) =~= payload@);
            if old(self).spec_phase() == Phase::WritingPayload {
                assert(payload@.skip(accepted as int) =~= old(self).message().skip(
                    old(self).spec_cursor() + accepted,
                ));
            }
        }
        match self.phase {
            Phase::Init => {
                self.total_len = prefix_len + suffix_len + payload.len();
                self.message = Ghost(payload@);
                if accepted < self.encoded {
                    self.cursor = accepted;
                    self.phase = Phase::WritingLength;
                    unfinished_step(accepted)
                } else {
                    self.cursor = 0;
                    self.phase = Phase::WritingPrefix;
                    Step::Proceed
                }
            },
            Phase::WritingLength => {
                self.cursor = self.cursor + accepted;
                if self.cursor < self.encoded {
                    unfinished_step(accepted)
                } else {
                    self.cursor = 0;
                    self.phase = Phase::WritingPrefix;
                    Step::Proceed
                }
            },
            Phase::WritingPrefix => {
                self.cursor = self.cursor + accepted;
                if self.cursor < prefix_len {
                    unfinished_step(accepted)
                } else {
                    self.cursor = 0;
                    self.phase = Phase::WritingPayload;
                    Step::Proceed
                }
            },
            Phase::WritingPayload => {
                self.cursor = self.cursor + accepted;
                if self.cursor < self.total_len - prefix_len - suffix_len {
                    Step::Report(accepted)
                } else {
                    self.cursor = 0;
                    self.phase = Phase::WritingSuffix(accepted);
                    Step::Proceed
                }
            },
            Phase::WritingSuffix(n) => {
                self.cursor = self.cursor + accepted;
                if self.cursor < suffix_len {
                    unfinished_step(accepted)
                } else {
                    self.cursor = 0;
                    self.phase = Phase::Init;
                    Step::Report(n)
                }
            },
        }
    }
}

} // verus!
