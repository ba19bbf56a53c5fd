//! The framed writer: a framing state machine driving a sink it owns.

use crate::encode::lemma_uvarint_fits;
use crate::framer::{frame, rest_of_region, Framer, Phase, Step};
use crate::sink::{follows, Logged, Offer, Sink};
use vstd::prelude::*;

verus! {

/// Writes payloads to a sink as frames: the encoded total length, a constant
/// prefix, the payload and a constant suffix. A frame may take several calls of
/// [`UviWriter::write`], as the sink accepts its bytes.
pub struct UviWriter<T: Sink> {
    io: Logged<T>,
    core: Framer,
    frame_start: Ghost<Seq<u8>>,
}

impl<T: Sink> UviWriter<T> {
    /// The sink with the record of what this writer has asked of it.
    pub closed spec fn record(&self) -> Logged<T> {
        self.io
    }

    /// The sink.
    pub open spec fn sink(&self) -> T {
        self.record().inner()
    }

    /// The state machine.
    pub closed spec fn framer(&self) -> Framer {
        self.core
    }

    /// Every byte that the sink has accepted from this writer, in order.
    pub open spec fn output(&self) -> Seq<u8> {
        self.record().written()
    }

    /// What `output` was when the frame in flight began; `output` itself when none is.
    pub closed spec fn frame_start(&self) -> Seq<u8> {
        self.frame_start@
    }

    /// The constant bytes put before each payload.
    pub open spec fn prefix(&self) -> Seq<u8> {
        self.framer().prefix()
    }

    /// The constant bytes put after each payload.
    pub open spec fn suffix(&self) -> Seq<u8> {
        self.framer().suffix()
    }

    /// True when no frame is in flight.
    pub open spec fn idle(&self) -> bool {
        self.framer().idle()
    }

    /// The whole payload of the frame in flight.
    pub open spec fn message(&self) -> Seq<u8> {
        self.framer().message()
    }

    /// How many bytes of the frame in flight the sink has accepted.
    pub open spec fn sent(&self) -> nat {
        self.framer().sent()
    }

    /// How many payload bytes of the frame in flight `write` has returned so far, in sum.
    pub open spec fn reported(&self) -> nat {
        self.framer().reported()
    }

    /// The payload of the frame that a call of `write` with `payload` works on:
    /// the one in flight, or the one that `payload` begins.
    pub open spec fn upcoming(&self, payload: Seq<u8>) -> Seq<u8> {
        self.framer().upcoming(payload)
    }

    /// What `write` has to be passed: any payload whose frame length fits
    /// `usize` when no frame is in flight, else the part of the payload in
    /// flight that has not been reported as consumed.
    pub open spec fn expects(&self, payload: Seq<u8>) -> bool {
        self.framer().expects(payload)
    }

    /// The invariant of the writer: between calls the cursor stands inside its
    /// region, and what the sink has accepted since the frame began is the
    /// sent part of that frame.
    pub open spec fn wf(&self) -> bool {
        &&& self.framer().wf()
        &&& self.framer().settled()
        &&& self.output() == self.frame_start() + self.framer().wire().take(
            self.framer().sent() as int,
        )
    }

    /// A writer on `io` with empty prefix and suffix and no frame in flight.
    pub fn new(io: T) -> (w: Self)
        ensures
            w.wf(),
            w.idle(),
            w.sink() == io,
            w.prefix() == Seq::<u8>::empty(),
            w.suffix() == Seq::<u8>::empty(),
            w.output() == Seq::<u8>::empty(),
            w.record().offers() == Seq::<Offer<T>>::empty(),
            w.record().flushes() == Seq::<Result<(), T::Error>>::empty(),
            w.record().shutdowns() == Seq::<Result<bool, T::Error>>::empty(),
            w.framer().spec_cursor() == 0,
            w.framer().total_len() == 0,
    {
        let w = UviWriter {
            io: Logged::new(io),
            core: Framer::new(),
            frame_start: Ghost(Seq::empty()),
        };
        w
    }

    /// Gives the sink back. A frame in flight is abandoned.
    pub fn into_inner(self) -> (io: T)
        ensures
            io == self.sink(),
    {
        self.io.into_inner()
    }

    /// Whether no frame is in flight.
    pub fn is_idle(&self) -> (b: bool)
        ensures
            b == self.idle(),
    {
        self.core.is_idle()
    }

    /// The region of the frame being written.
    pub fn phase(&self) -> (p: Phase)
        ensures
            p == self.framer().spec_phase(),
    {
        self.core.phase()
    }

    /// Whether a payload of `payload_len` bytes has the length that `expects` asks for.
    pub fn admits(&self, payload_len: usize) -> (b: bool)
        requires
            self.wf(),
        ensures
            b == if self.idle() {
                self.prefix().len() + payload_len + self.suffix().len() <= usize::MAX
            } else {
                payload_len == self.message().len() - self.reported()
            },
    {
        self.core.admits(payload_len)
    }

    /// What `set_prefix` with `val` makes of the writer `self`: the writer
    /// `post`, whose prefix is `val`, not appended to the old one. The suffix,
    /// the sink, the record of what it was asked and the output stay; no frame
    /// is in flight before or after.
    pub open spec fn prefix_set(self, val: Seq<u8>, post: Self) -> bool {
        &&& post.wf()
        &&& post.idle()
        &&& post.prefix() == val
        &&& post.suffix() == self.suffix()
        &&& post.frame_start() == self.frame_start()
        &&& post.record() == self.record()
    }

    /// What `set_suffix` with `val` makes of the writer `self`: the writer
    /// `post`, whose suffix is `val`, not appended to the old one. The prefix,
    /// the sink, the record of what it was asked and the output stay; no frame
    /// is in flight before or after.
    pub open spec fn suffix_set(self, val: Seq<u8>, post: Self) -> bool {
        &&& post.wf()
        &&& post.idle()
        &&& post.suffix() == val
        &&& post.prefix() == self.prefix()
        &&& post.frame_start() == self.frame_start()
        &&& post.record() == self.record()
    }

    /// Sets the constant bytes to put before each payload from the next frame
    /// on. Only between frames; the frames already written keep their bytes.
    pub fn set_prefix(&mut self, val: &[u8])
        requires
            old(self).wf(),
            old(self).idle(),
            val@.len() <= usize::MAX / 4,
        ensures
            old(self).prefix_set(val@, *final(self)),
    {
        self.core.set_prefix(val);
    }

    /// Sets the constant bytes to put after each payload from the next frame
    /// on. Only between frames; the frames already written keep their bytes.
    pub fn set_suffix(&mut self, val: &[u8])
        requires
            old(self).wf(),
            old(self).idle(),
            val@.len() <= usize::MAX / 4,
        ensures
            old(self).suffix_set(val@, *final(self)),
    {
        self.core.set_suffix(val);
    }

    /// The number of payload bytes that a call of `write` reports as consumed:
    /// what it returned, and 0 where it failed.
    pub open spec fn returned(r: Result<usize, T::Error>) -> nat {
        match r {
            Ok(n) => n as nat,
            Err(_) => 0,
        }
    }

    /// What a call of `write` with `payload` has asked of the sink, where it
    /// found the writer `self` and leaves the record `post`. The record is longer by at
    /// least one offer. Each new offer went as the sink promises and was the
    /// whole rest of the region at the position up to which the sink had
    /// accepted the frame; only the last can have failed. The first found the
    /// sink as `self` holds it, each other as the offer before left it, and
    /// `post` holds the sink as the last left it: the sink was not called in
    /// any other way.
    #[verifier::opaque]
    pub open spec fn offered(self, payload: Seq<u8>, post: Logged<T>) -> bool {
        let was = self.record().offers().len() as int;
        let offers = post.offers();
        &&& offers.len() > was
        &&& offers.take(was) == self.record().offers()
        &&& forall|k: int|
            was <= k < offers.len() ==> {
                let offer = #[trigger] offers[k];
                &&& offer.kept()
                &&& offer.at >= self.frame_start().len()
                &&& offer.bytes == rest_of_region(
                    self.prefix(),
                    self.upcoming(payload),
                    self.suffix(),
                    (offer.at - self.frame_start().len()) as nat,
                )
                &&& offer.at + offer.bytes.len() <= self.frame_start().len() + frame(
                    self.prefix(),
                    self.upcoming(payload),
                    self.suffix(),
                ).len()
                &&& offer.answer is Err ==> k == offers.len() - 1
            }
        &&& offers[was].before == self.sink()
        &&& offers[was].at == self.output().len()
        &&& forall|k: int| was < k < offers.len() ==> #[trigger] follows(offers, k)
        &&& post.inner() == offers.last().after
        &&& post.written().len() == offers.last().at + offers.last().taken()
    }

    /// One more offer keeps `offered`: from the record `earlier`, reached from
    /// `self` by offers so far without failure or by none, an offer of the
    /// rest of the region leads to the record `now`.
    proof fn lemma_offered_goes_on(self, payload: Seq<u8>, earlier: Logged<T>, now: Logged<T>)
        requires
            earlier.offers().len() >= self.record().offers().len(),
            earlier.offers().len() == self.record().offers().len() ==> {
                &&& earlier.offers() == self.record().offers()
                &&& earlier.inner() == self.sink()
                &&& earlier.written() == self.output()
            },
            earlier.offers().len() > self.record().offers().len() ==> {
                &&& self.offered(payload, earlier)
                &&& earlier.offers().last().answer is Ok
            },
            now.offers().len() == earlier.offers().len() + 1,
            now.offers().drop_last() == earlier.offers(),
            now.offers().last().kept(),
            now.offers().last().at == earlier.written().len(),
            now.offers().last().before == earlier.inner(),
            now.offers().last().after == now.inner(),
            now.written().len() == earlier.written().len() + now.offers().last().taken(),
            earlier.written().len() >= self.frame_start().len(),
            now.offers().last().bytes == rest_of_region(
                self.prefix(),
                self.upcoming(payload),
                self.suffix(),
                (earlier.written().len() - self.frame_start().len()) as nat,
            ),
            earlier.written().len() + now.offers().last().bytes.len()
                <= self.frame_start().len() + frame(
                self.prefix(),
                self.upcoming(payload),
                self.suffix(),
            ).len(),
        ensures
            self.offered(payload, now),
    {
        reveal(UviWriter::offered);
        let was = self.record().offers().len() as int;
        let before = earlier.offers();
        let offers = now.offers();
        assert(offers.take(was) =~= before.take(was));
        assert forall|k: int| was < k < offers.len() implies #[trigger] follows(offers, k) by {
            if k < before.len() {
                assert(follows(before, k));
            }
        }
        assert forall|k: int| was <= k < offers.len() implies {
            let offer = #[trigger] offers[k];
            &&& offer.kept()
            &&& offer.at >= self.frame_start().len()
            &&& offer.bytes == rest_of_region(
                self.prefix(),
                self.upcoming(payload),
                self.suffix(),
                (offer.at - self.frame_start().len()) as nat,
            )
            &&& offer.at + offer.bytes.len() <= self.frame_start().len() + frame(
                self.prefix(),
                self.upcoming(payload),
                self.suffix(),
            ).len()
            &&& offer.answer is Err ==> k == offers.len() - 1
        } by {
            if k < before.len() {
                assert(offers[k] == before[k]);
            }
        }
    }

    /// What a call of `write` with `payload` that returns `r` makes of the
    /// writer `self`: the writer `post`.
    ///
    /// Prefix and suffix stay. The sink is neither flushed nor closed. It is
    /// offered bytes at least once, each time the whole rest of the region at
    /// the position up to which it has accepted the frame, and in no other
    /// way called between the offers. The first offer that fails is the last,
    /// and the call returns its error; no other call fails. A call that
    /// succeeds ends before the frame is complete only where the sink took
    /// less than it was last offered. Where the call leaves a frame in flight, it is
    /// the frame of the payload that was in flight or that `payload` began, it
    /// began where it had begun, and none of its bytes is taken back; by the
    /// invariant the output is then the sent part of that frame.
    /// - `Ok(n)` and no frame left in flight: the frame is complete. The output
    ///   is what it was when the frame began, followed by the whole frame, and
    ///   `n` is all of `payload`, the last of the frame's payload to be reported.
    /// - `Ok(n)` and a frame in flight: `n` more bytes of its payload are
    ///   reported, none unless the payload is being written, and the next call
    ///   is to pass `payload` without its first `n` bytes. Where `n` is 0, the
    ///   sink accepted nothing of what it was offered last.
    /// - `Err`: nothing more is reported. Either no frame has begun and the
    ///   output is unchanged, or the frame is in flight and the next call is
    ///   to pass `payload` again.
    pub open spec fn write_step(
        self,
        payload: Seq<u8>,
        post: Self,
        r: Result<usize, T::Error>,
    ) -> bool {
        &&& post.wf()
        &&& post.prefix() == self.prefix()
        &&& post.suffix() == self.suffix()
        &&& post.record().flushes() == self.record().flushes()
        &&& post.record().shutdowns() == self.record().shutdowns()
        &&& self.offered(payload, post.record())
        &&& r is Err <==> post.record().offers().last().answer is Err
        &&& r is Err ==> post.record().offers().last().answer == r
        &&& r is Ok && !post.idle() ==> post.record().offers().last().taken()
            < post.record().offers().last().bytes.len()
        &&& post.idle() ==> post.frame_start() == post.output()
        &&& !post.idle() ==> {
            &&& post.frame_start() == self.frame_start()
            &&& post.message() == self.upcoming(payload)
            &&& post.sent() >= self.sent()
        }
        &&& match r {
            Ok(n) => if post.idle() {
                &&& n == payload.len()
                &&& self.reported() + n == self.upcoming(payload).len()
                &&& post.output() == self.frame_start() + frame(
                    self.prefix(),
                    self.upcoming(payload),
                    self.suffix(),
                )
            } else {
                &&& n <= payload.len()
                &&& post.reported() == self.reported() + n
                &&& post.expects(payload.skip(n as int))
                &&& n == 0 ==> post.expects(payload) && post.record().stalled()
                &&& n > 0 ==> post.framer().spec_phase() == Phase::WritingPayload
            },
            Err(_) => if post.idle() {
                &&& self.idle()
                &&& post.output() == self.output()
            } else {
                &&& post.reported() == self.reported()
                &&& post.expects(payload)
            },
        }
    }

    /// Writes as much of the frame for `payload` as the sink accepts, and
    /// returns how many bytes of `payload` are thereby consumed. Bytes of the
    /// length, the prefix and the suffix never count. The call returns 0 where
    /// the sink accepts nothing of what it is offered. The payload bytes whose
    /// acceptance completes the payload count once the suffix is written too,
    /// which completes the frame.
    ///
    /// While a frame is in flight the caller passes what is left of its
    /// payload: the same bytes again after 0, the rest after a partial write.
    /// An error of the sink is handed on; what the sink had accepted before
    /// stays accepted, and the next call goes on from there.
    pub fn write(&mut self, payload: &[u8]) -> (r: Result<usize, T::Error>)
        requires
            old(self).wf(),
            old(self).expects(payload@),
        ensures
            old(self).write_step(payload@, *final(self), r),
    {
        let ghost start = self.frame_start@;
        let ghost msg = self.core.upcoming(payload@);
        let ghost wire = frame(self.core.prefix(), msg, self.core.suffix());
        loop
            invariant
                old(self).idle() ==> old(self).output() == start,
                self.record().offers().len() >= old(self).record().offers().len(),
                self.record().offers().len() == old(self).record().offers().len() ==> {
                    &&& self.record().offers() == old(self).record().offers()
                    &&& self.sink() == old(self).sink()
                    &&& self.output() == old(self).output()
                },
                self.record().offers().len() > old(self).record().offers().len() ==> {
                    &&& old(self).offered(payload@, self.record())
                    &&& self.record().offers().last().answer is Ok
                },
                self.record().offers().len() > old(self).record().offers().len()
                    || self.framer().settled(),
                self.record().flushes() == old(self).record().flushes(),
                self.record().shutdowns() == old(self).record().shutdowns(),
                self.framer().wf(),
                self.framer().expects(payload@),
                self.prefix() == old(self).prefix(),
                self.suffix() == old(self).suffix(),
                start == old(self).frame_start(),
                msg == old(self).framer().upcoming(payload@),
                wire == frame(old(self).prefix(), msg, old(self).suffix()),
                self.frame_start() == start,
                self.output() == start + wire.take(self.framer().sent() as int),
                self.idle() ==> old(self).idle(),
                !self.idle() ==> self.framer().message() == msg,
                self.framer().reported() == old(self).framer().reported(),
                self.framer().sent() >= old(self).framer().sent(),
            decreases self.framer().fuel(payload@),
        {
            if self.core.is_idle() {
                self.core.prepare(payload.len());
            }
            let region = self.core.pending(payload);
            proof {
                lemma_uvarint_fits(
                    (self.prefix().len() + payload@.len() + self.suffix().len()) as nat,
                );
            }
            let ghost earlier = self.io;
            let accepted: usize = if region.len() == 0 {
                0
            } else {
                proof {
                    self.core.lemma_offer_is_rest_of_region(payload@);
                    self.core.lemma_offer_continues_wire(payload@, 0);
                }
                let answer = self.io.write(region);
                proof {
                    assert(self.record().offers().drop_last() =~= earlier.offers());
                    old(self).lemma_offered_goes_on(payload@, earlier, self.record());
                }
                match answer {
                    Ok(n) => n,
                    Err(e) => {
                        return Err(e);
                    },
                }
            };
            let ghost before = self.core;
            proof {
                before.lemma_offer_continues_wire(payload@, accepted as nat);
                assert(start + wire.take(before.sent() as int) + region@.take(accepted as int)
                    =~= start + wire.take(before.sent() + accepted));
            }
            match self.core.advance(payload, accepted) {
                Step::Proceed => {},
                Step::Report(n) => {
                    if self.core.is_idle() {
                        assert(self.output() == start + wire);
                        self.frame_start = Ghost(self.io.written());
                    }
                    return Ok(n);
                },
            }
        }
    }

    /// Flushes the sink once and returns what it answers, an error too.
    /// Nothing else changes: the writer holds no bytes of its own to push out.
    pub fn flush(&mut self) -> (r: Result<(), T::Error>)
        ensures
            old(self).wf() ==> final(self).wf(),
            final(self).framer() == old(self).framer(),
            final(self).frame_start() == old(self).frame_start(),
            final(self).output() == old(self).output(),
            final(self).record().flushes() == old(self).record().flushes().push(r),
            old(self).sink().flush_gives(r, final(self).sink()),
            final(self).record().offers() == old(self).record().offers(),
            final(self).record().shutdowns() == old(self).record().shutdowns(),
    {
        self.io.flush()
    }

    /// Asks the sink once to close and returns what it answers, an error too:
    /// `Ok(true)` when it is closed, `Ok(false)` when the call has to be
    /// repeated later. Nothing else changes: a frame in flight is not finished first.
    pub fn shutdown(&mut self) -> (r: Result<bool, T::Error>)
        ensures
            old(self).wf() ==> final(self).wf(),
            final(self).framer() == old(self).framer(),
            final(self).frame_start() == old(self).frame_start(),
            final(self).output() == old(self).output(),
            final(self).record().shutdowns() == old(self).record().shutdowns().push(r),
            old(self).sink().shutdown_gives(r, final(self).sink()),
            final(self).record().offers() == old(self).record().offers(),
            final(self).record().flushes() == old(self).record().flushes(),
    {
        self.io.shutdown()
    }
}

} // verus!
