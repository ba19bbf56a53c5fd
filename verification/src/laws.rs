//! What holds of a frame that is written in any number of calls.
//!
//! A run is the sequence of writers that the calls of `write` for one payload
//! lead through, with what each call returned. The caller follows the rule of
//! `write`: each call passes the payload without the bytes that the calls
//! before it reported as consumed. The sink is free in every call to accept any
//! part of what it is offered, or to fail.

use crate::framer::{frame, Phase};
use crate::sink::follows;
use crate::sink::Sink;
use crate::writer::UviWriter;
use vstd::prelude::*;

verus! {

/// The sum of what the first `k` calls returned.
pub open spec fn returned_before<T: Sink>(results: Seq<Result<usize, T::Error>>, k: nat) -> nat
    decreases k,
{
    if k == 0 {
        0
    } else {
        returned_before::<T>(results, (k - 1) as nat) + UviWriter::<T>::returned(results[k - 1])
    }
}

/// Call `i` of the run: `write` takes the writer `states[i]` to `states[i + 1]`
/// and returns `results[i]`, on the part of `payload` that is not yet reported.
pub open spec fn call_at<T: Sink>(
    states: Seq<UviWriter<T>>,
    payload: Seq<u8>,
    results: Seq<Result<usize, T::Error>>,
    i: int,
) -> bool {
    states[i].write_step(
        payload.skip(returned_before::<T>(results, i as nat) as int),
        states[i + 1],
        results[i],
    )
}

/// True when call `i` of the run completes a frame.
pub open spec fn completes_at<T: Sink>(
    states: Seq<UviWriter<T>>,
    results: Seq<Result<usize, T::Error>>,
    i: int,
) -> bool {
    results[i] is Ok && states[i + 1].idle()
}

/// The calls that write one frame for `payload`, from a writer with no frame
/// in flight up to the call that completes the frame, and no further.
pub open spec fn frame_run<T: Sink>(
    states: Seq<UviWriter<T>>,
    payload: Seq<u8>,
    results: Seq<Result<usize, T::Error>>,
) -> bool {
    &&& results.len() >= 1
    &&& states.len() == results.len() + 1
    &&& states[0].wf()
    &&& states[0].idle()
    &&& states[0].prefix().len() + payload.len() + states[0].suffix().len() <= usize::MAX
    &&& forall|i: int| 0 <= i < results.len() ==> #[trigger] call_at(states, payload, results, i)
    &&& forall|i: int|
        0 <= i < results.len() - 1 ==> !#[trigger] completes_at(states, results, i)
    &&& completes_at(states, results, results.len() - 1)
}

/// Where the run stands before call `i`: either no byte of the frame is
/// accepted yet and nothing is reported, or the frame for `payload` is in
/// flight since the output with which the run began, and the writer has
/// reported what the calls so far returned. Either way the call meets what
/// `write` requires.
pub proof fn lemma_run_before_call<T: Sink>(
    states: Seq<UviWriter<T>>,
    payload: Seq<u8>,
    results: Seq<Result<usize, T::Error>>,
    i: int,
)
    requires
        frame_run(states, payload, results),
        0 <= i < results.len(),
    ensures
        states[i].wf(),
        states[i].prefix() == states[0].prefix(),
        states[i].suffix() == states[0].suffix(),
        returned_before::<T>(results, i as nat) <= payload.len(),
        states[i].expects(payload.skip(returned_before::<T>(results, i as nat) as int)),
        states[i].idle() ==> {
            &&& states[i].output() == states[0].output()
            &&& returned_before::<T>(results, i as nat) == 0
        },
        !states[i].idle() ==> {
            &&& states[i].frame_start() == states[0].output()
            &&& states[i].message() == payload
            &&& states[i].reported() == returned_before::<T>(results, i as nat)
        },
    decreases i,
{
    if i > 0 {
        let h = i - 1;
        lemma_run_before_call(states, payload, results, h);
        let before = returned_before::<T>(results, h as nat);
        let part = payload.skip(before as int);
        assert(call_at(states, payload, results, h));
        assert(!completes_at(states, results, h));
        let n = UviWriter::<T>::returned(results[h]);
        assert(part.skip(n as int) =~= payload.skip((before + n) as int));
    }
}

/// While frames are in flight, the output depends on how many of a frame's
/// bytes the sink has accepted, not on the parts in which it accepted them:
/// two writers on sinks of any kind whose frames are equal and began after
/// equal output, and whose sinks have accepted equally many bytes of them,
/// have equal output.
pub proof fn lemma_equal_progress_equal_output<A: Sink, B: Sink>(a: UviWriter<A>, b: UviWriter<B>)
    requires
        a.wf(),
        b.wf(),
        !a.idle(),
        !b.idle(),
        a.frame_start() == b.frame_start(),
        a.prefix() == b.prefix(),
        a.message() == b.message(),
        a.suffix() == b.suffix(),
        a.sent() == b.sent(),
    ensures
        a.output() == b.output(),
{
}

/// A frame written to completion stands on the wire whole and once, in
/// however many calls it was written and whatever part of what it was offered
/// the sink accepted in each: the output is what it was before, followed by
/// the encoded length of prefix, payload and suffix together, then the prefix,
/// the payload and the suffix.
pub proof fn lemma_complete_frame_on_the_wire<T: Sink>(
    states: Seq<UviWriter<T>>,
    payload: Seq<u8>,
    results: Seq<Result<usize, T::Error>>,
)
    requires
        frame_run(states, payload, results),
    ensures
        states.last().idle(),
        states.last().output() == states[0].output() + frame(
            states[0].prefix(),
            payload,
            states[0].suffix(),
        ),
{
    let h = results.len() - 1;
    lemma_run_before_call(states, payload, results, h);
    assert(call_at(states, payload, results, h));
}

/// Two writers on sinks of any kind, with equal prefix, suffix and output,
/// that each write the same payload to completion end with equal output: how
/// a sink divides the frame into accepted parts, and how many calls that
/// takes, does not show in the bytes.
pub proof fn lemma_chunking_does_not_show<A: Sink, B: Sink>(
    states_a: Seq<UviWriter<A>>,
    results_a: Seq<Result<usize, A::Error>>,
    states_b: Seq<UviWriter<B>>,
    results_b: Seq<Result<usize, B::Error>>,
    payload: Seq<u8>,
)
    requires
        frame_run(states_a, payload, results_a),
        frame_run(states_b, payload, results_b),
        states_a[0].prefix() == states_b[0].prefix(),
        states_a[0].suffix() == states_b[0].suffix(),
        states_a[0].output() == states_b[0].output(),
    ensures
        states_a.last().output() == states_b.last().output(),
{
    lemma_complete_frame_on_the_wire(states_a, payload, results_a);
    lemma_complete_frame_on_the_wire(states_b, payload, results_b);
}

/// Over the calls that write one frame, what `write` returned adds up to the
/// length of the payload, and nothing is returned before the payload is being
/// written: a call after which the length or the prefix is still being written
/// returns 0, as every call before it did.
pub proof fn lemma_returns_add_up_to_payload<T: Sink>(
    states: Seq<UviWriter<T>>,
    payload: Seq<u8>,
    results: Seq<Result<usize, T::Error>>,
)
    requires
        frame_run(states, payload, results),
    ensures
        returned_before::<T>(results, results.len()) == payload.len(),
        forall|i: int|
            #![trigger states[i + 1]]
            0 <= i < results.len() && (states[i + 1].framer().spec_phase() == Phase::WritingLength
                || states[i + 1].framer().spec_phase() == Phase::WritingPrefix)
                ==> returned_before::<T>(results, (i + 1) as nat) == 0,
{
    let h = results.len() - 1;
    lemma_run_before_call(states, payload, results, h);
    assert(call_at(states, payload, results, h));
    assert forall|i: int|
        #![trigger states[i + 1]]
        0 <= i < results.len() && (states[i + 1].framer().spec_phase() == Phase::WritingLength
            || states[i + 1].framer().spec_phase() == Phase::WritingPrefix) implies returned_before::<
        T,
    >(results, (i + 1) as nat) == 0 by {
        lemma_run_before_call(states, payload, results, i);
        assert(call_at(states, payload, results, i));
    }
}

/// On a sink that takes all it is offered, one call of `write` writes the
/// whole of what is left of the frame: it returns the length of what it was
/// passed, and no frame is in flight after it.
pub proof fn lemma_write_completes_where_the_sink_takes_all<T: Sink>(
    pre: UviWriter<T>,
    payload: Seq<u8>,
    post: UviWriter<T>,
    r: Result<usize, T::Error>,
)
    requires
        pre.wf(),
        pre.expects(payload),
        pre.write_step(payload, post, r),
        forall|k: int|
            pre.record().offers().len() <= k < post.record().offers().len() ==> (
            #[trigger] post.record().offers()[k]).taken() == post.record().offers()[k].bytes.len()
                && post.record().offers()[k].answer is Ok,
    ensures
        r matches Ok(n) && n == payload.len(),
        post.idle(),
        post.output() == pre.frame_start() + frame(
            pre.prefix(),
            pre.upcoming(payload),
            pre.suffix(),
        ),
{
    reveal(UviWriter::offered);
}

/// Where a growable buffer stands after offer `k` of a call of `write`: it
/// holds what it held before the call, followed by the bytes of the frame
/// from where the call took it up to the end of that offer.
pub proof fn lemma_buffer_after_offer(
    pre: UviWriter<Vec<u8>>,
    payload: Seq<u8>,
    post: UviWriter<Vec<u8>>,
    r: Result<usize, core::convert::Infallible>,
    k: int,
)
    requires
        pre.wf(),
        pre.expects(payload),
        pre.write_step(payload, post, r),
        pre.record().offers().len() <= k < post.record().offers().len(),
    ensures
        post.record().offers()[k].answer is Ok,
        post.record().offers()[k].taken() == post.record().offers()[k].bytes.len(),
        post.record().offers()[k].at >= pre.output().len(),
        post.record().offers()[k].after@ == pre.sink()@ + frame(
            pre.prefix(),
            pre.upcoming(payload),
            pre.suffix(),
        ).subrange(
            pre.output().len() - pre.frame_start().len(),
            post.record().offers()[k].at + post.record().offers()[k].taken()
                - pre.frame_start().len(),
        ),
    decreases k,
{
    reveal(UviWriter::offered);
    let offers = post.record().offers();
    let wire = frame(pre.prefix(), pre.upcoming(payload), pre.suffix());
    let start = pre.frame_start().len() as int;
    let from = pre.output().len() - start;
    let offer = offers[k];
    assert(offer.kept());
    if k > pre.record().offers().len() {
        lemma_buffer_after_offer(pre, payload, post, r, k - 1);
        assert(follows(offers, k));
        assert(offers[k - 1].after@ + offer.bytes =~= pre.sink()@ + wire.subrange(
            from,
            offer.at + offer.taken() - start,
        ));
    } else {
        assert(pre.sink()@ + offer.bytes =~= pre.sink()@ + wire.subrange(
            from,
            offer.at + offer.taken() - start,
        ));
    }
}

/// A writer on a growable buffer writes what is left of a frame in one call,
/// and the buffer then holds it: what the buffer held before, followed by the
/// bytes of the frame that had not been sent. From a writer with no frame in
/// flight that is the whole frame.
pub proof fn lemma_buffer_holds_the_frame(
    pre: UviWriter<Vec<u8>>,
    payload: Seq<u8>,
    post: UviWriter<Vec<u8>>,
    r: Result<usize, core::convert::Infallible>,
)
    requires
        pre.wf(),
        pre.expects(payload),
        pre.write_step(payload, post, r),
    ensures
        r matches Ok(n) && n == payload.len(),
        post.idle(),
        post.sink()@ == pre.sink()@ + frame(pre.prefix(), pre.upcoming(payload), pre.suffix()).skip(
            pre.sent() as int,
        ),
{
    reveal(UviWriter::offered);
    let offers = post.record().offers();
    let wire = frame(pre.prefix(), pre.upcoming(payload), pre.suffix());
    assert forall|k: int| pre.record().offers().len() <= k < offers.len() implies (
    #[trigger] offers[k]).taken() == offers[k].bytes.len() && offers[k].answer is Ok by {
        lemma_buffer_after_offer(pre, payload, post, r, k);
    }
    lemma_write_completes_where_the_sink_takes_all(pre, payload, post, r);
    lemma_buffer_after_offer(pre, payload, post, r, offers.len() - 1);
    assert(wire.subrange(pre.sent() as int, wire.len() as int) =~= wire.skip(pre.sent() as int));
}

/// A prefix set between two frames shows in the frames that follow and in no
/// other: the bytes of the frames written before stay as they are, and the
/// next frame written to completion follows them with the new prefix and the
/// suffix as it was.
pub proof fn lemma_prefix_set_shows_in_later_frames_only<T: Sink>(
    before: UviWriter<T>,
    val: Seq<u8>,
    states: Seq<UviWriter<T>>,
    payload: Seq<u8>,
    results: Seq<Result<usize, T::Error>>,
)
    requires
        before.wf(),
        before.idle(),
        before.prefix_set(val, states[0]),
        frame_run(states, payload, results),
    ensures
        states[0].output() == before.output(),
        states.last().output() == before.output() + frame(val, payload, before.suffix()),
{
    lemma_complete_frame_on_the_wire(states, payload, results);
}

/// A suffix set between two frames shows in the frames that follow and in no
/// other: the bytes of the frames written before stay as they are, and the
/// next frame written to completion follows them with the prefix as it was
/// and the new suffix.
pub proof fn lemma_suffix_set_shows_in_later_frames_only<T: Sink>(
    before: UviWriter<T>,
    val: Seq<u8>,
    states: Seq<UviWriter<T>>,
    payload: Seq<u8>,
    results: Seq<Result<usize, T::Error>>,
)
    requires
        before.wf(),
        before.idle(),
        before.suffix_set(val, states[0]),
        frame_run(states, payload, results),
    ensures
        states[0].output() == before.output(),
        states.last().output() == before.output() + frame(before.prefix(), payload, val),
{
    lemma_complete_frame_on_the_wire(states, payload, results);
}

} // verus!
