//! What the latency reference answers, told by requests and recorded hashes.

use crate::ideal_l1::{
    IdealL1Error, IdealL1Model, IdealL1RequestBound, IsolatedRun,
    ReplayRequestPayload,
};
use crate::ideal_l1_laws::law_prefill_steps_cover_the_input;
use crate::protocols::MockEngineArgs;
use crate::timestamp::Timestamp;
use crate::value_laws::{is_number, law_finite_times, law_order_of_times, place};
use vstd::prelude::*;

verus! {

/// `a` is an earlier time than `b`.
pub open spec fn is_earlier(a: Timestamp, b: Timestamp) -> bool {
    place(a.bits) < place(b.bits)
}

/// The bucket of the last observation is over when a request arrives.
pub open spec fn bucket_is_over(m: IdealL1Model, arrival: Timestamp) -> bool {
    m.current matches Some(current) && is_earlier(current, arrival)
}

/// A page that a request which arrives now may reuse.
pub open spec fn is_reusable(m: IdealL1Model, arrival: Timestamp, hash: u64) -> bool {
    m.history.contains(hash) || (bucket_is_over(m, arrival) && exists|i: int|
        0 <= i < m.pending.len() && #[trigger] m.pending[i] == hash)
}

/// Law: a tracker starts with the engine's sizes, knows no page and has seen no
/// arrival. Without a prefill chunk of its own the engine has one of 8192
/// tokens; the capacity is blocks times block size, as far as a count goes.
pub proof fn law_tracker_starts_empty(args: MockEngineArgs, hash: u64)
    ensures
        ({
            let m = IdealL1Model::starting(args);
            &&& m.block_size == args.block_size
            &&& m.chunked_prefill_size == match args.sglang {
                None => 8192,
                Some(sglang) => match sglang.chunked_prefill_size {
                    None => 8192,
                    Some(size) => size as int,
                },
            }
            &&& 0 <= m.total_kv_tokens <= usize::MAX
            &&& m.total_kv_tokens == args.num_gpu_blocks * args.block_size || (m.total_kv_tokens
                == usize::MAX && args.num_gpu_blocks * args.block_size > usize::MAX)
            &&& !m.history.contains(hash)
            &&& m.pending.len() == 0
            &&& m.current is None
        }),
{
    let n = args.num_gpu_blocks as int;
    let b = args.block_size as int;
    assert(n * b >= 0) by (nonlinear_arith)
        requires
            n >= 0,
            b >= 0,
    ;
}

/// Law: a request may arrive at any finite time that is not earlier than the last
/// arrival.
pub proof fn law_arrivals_that_are_accepted(m: IdealL1Model, arrival: Timestamp)
    ensures
        m.accepts(arrival) <==> is_number(arrival.bits) && !(m.current matches Some(current)
            && is_earlier(arrival, current)),
{
    law_finite_times(arrival);
    if let Some(current) = m.current {
        law_order_of_times(arrival, current);
    }
}

/// Law: when a later request arrives, the pages of the bucket become history;
/// at the same time nothing does. The hashes of an observed request wait.
pub proof fn law_observation_effect(
    m: IdealL1Model,
    arrival: Timestamp,
    hashes: Seq<u64>,
    hash: u64,
)
    requires
        m.accepts(arrival),
    ensures
        ({
            let moved = m.advanced(arrival);
            let after = m.observed(arrival, hashes);
            &&& moved.history.contains(hash) <==> is_reusable(m, arrival, hash)
            &&& moved.pending == if bucket_is_over(m, arrival) {
                Seq::<u64>::empty()
            } else {
                m.pending
            }
            &&& m.current is None || bucket_is_over(m, arrival) ==> moved.current == Some(arrival)
            &&& m.current is Some && !bucket_is_over(m, arrival) ==> moved.current == m.current
            &&& after.history == moved.history
            &&& after.pending == moved.pending + hashes
            &&& after.current == moved.current
            &&& moved.block_size == m.block_size && after.block_size == m.block_size
            &&& moved.chunked_prefill_size == m.chunked_prefill_size && after.chunked_prefill_size
                == m.chunked_prefill_size
            &&& moved.total_kv_tokens == m.total_kv_tokens && after.total_kv_tokens
                == m.total_kv_tokens
        }),
{
    if let Some(current) = m.current {
        law_order_of_times(current, arrival);
        if m.pending.to_set().contains(hash) {
            let i = choose|i: int| 0 <= i < m.pending.len() && m.pending[i] == hash;
            assert(m.pending[i] == hash);
        }
        if exists|i: int| 0 <= i < m.pending.len() && #[trigger] m.pending[i] == hash {
            assert(m.pending.contains(hash));
        }
    }
}

/// The run computes the tokens after `reused` up to the end of the input, in
/// order, in steps of `chunk` tokens with the rest last; and it decodes once on
/// the whole input if and only if output is asked for.
pub open spec fn is_laid_out(
    run: IsolatedRun,
    reused: int,
    input_length: usize,
    output_length: usize,
    chunk: int,
    total_kv_tokens: int,
) -> bool {
    let steps = run.prefill@;
    &&& steps.len() == 0 <==> reused == input_length
    &&& steps.len() > 0 ==> steps[0].prefix_tokens == reused && steps[steps.len()
        - 1].context_tokens == input_length
    &&& forall|i: int|
        0 <= i < steps.len() ==> 0 < (#[trigger] steps[i]).context_tokens - steps[i].prefix_tokens
            <= chunk
    &&& forall|i: int|
        0 <= i < steps.len() - 1 ==> (#[trigger] steps[i]).context_tokens - steps[i].prefix_tokens
            == chunk && steps[i + 1].prefix_tokens == steps[i].context_tokens
    &&& output_length == 0 ==> run.decode is None
    &&& output_length > 0 ==> (run.decode matches Some(step) && step.context_tokens == input_length
        && step.total_kv_tokens == total_kv_tokens)
}

/// Law: the run of a request computes what is not reused, and decodes exactly if
/// output is asked for.
pub proof fn law_run_is_laid_out(
    m: IdealL1Model,
    run: IsolatedRun,
    reused: int,
    input_length: usize,
    output_length: usize,
)
    requires
        m.is_run(run, reused, input_length, output_length),
        0 <= reused <= input_length,
        m.chunked_prefill_size > 0 || reused == input_length,
        0 <= m.total_kv_tokens <= usize::MAX,
    ensures
        is_laid_out(
            run,
            reused,
            input_length,
            output_length,
            m.chunked_prefill_size,
            m.total_kv_tokens,
        ),
{
    if m.chunked_prefill_size > 0 {
        law_prefill_steps_cover_the_input(reused, input_length as int, m.chunked_prefill_size);
    }
}

/// Law: work can be laid out for any request where blocks and prefill chunks have
/// tokens, and for an empty one without chunks.
pub proof fn law_when_work_can_be_laid_out(m: IdealL1Model, input_length: int)
    ensures
        m.can_plan(input_length) <==> m.block_size > 0 && !(m.chunked_prefill_size <= 0
            && input_length != 0),
{
}

/// How many complete pages of a request are reused: the pages before are all
/// known, and one more is not known, not hashed, or would leave no token.
pub open spec fn reuses_pages(
    m: IdealL1Model,
    arrival: Timestamp,
    hashes: Seq<u64>,
    input_length: usize,
    pages: int,
) -> bool {
    &&& 0 <= pages <= hashes.len()
    &&& forall|i: int| 0 <= i < pages ==> is_reusable(m, arrival, #[trigger] hashes[i])
    &&& pages * m.block_size < input_length || pages == 0
    &&& pages == hashes.len() || !is_reusable(m, arrival, hashes[pages]) || (pages + 1)
        * m.block_size >= input_length
}

proof fn lemma_reuses_pages(
    m: IdealL1Model,
    arrival: Timestamp,
    hashes: Seq<u64>,
    input_length: usize,
)
    requires
        m.accepts(arrival),
        m.block_size > 0,
    ensures
        reuses_pages(
            m,
            arrival,
            hashes,
            input_length,
            m.advanced(arrival).reusable_pages(hashes, input_length as int),
        ),
{
    let now = m.advanced(arrival);
    let n = input_length as int;
    let size = m.block_size;
    let pages = now.reusable_pages(hashes, n);
    now.lemma_reuse_fits(hashes, n);
    law_observation_effect(m, arrival, hashes, 0);
    assert forall|i: int| 0 <= i < pages implies is_reusable(m, arrival, #[trigger] hashes[i]) by {
        law_observation_effect(m, arrival, hashes, hashes[i]);
    }
    if pages < hashes.len() {
        law_observation_effect(m, arrival, hashes, hashes[pages]);
    }
    if pages == now.reuse_limit(n) && n > 0 {
        assert(((n - 1) / size + 1) * size >= n) by (nonlinear_arith)
            requires
                n > 0,
                size > 0,
        ;
    }
    if n == 0 {
        assert(pages == 0);
        assert((pages + 1) * size >= 0) by (nonlinear_arith)
            requires
                pages == 0,
                size > 0,
        ;
    }
}

/// Law: an answer with a bound reuses as many complete pages as it can and
/// computes the rest; its time is a price of the run that does so, and the
/// hashes of the request wait in the bucket. Without a price it is the error of
/// the price for that run, and only the bucket has moved on.
pub proof fn law_answer_is_the_priced_run<P: FnOnce(IsolatedRun) -> Result<T, E>, T, E>(
    m: IdealL1Model,
    arrival: Timestamp,
    hashes: Seq<u64>,
    input_length: usize,
    output_length: usize,
    price: P,
    result: Result<IdealL1RequestBound<T>, IdealL1Error<E>>,
    after: IdealL1Model,
)
    requires
        m.answers(arrival, hashes, input_length, output_length, price, result, after),
        m.accepts(arrival),
        m.block_size > 0,
        m.chunked_prefill_size > 0 || input_length == 0,
        0 <= m.total_kv_tokens <= usize::MAX,
    ensures
        exists|pages: int, run: IsolatedRun, priced: Result<T, E>|
            {
                &&& #[trigger] reuses_pages(m, arrival, hashes, input_length, pages)
                &&& is_laid_out(
                    run,
                    pages * m.block_size,
                    input_length,
                    output_length,
                    m.chunked_prefill_size,
                    m.total_kv_tokens,
                )
                &&& #[trigger] call_ensures(price, (run,), priced)
                &&& match result {
                    Ok(bound) => {
                        &&& priced == Ok::<T, E>(bound.ttft_ms)
                        &&& bound.reusable_tokens == pages * m.block_size
                        &&& bound.reusable_tokens + bound.recomputed_tokens == input_length
                        &&& after == m.observed(arrival, hashes)
                    },
                    Err(IdealL1Error::Prediction(error)) => {
                        &&& priced == Err::<T, E>(error)
                        &&& after == m.advanced(arrival)
                    },
                    _ => false,
                }
            },
{
    let now = m.advanced(arrival);
    let reused = now.reusable_tokens(hashes, input_length as int);
    let pages = now.reusable_pages(hashes, input_length as int);
    law_observation_effect(m, arrival, hashes, 0);
    now.lemma_reuse_fits(hashes, input_length as int);
    lemma_reuses_pages(m, arrival, hashes, input_length);
    let (run, priced) = choose|run: IsolatedRun, priced: Result<T, E>|
        now.is_run(run, reused, input_length, output_length) && #[trigger] call_ensures(
            price,
            (run,),
            priced,
        ) && match priced {
            Ok(ttft_ms) => {
                &&& result == Ok::<IdealL1RequestBound<T>, IdealL1Error<E>>(
                    IdealL1RequestBound {
                        reusable_tokens: reused as usize,
                        recomputed_tokens: (input_length - reused) as usize,
                        ttft_ms,
                    },
                )
                &&& after == m.observed(arrival, hashes)
            },
            Err(error) => {
                &&& result == Err::<IdealL1RequestBound<T>, IdealL1Error<E>>(
                    IdealL1Error::Prediction(error),
                )
                &&& after == now
            },
        };
    law_run_is_laid_out(now, run, reused, input_length, output_length);
    assert(reuses_pages(m, arrival, hashes, input_length, pages));
    assert(call_ensures(price, (run,), priced));
}

/// Law: how many pages are reused is determined.
pub proof fn law_reuse_is_determined(
    m: IdealL1Model,
    arrival: Timestamp,
    hashes: Seq<u64>,
    input_length: usize,
    a: int,
    b: int,
)
    requires
        m.block_size > 0,
        reuses_pages(m, arrival, hashes, input_length, a),
        reuses_pages(m, arrival, hashes, input_length, b),
    ensures
        a == b,
{
    if a < b {
        lemma_fewer_pages(m, arrival, hashes, input_length, a, b);
    } else if b < a {
        lemma_fewer_pages(m, arrival, hashes, input_length, b, a);
    }
}

proof fn lemma_fewer_pages(
    m: IdealL1Model,
    arrival: Timestamp,
    hashes: Seq<u64>,
    input_length: usize,
    a: int,
    b: int,
)
    requires
        m.block_size > 0,
        reuses_pages(m, arrival, hashes, input_length, b),
        0 <= a < b,
    ensures
        !reuses_pages(m, arrival, hashes, input_length, a),
{
    let size = m.block_size;
    assert(is_reusable(m, arrival, hashes[a]));
    assert((a + 1) * size <= b * size) by (nonlinear_arith)
        requires
            a + 1 <= b,
            size > 0,
    ;
}

/// Law: the tokens that are hashed are those that the trace holds.
pub proof fn law_known_tokens(request: ReplayRequestPayload)
    ensures
        request.tokens is None ==> request.known_tokens().len() == 0,
        request.tokens matches Some(tokens) ==> request.known_tokens() == tokens@,
{
}

} // verus!
