//! Laws of the latency reference.

use crate::ideal_l1::{prefill_steps, IdealL1Model};
use crate::timestamp::Timestamp;
use vstd::prelude::*;

verus! {

/// A request that got its bound.
pub struct Arrival {
    pub at: Timestamp,
    pub hashes: Seq<u64>,
}

/// The tracker after a trace of requests.
pub open spec fn replay(start: IdealL1Model, trace: Seq<Arrival>) -> IdealL1Model
    decreases trace.len(),
{
    if trace.len() == 0 {
        start
    } else {
        replay(start, trace.drop_last()).observed(trace.last().at, trace.last().hashes)
    }
}

/// Nothing has been observed.
pub open spec fn is_new(m: IdealL1Model) -> bool {
    m.history == Set::<u64>::empty() && m.pending == Seq::<u64>::empty() && m.current is None
}

/// Arrivals come in order of time.
pub open spec fn in_order(trace: Seq<Arrival>) -> bool {
    forall|i: int, j: int|
        0 <= i <= j < trace.len() ==> (#[trigger] trace[i]).at.order() <= (
        #[trigger] trace[j]).at.order()
}

/// A request from before `time` had this page.
pub open spec fn seen_before(trace: Seq<Arrival>, time: int, hash: u64) -> bool {
    exists|i: int|
        0 <= i < trace.len() && (#[trigger] trace[i]).at.order() < time && trace[i].hashes.contains(
            hash,
        )
}

/// A request that arrived at `time` had this page.
pub open spec fn seen_at(trace: Seq<Arrival>, time: int, hash: u64) -> bool {
    exists|i: int|
        0 <= i < trace.len() && (#[trigger] trace[i]).at.order() == time
            && trace[i].hashes.contains(hash)
}

proof fn lemma_replay(start: IdealL1Model, trace: Seq<Arrival>, hash: u64)
    requires
        is_new(start),
        in_order(trace),
        trace.len() > 0,
    ensures
        ({
            let m = replay(start, trace);
            let now = trace.last().at.order();
            &&& m.current matches Some(current) && current.order() == now
            &&& m.history.contains(hash) <==> seen_before(trace, now, hash)
            &&& m.pending.contains(hash) <==> seen_at(trace, now, hash)
        }),
    decreases trace.len(),
{
    let shorter = trace.drop_last();
    let last = trace.last();
    let now = last.at.order();
    let before = replay(start, shorter);
    let after = replay(start, trace);
    let n = trace.len() - 1;
    assert(trace[n] == last);
    assert(after.pending =~= before.advanced(last.at).pending + last.hashes);
    lemma_contains_either(before.advanced(last.at).pending, last.hashes, hash);
    assert(last.hashes.contains(hash) ==> seen_at(trace, now, hash));
    if shorter.len() > 0 {
        assert forall|i: int, j: int| 0 <= i <= j < shorter.len() implies (
        #[trigger] shorter[i]).at.order() <= (#[trigger] shorter[j]).at.order() by {
            assert(shorter[i] == trace[i] && shorter[j] == trace[j]);
        }
        lemma_replay(start, shorter, hash);
        let then = shorter.last().at.order();
        assert(shorter.last() == trace[n - 1]);
        assert(then <= now);
        if seen_before(shorter, then, hash) {
            let i = choose|i: int|
                0 <= i < shorter.len() && (#[trigger] shorter[i]).at.order() < then
                    && shorter[i].hashes.contains(hash);
            assert(trace[i] == shorter[i]);
        }
        if seen_at(shorter, then, hash) {
            let i = choose|i: int|
                0 <= i < shorter.len() && (#[trigger] shorter[i]).at.order() == then
                    && shorter[i].hashes.contains(hash);
            assert(trace[i] == shorter[i]);
        }
        if seen_before(trace, now, hash) {
            let i = choose|i: int|
                0 <= i < trace.len() && (#[trigger] trace[i]).at.order() < now
                    && trace[i].hashes.contains(hash);
            assert(shorter[i] == trace[i]);
            assert(trace[i].at.order() <= trace[n - 1].at.order());
        }
        if seen_at(trace, now, hash) {
            let i = choose|i: int|
                0 <= i < trace.len() && (#[trigger] trace[i]).at.order() == now
                    && trace[i].hashes.contains(hash);
            if i < n {
                assert(shorter[i] == trace[i]);
                assert(trace[i].at.order() <= trace[n - 1].at.order());
            }
        }
    } else {
        assert(before == start);
    }
}

proof fn lemma_contains_either(a: Seq<u64>, b: Seq<u64>, hash: u64)
    ensures
        (a + b).contains(hash) <==> a.contains(hash) || b.contains(hash),
{
    if a.contains(hash) {
        let i = choose|i: int| 0 <= i < a.len() && a[i] == hash;
        assert((a + b)[i] == hash);
    }
    if b.contains(hash) {
        let i = choose|i: int| 0 <= i < b.len() && b[i] == hash;
        assert((a + b)[a.len() + i] == hash);
    }
}

/// Law: what a request can reuse are the pages of requests that arrived
/// strictly before it, and no others.
pub proof fn law_history_is_what_arrived_before(
    start: IdealL1Model,
    trace: Seq<Arrival>,
    arrival: Timestamp,
    hash: u64,
)
    requires
        is_new(start),
        in_order(trace),
        trace.len() > 0 ==> trace.last().at.order() <= arrival.order(),
    ensures
        replay(start, trace).advanced(arrival).history.contains(hash) <==> seen_before(
            trace,
            arrival.order(),
            hash,
        ),
{
    if trace.len() > 0 {
        lemma_replay(start, trace, hash);
        let then = trace.last().at.order();
        let n = trace.len() - 1;
        let m = replay(start, trace);
        if arrival.order() > then {
            if seen_before(trace, arrival.order(), hash) {
                let i = choose|i: int|
                    0 <= i < trace.len() && (#[trigger] trace[i]).at.order() < arrival.order()
                        && trace[i].hashes.contains(hash);
                assert(trace[i].at.order() <= trace[n].at.order());
            }
            assert(m.advanced(arrival).history.contains(hash) <==> m.history.contains(hash)
                || m.pending.contains(hash));
        }
    }
}

/// Law: requests that arrive at one time see the same history, whatever was
/// observed between them.
pub proof fn law_peers_see_the_same_history(
    m: IdealL1Model,
    first: Timestamp,
    second: Timestamp,
    peer: Seq<u64>,
    hashes: Seq<u64>,
    input_length: int,
)
    requires
        first.order() == second.order(),
        m.accepts(first),
    ensures
        m.observed(first, peer).advanced(second).history == m.advanced(first).history,
        m.observed(first, peer).advanced(second).reusable_tokens(hashes, input_length)
            == m.advanced(first).reusable_tokens(hashes, input_length),
{
}

/// Law: the history only grows, and a request never reuses less for it.
pub proof fn law_reuse_never_shrinks(
    m: IdealL1Model,
    arrival: Timestamp,
    other: Seq<u64>,
    hashes: Seq<u64>,
    input_length: int,
)
    requires
        m.block_size > 0,
        0 <= input_length,
    ensures
        m.history.subset_of(m.observed(arrival, other).history),
        m.reusable_tokens(hashes, input_length) <= m.observed(arrival, other).reusable_tokens(
            hashes,
            input_length,
        ),
{
    let after = m.observed(arrival, other);
    m.lemma_reuse_fits(hashes, input_length);
    after.lemma_reuse_fits(hashes, input_length);
    let less = m.reusable_pages(hashes, input_length);
    let more = after.reusable_pages(hashes, input_length);
    let size = m.block_size;
    if more < less {
        assert(m.history.contains(hashes[more]));
    }
    assert(less * size <= more * size) by (nonlinear_arith)
        requires
            less <= more,
            size > 0,
    ;
}

/// Law: reuse consists of complete pages that the history holds, and always
/// leaves a token to compute.
pub proof fn law_reuse_is_complete_pages(m: IdealL1Model, hashes: Seq<u64>, input_length: int)
    requires
        m.block_size > 0,
        0 <= input_length,
    ensures
        m.reusable_tokens(hashes, input_length) == m.reusable_pages(hashes, input_length)
            * m.block_size,
        forall|i: int|
            0 <= i < m.reusable_pages(hashes, input_length) ==> m.history.contains(
                #[trigger] hashes[i],
            ),
        0 <= m.reusable_tokens(hashes, input_length),
        input_length > 0 ==> m.reusable_tokens(hashes, input_length) < input_length,
        input_length == 0 ==> m.reusable_tokens(hashes, input_length) == 0,
{
    m.lemma_reuse_fits(hashes, input_length);
}

/// Law: the prefill steps of a run cover the tokens that are not reused, each
/// once and in order, and all steps but the last are of full size.
pub proof fn law_prefill_steps_cover_the_input(from: int, end: int, size: int)
    requires
        0 <= from <= end <= usize::MAX,
        size > 0,
    ensures
        ({
            let steps = prefill_steps(from, end, size);
            &&& steps.len() == 0 <==> from == end
            &&& from < end ==> steps[0].prefix_tokens == from && steps.last().context_tokens == end
            &&& forall|i: int|
                0 <= i < steps.len() ==> 0 < (#[trigger] steps[i]).context_tokens
                    - steps[i].prefix_tokens <= size
            &&& forall|i: int|
                0 <= i < steps.len() - 1 ==> (#[trigger] steps[i]).context_tokens
                    - steps[i].prefix_tokens == size && steps[i + 1].prefix_tokens
                    == steps[i].context_tokens
        }),
    decreases end - from,
{
    if from < end {
        let next = if from + size < end {
            from + size
        } else {
            end
        };
        law_prefill_steps_cover_the_input(next, end, size);
        let rest = prefill_steps(next, end, size);
        let steps = prefill_steps(from, end, size);
        assert(steps.len() == rest.len() + 1);
        assert forall|i: int| 0 < i < steps.len() implies #[trigger] steps[i] == rest[i - 1] by {}
        assert forall|i: int| 0 <= i < steps.len() - 1 implies (#[trigger] steps[i]).context_tokens
            - steps[i].prefix_tokens == size && steps[i + 1].prefix_tokens
            == steps[i].context_tokens by {
            assert(steps[i + 1] == rest[i]);
            if i > 0 {
                assert(steps[i] == rest[i - 1]);
                assert(rest[i - 1 + 1] == rest[i]);
            }
        }
    }
}

} // verus!
