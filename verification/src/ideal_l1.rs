//! Latency reference with unbounded reuse of what earlier requests computed.
//!
//! The reference knows neither routing nor cache capacity. Requests that arrive
//! at one time see the same history; only complete pages of requests that
//! arrived strictly earlier are reusable.

use crate::protocols::{MockEngineArgs, SglangArgs};
use crate::timestamp::Timestamp;
use std::collections::HashSet;
use vstd::prelude::*;
use vstd::std_specs::hash::group_hash_axioms;

verus! {

/// Prefill chunk of engines that do not set one.
pub const DEFAULT_CHUNKED_PREFILL_SIZE: usize = 8192;

/// A request of a trace.
#[derive(Debug)]
pub struct ReplayRequestPayload {
    pub input_length: usize,
    /// The tokens of the input, where the trace holds them.
    pub tokens: Option<Vec<u32>>,
}

impl ReplayRequestPayload {
    /// A request whose tokens are known.
    pub fn materialized(tokens: Vec<u32>) -> (request: Self)
        ensures
            request.input_length == tokens@.len(),
            request.tokens == Some(tokens),
    {
        ReplayRequestPayload { input_length: tokens.len(), tokens: Some(tokens) }
    }

    /// The tokens that are known, none where the trace does not hold them.
    pub open spec fn known_tokens(self) -> Seq<u32> {
        match self.tokens {
            Some(tokens) => tokens@,
            None => Seq::empty(),
        }
    }
}

/// The hashes of the complete pages of a request, each of which identifies the
/// prefix up to the end of its page.
#[derive(Debug)]
pub struct ReplayRequestHashes {
    pub sequence_hashes: Vec<u64>,
}

/// One prefill step of a request that runs alone.
#[derive(Clone, Copy, Debug, PartialEq, Eq, Structural)]
pub struct PrefillChunk {
    /// Tokens in the cache after the step.
    pub context_tokens: usize,
    /// Tokens in the cache before the step.
    pub prefix_tokens: usize,
}

/// The first decode step of a request that runs alone.
#[derive(Clone, Copy, Debug, PartialEq, Eq, Structural)]
pub struct DecodeStep {
    pub context_tokens: usize,
    pub total_kv_tokens: usize,
}

/// What an engine executes for one request up to its first output token.
#[derive(Debug)]
pub struct IsolatedRun {
    pub prefill: Vec<PrefillChunk>,
    pub decode: Option<DecodeStep>,
}

/// The tokens of a request that are reused and computed, with the time to the
/// first output token.
#[derive(Debug, PartialEq, Eq)]
pub struct IdealL1RequestBound<T> {
    pub reusable_tokens: usize,
    pub recomputed_tokens: usize,
    pub ttft_ms: T,
}

/// Why a request has no bound.
#[derive(Debug, PartialEq, Eq)]
pub enum IdealL1Error<E> {
    /// The arrival time is infinite or not a number.
    NonFiniteArrival,
    /// The request arrived before the one observed last.
    DecreasingArrival { arrival: Timestamp, current: Timestamp },
    /// The block size is too large for the hash of a block.
    BlockSizeTooLarge,
    /// No time can be predicted for the run.
    Prediction(E),
}

/// `pages` is how many of the first `limit` hashes are known without a gap.
pub open spec fn is_known_prefix(
    history: Set<u64>,
    hashes: Seq<u64>,
    limit: int,
    pages: int,
) -> bool {
    &&& 0 <= pages <= hashes.len()
    &&& pages <= limit
    &&& forall|i: int| 0 <= i < pages ==> history.contains(#[trigger] hashes[i])
    &&& pages == hashes.len() || pages == limit || !history.contains(hashes[pages])
}

/// How many of the first `limit` hashes are known without a gap.
pub open spec fn known_prefix(history: Set<u64>, hashes: Seq<u64>, limit: int) -> int {
    choose|pages: int| is_known_prefix(history, hashes, limit, pages)
}

pub proof fn lemma_known_prefix(history: Set<u64>, hashes: Seq<u64>, limit: int, pages: int)
    requires
        is_known_prefix(history, hashes, limit, pages),
    ensures
        known_prefix(history, hashes, limit) == pages,
{
    let other = known_prefix(history, hashes, limit);
    assert(is_known_prefix(history, hashes, limit, other));
    if other < pages {
        assert(history.contains(hashes[other]));
    } else if pages < other {
        assert(history.contains(hashes[pages]));
    }
}

/// There is always such a number.
pub proof fn lemma_known_prefix_exists(history: Set<u64>, hashes: Seq<u64>, limit: int)
    requires
        0 <= limit,
    ensures
        is_known_prefix(history, hashes, limit, known_prefix(history, hashes, limit)),
{
    lemma_known_prefix_from(history, hashes, limit, 0);
}

proof fn lemma_known_prefix_from(history: Set<u64>, hashes: Seq<u64>, limit: int, pages: int)
    requires
        0 <= pages <= hashes.len(),
        pages <= limit,
        forall|i: int| 0 <= i < pages ==> history.contains(#[trigger] hashes[i]),
    ensures
        exists|n: int| is_known_prefix(history, hashes, limit, n),
    decreases limit - pages,
{
    if pages < hashes.len() && pages < limit && history.contains(hashes[pages]) {
        lemma_known_prefix_from(history, hashes, limit, pages + 1);
    } else {
        assert(is_known_prefix(history, hashes, limit, pages));
    }
}

/// The prefill steps of at most `size` tokens that take the cache from `from`
/// to `end` tokens.
pub open spec fn prefill_steps(from: int, end: int, size: int) -> Seq<PrefillChunk>
    decreases end - from,
{
    if from >= end || size <= 0 {
        Seq::empty()
    } else {
        let next = if from + size < end {
            from + size
        } else {
            end
        };
        seq![
            PrefillChunk { context_tokens: next as usize, prefix_tokens: from as usize },
        ] + prefill_steps(next, end, size)
    }
}

/// What a tracker knows.
#[verifier::ext_equal]
pub struct IdealL1Model {
    pub block_size: int,
    pub chunked_prefill_size: int,
    pub total_kv_tokens: int,
    /// Hashes of requests from before `current`.
    pub history: Set<u64>,
    /// Hashes of requests that arrived at `current`.
    pub pending: Seq<u64>,
    /// The latest arrival.
    pub current: Option<Timestamp>,
}

impl IdealL1Model {
    /// What a tracker for an engine with these settings starts with.
    pub open spec fn starting(args: MockEngineArgs) -> Self {
        IdealL1Model {
            block_size: args.block_size as int,
            chunked_prefill_size: match args.sglang {
                Some(SglangArgs { chunked_prefill_size: Some(size), .. }) => size as int,
                _ => DEFAULT_CHUNKED_PREFILL_SIZE as int,
            },
            total_kv_tokens: if args.num_gpu_blocks * args.block_size <= usize::MAX {
                args.num_gpu_blocks * args.block_size
            } else {
                usize::MAX as int
            },
            history: Set::empty(),
            pending: Seq::empty(),
            current: None,
        }
    }

    /// A request may arrive at this time.
    pub open spec fn accepts(self, arrival: Timestamp) -> bool {
        arrival.finite() && match self.current {
            Some(current) => arrival.order() >= current.order(),
            None => true,
        }
    }

    /// The tracker when it has moved on to the bucket of this arrival.
    pub open spec fn advanced(self, arrival: Timestamp) -> Self {
        match self.current {
            Some(current) => if arrival.order() > current.order() {
                IdealL1Model {
                    history: self.history.union(self.pending.to_set()),
                    pending: Seq::empty(),
                    current: Some(arrival),
                    ..self
                }
            } else {
                self
            },
            None => IdealL1Model { current: Some(arrival), ..self },
        }
    }

    /// The tracker when hashes of one more request wait in the bucket.
    pub open spec fn with_pending(self, hashes: Seq<u64>) -> Self {
        IdealL1Model { pending: self.pending + hashes, ..self }
    }

    /// The tracker after a request that got its bound.
    pub open spec fn observed(self, arrival: Timestamp, hashes: Seq<u64>) -> Self {
        self.advanced(arrival).with_pending(hashes)
    }

    /// Complete pages that a request may reuse: its last token is always
    /// computed.
    pub open spec fn reuse_limit(self, input_length: int) -> int {
        if input_length > 0 {
            (input_length - 1) / self.block_size
        } else {
            0
        }
    }

    pub open spec fn reusable_pages(self, hashes: Seq<u64>, input_length: int) -> int {
        known_prefix(self.history, hashes, self.reuse_limit(input_length))
    }

    pub open spec fn reusable_tokens(self, hashes: Seq<u64>, input_length: int) -> int {
        self.reusable_pages(hashes, input_length) * self.block_size
    }

    /// Work for a request of this length can be laid out.
    pub open spec fn can_plan(self, input_length: int) -> bool {
        self.block_size > 0 && (self.chunked_prefill_size > 0 || input_length == 0)
    }

    /// The run of a request of which `reused` tokens are in the cache.
    pub open spec fn is_run(
        self,
        run: IsolatedRun,
        reused: int,
        input_length: usize,
        output_length: usize,
    ) -> bool {
        &&& run.prefill@ == prefill_steps(reused, input_length as int, self.chunked_prefill_size)
        &&& run.decode == if output_length > 0 {
            Some(
                DecodeStep {
                    context_tokens: input_length,
                    total_kv_tokens: self.total_kv_tokens as usize,
                },
            )
        } else {
            None
        }
    }

    /// The answer to a request with these hashes: its run is priced, and the
    /// hashes join the bucket if the price is known.
    pub open spec fn answers<P: FnOnce(IsolatedRun) -> Result<T, E>, T, E>(
        self,
        arrival: Timestamp,
        hashes: Seq<u64>,
        input_length: usize,
        output_length: usize,
        price: P,
        result: Result<IdealL1RequestBound<T>, IdealL1Error<E>>,
        after: IdealL1Model,
    ) -> bool {
        let now = self.advanced(arrival);
        let reused = now.reusable_tokens(hashes, input_length as int);
        exists|run: IsolatedRun, priced: Result<T, E>|
            now.is_run(run, reused, input_length, output_length) && #[trigger] call_ensures(
                price,
                (run,),
                priced,
            ) && match priced {
                Ok(ttft_ms) => {
                    &&& result == Ok::<IdealL1RequestBound<T>, IdealL1Error<E>>(
                        IdealL1RequestBound {
                            reusable_tokens: reused as usize,
                            recomputed_tokens: (input_length - reused) as usize,
                            ttft_ms,
                        },
                    )
                    &&& after == self.observed(arrival, hashes)
                },
                Err(error) => {
                    &&& result == Err::<IdealL1RequestBound<T>, IdealL1Error<E>>(
                        IdealL1Error::Prediction(error),
                    )
                    &&& after == now
                },
            }
    }

    /// Reuse stops short of the last token.
    pub proof fn lemma_reuse_fits(self, hashes: Seq<u64>, input_length: int)
        requires
            self.block_size > 0,
            0 <= input_length,
        ensures
            is_known_prefix(
                self.history,
                hashes,
                self.reuse_limit(input_length),
                self.reusable_pages(hashes, input_length),
            ),
            0 <= self.reusable_tokens(hashes, input_length) <= input_length,
            input_length > 0 ==> self.reusable_tokens(hashes, input_length) < input_length,
    {
        let limit = self.reuse_limit(input_length);
        let size = self.block_size;
        if input_length > 0 {
            assert(0 <= (input_length - 1) / size && ((input_length - 1) / size) * size
                <= input_length - 1) by (nonlinear_arith)
                requires
                    input_length > 0,
                    size > 0,
            ;
        }
        lemma_known_prefix_exists(self.history, hashes, limit);
        let pages = self.reusable_pages(hashes, input_length);
        assert(0 <= pages * size <= limit * size) by (nonlinear_arith)
            requires
                0 <= pages <= limit,
                size > 0,
        ;
    }
}

/// Bounds the time to the first token of each request of a trace.
#[derive(Debug)]
pub struct IdealL1ZeroQueueTracker {
    block_size: usize,
    chunked_prefill_size: usize,
    total_kv_tokens: usize,
    history: HashSet<u64>,
    pending_bucket: Vec<u64>,
    current_timestamp: Option<Timestamp>,
}

impl View for IdealL1ZeroQueueTracker {
    type V = IdealL1Model;

    closed spec fn view(&self) -> IdealL1Model {
        IdealL1Model {
            block_size: self.block_size as int,
            chunked_prefill_size: self.chunked_prefill_size as int,
            total_kv_tokens: self.total_kv_tokens as int,
            history: self.history@,
            pending: self.pending_bucket@,
            current: self.current_timestamp,
        }
    }
}

impl IdealL1ZeroQueueTracker {
    pub fn from_args(args: &MockEngineArgs) -> (tracker: Self)
        ensures
            tracker@ == IdealL1Model::starting(*args),
            tracker@ == (IdealL1Model {
                block_size: args.block_size as int,
                chunked_prefill_size: match args.sglang {
                    Some(SglangArgs { chunked_prefill_size: Some(size), .. }) => size as int,
                    _ => DEFAULT_CHUNKED_PREFILL_SIZE as int,
                },
                total_kv_tokens: if args.num_gpu_blocks * args.block_size <= usize::MAX {
                    args.num_gpu_blocks * args.block_size
                } else {
                    usize::MAX as int
                },
                history: Set::empty(),
                pending: Seq::empty(),
                current: None,
            }),
    {
        let chunked_prefill_size: usize = match args.sglang {
            Some(sglang) => match sglang.chunked_prefill_size {
                Some(size) => size,
                None => DEFAULT_CHUNKED_PREFILL_SIZE,
            },
            None => DEFAULT_CHUNKED_PREFILL_SIZE,
        };
        let total_kv_tokens: usize = match args.num_gpu_blocks.checked_mul(args.block_size) {
            Some(tokens) => tokens,
            None => usize::MAX,
        };
        IdealL1ZeroQueueTracker {
            block_size: args.block_size,
            chunked_prefill_size,
            total_kv_tokens,
            history: HashSet::new(),
            pending_bucket: Vec::new(),
            current_timestamp: None,
        }
    }

    /// Whether a request may arrive at this time.
    pub fn accepts_arrival(&self, arrival: Timestamp) -> (r: bool)
        ensures
            r == self@.accepts(arrival),
    {
        arrival.is_finite() && match self.current_timestamp {
            Some(current) => !arrival.is_before(&current),
            None => true,
        }
    }

    /// Whether work for a request of this length can be laid out.
    pub fn can_plan(&self, input_length: usize) -> (r: bool)
        ensures
            r == self@.can_plan(input_length as int),
    {
        self.block_size > 0 && (self.chunked_prefill_size > 0 || input_length == 0)
    }

    /// Bounds one request.
    ///
    /// `hash_tokens` hashes the pages of tokens for which the trace holds no
    /// hashes. `price` gives the time of a run.
    pub fn observe<H, P, T, E>(
        &mut self,
        request: &ReplayRequestPayload,
        replay_hashes: Option<&ReplayRequestHashes>,
        arrival: Timestamp,
        output_length: usize,
        hash_tokens: H,
        price: P,
    ) -> (result: Result<IdealL1RequestBound<T>, IdealL1Error<E>>) where
        H: Fn(&[u32], u32) -> ReplayRequestHashes,
        P: FnOnce(IsolatedRun) -> Result<T, E>,

        requires
            old(self)@.accepts(arrival) && (replay_hashes is Some || old(self)@.block_size
                <= u32::MAX) ==> old(self)@.can_plan(request.input_length as int),
            forall|tokens: &[u32], size: u32| call_requires(hash_tokens, (tokens, size)),
            forall|run: IsolatedRun| call_requires(price, (run,)),
        ensures
            !arrival.finite() ==> {
                &&& result == Err::<IdealL1RequestBound<T>, IdealL1Error<E>>(
                    IdealL1Error::NonFiniteArrival,
                )
                &&& final(self)@ == old(self)@
            },
            arrival.finite() && !old(self)@.accepts(arrival) ==> {
                &&& result == Err::<IdealL1RequestBound<T>, IdealL1Error<E>>(
                    IdealL1Error::DecreasingArrival { arrival, current: old(self)@.current->0 },
                )
                &&& final(self)@ == old(self)@
            },
            old(self)@.accepts(arrival) ==> match replay_hashes {
                Some(hashes) => old(self)@.answers(
                    arrival,
                    hashes.sequence_hashes@,
                    request.input_length,
                    output_length,
                    price,
                    result,
                    final(self)@,
                ),
                None => if old(self)@.block_size > u32::MAX {
                    &&& result == Err::<IdealL1RequestBound<T>, IdealL1Error<E>>(
                        IdealL1Error::BlockSizeTooLarge,
                    )
                    &&& final(self)@ == old(self)@.advanced(arrival)
                } else {
                    exists|tokens: &[u32], hashes: ReplayRequestHashes|
                        tokens@ == request.known_tokens() && #[trigger] call_ensures(
                            hash_tokens,
                            (tokens, old(self)@.block_size as u32),
                            hashes,
                        ) && old(self)@.answers(
                            arrival,
                            hashes.sequence_hashes@,
                            request.input_length,
                            output_length,
                            price,
                            result,
                            final(self)@,
                        )
                },
            },
    {
        if !arrival.is_finite() {
            return Err(IdealL1Error::NonFiniteArrival);
        }
        if let Err(current) = self.advance_timestamp_bucket(arrival) {
            return Err(IdealL1Error::DecreasingArrival { arrival, current });
        }
        match replay_hashes {
            Some(hashes) => self.bound(
                &hashes.sequence_hashes,
                request.input_length,
                output_length,
                price,
            ),
            None => {
                if self.block_size > u32::MAX as usize {
                    return Err(IdealL1Error::BlockSizeTooLarge);
                }
                let none: Vec<u32> = Vec::new();
                let tokens: &[u32] = match &request.tokens {
                    Some(tokens) => tokens.as_slice(),
                    None => none.as_slice(),
                };
                let hashes = hash_tokens(tokens, self.block_size as u32);
                self.bound(&hashes.sequence_hashes, request.input_length, output_length, price)
            },
        }
    }

    /// Moves on to the bucket of an arrival, or gives back the current time
    /// where that is later.
    fn advance_timestamp_bucket(&mut self, arrival: Timestamp) -> (result: Result<(), Timestamp>)
        requires
            arrival.finite(),
        ensures
            result is Ok <==> old(self)@.accepts(arrival),
            result is Ok ==> final(self)@ == old(self)@.advanced(arrival),
            result matches Err(current) ==> old(self)@.current == Some(current) && final(self)@
                == old(self)@,
    {
        broadcast use group_hash_axioms;

        match self.current_timestamp {
            Some(current) => {
                if arrival.is_before(&current) {
                    return Err(current);
                }
                if current.is_before(&arrival) {
                    let ghost before = *self;
                    let mut i: usize = 0;
                    while i < self.pending_bucket.len()
                        invariant
                            i <= self.pending_bucket@.len(),
                            self.history@ == before.history@.union(
                                self.pending_bucket@.take(i as int).to_set(),
                            ),
                            *self == (IdealL1ZeroQueueTracker { history: self.history, ..before }),
                        decreases self.pending_bucket@.len() - i,
                    {
                        self.history.insert(self.pending_bucket[i]);
                        proof {
                            let done = self.pending_bucket@.take(i as int);
                            let more = self.pending_bucket@.take(i + 1);
                            assert(more =~= done.push(self.pending_bucket@[i as int]));
                            assert forall|h: u64| more.to_set().contains(h) <==> (
                            done.to_set().contains(h) || h == self.pending_bucket@[i as int]) by {
                                if done.contains(h) {
                                    let k = choose|k: int| 0 <= k < done.len() && done[k] == h;
                                    assert(more[k] == h);
                                }
                                assert(more[i as int] == self.pending_bucket@[i as int]);
                            }
                            assert(self.history@ =~= before.history@.union(more.to_set()));
                        }
                        i = i + 1;
                    }
                    assert(self.pending_bucket@.take(i as int) =~= self.pending_bucket@);
                    self.pending_bucket = Vec::new();
                    self.current_timestamp = Some(arrival);
                    assert(self@ =~= before@.advanced(arrival));
                }
            },
            None => {
                self.current_timestamp = Some(arrival);
            },
        }
        Ok(())
    }

    /// How many of the first `limit` hashes are in the history without a gap.
    fn known_pages(&self, hashes: &Vec<u64>, limit: usize) -> (pages: usize)
        ensures
            pages == known_prefix(self@.history, hashes@, limit as int),
            pages <= limit,
    {
        broadcast use group_hash_axioms;

        let mut pages: usize = 0;
        while pages < hashes.len() && pages < limit && self.history.contains(&hashes[pages])
            invariant
                pages <= hashes@.len(),
                pages <= limit,
                forall|i: int| 0 <= i < pages ==> self.history@.contains(#[trigger] hashes@[i]),
            decreases hashes@.len() - pages,
        {
            pages = pages + 1;
        }
        proof {
            lemma_known_prefix(self.history@, hashes@, limit as int, pages as int);
        }
        pages
    }

    /// The run of a request of which `reused` tokens are in the cache.
    pub fn isolated_run(&self, input_length: usize, output_length: usize, reused: usize) -> (run:
        IsolatedRun)
        requires
            reused <= input_length,
            self@.chunked_prefill_size > 0 || reused == input_length,
        ensures
            self@.is_run(run, reused as int, input_length, output_length),
    {
        let mut prefill: Vec<PrefillChunk> = Vec::new();
        let mut prefix_tokens: usize = reused;
        let ghost size = self.chunked_prefill_size as int;
        let ghost whole = prefill_steps(reused as int, input_length as int, size);
        while prefix_tokens < input_length
            invariant
                prefix_tokens <= input_length,
                size == self.chunked_prefill_size,
                size > 0 || prefix_tokens == input_length,
                whole == prefill@ + prefill_steps(
                    prefix_tokens as int,
                    input_length as int,
                    size,
                ),
            decreases input_length - prefix_tokens,
        {
            let remaining_tokens: usize = input_length - prefix_tokens;
            let chunk_tokens: usize = if remaining_tokens < self.chunked_prefill_size {
                remaining_tokens
            } else {
                self.chunked_prefill_size
            };
            let context_tokens: usize = prefix_tokens + chunk_tokens;
            prefill.push(PrefillChunk { context_tokens, prefix_tokens });
            proof {
                let rest = prefill_steps(context_tokens as int, input_length as int, size);
                assert(prefill_steps(prefix_tokens as int, input_length as int, size) =~= seq![
                    PrefillChunk { context_tokens, prefix_tokens },
                ] + rest);
                assert(whole =~= prefill@ + rest);
            }
            prefix_tokens = context_tokens;
        }
        assert(whole =~= prefill@);
        let decode = if output_length > 0 {
            Some(
                DecodeStep {
                    context_tokens: input_length,
                    total_kv_tokens: self.total_kv_tokens,
                },
            )
        } else {
            None
        };
        IsolatedRun { prefill, decode }
    }

    /// Bounds a request of the current bucket.
    fn bound<P, T, E>(
        &mut self,
        hashes: &Vec<u64>,
        input_length: usize,
        output_length: usize,
        price: P,
    ) -> (result: Result<IdealL1RequestBound<T>, IdealL1Error<E>>) where
        P: FnOnce(IsolatedRun) -> Result<T, E>,

        requires
            old(self)@.can_plan(input_length as int),
            forall|run: IsolatedRun| call_requires(price, (run,)),
        ensures
            ({
                let now = old(self)@;
                let reused = now.reusable_tokens(hashes@, input_length as int);
                exists|run: IsolatedRun, priced: Result<T, E>|
                    now.is_run(run, reused, input_length, output_length) && #[trigger] call_ensures(
                        price,
                        (run,),
                        priced,
                    ) && match priced {
                        Ok(ttft_ms) => {
                            &&& result == Ok::<IdealL1RequestBound<T>, IdealL1Error<E>>(
                                IdealL1RequestBound {
                                    reusable_tokens: reused as usize,
                                    recomputed_tokens: (input_length - reused) as usize,
                                    ttft_ms,
                                },
                            )
                            &&& final(self)@ == now.with_pending(hashes@)
                        },
                        Err(error) => {
                            &&& result == Err::<IdealL1RequestBound<T>, IdealL1Error<E>>(
                                IdealL1Error::Prediction(error),
                            )
                            &&& final(self)@ == now
                        },
                    }
            }),
    {
        let max_reusable_pages: usize = if input_length > 0 {
            (input_length - 1) / self.block_size
        } else {
            0
        };
        proof {
            self@.lemma_reuse_fits(hashes@, input_length as int);
        }
        let reusable_pages: usize = self.known_pages(hashes, max_reusable_pages);
        let reusable_tokens: usize = reusable_pages * self.block_size;
        let recomputed_tokens: usize = input_length - reusable_tokens;
        let run = self.isolated_run(input_length, output_length, reusable_tokens);
        match price(run) {
            Ok(ttft_ms) => {
                let mut i: usize = 0;
                let ghost before = *self;
                while i < hashes.len()
                    invariant
                        i <= hashes@.len(),
                        self.pending_bucket@ == before.pending_bucket@ + hashes@.take(i as int),
                        *self == (IdealL1ZeroQueueTracker {
                            pending_bucket: self.pending_bucket,
                            ..before
                        }),
                    decreases hashes@.len() - i,
                {
                    self.pending_bucket.push(hashes[i]);
                    assert(hashes@.take(i + 1) =~= hashes@.take(i as int).push(hashes@[i as int]));
                    assert(self.pending_bucket@ =~= before.pending_bucket@ + hashes@.take(i + 1));
                    i = i + 1;
                }
                assert(hashes@.take(i as int) =~= hashes@);
                assert(self@ =~= before@.with_pending(hashes@));
                Ok(IdealL1RequestBound { reusable_tokens, recomputed_tokens, ttft_ms })
            },
            Err(error) => Err(IdealL1Error::Prediction(error)),
        }
    }
}

} // verus!
