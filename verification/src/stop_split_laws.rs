//! Laws of splitting chunks.

use crate::chat_stream::{
    Annotated, ChatChoiceStream, FinishReason, NvCreateChatCompletionStreamResponse,
};
use crate::stop_split::{
    has_payload, is_payload_chunk, is_terminal_chunk, merges_stop, needs_split, terminal_choice,
    terminal_choices,
};
use vstd::prelude::*;

verus! {

/// Every terminal choice stands for a choice that was merged, and every merged
/// choice has one.
proof fn lemma_terminal_choices<P, L>(choices: Seq<ChatChoiceStream<P, L>>)
    ensures
        forall|k: int|
            0 <= k < terminal_choices(choices).len() ==> exists|i: int|
                0 <= i < choices.len() && merges_stop(#[trigger] choices[i])
                    && #[trigger] terminal_choices(choices)[k] == terminal_choice(choices[i]),
        forall|i: int|
            0 <= i < choices.len() && merges_stop(#[trigger] choices[i]) ==> terminal_choices(
                choices,
            ).contains(terminal_choice(choices[i])),
    decreases choices.len(),
{
    reveal(Seq::filter);
    if choices.len() > 0 {
        let shorter = choices.drop_last();
        let n = choices.len() - 1;
        let all = terminal_choices(choices);
        let before = terminal_choices(shorter);
        lemma_terminal_choices(shorter);
        if merges_stop(choices[n]) {
            assert(all =~= before.push(terminal_choice(choices[n])));
        } else {
            assert(all =~= before);
        }
        assert forall|k: int| 0 <= k < all.len() implies exists|i: int|
            0 <= i < choices.len() && merges_stop(#[trigger] choices[i]) && #[trigger] all[k]
                == terminal_choice(choices[i]) by {
            if k < before.len() {
                assert(all[k] == before[k]);
                let i = choose|i: int|
                    0 <= i < shorter.len() && merges_stop(#[trigger] shorter[i]) && before[k]
                        == terminal_choice(shorter[i]);
                assert(choices[i] == shorter[i]);
            } else {
                assert(merges_stop(choices[n]) && all[k] == terminal_choice(choices[n]));
            }
        }
        assert forall|i: int|
            0 <= i < choices.len() && merges_stop(#[trigger] choices[i]) implies all.contains(
            terminal_choice(choices[i]),
        ) by {
            if i < n {
                assert(choices[i] == shorter[i]);
                let k = choose|k: int|
                    0 <= k < before.len() && before[k] == terminal_choice(shorter[i]);
                assert(all[k] == before[k]);
            } else {
                assert(all[before.len() as int] == terminal_choice(choices[i]));
            }
        }
    }
}

/// Law: the payload chunk holds the payload of every choice, in place.
pub proof fn law_payload_is_preserved<P, L, N, M, E>(
    response: Annotated<NvCreateChatCompletionStreamResponse<P, L, N, M>, E>,
    part: Annotated<NvCreateChatCompletionStreamResponse<P, L, N, M>, E>,
    i: int,
)
    requires
        is_payload_chunk(response, part),
        0 <= i < response.data->0.inner.choices@.len(),
    ensures
        part.data->0.inner.choices@.len() == response.data->0.inner.choices@.len(),
        part.data->0.inner.choices@[i].index == response.data->0.inner.choices@[i].index,
        part.data->0.inner.choices@[i].delta == response.data->0.inner.choices@[i].delta,
        part.data->0.inner.choices@[i].logprobs == response.data->0.inner.choices@[i].logprobs,
{
}

/// Law: a choice that ends does so in one of the two chunks: where its payload
/// was merged with `stop` in the terminal chunk, else in the payload chunk as
/// before.
pub proof fn law_finish_is_preserved<P, L, N: Clone, M, E: Clone>(
    response: Annotated<NvCreateChatCompletionStreamResponse<P, L, N, M>, E>,
    first: Annotated<NvCreateChatCompletionStreamResponse<P, L, N, M>, E>,
    second: Annotated<NvCreateChatCompletionStreamResponse<P, L, N, M>, E>,
    i: int,
)
    requires
        is_payload_chunk(response, first),
        is_terminal_chunk(response, second),
        0 <= i < response.data->0.inner.choices@.len(),
    ensures
        ({
            let choice = response.data->0.inner.choices@[i];
            if merges_stop(choice) {
                &&& first.data->0.inner.choices@[i].finish_reason is None
                &&& second.data->0.inner.choices@.contains(terminal_choice(choice))
                &&& terminal_choice(choice).index == choice.index
                &&& terminal_choice(choice).finish_reason == Some(FinishReason::Stop)
            } else {
                first.data->0.inner.choices@[i].finish_reason == choice.finish_reason
            }
        }),
{
    lemma_terminal_choices(response.data->0.inner.choices@);
}

/// Law: the terminal chunk carries no payload, and each of its choices ends one
/// that was merged.
pub proof fn law_terminal_chunk_only_ends_choices<P, L, N: Clone, M, E: Clone>(
    response: Annotated<NvCreateChatCompletionStreamResponse<P, L, N, M>, E>,
    part: Annotated<NvCreateChatCompletionStreamResponse<P, L, N, M>, E>,
    k: int,
)
    requires
        is_terminal_chunk(response, part),
        0 <= k < part.data->0.inner.choices@.len(),
    ensures
        ({
            let choice = part.data->0.inner.choices@[k];
            &&& !has_payload(choice.delta)
            &&& choice.logprobs is None
            &&& choice.finish_reason == Some(FinishReason::Stop)
            &&& exists|i: int|
                0 <= i < response.data->0.inner.choices@.len() && merges_stop(
                    #[trigger] response.data->0.inner.choices@[i],
                ) && choice.index == response.data->0.inner.choices@[i].index
        }),
{
    let choices = response.data->0.inner.choices@;
    lemma_terminal_choices(choices);
    assert(part.data->0.inner.choices@[k] == terminal_choices(choices)[k]);
    let i = choose|i: int|
        0 <= i < choices.len() && merges_stop(#[trigger] choices[i]) && terminal_choices(choices)[k]
            == terminal_choice(choices[i]);
    assert(merges_stop(response.data->0.inner.choices@[i]));
}

/// Law: neither chunk of a split needs another split.
pub proof fn law_split_is_complete<P, L, N: Clone, M, E: Clone>(
    response: Annotated<NvCreateChatCompletionStreamResponse<P, L, N, M>, E>,
    first: Annotated<NvCreateChatCompletionStreamResponse<P, L, N, M>, E>,
    second: Annotated<NvCreateChatCompletionStreamResponse<P, L, N, M>, E>,
)
    requires
        is_payload_chunk(response, first),
        is_terminal_chunk(response, second),
    ensures
        !needs_split(first),
        !needs_split(second),
{
    if needs_split(second) {
        let k = choose|k: int|
            0 <= k < second.data->0.inner.choices@.len() && merges_stop(
                #[trigger] second.data->0.inner.choices@[k],
            );
        law_terminal_chunk_only_ends_choices(response, second, k);
    }
}

/// Law: the usage of a response is reported once, at its end, and its metrics
/// once, with the payload.
pub proof fn law_usage_and_metrics_come_once<P, L, N: Clone, M, E: Clone>(
    response: Annotated<NvCreateChatCompletionStreamResponse<P, L, N, M>, E>,
    first: Annotated<NvCreateChatCompletionStreamResponse<P, L, N, M>, E>,
    second: Annotated<NvCreateChatCompletionStreamResponse<P, L, N, M>, E>,
)
    requires
        is_payload_chunk(response, first),
        is_terminal_chunk(response, second),
    ensures
        first.data->0.inner.usage is None,
        second.data->0.inner.usage == response.data->0.inner.usage,
        first.data->0.llm_metrics == response.data->0.llm_metrics,
        second.data->0.llm_metrics is None,
{
}

} // verus!
