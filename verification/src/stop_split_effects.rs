//! What splitting does to a chunk, told by the fields.

use crate::chat_stream::{
    Annotated, ChatChoiceStream, ChatCompletionStreamResponseDelta, FinishReason,
    NvCreateChatCompletionStreamResponse,
};
use crate::stop_split::{
    is_payload_chunk, is_terminal_chunk, merges_stop, needs_split, terminal_choice, terminal_choices,
};
use vstd::prelude::*;

verus! {

/// No field of the delta is set.
pub open spec fn carries_nothing<P>(delta: ChatCompletionStreamResponseDelta<P>) -> bool {
    &&& delta.role is None
    &&& delta.content is None
    &&& delta.tool_calls is None
    &&& delta.function_call is None
    &&& delta.refusal is None
    &&& delta.reasoning_content is None
}

/// The choice stops, and some field of its delta is set.
pub open spec fn stops_with_payload<P, L>(choice: ChatChoiceStream<P, L>) -> bool {
    choice.finish_reason == Some(FinishReason::Stop) && !carries_nothing(choice.delta)
}

/// How many of the first `n` choices stop with payload.
pub open spec fn count_merged<P, L>(choices: Seq<ChatChoiceStream<P, L>>, n: int) -> int
    decreases n,
{
    if n <= 0 {
        0
    } else {
        count_merged(choices, n - 1) + if stops_with_payload(choices[n - 1]) {
            1int
        } else {
            0int
        }
    }
}

/// Law: a chunk is split exactly if some choice of it stops with payload.
pub proof fn law_what_is_split<P, L, N, M, E>(
    response: Annotated<NvCreateChatCompletionStreamResponse<P, L, N, M>, E>,
)
    ensures
        needs_split(response) <==> response.data is Some && exists|i: int|
            0 <= i < response.data->0.inner.choices@.len() && stops_with_payload(
                #[trigger] response.data->0.inner.choices@[i],
            ),
{
    if response.data is Some {
        let choices = response.data->0.inner.choices@;
        if needs_split(response) {
            let i = choose|i: int| 0 <= i < choices.len() && merges_stop(#[trigger] choices[i]);
            assert(stops_with_payload(choices[i]));
        }
        if exists|i: int| 0 <= i < choices.len() && stops_with_payload(#[trigger] choices[i]) {
            let i = choose|i: int|
                0 <= i < choices.len() && stops_with_payload(#[trigger] choices[i]);
            assert(merges_stop(choices[i]));
        }
    }
}

/// Law: in what comes out, a choice that stops carries nothing: none of role,
/// content, tool calls, function call, refusal and reasoning is set.
pub proof fn law_stop_carries_nothing<P, L, N: Clone, M, E: Clone>(
    response: Annotated<NvCreateChatCompletionStreamResponse<P, L, N, M>, E>,
    part: Annotated<NvCreateChatCompletionStreamResponse<P, L, N, M>, E>,
    i: int,
)
    requires
        is_payload_chunk(response, part) || is_terminal_chunk(response, part) || (!needs_split(
            response,
        ) && part == response),
        part.data is Some,
        0 <= i < part.data->0.inner.choices@.len(),
        part.data->0.inner.choices@[i].finish_reason == Some(FinishReason::Stop),
    ensures
        part.data->0.inner.choices@[i].delta.role is None,
        part.data->0.inner.choices@[i].delta.content is None,
        part.data->0.inner.choices@[i].delta.tool_calls is None,
        part.data->0.inner.choices@[i].delta.function_call is None,
        part.data->0.inner.choices@[i].delta.refusal is None,
        part.data->0.inner.choices@[i].delta.reasoning_content is None,
{
    let out = part.data->0.inner.choices@[i];
    if is_payload_chunk(response, part) {
        assert(!stops_with_payload(out));
    } else if is_terminal_chunk(response, part) {
        let choices = response.data->0.inner.choices@;
        lemma_terminal_is_bare(choices, i);
    } else {
        law_what_is_split(response);
        assert(!stops_with_payload(response.data->0.inner.choices@[i]));
    }
}

proof fn lemma_terminal_is_bare<P, L>(choices: Seq<ChatChoiceStream<P, L>>, k: int)
    requires
        0 <= k < terminal_choices(choices).len(),
    ensures
        carries_nothing(terminal_choices(choices)[k].delta),
        terminal_choices(choices)[k].finish_reason == Some(FinishReason::Stop),
        terminal_choices(choices)[k].logprobs is None,
{
    broadcast use vstd::seq_lib::group_filter_ensures;

    let kept = choices.filter(|choice: ChatChoiceStream<P, L>| merges_stop(choice));
    assert(terminal_choices(choices)[k] == terminal_choice(kept[k]));
    assert(merges_stop(kept[k]));
}

/// Law: the payload chunk holds every choice in place with its index, delta and
/// log probabilities. The finish reason is gone where the choice stopped with
/// payload, and is as before elsewhere. Of the rest, the usage alone is gone.
pub proof fn law_payload_chunk_fields<P, L, N, M, E>(
    response: Annotated<NvCreateChatCompletionStreamResponse<P, L, N, M>, E>,
    part: Annotated<NvCreateChatCompletionStreamResponse<P, L, N, M>, E>,
    i: int,
)
    requires
        is_payload_chunk(response, part),
    ensures
        ({
            let was = response.data->0;
            let is = part.data->0;
            &&& response.data is Some && part.data is Some
            &&& is.inner.choices@.len() == was.inner.choices@.len()
            &&& 0 <= i < was.inner.choices@.len() ==> {
                let choice = was.inner.choices@[i];
                &&& is.inner.choices@[i].index == choice.index
                &&& is.inner.choices@[i].delta == choice.delta
                &&& is.inner.choices@[i].logprobs == choice.logprobs
                &&& stops_with_payload(choice) ==> is.inner.choices@[i].finish_reason is None
                &&& !stops_with_payload(choice) ==> is.inner.choices@[i].finish_reason
                    == choice.finish_reason
            }
            &&& is.inner.usage is None
            &&& is.inner.id == was.inner.id && is.inner.created == was.inner.created
            &&& is.inner.model == was.inner.model && is.inner.object == was.inner.object
            &&& is.inner.service_tier == was.inner.service_tier
            &&& is.inner.system_fingerprint == was.inner.system_fingerprint
            &&& is.nvext == was.nvext && is.llm_metrics == was.llm_metrics
            &&& part.id == response.id && part.event == response.event
            &&& part.comment == response.comment && part.error == response.error
        }),
{
}

proof fn lemma_terminal_positions<P, L>(choices: Seq<ChatChoiceStream<P, L>>, i: int)
    ensures
        terminal_choices(choices).len() == count_merged(choices, choices.len() as int),
        0 <= i < choices.len() && stops_with_payload(choices[i]) ==> 0 <= count_merged(choices, i)
            < terminal_choices(choices).len() && terminal_choices(choices)[count_merged(choices, i)]
            == terminal_choice(choices[i]),
        0 <= i <= choices.len() ==> 0 <= count_merged(choices, i) <= terminal_choices(
            choices,
        ).len(),
    decreases choices.len(),
{
    reveal(Seq::filter);
    if choices.len() > 0 {
        let shorter = choices.drop_last();
        let n = choices.len() - 1;
        lemma_terminal_positions(shorter, if i < n { i } else { n });
        lemma_count_of_prefix(choices, n, n);
        if 0 <= i <= n {
            lemma_count_of_prefix(choices, n, i);
        }
        let all = terminal_choices(choices);
        let before = terminal_choices(shorter);
        assert(merges_stop(choices[n]) == stops_with_payload(choices[n]));
        if merges_stop(choices[n]) {
            assert(all =~= before.push(terminal_choice(choices[n])));
        } else {
            assert(all =~= before);
        }
        if 0 <= i < n {
            assert(shorter[i] == choices[i]);
        }
    }
}

proof fn lemma_count_of_prefix<P, L>(choices: Seq<ChatChoiceStream<P, L>>, n: int, i: int)
    requires
        0 <= i <= n <= choices.len(),
    ensures
        count_merged(choices.take(n), i) == count_merged(choices, i),
        n == choices.len() - 1 ==> choices.take(n) == choices.drop_last(),
    decreases i,
{
    if i > 0 {
        lemma_count_of_prefix(choices, n, i - 1);
        assert(choices.take(n)[i - 1] == choices[i - 1]);
    }
    if n == choices.len() - 1 {
        assert(choices.take(n) =~= choices.drop_last());
    }
}

/// Law: the terminal chunk holds, in order, one choice for each that stopped with
/// payload: its index and the finish reason, and nothing else. The usage comes
/// here, the metrics do not, and what the response says of itself is repeated.
pub proof fn law_terminal_chunk_fields<P, L, N: Clone, M, E: Clone>(
    response: Annotated<NvCreateChatCompletionStreamResponse<P, L, N, M>, E>,
    part: Annotated<NvCreateChatCompletionStreamResponse<P, L, N, M>, E>,
    i: int,
)
    requires
        is_terminal_chunk(response, part),
    ensures
        ({
            let was = response.data->0;
            let is = part.data->0;
            let choices = was.inner.choices@;
            &&& response.data is Some && part.data is Some
            &&& is.inner.choices@.len() == count_merged(choices, choices.len() as int)
            &&& 0 <= i < choices.len() && stops_with_payload(choices[i]) ==> {
                let end = is.inner.choices@[count_merged(choices, i)];
                &&& 0 <= count_merged(choices, i) < is.inner.choices@.len()
                &&& end.index == choices[i].index
                &&& end.finish_reason == Some(FinishReason::Stop)
                &&& end.logprobs is None
                &&& carries_nothing(end.delta)
            }
            &&& is.inner.usage == was.inner.usage
            &&& is.inner.id == was.inner.id && is.inner.created == was.inner.created
            &&& is.inner.model == was.inner.model && is.inner.object == was.inner.object
            &&& is.inner.service_tier == was.inner.service_tier
            &&& is.inner.system_fingerprint == was.inner.system_fingerprint
            &&& was.nvext is None ==> is.nvext is None
            &&& was.nvext is Some ==> is.nvext is Some && cloned(was.nvext->0, is.nvext->0)
            &&& is.llm_metrics is None
            &&& part.id == response.id && part.event == response.event
            &&& part.comment is Some == response.comment is Some
            &&& response.comment is Some ==> part.comment->0@ == response.comment->0@
            &&& response.error is None ==> part.error is None
            &&& response.error is Some ==> part.error is Some && cloned(
                response.error->0,
                part.error->0,
            )
        }),
{
    lemma_terminal_positions(response.data->0.inner.choices@, i);
}

} // verus!
