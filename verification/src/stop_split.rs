//! Splitting of chunks that end a choice and still carry payload for it.
//!
//! Clients that stop reading a choice at its finish reason lose such payload.
//! A chunk that holds both is split into one with the payload and one that ends
//! the choice.

use crate::chat_stream::{
    Annotated, ChatChoiceStream, ChatCompletionStreamResponseDelta,
    CreateChatCompletionStreamResponse, FinishReason, NvCreateChatCompletionStreamResponse,
};
use vstd::prelude::*;

verus! {

/// The delta carries anything.
pub open spec fn has_payload<P>(delta: ChatCompletionStreamResponseDelta<P>) -> bool {
    delta.role is Some || delta.content is Some || delta.tool_calls is Some
        || delta.function_call is Some || delta.refusal is Some || delta.reasoning_content is Some
}

/// The choice ends with `stop` and still carries payload.
pub open spec fn merges_stop<P, L>(choice: ChatChoiceStream<P, L>) -> bool {
    choice.finish_reason == Some(FinishReason::Stop) && has_payload(choice.delta)
}

/// What the payload chunk holds of a choice: all but a merged finish reason.
pub open spec fn payload_choice<P, L>(choice: ChatChoiceStream<P, L>) -> ChatChoiceStream<P, L> {
    if merges_stop(choice) {
        ChatChoiceStream { finish_reason: None, ..choice }
    } else {
        choice
    }
}

/// What the terminal chunk holds of a choice: the finish reason alone.
pub open spec fn terminal_choice<P, L>(choice: ChatChoiceStream<P, L>) -> ChatChoiceStream<P, L> {
    ChatChoiceStream {
        index: choice.index,
        delta: ChatCompletionStreamResponseDelta {
            role: None,
            content: None,
            tool_calls: None,
            function_call: None,
            refusal: None,
            reasoning_content: None,
        },
        finish_reason: choice.finish_reason,
        logprobs: None,
    }
}

pub open spec fn payload_choices<P, L>(choices: Seq<ChatChoiceStream<P, L>>) -> Seq<
    ChatChoiceStream<P, L>,
> {
    choices.map_values(|choice: ChatChoiceStream<P, L>| payload_choice(choice))
}

pub open spec fn terminal_choices<P, L>(choices: Seq<ChatChoiceStream<P, L>>) -> Seq<
    ChatChoiceStream<P, L>,
> {
    choices.filter(|choice: ChatChoiceStream<P, L>| merges_stop(choice)).map_values(
        |choice: ChatChoiceStream<P, L>| terminal_choice(choice),
    )
}

/// `b` is a clone of `a`.
pub open spec fn option_cloned<T: Clone>(a: Option<T>, b: Option<T>) -> bool {
    match (a, b) {
        (Some(a), Some(b)) => cloned(a, b),
        (None, None) => true,
        _ => false,
    }
}

/// The two chunks have the same comments.
pub open spec fn same_comment(a: Option<Vec<String>>, b: Option<Vec<String>>) -> bool {
    match (a, b) {
        (Some(a), Some(b)) => a@ == b@,
        (None, None) => true,
        _ => false,
    }
}

/// The message needs a second chunk.
pub open spec fn needs_split<P, L, N, M, E>(
    response: Annotated<NvCreateChatCompletionStreamResponse<P, L, N, M>, E>,
) -> bool {
    response.data matches Some(data) && exists|i: int|
        0 <= i < data.inner.choices@.len() && merges_stop(#[trigger] data.inner.choices@[i])
}

/// `part` is the payload chunk of `response`: the finish reasons that it merged
/// and the usage are gone.
pub open spec fn is_payload_chunk<P, L, N, M, E>(
    response: Annotated<NvCreateChatCompletionStreamResponse<P, L, N, M>, E>,
    part: Annotated<NvCreateChatCompletionStreamResponse<P, L, N, M>, E>,
) -> bool {
    &&& response.data matches Some(data)
    &&& part.data matches Some(kept)
    &&& kept.inner.choices@ == payload_choices(data.inner.choices@)
    &&& part == (Annotated {
        data: Some(
            NvCreateChatCompletionStreamResponse {
                inner: CreateChatCompletionStreamResponse {
                    choices: kept.inner.choices,
                    usage: None,
                    ..data.inner
                },
                ..data
            },
        ),
        ..response
    })
}

/// `part` is the terminal chunk of `response`: the choices that end, the usage,
/// and what the response says of itself, without metrics.
pub open spec fn is_terminal_chunk<P, L, N: Clone, M, E: Clone>(
    response: Annotated<NvCreateChatCompletionStreamResponse<P, L, N, M>, E>,
    part: Annotated<NvCreateChatCompletionStreamResponse<P, L, N, M>, E>,
) -> bool {
    &&& response.data matches Some(data)
    &&& part.data matches Some(last)
    &&& last.inner.choices@ == terminal_choices(data.inner.choices@)
    &&& last.inner == (CreateChatCompletionStreamResponse {
        choices: last.inner.choices,
        ..data.inner
    })
    &&& option_cloned(data.nvext, last.nvext)
    &&& last.llm_metrics is None
    &&& part.id == response.id
    &&& part.event == response.event
    &&& same_comment(response.comment, part.comment)
    &&& option_cloned(response.error, part.error)
}

fn choice_has_delta_payload<P, L>(choice: &ChatChoiceStream<P, L>) -> (r: bool)
    ensures
        r == has_payload(choice.delta),
{
    choice.delta.role.is_some() || choice.delta.content.is_some()
        || choice.delta.tool_calls.is_some() || choice.delta.function_call.is_some()
        || choice.delta.refusal.is_some() || choice.delta.reasoning_content.is_some()
}

fn choice_merges_stop<P, L>(choice: &ChatChoiceStream<P, L>) -> (r: bool)
    ensures
        r == merges_stop(*choice),
{
    match choice.finish_reason {
        Some(FinishReason::Stop) => choice_has_delta_payload(choice),
        _ => false,
    }
}

/// Takes the merged finish reasons out of `choices` and gives the choices of
/// the terminal chunk back.
fn split_choices<P, L>(choices: &mut Vec<ChatChoiceStream<P, L>>) -> (terminal: Vec<
    ChatChoiceStream<P, L>,
>)
    ensures
        final(choices)@ == payload_choices(old(choices)@),
        terminal@ == terminal_choices(old(choices)@),
        !(exists|i: int| 0 <= i < old(choices)@.len() && merges_stop(#[trigger] old(choices)@[i]))
            ==> *final(choices) == *old(choices),
{
    let ghost all = choices@;
    let ghost whole = *choices;
    let mut terminal: Vec<ChatChoiceStream<P, L>> = Vec::new();
    let mut i: usize = 0;
    proof {
        reveal(Seq::filter);
        assert(terminal@ =~= terminal_choices(all.take(0)));
    }
    while i < choices.len()
        invariant
            i <= choices@.len(),
            choices@.len() == all.len(),
            forall|j: int| 0 <= j < i ==> #[trigger] choices@[j] == payload_choice(all[j]),
            forall|j: int| i <= j < all.len() ==> #[trigger] choices@[j] == all[j],
            terminal@ == terminal_choices(all.take(i as int)),
            all == whole@,
            *choices == whole || exists|j: int| 0 <= j < i && merges_stop(#[trigger] all[j]),
        decreases choices@.len() - i,
    {
        proof {
            reveal(Seq::filter);
            assert(all.take(i + 1).drop_last() =~= all.take(i as int));
            assert(all.take(i + 1).last() == all[i as int]);
            assert(choices@[i as int] == all[i as int]);
        }
        let ghost before = terminal@;
        if choice_merges_stop(&choices[i]) {
            terminal.push(
                ChatChoiceStream {
                    index: choices[i].index,
                    delta: ChatCompletionStreamResponseDelta {
                        role: None,
                        content: None,
                        tool_calls: None,
                        function_call: None,
                        refusal: None,
                        reasoning_content: None,
                    },
                    finish_reason: choices[i].finish_reason,
                    logprobs: None,
                },
            );
            assert(terminal@ =~= before.push(terminal_choice(all[i as int])));
            let choice = &mut choices[i];
            choice.finish_reason = None;
            assert(merges_stop(all[i as int]));
        }
        assert(terminal@ =~= terminal_choices(all.take(i + 1)));
        i = i + 1;
    }
    assert(all.take(i as int) =~= all);
    assert(choices@ =~= payload_choices(all));
    terminal
}

/// Splits a chunk that ends choices and carries payload for them into a payload
/// chunk and a terminal chunk. Other chunks pass as they are.
pub fn split_merged_stop_response<P, L, N: Clone, M, E: Clone>(
    response: Annotated<NvCreateChatCompletionStreamResponse<P, L, N, M>, E>,
) -> (parts: Vec<Annotated<NvCreateChatCompletionStreamResponse<P, L, N, M>, E>>)
    ensures
        !needs_split(response) ==> parts@ == seq![response],
        needs_split(response) ==> {
            &&& parts@.len() == 2
            &&& is_payload_chunk(response, parts@[0])
            &&& is_terminal_chunk(response, parts@[1])
        },
{
    let ghost given = response;
    let Annotated { data, id, event, comment, error } = response;
    let mut data = match data {
        Some(data) => data,
        None => {
            let parts = vec![Annotated { data: None, id, event, comment, error }];
            assert(parts@ =~= seq![given]);
            return parts;
        },
    };
    let ghost whole = data.inner.choices@;
    let choices = split_choices(&mut data.inner.choices);
    proof {
        lemma_terminal_choices_empty(whole);
    }
    if choices.len() == 0 {
        let parts = vec![Annotated { data: Some(data), id, event, comment, error }];
        assert(parts@ =~= seq![given]);
        return parts;
    }
    let terminal = Annotated {
        data: Some(
            NvCreateChatCompletionStreamResponse {
                inner: CreateChatCompletionStreamResponse {
                    id: data.inner.id.clone(),
                    choices,
                    created: data.inner.created,
                    model: data.inner.model.clone(),
                    service_tier: data.inner.service_tier,
                    system_fingerprint: data.inner.system_fingerprint.clone(),
                    object: data.inner.object.clone(),
                    usage: data.inner.usage,
                },
                nvext: data.nvext.clone(),
                llm_metrics: None,
            },
        ),
        id: id.clone(),
        event: event.clone(),
        comment: clone_comment(&comment),
        error: error.clone(),
    };
    data.inner.usage = None;
    vec![Annotated { data: Some(data), id, event, comment, error }, terminal]
}

fn clone_comment(comment: &Option<Vec<String>>) -> (copy: Option<Vec<String>>)
    ensures
        same_comment(*comment, copy),
{
    match comment {
        Some(lines) => {
            let copy = lines.clone();
            assert(copy@ =~= lines@);
            Some(copy)
        },
        None => None,
    }
}

proof fn lemma_terminal_choices_empty<P, L>(choices: Seq<ChatChoiceStream<P, L>>)
    ensures
        terminal_choices(choices).len() == 0 <==> !(exists|i: int|
            0 <= i < choices.len() && merges_stop(#[trigger] choices[i])),
    decreases choices.len(),
{
    reveal(Seq::filter);
    if choices.len() > 0 {
        let shorter = choices.drop_last();
        lemma_terminal_choices_empty(shorter);
        if exists|i: int| 0 <= i < shorter.len() && merges_stop(#[trigger] shorter[i]) {
            let i = choose|i: int| 0 <= i < shorter.len() && merges_stop(#[trigger] shorter[i]);
            assert(choices[i] == shorter[i]);
        }
        if exists|i: int| 0 <= i < choices.len() && merges_stop(#[trigger] choices[i]) {
            let i = choose|i: int| 0 <= i < choices.len() && merges_stop(#[trigger] choices[i]);
            if i < shorter.len() {
                assert(shorter[i] == choices[i]);
            }
        }
    }
}

} // verus!
