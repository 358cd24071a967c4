use hicache_replay::chat_stream::{
    Annotated, ChatChoiceStream, ChatCompletionMessageContent, ChatCompletionStreamResponseDelta,
    CompletionUsage, CreateChatCompletionStreamResponse, FinishReason, FunctionCallStream,
    NvCreateChatCompletionStreamResponse, Role,
};
use hicache_replay::stop_split::split_merged_stop_response;

type Response = Annotated<NvCreateChatCompletionStreamResponse<String, String, String, u64>, String>;

fn make_choice(
    index: u32,
    content: Option<&str>,
    finish_reason: Option<FinishReason>,
) -> ChatChoiceStream<String, String> {
    ChatChoiceStream {
        index,
        delta: ChatCompletionStreamResponseDelta {
            role: None,
            content: content.map(|text| ChatCompletionMessageContent::Text(text.to_string())),
            tool_calls: None,
            function_call: None,
            refusal: None,
            reasoning_content: None,
        },
        finish_reason,
        logprobs: None,
    }
}

fn make_response(
    content: Option<&str>,
    finish_reason: Option<FinishReason>,
    with_usage: bool,
) -> Response {
    let choice = make_choice(0, content, finish_reason);

    let usage = if with_usage {
        Some(CompletionUsage {
            prompt_tokens: 10,
            completion_tokens: 5,
            total_tokens: 15,
            prompt_tokens_details: None,
            completion_tokens_details: None,
        })
    } else {
        None
    };

    Annotated {
        data: Some(NvCreateChatCompletionStreamResponse {
            inner: CreateChatCompletionStreamResponse {
                id: "test_id".to_string(),
                choices: vec![choice],
                created: 1234567890,
                model: "test-model".to_string(),
                service_tier: None,
                system_fingerprint: None,
                object: "chat.completion.chunk".to_string(),
                usage,
            },
            nvext: None,
            llm_metrics: None,
        }),
        id: Some("test_id".to_string()),
        event: None,
        comment: None,
        error: None,
    }
}

#[test]
fn merged_stop_and_content_splits_into_two_chunks() {
    let response = make_response(Some("hello"), Some(FinishReason::Stop), true);
    let parts = split_merged_stop_response(response);

    assert_eq!(parts.len(), 2);

    let content_chunk = parts[0].data.as_ref().unwrap();
    assert_eq!(
        content_chunk.inner.choices[0].delta.content,
        Some(ChatCompletionMessageContent::Text("hello".to_string()))
    );
    assert_eq!(content_chunk.inner.choices[0].finish_reason, None);
    assert!(content_chunk.inner.usage.is_none());

    let terminal_chunk = parts[1].data.as_ref().unwrap();
    let terminal_choice = &terminal_chunk.inner.choices[0];
    assert_eq!(terminal_choice.finish_reason, Some(FinishReason::Stop));
    assert!(terminal_choice.delta.content.is_none());
    assert!(terminal_choice.delta.tool_calls.is_none());
    assert_eq!(
        terminal_chunk.inner.usage.as_ref().unwrap().total_tokens,
        15
    );
}

#[test]
fn pure_stop_chunk_passes_through_unsplit() {
    let response = make_response(None, Some(FinishReason::Stop), false);
    let parts = split_merged_stop_response(response);

    assert_eq!(parts.len(), 1);
    assert_eq!(
        parts[0].data.as_ref().unwrap().inner.choices[0].finish_reason,
        Some(FinishReason::Stop)
    );
}

#[test]
fn content_chunk_without_finish_passes_through_unsplit() {
    let response = make_response(Some("hello"), None, false);
    let parts = split_merged_stop_response(response);

    assert_eq!(parts.len(), 1);
}

#[test]
fn non_stop_finish_reason_with_payload_is_not_split() {
    let response = make_response(Some("hello"), Some(FinishReason::Length), false);
    let parts = split_merged_stop_response(response);

    assert_eq!(parts.len(), 1);
    assert_eq!(
        parts[0].data.as_ref().unwrap().inner.choices[0].finish_reason,
        Some(FinishReason::Length)
    );
}

#[test]
fn message_without_data_passes() {
    let mut response = make_response(None, None, false);
    response.data = None;
    response.error = Some("gone".to_string());
    let parts = split_merged_stop_response(response);
    assert_eq!(parts.len(), 1);
    assert_eq!(parts[0].error.as_deref(), Some("gone"));
}

#[test]
fn only_merged_choices_end_in_the_terminal_chunk() {
    let mut response = make_response(Some("a"), Some(FinishReason::Stop), true);
    {
        let data = response.data.as_mut().unwrap();
        data.inner.choices[0].logprobs = Some("lp".to_string());
        data.inner.choices.push(make_choice(1, Some("b"), None));
        data.inner
            .choices
            .push(make_choice(2, None, Some(FinishReason::Stop)));
        data.inner
            .choices
            .push(make_choice(3, Some("d"), Some(FinishReason::Stop)));
        data.nvext = Some("ext".to_string());
        data.llm_metrics = Some(7);
    }
    response.comment = Some(vec!["one".to_string(), "two".to_string()]);
    response.event = Some("event".to_string());
    let parts = split_merged_stop_response(response);

    assert_eq!(parts.len(), 2);
    let payload = parts[0].data.as_ref().unwrap();
    let mut finishes = Vec::new();
    for choice in &payload.inner.choices {
        finishes.push(choice.finish_reason);
    }
    assert_eq!(finishes, vec![None, None, Some(FinishReason::Stop), None]);
    assert_eq!(payload.inner.choices[0].logprobs.as_deref(), Some("lp"));
    assert_eq!(payload.llm_metrics, Some(7));

    let terminal = parts[1].data.as_ref().unwrap();
    assert_eq!(
        terminal.inner.choices,
        vec![
            make_choice(0, None, Some(FinishReason::Stop)),
            make_choice(3, None, Some(FinishReason::Stop)),
        ]
    );
    assert_eq!(terminal.llm_metrics, None);
    assert_eq!(terminal.nvext.as_deref(), Some("ext"));
    assert_eq!(terminal.inner.id, payload.inner.id);
    assert_eq!(terminal.inner.model, "test-model");
    assert_eq!(terminal.inner.created, 1234567890);
    assert_eq!(parts[1].id, parts[0].id);
    assert_eq!(parts[1].event.as_deref(), Some("event"));
    assert_eq!(parts[1].comment, parts[0].comment);
}

#[test]
fn every_kind_of_payload_splits() {
    for kind in 0..6 {
        let mut response = make_response(None, Some(FinishReason::Stop), false);
        {
            let delta = &mut response.data.as_mut().unwrap().inner.choices[0].delta;
            match kind {
                0 => delta.role = Some(Role::Assistant),
                1 => delta.content = Some(ChatCompletionMessageContent::Parts(Vec::new())),
                2 => delta.tool_calls = Some(Vec::new()),
                3 => {
                    delta.function_call = Some(FunctionCallStream {
                        name: None,
                        arguments: None,
                    })
                }
                4 => delta.refusal = Some(String::new()),
                _ => delta.reasoning_content = Some(String::new()),
            }
        }
        assert_eq!(split_merged_stop_response(response).len(), 2);
    }
}

#[test]
fn parts_of_a_split_need_no_further_split() {
    let response = make_response(Some("hello"), Some(FinishReason::Stop), true);
    for part in split_merged_stop_response(response) {
        assert_eq!(split_merged_stop_response(part).len(), 1);
    }
}
