use wire_adapters::chat_stream::{
    is_end_mark, merge_function_delta, ChatCompletionChoice, ChatCompletionChunk, ChatCompletionDelta,
    ChatCompletionStreamState, ChatCompletionTokensDetails, ChatCompletionUsage,
    ChatFunctionCallDelta, ChatPoll, ChatPromptTokensDetails, ChatToolCallDelta,
    ChatToolCallState,
};
use wire_adapters::protocol::{
    ApiError, ContentItem, ReasoningItemContent, ResponseEvent, ResponseItem, StreamResult,
    TokenUsage,
};

fn nothing() -> ChatCompletionDelta {
    ChatCompletionDelta {
        content: None,
        reasoning_content: None,
        function_call: None,
        tool_calls: None,
    }
}

fn said(text: &str) -> ChatCompletionDelta {
    ChatCompletionDelta { content: Some(text.to_string()), ..nothing() }
}

fn thought(text: &str) -> ChatCompletionDelta {
    ChatCompletionDelta { reasoning_content: Some(text.to_string()), ..nothing() }
}

fn function(name: Option<&str>, arguments: Option<&str>) -> ChatFunctionCallDelta {
    ChatFunctionCallDelta {
        name: name.map(str::to_string),
        arguments: arguments.map(str::to_string),
    }
}

fn call(
    index: usize,
    id: Option<&str>,
    name: Option<&str>,
    arguments: Option<&str>,
) -> ChatToolCallDelta {
    ChatToolCallDelta {
        index,
        id: id.map(str::to_string),
        function: Some(function(name, arguments)),
    }
}

fn calls(calls: Vec<ChatToolCallDelta>) -> ChatCompletionDelta {
    ChatCompletionDelta { tool_calls: Some(calls), ..nothing() }
}

fn chunk(
    id: &str,
    model: Option<&str>,
    delta: ChatCompletionDelta,
    finish_reason: Option<&str>,
) -> ChatCompletionChunk {
    ChatCompletionChunk {
        id: Some(id.to_string()),
        model: model.map(str::to_string),
        choices: vec![ChatCompletionChoice {
            delta,
            finish_reason: finish_reason.map(str::to_string),
        }],
        usage: None,
    }
}

fn poll(chunk: ChatCompletionChunk) -> ChatPoll {
    ChatPoll::Event { data: "{}".to_string(), chunk: Some(chunk) }
}

fn data(text: &str) -> ChatPoll {
    ChatPoll::Event { data: text.to_string(), chunk: None }
}

/// Hands the polls to a new answer until one ends it, and tells what was sent
/// and whether it ended.
fn run(polls: Vec<ChatPoll>) -> (Vec<StreamResult>, bool) {
    let mut state = ChatCompletionStreamState::default();
    let mut sent = Vec::new();
    for poll in polls {
        let step = state.on_poll(poll);
        sent.extend(step.events);
        if step.done {
            return (sent, true);
        }
    }
    (sent, false)
}

fn events(polls: Vec<ChatPoll>) -> Vec<ResponseEvent> {
    let (sent, done) = run(polls);
    assert!(done);
    sent.into_iter().map(|event| event.expect("event should be ok")).collect()
}

#[test]
fn chat_completion_stream_maps_text_tool_and_usage() {
    let mut last = chunk(
        "chatcmpl-1",
        None,
        calls(vec![call(
            0,
            Some("call_1"),
            Some("local_shell"),
            Some("{\"command\":[\"pwd\"]}"),
        )]),
        Some("tool_calls"),
    );
    last.usage = Some(ChatCompletionUsage {
        prompt_tokens: 10,
        completion_tokens: 4,
        total_tokens: 14,
        prompt_tokens_details: Some(ChatPromptTokensDetails { cached_tokens: Some(3) }),
        completion_tokens_details: Some(ChatCompletionTokensDetails {
            reasoning_tokens: Some(0),
        }),
    });
    let events = events(vec![
        poll(chunk("chatcmpl-1", Some("gpt-test"), said("hello"), None)),
        poll(last),
    ]);

    assert!(matches!(events[0], ResponseEvent::Created));
    assert!(matches!(
        &events[1],
        ResponseEvent::ServerModel(model) if model == "gpt-test"
    ));
    assert!(matches!(
        events[2],
        ResponseEvent::OutputItemAdded(ResponseItem::Message { .. })
    ));
    assert!(matches!(
        &events[3],
        ResponseEvent::OutputTextDelta(delta) if delta == "hello"
    ));
    assert!(matches!(
        events[4],
        ResponseEvent::OutputItemDone(ResponseItem::Message { .. })
    ));
    assert!(matches!(
        &events[5],
        ResponseEvent::OutputItemDone(ResponseItem::FunctionCall {
            id: Some(id),
            name,
            namespace: None,
            arguments,
            call_id,
        }) if id == "call_1"
            && name == "local_shell"
            && arguments == "{\"command\":[\"pwd\"]}"
            && call_id == "call_1"
    ));
    assert!(matches!(
        &events[6],
        ResponseEvent::Completed {
            response_id,
            token_usage: Some(usage),
            end_turn: Some(true),
        } if response_id == "chatcmpl-1"
            && *usage == (TokenUsage {
                input_tokens: 10,
                cached_input_tokens: 3,
                output_tokens: 4,
                reasoning_output_tokens: 0,
                total_tokens: 14,
            })
    ));
    assert_eq!(events.len(), 7);
}

#[test]
fn chat_completion_stream_maps_reasoning_content_with_tool_calls() {
    let mut last = chunk(
        "chatcmpl-deepseek",
        None,
        calls(vec![call(
            0,
            Some("call_1"),
            Some("local_shell"),
            Some("{\"command\":[\"pwd\"]}"),
        )]),
        Some("tool_calls"),
    );
    last.usage = Some(ChatCompletionUsage {
        prompt_tokens: 10,
        completion_tokens: 4,
        total_tokens: 14,
        prompt_tokens_details: None,
        completion_tokens_details: Some(ChatCompletionTokensDetails {
            reasoning_tokens: Some(2),
        }),
    });
    let events = events(vec![
        poll(chunk(
            "chatcmpl-deepseek",
            Some("deepseek-v4-flash"),
            thought("need a tool"),
            None,
        )),
        poll(last),
    ]);

    assert!(matches!(events[0], ResponseEvent::Created));
    assert!(matches!(
        &events[1],
        ResponseEvent::ServerModel(model) if model == "deepseek-v4-flash"
    ));
    assert!(matches!(
        events[2],
        ResponseEvent::OutputItemAdded(ResponseItem::Reasoning { .. })
    ));
    assert!(matches!(
        &events[3],
        ResponseEvent::ReasoningContentDelta {
            delta,
            content_index: 0,
        } if delta == "need a tool"
    ));
    assert!(matches!(
        &events[4],
        ResponseEvent::OutputItemDone(ResponseItem::Reasoning {
            id,
            summary,
            content: Some(content),
            encrypted_content: None,
        }) if id == "chatcmpl-deepseek:reasoning"
            && summary.is_empty()
            && content == &vec![ReasoningItemContent::ReasoningText {
                text: "need a tool".to_string()
            }]
    ));
    assert!(matches!(
        &events[5],
        ResponseEvent::OutputItemDone(ResponseItem::FunctionCall {
            id: Some(id),
            name,
            namespace: None,
            arguments,
            call_id,
        }) if id == "call_1"
            && name == "local_shell"
            && arguments == "{\"command\":[\"pwd\"]}"
            && call_id == "call_1"
    ));
    assert!(matches!(
        &events[6],
        ResponseEvent::Completed {
            response_id,
            token_usage: Some(usage),
            end_turn: Some(true),
        } if response_id == "chatcmpl-deepseek"
            && *usage == (TokenUsage {
                input_tokens: 10,
                cached_input_tokens: 0,
                output_tokens: 4,
                reasoning_output_tokens: 2,
                total_tokens: 14,
            })
    ));
}

#[test]
fn chat_completion_stream_maps_think_tags_to_raw_reasoning() {
    let events = events(vec![
        poll(chunk("chatcmpl-think", Some("MiniMax-M2.7"), said("<thi"), None)),
        poll(chunk("chatcmpl-think", None, said("nk> 用户用中文"), None)),
        poll(chunk(
            "chatcmpl-think",
            None,
            said("打招呼 </think>\n你好！"),
            Some("stop"),
        )),
    ]);

    assert!(matches!(events[0], ResponseEvent::Created));
    assert!(matches!(
        &events[1],
        ResponseEvent::ServerModel(model) if model == "MiniMax-M2.7"
    ));
    assert!(matches!(
        events[2],
        ResponseEvent::OutputItemAdded(ResponseItem::Reasoning { .. })
    ));
    assert!(matches!(
        &events[3],
        ResponseEvent::ReasoningContentDelta {
            delta,
            content_index: 0,
        } if delta == " 用户用中文"
    ));
    assert!(matches!(
        &events[4],
        ResponseEvent::ReasoningContentDelta {
            delta,
            content_index: 0,
        } if delta == "打招呼 "
    ));
    assert!(matches!(
        &events[5],
        ResponseEvent::OutputItemDone(ResponseItem::Reasoning {
            id,
            summary,
            content: Some(content),
            encrypted_content: None,
        }) if id == "chatcmpl-think:reasoning"
            && summary.is_empty()
            && content == &vec![ReasoningItemContent::ReasoningText {
                text: " 用户用中文打招呼 ".to_string()
            }]
    ));
    assert!(matches!(
        events[6],
        ResponseEvent::OutputItemAdded(ResponseItem::Message { .. })
    ));
    assert!(matches!(
        &events[7],
        ResponseEvent::OutputTextDelta(delta) if delta == "\n你好！"
    ));
    assert!(matches!(
        &events[8],
        ResponseEvent::OutputItemDone(ResponseItem::Message {
            content,
            ..
        }) if content == &vec![ContentItem::OutputText {
            text: "\n你好！".to_string()
        }]
    ));
    assert!(matches!(
        &events[9],
        ResponseEvent::Completed {
            response_id,
            token_usage: None,
            end_turn: Some(true),
        } if response_id == "chatcmpl-think"
    ));
}

#[test]
fn done_ends_an_answer_of_which_nothing_came() {
    let (sent, done) = run(vec![data(" [DONE]\n")]);
    assert!(done);
    assert_eq!(
        sent,
        vec![Ok(ResponseEvent::Completed {
            response_id: "chatcmpl".to_string(),
            token_usage: None,
            end_turn: Some(true),
        })]
    );
}

#[test]
fn what_cannot_be_decoded_is_passed_over() {
    let (sent, done) = run(vec![data("nonsense"), data("[done]"), data("x [DONE]")]);
    assert!(!done);
    assert_eq!(sent, vec![]);
}

#[test]
fn chat_streams_break_off() {
    let (sent, done) = run(vec![ChatPoll::Failed("no route".to_string())]);
    assert!(done);
    assert_eq!(sent, vec![Err(ApiError::Stream("no route".to_string()))]);
    let (sent, done) = run(vec![ChatPoll::Closed]);
    assert!(done);
    assert_eq!(
        sent,
        vec![Err(ApiError::Stream(
            "stream closed before chat completion finished".to_string()
        ))]
    );
    let (sent, done) = run(vec![ChatPoll::TimedOut]);
    assert!(done);
    assert_eq!(
        sent,
        vec![Err(ApiError::Stream("idle timeout waiting for SSE".to_string()))]
    );
}

#[test]
fn an_answer_is_created_once_and_a_model_told_when_it_changes() {
    let (sent, _) = run(vec![
        poll(chunk("a", Some("m"), nothing(), None)),
        poll(chunk("b", Some("m"), nothing(), None)),
        poll(chunk("c", Some("n"), nothing(), None)),
        data("[DONE]"),
    ]);
    assert_eq!(
        sent,
        vec![
            Ok(ResponseEvent::Created),
            Ok(ResponseEvent::ServerModel("m".to_string())),
            Ok(ResponseEvent::ServerModel("n".to_string())),
            Ok(ResponseEvent::Completed {
                response_id: "a".to_string(),
                token_usage: None,
                end_turn: Some(true),
            }),
        ]
    );
}

#[test]
fn arguments_of_interleaved_calls_are_put_together() {
    let sent = events(vec![
        poll(chunk("r", None, calls(vec![call(7, None, Some("b"), Some("{\"x\""))]), None)),
        poll(chunk(
            "r",
            None,
            calls(vec![
                call(2, Some("two"), Some("a"), None),
                call(7, None, None, Some(":1}")),
                call(9, Some("nine"), None, Some("lost")),
            ]),
            None,
        )),
        poll(chunk("r", None, calls(vec![call(2, None, None, Some("{}"))]), Some("stop"))),
    ]);
    let named: Vec<(String, String, String)> = sent
        .into_iter()
        .filter_map(|event| match event {
            ResponseEvent::OutputItemDone(ResponseItem::FunctionCall {
                name,
                arguments,
                call_id,
                ..
            }) => Some((call_id, name, arguments)),
            _ => None,
        })
        .collect();
    assert_eq!(
        named,
        vec![
            ("two".to_string(), "a".to_string(), "{}".to_string()),
            ("r:tool_call:7".to_string(), "b".to_string(), "{\"x\":1}".to_string()),
        ]
    );
}

#[test]
fn an_old_function_call_is_the_first_tool_call() {
    let sent = events(vec![
        poll(chunk(
            "r",
            None,
            ChatCompletionDelta { function_call: Some(function(Some("f"), Some("1"))), ..nothing() },
            None,
        )),
        poll(chunk("r", None, calls(vec![call(0, Some("id"), None, Some("2"))]), Some("stop"))),
    ]);
    assert_eq!(
        sent[1],
        ResponseEvent::OutputItemDone(ResponseItem::FunctionCall {
            id: Some("id".to_string()),
            name: "f".to_string(),
            namespace: None,
            arguments: "12".to_string(),
            call_id: "id".to_string(),
        })
    );
}

#[test]
fn text_behind_closed_reasoning_is_not_sent_as_reasoning() {
    let sent = events(vec![
        poll(chunk("r", None, said("<think>a</think>b<think>c</think>d"), None)),
        data("[DONE]"),
    ]);
    assert_eq!(
        sent,
        vec![
            ResponseEvent::Created,
            ResponseEvent::OutputItemAdded(ResponseItem::Reasoning {
                id: "r:reasoning".to_string(),
                summary: vec![],
                content: None,
                encrypted_content: None,
            }),
            ResponseEvent::ReasoningContentDelta { delta: "a".to_string(), content_index: 0 },
            ResponseEvent::OutputItemDone(ResponseItem::Reasoning {
                id: "r:reasoning".to_string(),
                summary: vec![],
                content: Some(vec![ReasoningItemContent::ReasoningText { text: "a".to_string() }]),
                encrypted_content: None,
            }),
            ResponseEvent::OutputItemAdded(ResponseItem::Message {
                id: Some("r:message".to_string()),
                role: "assistant".to_string(),
                content: vec![],
                phase: None,
            }),
            ResponseEvent::OutputTextDelta("b".to_string()),
            ResponseEvent::OutputTextDelta("d".to_string()),
            ResponseEvent::OutputItemDone(ResponseItem::Message {
                id: Some("r:message".to_string()),
                role: "assistant".to_string(),
                content: vec![ContentItem::OutputText { text: "bd".to_string() }],
                phase: None,
            }),
            ResponseEvent::Completed {
                response_id: "r".to_string(),
                token_usage: None,
                end_turn: Some(true),
            },
        ]
    );
}

#[test]
fn a_tag_that_never_ends_comes_out_at_the_end() {
    let sent = events(vec![poll(chunk("r", None, said("hi <thi"), None)), data("[DONE]")]);
    assert!(sent.contains(&ResponseEvent::OutputTextDelta("hi ".to_string())));
    assert!(sent.contains(&ResponseEvent::OutputTextDelta("<thi".to_string())));
}

#[test]
fn choices_behind_the_end_do_not_count() {
    let mut last = chunk("r", None, said("a"), Some("stop"));
    last.choices.push(ChatCompletionChoice { delta: said("b"), finish_reason: None });
    let sent = events(vec![poll(last)]);
    assert!(sent.contains(&ResponseEvent::OutputTextDelta("a".to_string())));
    assert!(!sent.contains(&ResponseEvent::OutputTextDelta("b".to_string())));
}

#[test]
fn function_deltas_are_merged() {
    let mut state = ChatToolCallState::default();
    merge_function_delta(&mut state, function(Some("f"), Some("{")));
    merge_function_delta(&mut state, function(None, Some("}")));
    merge_function_delta(&mut state, function(Some("g"), None));
    assert_eq!(state.name.as_deref(), Some("g"));
    assert_eq!(state.arguments, "{}");
    assert_eq!(state.id, None);
}

#[test]
fn usage_without_details_counts_nothing_for_them() {
    let usage = TokenUsage::from(ChatCompletionUsage {
        prompt_tokens: 1,
        completion_tokens: 2,
        total_tokens: 4,
        prompt_tokens_details: Some(ChatPromptTokensDetails { cached_tokens: None }),
        completion_tokens_details: None,
    });
    assert_eq!(
        usage,
        TokenUsage {
            input_tokens: 1,
            cached_input_tokens: 0,
            output_tokens: 2,
            reasoning_output_tokens: 0,
            total_tokens: 4,
        }
    );
}

#[test]
fn made_up_ids_differ() {
    let sent = events(vec![
        poll(chunk(
            "r",
            None,
            calls(vec![call(11, None, Some("b"), None), call(1, None, Some("a"), None)]),
            None,
        )),
        data("[DONE]"),
    ]);
    let ids: Vec<String> = sent
        .into_iter()
        .filter_map(|event| match event {
            ResponseEvent::OutputItemDone(ResponseItem::FunctionCall { call_id, .. }) => {
                Some(call_id)
            }
            _ => None,
        })
        .collect();
    assert_eq!(ids, vec!["r:tool_call:1".to_string(), "r:tool_call:11".to_string()]);
}

#[test]
fn reasoning_and_text_of_one_choice_come_in_order() {
    let delta = ChatCompletionDelta {
        content: Some("b".to_string()),
        reasoning_content: Some("a".to_string()),
        ..nothing()
    };
    let sent = events(vec![poll(chunk("r", None, delta, Some("stop")))]);
    assert_eq!(
        sent[2],
        ResponseEvent::ReasoningContentDelta { delta: "a".to_string(), content_index: 0 }
    );
    assert!(matches!(
        sent[3],
        ResponseEvent::OutputItemDone(ResponseItem::Reasoning { .. })
    ));
    assert_eq!(sent[5], ResponseEvent::OutputTextDelta("b".to_string()));
}

#[test]
fn the_end_mark_may_stand_in_white_space() {
    assert!(is_end_mark(" [DONE]\n"));
    assert!(!is_end_mark("[DONE]]"));
    assert!(!is_end_mark(""));
}

#[test]
fn a_message_is_told_just_where_there_is_text() {
    let sent = events(vec![
        poll(chunk("r", None, said(""), None)),
        poll(chunk("r", None, said("<think>a</think>"), None)),
        data("[DONE]"),
    ]);
    assert!(!sent.iter().any(|event| matches!(
        event,
        ResponseEvent::OutputItemAdded(ResponseItem::Message { .. })
            | ResponseEvent::OutputItemDone(ResponseItem::Message { .. })
            | ResponseEvent::OutputTextDelta(_)
    )));
}

#[test]
fn a_message_is_opened_before_its_text_and_closed_after() {
    let sent = events(vec![
        poll(chunk("r", None, said("a"), None)),
        poll(chunk("r", None, thought("b"), None)),
        poll(chunk("r", None, said("c"), Some("stop"))),
    ]);
    let place = |wanted: &dyn Fn(&ResponseEvent) -> bool| -> Vec<usize> {
        (0..sent.len()).filter(|i| wanted(&sent[*i])).collect()
    };
    let opened = place(&|event| {
        matches!(event, ResponseEvent::OutputItemAdded(ResponseItem::Message { .. }))
    });
    let said = place(&|event| matches!(event, ResponseEvent::OutputTextDelta(_)));
    let closed = place(&|event| {
        matches!(event, ResponseEvent::OutputItemDone(ResponseItem::Message { .. }))
    });
    assert_eq!((opened.len(), said.len(), closed.len()), (1, 2, 1));
    assert!(opened[0] < said[0] && said[1] < closed[0]);
    assert!(matches!(sent[sent.len() - 1], ResponseEvent::Completed { .. }));
}

#[test]
fn a_step_sends_the_same_whatever_was_sent() {
    let mut state = ChatCompletionStreamState::default();
    let first = state.on_poll(poll(chunk("r", None, said("a"), None)));
    let second = state.on_poll(poll(chunk("r", None, said("b"), None)));
    let mut parts = first.events;
    parts.extend(second.events);
    let (whole, _) = run(vec![
        poll(chunk("r", None, said("a"), None)),
        poll(chunk("r", None, said("b"), None)),
    ]);
    assert_eq!(parts, whole);
}
