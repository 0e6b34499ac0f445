use serde_json::Value;
use wire_adapters::anthropic_stream::{
    finish_content_block, AnthropicBlockState, AnthropicContentBlockStart, AnthropicDelta,
    AnthropicError, AnthropicMessageStart, AnthropicPoll, AnthropicStreamEvent,
    AnthropicStreamState, AnthropicUsage, AnthropicUsageDelta,
};
use wire_adapters::protocol::{
    ApiError, ContentItem, ReasoningItemReasoningSummary, ResponseEvent, ResponseItem,
    StreamResult, TokenUsage,
};

fn event(kind: &str) -> AnthropicStreamEvent {
    AnthropicStreamEvent {
        kind: kind.to_string(),
        message: None,
        index: None,
        content_block: None,
        delta: None,
        usage: None,
        error: None,
    }
}

fn delta(kind: &str) -> AnthropicDelta {
    AnthropicDelta {
        kind: Some(kind.to_string()),
        text: None,
        partial_json: None,
        thinking: None,
        stop_reason: None,
    }
}

fn message_start(id: &str, usage: Option<AnthropicUsage>) -> AnthropicStreamEvent {
    AnthropicStreamEvent {
        message: Some(AnthropicMessageStart { id: id.to_string(), usage }),
        ..event("message_start")
    }
}

fn block_start(index: usize, block: AnthropicContentBlockStart) -> AnthropicStreamEvent {
    AnthropicStreamEvent {
        index: Some(index),
        content_block: Some(block),
        ..event("content_block_start")
    }
}

fn text_start(index: usize, text: Option<&str>) -> AnthropicStreamEvent {
    block_start(index, AnthropicContentBlockStart::Text { text: text.map(str::to_string) })
}

fn tool_start(index: usize, id: &str, name: &str, input: Option<&str>) -> AnthropicStreamEvent {
    block_start(
        index,
        AnthropicContentBlockStart::ToolUse {
            id: id.to_string(),
            name: name.to_string(),
            input: input.map(|text| serde_json::from_str::<Value>(text).unwrap()),
        },
    )
}

fn block_delta(index: usize, delta: AnthropicDelta) -> AnthropicStreamEvent {
    AnthropicStreamEvent { index: Some(index), delta: Some(delta), ..event("content_block_delta") }
}

fn text_delta(index: usize, text: &str) -> AnthropicStreamEvent {
    block_delta(index, AnthropicDelta { text: Some(text.to_string()), ..delta("text_delta") })
}

fn input_delta(index: usize, piece: &str) -> AnthropicStreamEvent {
    block_delta(
        index,
        AnthropicDelta { partial_json: Some(piece.to_string()), ..delta("input_json_delta") },
    )
}

fn thinking_delta(index: usize, piece: &str) -> AnthropicStreamEvent {
    block_delta(
        index,
        AnthropicDelta { thinking: Some(piece.to_string()), ..delta("thinking_delta") },
    )
}

fn block_stop(index: usize) -> AnthropicStreamEvent {
    AnthropicStreamEvent { index: Some(index), ..event("content_block_stop") }
}

fn message_delta(stop_reason: Option<&str>, output_tokens: Option<i64>) -> AnthropicStreamEvent {
    AnthropicStreamEvent {
        delta: Some(AnthropicDelta {
            stop_reason: stop_reason.map(str::to_string),
            ..delta("message_delta")
        }),
        usage: Some(AnthropicUsageDelta { output_tokens }),
        ..event("message_delta")
    }
}

/// Hands the events to a new answer until one ends it, and tells what was sent
/// and whether it ended.
fn run(events: Vec<AnthropicStreamEvent>) -> (Vec<StreamResult>, bool) {
    let mut state = AnthropicStreamState::default();
    let mut sent = Vec::new();
    for event in events {
        assert!(state.usage_fits());
        let step = state.on_poll(AnthropicPoll::Event(Some(event)));
        sent.extend(step.events);
        if step.done {
            return (sent, true);
        }
    }
    (sent, false)
}

fn events(list: Vec<AnthropicStreamEvent>) -> Vec<ResponseEvent> {
    let (sent, _) = run(list);
    sent.into_iter().map(|event| event.expect("event should be ok")).collect()
}

#[test]
fn anthropic_stream_maps_text_tool_and_usage() {
    let (sent, done) = run(vec![
        message_start("msg_1", Some(AnthropicUsage { input_tokens: 12, output_tokens: 0 })),
        text_start(0, Some("")),
        text_delta(0, "checking"),
        block_stop(0),
        tool_start(1, "toolu_1", "local_shell", Some("{}")),
        input_delta(1, "{\"command\":[\"pwd\"]}"),
        block_stop(1),
        message_delta(Some("tool_use"), Some(7)),
        event("message_stop"),
    ]);
    assert!(done);
    let events: Vec<ResponseEvent> =
        sent.into_iter().map(|event| event.expect("event should be ok")).collect();

    assert!(matches!(events[0], ResponseEvent::Created));
    assert!(matches!(
        events[1],
        ResponseEvent::OutputItemAdded(ResponseItem::Message { .. })
    ));
    assert!(matches!(
        &events[2],
        ResponseEvent::OutputTextDelta(delta) if delta == "checking"
    ));
    assert!(matches!(
        events[3],
        ResponseEvent::OutputItemDone(ResponseItem::Message { .. })
    ));
    assert!(matches!(
        &events[4],
        ResponseEvent::OutputItemDone(ResponseItem::FunctionCall {
            id: Some(id),
            name,
            namespace: None,
            arguments,
            call_id,
        }) if id == "toolu_1"
            && name == "local_shell"
            && arguments == "{\"command\":[\"pwd\"]}"
            && call_id == "toolu_1"
    ));
    assert!(matches!(
        &events[5],
        ResponseEvent::Completed {
            response_id,
            token_usage: Some(usage),
            end_turn: Some(false),
        } if response_id == "msg_1"
            && *usage == (TokenUsage {
                input_tokens: 12,
                cached_input_tokens: 0,
                output_tokens: 7,
                reasoning_output_tokens: 0,
                total_tokens: 19,
            })
    ));
}

#[test]
fn interleaved_blocks_are_put_together() {
    let sent = events(vec![
        message_start("m", None),
        text_start(3, Some("a")),
        tool_start(5, "t", "f", None),
        text_delta(3, "b"),
        input_delta(5, "{\"x\""),
        thinking_delta(8, "hm"),
        text_delta(3, "c"),
        input_delta(5, ":1}"),
        thinking_delta(8, "m"),
        block_stop(8),
        block_stop(5),
        block_stop(3),
    ]);
    assert_eq!(
        sent,
        vec![
            ResponseEvent::Created,
            ResponseEvent::OutputItemAdded(ResponseItem::Message {
                id: Some("m:text:3".to_string()),
                role: "assistant".to_string(),
                content: vec![ContentItem::OutputText { text: "a".to_string() }],
                phase: None,
            }),
            ResponseEvent::OutputTextDelta("b".to_string()),
            ResponseEvent::OutputTextDelta("c".to_string()),
            ResponseEvent::OutputItemDone(ResponseItem::Reasoning {
                id: "m:thinking:8".to_string(),
                summary: vec![ReasoningItemReasoningSummary::SummaryText {
                    text: "hmm".to_string()
                }],
                content: None,
                encrypted_content: None,
            }),
            ResponseEvent::OutputItemDone(ResponseItem::FunctionCall {
                id: Some("t".to_string()),
                name: "f".to_string(),
                namespace: None,
                arguments: "{\"x\":1}".to_string(),
                call_id: "t".to_string(),
            }),
            ResponseEvent::OutputItemDone(ResponseItem::Message {
                id: Some("m:text:3".to_string()),
                role: "assistant".to_string(),
                content: vec![ContentItem::OutputText { text: "abc".to_string() }],
                phase: None,
            }),
        ]
    );
}

#[test]
fn input_without_pieces_is_the_one_it_began_with() {
    let state = AnthropicStreamState::default();
    let input: Value = serde_json::from_str("{\"b\": [1, true], \"a\": null}").unwrap();
    let block = AnthropicBlockState::ToolUse {
        id: "t".to_string(),
        name: "f".to_string(),
        initial_input: Some(input.clone()),
        partial_json: String::new(),
    };
    match finish_content_block(&state, 0, block) {
        Some(ResponseItem::FunctionCall { arguments, .. }) => {
            assert_eq!(arguments, "{\"a\":null,\"b\":[1,true]}");
            assert_eq!(serde_json::from_str::<Value>(&arguments).unwrap(), input);
        }
        other => panic!("{other:?}"),
    }
    let block = AnthropicBlockState::ToolUse {
        id: "t".to_string(),
        name: "f".to_string(),
        initial_input: None,
        partial_json: String::new(),
    };
    match finish_content_block(&state, 0, block) {
        Some(ResponseItem::FunctionCall { arguments, .. }) => assert_eq!(arguments, "{}"),
        other => panic!("{other:?}"),
    }
}

#[test]
fn other_blocks_become_nothing() {
    let sent = events(vec![
        block_start(0, AnthropicContentBlockStart::Other),
        text_delta(0, "lost"),
        block_stop(0),
        AnthropicStreamEvent { index: Some(1), ..event("content_block_start") },
        block_stop(1),
        block_stop(9),
    ]);
    assert_eq!(sent, vec![]);
}

#[test]
fn pieces_of_another_kind_change_nothing() {
    let sent = events(vec![
        text_start(0, None),
        input_delta(0, "x"),
        thinking_delta(0, "y"),
        block_delta(0, delta("text_delta")),
        text_delta(1, "z"),
        block_stop(0),
    ]);
    assert_eq!(
        sent[1],
        ResponseEvent::OutputItemDone(ResponseItem::Message {
            id: Some("anthropic-message:text:0".to_string()),
            role: "assistant".to_string(),
            content: vec![],
            phase: None,
        })
    );
    assert_eq!(sent.len(), 2);
}

#[test]
fn events_without_an_index_or_a_known_kind_are_passed_over() {
    let sent = events(vec![
        event("ping"),
        event("content_block_start"),
        event("content_block_delta"),
        AnthropicStreamEvent { index: Some(0), ..event("content_block_delta") },
        event("content_block_stop"),
    ]);
    assert_eq!(sent, vec![]);
}

#[test]
fn the_reason_to_stop_decides_on_the_turn() {
    for (reason, ends) in [
        (Some("end_turn"), true),
        (Some("tool_use"), false),
        (Some("max_tokens"), false),
        (None, true),
    ] {
        let sent = events(vec![message_delta(reason, None), event("message_stop")]);
        assert_eq!(
            sent,
            vec![ResponseEvent::Completed {
                response_id: "anthropic-message".to_string(),
                token_usage: None,
                end_turn: Some(ends),
            }]
        );
    }
}

#[test]
fn usage_is_added_up_where_it_fits() {
    let state = AnthropicStreamState {
        input_tokens: Some(i64::MAX),
        output_tokens: Some(1),
        ..AnthropicStreamState::default()
    };
    assert!(!state.usage_fits());
    let state = AnthropicStreamState {
        input_tokens: Some(i64::MAX),
        ..AnthropicStreamState::default()
    };
    assert!(state.usage_fits());
    assert_eq!(state.token_usage().unwrap().total_tokens, i64::MAX);
    assert_eq!(AnthropicStreamState::default().token_usage(), None);
}

#[test]
fn anthropic_streams_break_off() {
    let cases = vec![
        (AnthropicPoll::Failed("no route".to_string()), "no route"),
        (AnthropicPoll::Closed, "stream closed before anthropic message_stop"),
        (AnthropicPoll::TimedOut, "idle timeout waiting for SSE"),
        (AnthropicPoll::Event(Some(event("error"))), "Anthropic stream error"),
        (
            AnthropicPoll::Event(Some(AnthropicStreamEvent {
                error: Some(AnthropicError { message: "overloaded".to_string() }),
                ..event("error")
            })),
            "overloaded",
        ),
    ];
    for (poll, message) in cases {
        let mut state = AnthropicStreamState::default();
        let step = state.on_poll(poll);
        assert!(step.done);
        assert_eq!(step.events, vec![Err(ApiError::Stream(message.to_string()))]);
    }
    let mut state = AnthropicStreamState::default();
    let step = state.on_poll(AnthropicPoll::Event(None));
    assert!(!step.done);
    assert_eq!(step.events, vec![]);
}
