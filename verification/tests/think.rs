use wire_adapters::think::{
    longest_suffix_prefix_len, push_reasoning_segment, push_visible_segment, safe_drain_len,
    ThinkSegment, ThinkTagParser,
};

fn visible(text: &str) -> ThinkSegment {
    ThinkSegment::Visible(text.to_string())
}

fn reasoning(text: &str) -> ThinkSegment {
    ThinkSegment::Reasoning(text.to_string())
}

/// What all segments say, of either kind.
fn sorted(segments: &[ThinkSegment]) -> (String, String) {
    let mut said = String::new();
    let mut thought = String::new();
    for segment in segments {
        match segment {
            ThinkSegment::Visible(text) => said.push_str(text),
            ThinkSegment::Reasoning(text) => thought.push_str(text),
        }
    }
    (said, thought)
}

#[test]
fn think_tag_parser_handles_split_tags() {
    let mut parser = ThinkTagParser::default();

    assert_eq!(parser.push("<thi"), Vec::<ThinkSegment>::new());
    assert_eq!(
        parser.push("nk> 用户用中文</th"),
        vec![ThinkSegment::Reasoning(" 用户用中文".to_string())]
    );
    assert_eq!(
        parser.push("ink>\n你好"),
        vec![ThinkSegment::Visible("\n你好".to_string())]
    );
    assert_eq!(parser.finish(), Vec::<ThinkSegment>::new());
}

#[test]
fn whole_text_is_read_at_once() {
    let mut parser = ThinkTagParser::default();
    assert_eq!(
        parser.push("a<think>b</think>c<think>d</think>e"),
        vec![visible("a"), reasoning("b"), visible("c"), reasoning("d"), visible("e")]
    );
    assert_eq!(parser.finish(), vec![]);
}

#[test]
fn pieces_do_not_matter() {
    let text = "x<<think>th<ought</thin</think>> y </think> <thinking";
    let mut whole = ThinkTagParser::default();
    let mut once = whole.push(text);
    once.extend(whole.finish());
    let mut split = ThinkTagParser::default();
    let mut many = Vec::new();
    for c in text.chars() {
        many.extend(split.push(&c.to_string()));
    }
    many.extend(split.finish());
    assert_eq!(sorted(&once), sorted(&many));
    assert_eq!(
        sorted(&once),
        ("x<> y </think> <thinking".to_string(), "th<ought</thin".to_string())
    );
}

#[test]
fn only_the_beginning_of_a_tag_is_held_back() {
    let mut parser = ThinkTagParser::default();
    assert_eq!(parser.push("hello <th"), vec![visible("hello ")]);
    assert_eq!(parser.push("at"), vec![visible("<that")]);
    assert_eq!(parser.push("<think"), vec![]);
    assert_eq!(parser.finish(), vec![visible("<think")]);
}

#[test]
fn an_open_tag_is_flushed_as_reasoning() {
    let mut parser = ThinkTagParser::default();
    assert_eq!(parser.push("<think>half</thi"), vec![reasoning("half")]);
    assert_eq!(parser.finish(), vec![reasoning("</thi")]);
    assert_eq!(parser.finish(), vec![]);
}

#[test]
fn the_other_tag_is_text() {
    let mut parser = ThinkTagParser::default();
    assert_eq!(parser.push("</think>a"), vec![visible("</think>a")]);
    assert_eq!(parser.push("<think><think>b"), vec![reasoning("<think>b")]);
}

#[test]
fn drain_flushes_or_holds_back() {
    let mut parser = ThinkTagParser { buffer: "a<".to_string(), in_think: false };
    assert_eq!(parser.drain(false), vec![visible("a")]);
    assert_eq!(parser.buffer, "<");
    assert_eq!(parser.drain(true), vec![visible("<")]);
    assert_eq!(parser.buffer, "");
}

#[test]
fn overlaps_are_measured_in_bytes() {
    assert_eq!(longest_suffix_prefix_len("", "<think>"), 0);
    assert_eq!(longest_suffix_prefix_len("abc", "<think>"), 0);
    assert_eq!(longest_suffix_prefix_len("a<thin", "<think>"), 5);
    assert_eq!(longest_suffix_prefix_len("<think>", "<think>"), 0);
    assert_eq!(longest_suffix_prefix_len("<<", "<think>"), 1);
    assert_eq!(safe_drain_len("用<th", "<think>"), 3);
    assert_eq!(safe_drain_len("<th", "<think>"), 0);
    assert_eq!(safe_drain_len("用", "</think>"), 3);
}

#[test]
fn empty_segments_are_left_out() {
    let mut segments = Vec::new();
    push_visible_segment(&mut segments, "");
    push_reasoning_segment(&mut segments, "");
    assert_eq!(segments, vec![]);
    push_visible_segment(&mut segments, "a");
    push_reasoning_segment(&mut segments, "b");
    assert_eq!(segments, vec![visible("a"), reasoning("b")]);
}

/// The segments with neighbours of the same kind joined.
fn coalesced(segments: Vec<ThinkSegment>) -> Vec<ThinkSegment> {
    let mut joined: Vec<ThinkSegment> = Vec::new();
    for segment in segments {
        match (joined.last_mut(), segment) {
            (Some(ThinkSegment::Visible(last)), ThinkSegment::Visible(text)) => last.push_str(&text),
            (Some(ThinkSegment::Reasoning(last)), ThinkSegment::Reasoning(text)) => {
                last.push_str(&text)
            }
            (_, segment) => joined.push(segment),
        }
    }
    joined
}

#[test]
fn cuts_do_not_matter_to_a_parser_in_use() {
    let text = "nk>思考</think>b<think>c</th";
    for in_think in [false, true] {
        let parser = || ThinkTagParser { buffer: "<thi".to_string(), in_think };
        let mut whole = parser();
        let mut once = whole.push(text);
        once.extend(whole.finish());
        let once = coalesced(once);
        for (cut, _) in text.char_indices() {
            let mut cut_up = parser();
            let mut twice = cut_up.push(&text[..cut]);
            twice.extend(cut_up.push(&text[cut..]));
            twice.extend(cut_up.finish());
            assert_eq!(coalesced(twice), once);
            assert_eq!(cut_up.in_think, whole.in_think);
            assert_eq!(cut_up.buffer, "");
        }
        assert!(whole.in_think);
        assert_eq!(whole.buffer, "");
    }
}
