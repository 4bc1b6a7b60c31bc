use turn_engine::plan_parser::AgentMessageDeltaSegment;
use turn_engine::plan_parser::ParsedAgentDelta;
use turn_engine::plan_parser::ProposedPlanParser;
use turn_engine::plan_parser::is_tag_prefix;

fn seg(segment: AgentMessageDeltaSegment, delta: &str) -> ParsedAgentDelta {
    ParsedAgentDelta {
        segment,
        delta: delta.to_string(),
    }
}

/// Concatenates adjacent text segments of the same kind, as a consumer of
/// several `parse` calls would.
fn coalesce(segments: Vec<ParsedAgentDelta>) -> Vec<ParsedAgentDelta> {
    let mut out: Vec<ParsedAgentDelta> = Vec::new();
    for s in segments {
        let is_text = matches!(
            s.segment,
            AgentMessageDeltaSegment::Normal | AgentMessageDeltaSegment::ProposedPlanDelta
        );
        if let Some(last) = out.last_mut() {
            if is_text && last.segment == s.segment {
                last.delta.push_str(&s.delta);
                continue;
            }
        }
        out.push(s);
    }
    out
}

fn run_chunks(chunks: &[&str]) -> Vec<ParsedAgentDelta> {
    let mut parser = ProposedPlanParser::new();
    let mut segments = Vec::new();
    for chunk in chunks {
        segments.extend(parser.parse(chunk));
    }
    segments.extend(parser.finish());
    segments
}

#[test]
fn streams_proposed_plan_segments() {
    let mut parser = ProposedPlanParser::new();
    let mut segments = Vec::new();

    for chunk in [
        "Intro text\n<prop",
        "osed_plan>\n- step 1\n",
        "</proposed_plan>\nOutro",
    ] {
        segments.extend(parser.parse(chunk));
    }
    segments.extend(parser.finish());

    assert_eq!(
        segments,
        vec![
            ParsedAgentDelta {
                segment: AgentMessageDeltaSegment::Normal,
                delta: "Intro text\n".to_string(),
            },
            ParsedAgentDelta {
                segment: AgentMessageDeltaSegment::ProposedPlanStart,
                delta: String::new(),
            },
            ParsedAgentDelta {
                segment: AgentMessageDeltaSegment::ProposedPlanDelta,
                delta: "- step 1\n".to_string(),
            },
            ParsedAgentDelta {
                segment: AgentMessageDeltaSegment::ProposedPlanEnd,
                delta: String::new(),
            },
            ParsedAgentDelta {
                segment: AgentMessageDeltaSegment::Normal,
                delta: "Outro".to_string(),
            },
        ]
    );
}

#[test]
fn preserves_non_tag_lines() {
    let mut parser = ProposedPlanParser::new();
    let mut segments = parser.parse("  <proposed_plan> extra\n");
    segments.extend(parser.finish());

    assert_eq!(
        segments,
        vec![ParsedAgentDelta {
            segment: AgentMessageDeltaSegment::Normal,
            delta: "  <proposed_plan> extra\n".to_string(),
        }]
    );
}

fn expected_round_trip() -> Vec<ParsedAgentDelta> {
    vec![
        seg(AgentMessageDeltaSegment::Normal, "Intro\n"),
        seg(AgentMessageDeltaSegment::ProposedPlanStart, ""),
        seg(AgentMessageDeltaSegment::ProposedPlanDelta, "step\n"),
        seg(AgentMessageDeltaSegment::ProposedPlanEnd, ""),
        seg(AgentMessageDeltaSegment::Normal, "Outro"),
    ]
}

#[test]
fn round_trip_in_one_chunk() {
    let segments = run_chunks(&["Intro\n<proposed_plan>\nstep\n</proposed_plan>\nOutro"]);
    assert_eq!(segments, expected_round_trip());
}

#[test]
fn round_trip_is_independent_of_chunking() {
    let text = "Intro\n<proposed_plan>\nstep\n</proposed_plan>\nOutro";
    let chars: Vec<String> = text.chars().map(|c| c.to_string()).collect();
    let one_by_one: Vec<&str> = chars.iter().map(|s| s.as_str()).collect();
    assert_eq!(coalesce(run_chunks(&one_by_one)), expected_round_trip());
    for split in 0..text.len() {
        if !text.is_char_boundary(split) {
            continue;
        }
        let (a, b) = text.split_at(split);
        assert_eq!(coalesce(run_chunks(&[a, b])), expected_round_trip(), "split at {split}");
    }
}

#[test]
fn finish_closes_an_open_plan() {
    let mut parser = ProposedPlanParser::new();
    let mut segments = parser.parse("<proposed_plan>\n- a\n- b");
    segments.extend(parser.finish());
    assert_eq!(
        segments,
        vec![
            seg(AgentMessageDeltaSegment::ProposedPlanStart, ""),
            seg(AgentMessageDeltaSegment::ProposedPlanDelta, "- a\n- b"),
            seg(AgentMessageDeltaSegment::ProposedPlanEnd, ""),
        ]
    );
    // The parser is reusable afterwards.
    let mut again = parser.parse("plain\n");
    again.extend(parser.finish());
    assert_eq!(again, vec![seg(AgentMessageDeltaSegment::Normal, "plain\n")]);
}

#[test]
fn finish_flushes_an_undecided_line() {
    let mut parser = ProposedPlanParser::new();
    let segments = parser.parse("  <propos");
    assert!(segments.is_empty());
    let end = parser.finish();
    assert_eq!(end, vec![seg(AgentMessageDeltaSegment::Normal, "  <propos")]);
}

#[test]
fn tag_lines_with_leading_white_space_are_tags() {
    let segments = run_chunks(&["  <proposed_plan>\nx\n\t</proposed_plan>\n"]);
    assert_eq!(
        segments,
        vec![
            seg(AgentMessageDeltaSegment::ProposedPlanStart, ""),
            seg(AgentMessageDeltaSegment::ProposedPlanDelta, "x\n"),
            seg(AgentMessageDeltaSegment::ProposedPlanEnd, ""),
        ]
    );
}

#[test]
fn trailing_characters_after_a_tag_make_text() {
    let segments = run_chunks(&["<proposed_plan>  \nx\n"]);
    assert_eq!(
        segments,
        vec![seg(AgentMessageDeltaSegment::Normal, "<proposed_plan>  \nx\n")]
    );
}

#[test]
fn stray_close_tag_and_repeated_open_tag_emit_nothing() {
    let segments = run_chunks(&["</proposed_plan>\n<proposed_plan>\n<proposed_plan>\ny\n"]);
    assert_eq!(
        segments,
        vec![
            seg(AgentMessageDeltaSegment::ProposedPlanStart, ""),
            seg(AgentMessageDeltaSegment::ProposedPlanDelta, "y\n"),
            seg(AgentMessageDeltaSegment::ProposedPlanEnd, ""),
        ]
    );
}

#[test]
fn empty_input_emits_nothing() {
    assert!(run_chunks(&["", ""]).is_empty());
}

#[test]
fn non_ascii_text_is_kept() {
    let segments = run_chunks(&["héllo wörld\n", "ünïcode"]);
    assert_eq!(
        coalesce(segments),
        vec![seg(AgentMessageDeltaSegment::Normal, "héllo wörld\nünïcode")]
    );
}

#[test]
fn tag_prefixes() {
    assert!(is_tag_prefix(""));
    assert!(is_tag_prefix("<prop"));
    assert!(is_tag_prefix("</proposed_plan>"));
    assert!(is_tag_prefix("</"));
    assert!(!is_tag_prefix("<proposed_plan> extra"));
    assert!(!is_tag_prefix("hello"));
}
