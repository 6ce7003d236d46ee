use codex_discovery::record::{
    has_nested_key, judge_line, object_has_key, parse_shape, plausible_codex_record, probe_jsonl,
    JsonShape, JsonlProbe, LineOutcome, MAX_PROBED_LINES,
};

const RECORD: &str = "{\"timestamp\":1,\"type\":\"event\",\"model\":\"m\"}";
const FOREIGN: &str = "{\"hello\":\"world\"}";

fn is_record(text: &str) -> bool {
    plausible_codex_record(&parse_shape(text).expect("JSON"))
}

fn probe(lines: Vec<Option<&str>>) -> JsonlProbe {
    let lines: Vec<Option<String>> =
        lines.into_iter().map(|line| line.map(str::to_string)).collect();
    probe_jsonl(Some(&lines))
}

#[test]
fn the_shape_of_a_value_keeps_its_members_at_every_depth() {
    let shape = parse_shape("{\"b\":{\"c\":{\"d\":null}},\"a\":[{\"x\":1}]}").expect("JSON");
    let leaf = JsonShape::Object(vec![("d".to_string(), JsonShape::Other)]);
    let inner = JsonShape::Object(vec![("c".to_string(), leaf)]);
    assert_eq!(shape.member("b"), Some(&inner));
    assert_eq!(shape.member("a"), Some(&JsonShape::Other));
    assert_eq!(shape.member("c"), None);
    assert_eq!(JsonShape::Other.member("a"), None);
}

#[test]
fn values_that_are_not_objects_have_no_members() {
    for text in ["null", "true", "1.5", "\"usage\"", "[]", "[{\"usage\":1}]"] {
        assert_eq!(parse_shape(text), Some(JsonShape::Other));
    }
    assert_eq!(parse_shape("{}"), Some(JsonShape::Object(Vec::new())));
}

#[test]
fn text_that_is_not_json_has_no_shape() {
    for text in ["", "   ", "{", "{\"a\":1} trailing", "{'a':1}", "nul"] {
        assert_eq!(parse_shape(text), None);
    }
    assert!(parse_shape(" {\"a\":1}\r").is_some());
}

#[test]
fn the_last_of_two_members_of_one_name_counts() {
    let shape = parse_shape("{\"a\":{\"b\":1},\"a\":2}").expect("JSON");
    assert_eq!(shape.member("a"), Some(&JsonShape::Other));
}

#[test]
fn any_of_the_keys_is_enough() {
    let shape = parse_shape("{\"kind\":null,\"payload\":{\"info\":{\"x\":1}}}").expect("JSON");
    assert!(object_has_key(&shape, &["type", "kind"]));
    assert!(!object_has_key(&shape, &["type", "info"]));
    assert!(!object_has_key(&shape, &[]));
    assert!(has_nested_key(&shape, &[&["payload", "usage"], &["payload", "info", "x"]]));
    assert!(!has_nested_key(&shape, &[&["payload", "x"], &["kind", "x"]]));
    assert!(has_nested_key(&shape, &[&[]]));
    assert!(!has_nested_key(&shape, &[]));
}

#[test]
fn a_record_needs_a_time_an_event_and_a_purpose() {
    assert!(is_record("{\"timestamp\":1,\"type\":\"x\",\"model\":\"m\"}"));
    assert!(!is_record("{\"type\":\"x\",\"model\":\"m\"}"));
    assert!(!is_record("{\"timestamp\":1,\"model\":\"m\"}"));
    assert!(!is_record("{\"timestamp\":1,\"type\":\"x\"}"));
    assert!(!is_record("[{\"timestamp\":1,\"type\":\"x\",\"model\":\"m\"}]"));
    assert!(!is_record("\"timestamp type model\""));
}

#[test]
fn every_name_of_a_time_and_of_an_event_counts() {
    for time in ["timestamp", "timestamp_ms", "created_at"] {
        assert!(is_record(&format!("{{\"{time}\":null,\"kind\":0,\"turn_id\":0}}")));
    }
    for event in ["type", "event_type", "kind", "payload", "usage", "token_usage", "tokens"] {
        assert!(is_record(&format!("{{\"timestamp\":0,\"{event}\":null,\"session_id\":0}}")));
    }
    for event in ["Type", "event", "data"] {
        assert!(!is_record(&format!("{{\"timestamp\":0,\"{event}\":null,\"session_id\":0}}")));
    }
}

#[test]
fn every_purpose_of_a_record_counts() {
    for purpose in [
        "\"usage\":0",
        "\"token_usage\":0",
        "\"tokens\":0",
        "\"payload\":{\"usage\":0}",
        "\"payload\":{\"token_usage\":0}",
        "\"payload\":{\"info\":{\"last_token_usage\":0}}",
        "\"payload\":{\"info\":{\"total_token_usage\":0}}",
        "\"response\":{\"usage\":0}",
        "\"rate_limits\":0",
        "\"payload\":{\"rate_limits\":0}",
        "\"model\":0",
        "\"model_name\":0",
        "\"session_id\":0",
        "\"request_id\":0",
        "\"turn_id\":0",
        "\"payload\":{\"model\":0}",
        "\"payload\":{\"model_name\":0}",
        "\"payload\":{\"session_id\":0}",
        "\"payload\":{\"turn_id\":0}",
    ] {
        assert!(is_record(&format!("{{\"timestamp\":0,\"type\":0,{purpose}}}")), "{purpose}");
    }
    for purpose in [
        "\"payload\":{\"request_id\":0}",
        "\"payload\":{\"tokens\":0}",
        "\"payload\":{\"info\":{\"usage\":0}}",
        "\"payload\":[{\"usage\":0}]",
        "\"response\":{\"token_usage\":0}",
        "\"response\":\"usage\"",
    ] {
        assert!(!is_record(&format!("{{\"timestamp\":0,\"type\":0,{purpose}}}")), "{purpose}");
    }
}

#[test]
fn a_record_stays_one_when_members_are_added() {
    assert!(is_record("{\"timestamp\":1,\"type\":\"x\",\"model\":\"m\",\"more\":{\"a\":[]}}"));
    assert!(is_record("{\"timestamp\":1,\"payload\":{\"info\":{\"last_token_usage\":0}}}"));
    assert!(is_record(
        "{\"a\":0,\"payload\":{\"b\":0,\"info\":{\"c\":{},\"last_token_usage\":{\"d\":0}}},\"timestamp\":1}"
    ));
}

#[test]
fn a_line_is_judged_by_its_text_and_its_value() {
    let record = parse_shape(RECORD);
    let foreign = parse_shape(FOREIGN);
    assert_eq!(judge_line(RECORD, record.as_ref()), LineOutcome::Record);
    assert_eq!(judge_line(FOREIGN, foreign.as_ref()), LineOutcome::Foreign);
    assert_eq!(judge_line("not JSON", None), LineOutcome::Foreign);
    assert_eq!(judge_line(" \t\u{2003}", None), LineOutcome::Blank);
    assert_eq!(judge_line("", record.as_ref()), LineOutcome::Blank);
}

#[test]
fn a_log_comes_to_one_of_four_verdicts() {
    assert_eq!(probe_jsonl(None), JsonlProbe::Inaccessible);
    assert_eq!(probe(vec![]), JsonlProbe::Empty);
    assert_eq!(probe(vec![Some(""), Some("  \t")]), JsonlProbe::Empty);
    assert_eq!(probe(vec![Some(""), Some(FOREIGN)]), JsonlProbe::Unsupported);
    assert_eq!(probe(vec![Some("not JSON")]), JsonlProbe::Unsupported);
    assert_eq!(probe(vec![Some(FOREIGN), Some(""), Some(RECORD)]), JsonlProbe::Data);
    assert_eq!(probe(vec![Some(FOREIGN), None, Some(RECORD)]), JsonlProbe::Inaccessible);
    assert_eq!(probe(vec![Some(RECORD), None]), JsonlProbe::Data);
}

#[test]
fn lines_past_the_limit_make_no_difference() {
    assert_eq!(MAX_PROBED_LINES, 64);
    let mut lines: Vec<Option<&str>> = vec![Some(FOREIGN); 63];
    lines.push(Some(RECORD));
    assert_eq!(probe(lines), JsonlProbe::Data);
    let mut lines: Vec<Option<&str>> = vec![Some(FOREIGN); 64];
    lines.push(Some(RECORD));
    lines.push(None);
    assert_eq!(probe(lines), JsonlProbe::Unsupported);
    let mut lines: Vec<Option<&str>> = vec![Some(" "); 64];
    lines.push(Some(RECORD));
    assert_eq!(probe(lines), JsonlProbe::Empty);
}

#[test]
fn values_nested_past_the_limit_of_the_parser_are_foreign() {
    let open = "[".repeat(200);
    let close = "]".repeat(200);
    let deep = format!("{{\"timestamp\":1,\"type\":0,\"model\":{open}{close}}}");
    assert_eq!(probe(vec![Some(&deep)]), JsonlProbe::Unsupported);
}
