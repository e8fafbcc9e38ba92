use log_triage::line::Line;

const ID_A: &str = "aaaaaaaa-bbbb-cccc-dddd-eeeeeeeeeeee";
const ID_B: &str = "11111111-2222-3333-4444-555555555555";

#[test]
fn relevant_on_level_marker() {
    let line = Line::new("{\"level\":50,\"msg\":\"boom\"}");
    assert!(line.is_relevant());
}

#[test]
fn irrelevant_without_marker() {
    let line = Line::new("{\"level\":30,\"msg\":\"boom\",\"statusCode\":500}");
    assert!(!line.is_relevant());
    let empty = Line::new("");
    assert!(!empty.is_relevant());
}

#[test]
fn irrelevant_on_each_ignorable_marker() {
    let ignorable = [
        "\"errorStatus\":400,",
        "\"errorStatus\":401,",
        "\"errorStatus\":404,",
        "\"statusCode\":401,",
        "\"statusCode\":402,",
    ];
    for marker in ignorable {
        let text = format!("{{\"level\":50,{}\"msg\":\"boom\"}}", marker);
        let line = Line::new(&text);
        assert!(!line.is_relevant(), "should be ignorable: {}", text);
    }
}

#[test]
fn relevant_despite_other_status() {
    let line = Line::new("{\"level\":50,\"statusCode\":500,\"msg\":\"boom\"}");
    assert!(line.is_relevant());
}

#[test]
fn id_from_req_id_convention() {
    let text = format!("{{\"level\":50,\"reqId\":\"{}\",\"msg\":\"x\"}}", ID_A);
    let line = Line::new(&text);
    assert_eq!(line.get_id(), Some(ID_A));
}

#[test]
fn id_from_request_id_convention() {
    let text = format!("time=1 request_id={} msg=x", ID_B);
    let line = Line::new(&text);
    assert_eq!(line.get_id(), Some(ID_B));
}

#[test]
fn req_id_convention_wins_over_request_id() {
    let text = format!("request_id={} \"reqId\":\"{}\"", ID_B, ID_A);
    let line = Line::new(&text);
    assert_eq!(line.get_id(), Some(ID_A));
}

#[test]
fn id_is_first_occurrence() {
    let text = format!("\"reqId\":\"{}\" \"reqId\":\"{}\"", ID_A, ID_B);
    let line = Line::new(&text);
    assert_eq!(line.get_id(), Some(ID_A));
}

#[test]
fn id_span_is_not_validated() {
    // The span is whatever 36 characters follow the key.
    let line = Line::new("request_id=123456789012345678901234567890123456 tail");
    assert_eq!(line.get_id(), Some("123456789012345678901234567890123456"));
}

#[test]
fn no_id_when_too_short() {
    let line = Line::new("\"reqId\":\"short\"");
    assert_eq!(line.get_id(), None);
}

#[test]
fn no_id_without_conventions() {
    let line = Line::new("{\"level\":50,\"msg\":\"boom\"}");
    assert_eq!(line.get_id(), None);
}

#[test]
fn message_between_key_and_stack() {
    let line = Line::new("{\"level\":50,\"message\":\"boom\",\"stack\":\"trace\"}");
    assert_eq!(line.get_error_message(), Some("boom"));
}

#[test]
fn message_requires_stack_delimiter() {
    let line = Line::new("{\"message\":\"boom\"}");
    assert_eq!(line.get_error_message(), None);
}

#[test]
fn no_message_without_key() {
    let line = Line::new("{\"level\":50,\"msg\":\"boom\",\"stack\":\"t\"}");
    assert_eq!(line.get_error_message(), None);
}

#[test]
fn message_capture_is_non_greedy() {
    // An embedded delimiter ends the capture early: an accepted limitation.
    let line = Line::new("{\"message\":\"a\",\"stackb\",\"stack\":\"t\"}");
    assert_eq!(line.get_error_message(), Some("a"));
}

#[test]
fn line_text_round_trip() {
    let line = Line::new("raw text");
    assert_eq!(line.text(), "raw text");
}
