use log_triage::line::Line;
use log_triage::pipeline::count_unique_errors;
use log_triage::pipeline::get_relevant_ids;
use log_triage::pipeline::group_by_id;
use log_triage::pipeline::run_pipeline;
use log_triage::progress::Progress;
use log_triage::request::Request;

const ID_X: &str = "aaaaaaaa-bbbb-cccc-dddd-eeeeeeeeeeee";
const ID_Y: &str = "11111111-2222-3333-4444-555555555555";

fn lines_of(texts: &[String]) -> Vec<Line> {
    texts.iter().map(|t| Line::new(t)).collect()
}

fn id_line(id: &str) -> String {
    format!("{{\"level\":30,\"reqId\":\"{}\",\"msg\":\"info\"}}", id)
}

fn error_line(id: &str, msg: &str) -> String {
    format!(
        "{{\"level\":50,\"reqId\":\"{}\",\"message\":\"{}\",\"stack\":\"tr\"}}",
        id, msg
    )
}

#[test]
fn representative_id_is_last_id_bearing() {
    let mut req = Request::new();
    req.add_line(Line::new(&id_line(ID_X)));
    req.add_line(Line::new(&id_line(ID_Y)));
    req.add_line(Line::new("no id here"));
    assert_eq!(req.get_id(), Some(ID_Y));
}

#[test]
fn representative_message_is_first_message_bearing() {
    let mut req = Request::new();
    req.add_line(Line::new("no message"));
    req.add_line(Line::new("{\"message\":\"first\",\"stack\":\"t\"}"));
    req.add_line(Line::new("{\"message\":\"second\",\"stack\":\"t\"}"));
    assert_eq!(req.get_error_message(), Some("first"));
}

#[test]
fn empty_request_has_no_representatives() {
    let req = Request::new();
    assert_eq!(req.get_id(), None);
    assert_eq!(req.get_error_message(), None);
}

#[test]
fn relevant_ids_deduplicated_in_first_appearance_order() {
    let texts = vec![
        error_line(ID_Y, "late"),
        id_line(ID_X),
        error_line(ID_X, "boom"),
        error_line(ID_Y, "again"),
    ];
    let lines = lines_of(&texts);
    let ids = get_relevant_ids(&lines);
    assert_eq!(ids, vec![ID_Y.to_string(), ID_X.to_string()]);
}

#[test]
fn relevant_ids_ignore_irrelevant_and_idless_lines() {
    let texts = vec![
        id_line(ID_X),
        "{\"level\":50,\"msg\":\"no id\"}".to_string(),
        format!("{{\"level\":50,\"statusCode\":401,\"reqId\":\"{}\"}}", ID_Y),
    ];
    let lines = lines_of(&texts);
    let ids = get_relevant_ids(&lines);
    assert!(ids.is_empty());
}

#[test]
fn grouping_keeps_all_lines_of_a_relevant_id_in_order() {
    // Only the third line is relevant; the first and fifth carry the same id
    // without being relevant themselves.
    let texts = vec![
        id_line(ID_X),
        "{\"level\":30,\"msg\":\"unrelated\"}".to_string(),
        error_line(ID_X, "boom"),
        id_line(ID_Y),
        id_line(ID_X),
    ];
    let lines = lines_of(&texts);
    let ids = get_relevant_ids(&lines);
    let groups = group_by_id(&lines, ids);
    assert_eq!(groups.len(), 1);
    let member_texts: Vec<&str> = groups[0].lines().iter().map(|l| l.text()).collect();
    assert_eq!(member_texts, vec![texts[0].as_str(), texts[2].as_str(), texts[4].as_str()]);
    assert_eq!(groups[0].get_id(), Some(ID_X));
}

#[test]
fn tally_counts_distinct_messages() {
    let texts = vec![
        error_line(ID_X, "disk full"),
        error_line(ID_Y, "disk full"),
        error_line("zzzzzzzz-2222-3333-4444-555555555555", "timeout"),
    ];
    let lines = lines_of(&texts);
    let (groups, tally) = run_pipeline(&lines);
    assert_eq!(groups.len(), 3);
    assert_eq!(
        tally,
        vec![("disk full".to_string(), 2), ("timeout".to_string(), 1)]
    );
}

#[test]
fn tally_sum_equals_groups_with_message() {
    let texts = vec![
        error_line(ID_X, "disk full"),
        // Relevant, but no message field: its group is excluded from the tally.
        format!("{{\"level\":50,\"reqId\":\"{}\"}}", ID_Y),
        error_line("zzzzzzzz-2222-3333-4444-555555555555", "disk full"),
    ];
    let lines = lines_of(&texts);
    let (groups, tally) = run_pipeline(&lines);
    let with_message = groups
        .iter()
        .filter(|g| g.get_error_message().is_some())
        .count();
    let sum: usize = tally.iter().map(|e| e.1).sum();
    assert_eq!(groups.len(), 3);
    assert_eq!(with_message, 2);
    assert_eq!(sum, 2);
}

#[test]
fn pipeline_is_deterministic_on_identical_input() {
    let texts = vec![
        id_line(ID_X),
        error_line(ID_X, "boom"),
        error_line(ID_Y, "crash"),
        id_line(ID_Y),
    ];
    let first_lines = lines_of(&texts);
    let second_lines = lines_of(&texts);
    let (groups_a, tally_a) = run_pipeline(&first_lines);
    let (groups_b, tally_b) = run_pipeline(&second_lines);
    assert_eq!(tally_a, tally_b);
    assert_eq!(groups_a.len(), groups_b.len());
    for (ga, gb) in groups_a.iter().zip(groups_b.iter()) {
        assert_eq!(ga.get_id(), gb.get_id());
        assert_eq!(ga.get_error_message(), gb.get_error_message());
        let ta: Vec<&str> = ga.lines().iter().map(|l| l.text()).collect();
        let tb: Vec<&str> = gb.lines().iter().map(|l| l.text()).collect();
        assert_eq!(ta, tb);
    }
}

#[test]
fn end_to_end_two_requests() {
    // Request "A": three lines, one relevant with the error "disk full".
    // Request "B": two lines, the only marked one carries an ignorable
    // status code, so "B" never becomes relevant.
    let texts = vec![
        id_line(ID_X),
        error_line(ID_X, "disk full"),
        id_line(ID_X),
        id_line(ID_Y),
        format!("{{\"level\":50,\"statusCode\":401,\"reqId\":\"{}\"}}", ID_Y),
    ];
    let lines = lines_of(&texts);
    let (groups, tally) = run_pipeline(&lines);
    assert_eq!(groups.len(), 1);
    assert_eq!(groups[0].get_id(), Some(ID_X));
    assert_eq!(groups[0].lines().len(), 3);
    for line in groups[0].lines() {
        assert!(line.text().contains(ID_X));
    }
    assert_eq!(tally, vec![("disk full".to_string(), 1)]);
}

#[test]
fn progress_counts_and_reports() {
    let mut progress = Progress::new(2);
    assert_eq!(progress.current, 0);
    let (shown, done) = progress.print_and_increment();
    assert_eq!(shown, 0);
    assert!(!done);
    let (shown, done) = progress.print_and_increment();
    assert_eq!(shown, 1);
    assert!(done);
    assert_eq!(progress.current, 2);
    assert_eq!(progress.total, 2);
}

#[test]
fn progress_increment_alone() {
    let mut progress = Progress::new(3);
    progress.increment();
    progress.increment();
    assert_eq!(progress.current, 2);
}
