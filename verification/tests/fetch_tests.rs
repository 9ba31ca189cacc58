use wordtui::extract_solution;
use wordtui::FetchError;

#[test]
fn extracts_the_solution_from_a_daily_payload() {
    let payload = r#"{"id":2264,"solution":"crane","print_date":"2025-01-01","editor":"Q"}"#;
    assert_eq!(extract_solution(payload).unwrap(), "crane");
}

#[test]
fn extracts_from_a_later_segment() {
    let payload = r#"{"print_date":"2025-01-01","days_since_launch":900,"solution":"ghost"}"#;
    assert_eq!(extract_solution(payload).unwrap(), "ghost");
}

#[test]
fn payload_without_a_solution_is_malformed() {
    let payload = r#"{"id":2264,"print_date":"2025-01-01"}"#;
    assert_eq!(extract_solution(payload).unwrap_err(), FetchError::MalformedPayload);
}

#[test]
fn solution_segment_without_a_colon_is_malformed() {
    let payload = r#"solution,"word":"crane""#;
    assert_eq!(extract_solution(payload).unwrap_err(), FetchError::MalformedPayload);
}

#[test]
fn solution_value_that_is_too_short_is_malformed() {
    let payload = r#"{"solution":"c"}"#;
    assert_eq!(extract_solution(payload).unwrap_err(), FetchError::MalformedPayload);
}

#[test]
fn empty_payload_is_malformed() {
    assert_eq!(extract_solution("").unwrap_err(), FetchError::MalformedPayload);
}
