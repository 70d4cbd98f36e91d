use supercollider_mcp::streamable_http::{normalize_accept, RequestMethod};

const BOTH: &str = "application/json, text/event-stream";

#[test]
fn post_keeps_a_complete_accept() {
    assert_eq!(normalize_accept(RequestMethod::Post, Some(BOTH)), None);
    assert_eq!(
        normalize_accept(RequestMethod::Post, Some("text/event-stream;q=1, application/json")),
        None
    );
}

#[test]
fn post_gets_both_types_when_one_is_missing() {
    for h in [None, Some("application/json"), Some("text/event-stream"), Some("*/*"), Some("")] {
        assert_eq!(normalize_accept(RequestMethod::Post, h), Some(BOTH.to_string()), "{:?}", h);
    }
}

#[test]
fn get_needs_event_stream() {
    assert_eq!(normalize_accept(RequestMethod::Get, Some("text/event-stream")), None);
    assert_eq!(
        normalize_accept(RequestMethod::Get, None),
        Some("text/event-stream".to_string())
    );
    assert_eq!(
        normalize_accept(RequestMethod::Get, Some("application/json")),
        Some("text/event-stream".to_string())
    );
}

#[test]
fn other_methods_are_left_alone() {
    assert_eq!(normalize_accept(RequestMethod::Other, None), None);
    assert_eq!(normalize_accept(RequestMethod::Other, Some("x")), None);
}

#[test]
fn normalising_twice_changes_nothing() {
    for m in [RequestMethod::Get, RequestMethod::Post, RequestMethod::Other] {
        for h in [None, Some("application/json"), Some("junk")] {
            let after = normalize_accept(m, h).or(h.map(|s| s.to_string()));
            assert_eq!(normalize_accept(m, after.as_deref()), None);
        }
    }
}
