use supercollider_mcp::server::{ping_reply, EmptyParams, PingParams};

#[test]
fn ping_reply_without_note() {
    let p = PingParams { message: None };
    assert_eq!(ping_reply("report".to_string(), &p), "report");
    let _ = EmptyParams {};
}

#[test]
fn ping_reply_with_blank_note() {
    for m in ["", "   ", "\t\n", "\u{3000}"] {
        let p = PingParams { message: Some(m.to_string()) };
        assert_eq!(ping_reply("R".to_string(), &p), "R");
    }
}

#[test]
fn ping_reply_echoes_note_untrimmed() {
    let p = PingParams { message: Some(" hello ".to_string()) };
    assert_eq!(ping_reply("R\n".to_string(), &p), "R\n\nNote:  hello ");
    let p = PingParams { message: Some("hi".to_string()) };
    let reply = ping_reply("report".to_string(), &p);
    assert_eq!(reply, "report\nNote: hi");
    assert!(reply.starts_with("report"));
}
