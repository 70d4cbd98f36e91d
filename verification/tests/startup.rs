use supercollider_mcp::startup::{stdio_lines, streamable_http_lines};

#[test]
fn stdio_messages() {
    assert_eq!(
        stdio_lines(),
        vec![
            "[supercollider-mcp] MCP over stdio (default). JSON-RPC on stdout; logs on stderr. Use --http for Streamable HTTP.",
            "[supercollider-mcp] tools: ping_supercollider, get_servers",
        ]
    );
}

#[test]
fn http_messages_on_every_interface() {
    assert_eq!(
        streamable_http_lines("0.0.0.0:8787", Some([0, 0, 0, 0]), 8787),
        vec![
            "[supercollider-mcp] listening on http://0.0.0.0:8787/mcp",
            "[supercollider-mcp] Open WebUI URL: http://127.0.0.1:8787/mcp (use 127.0.0.1, not localhost, if tools fail)",
            "[supercollider-mcp] tools: ping_supercollider, get_servers · Ctrl+C to stop",
        ]
    );
}

#[test]
fn http_messages_on_one_interface() {
    assert_eq!(
        streamable_http_lines("127.0.0.1:9000", Some([127, 0, 0, 1]), 9000),
        vec![
            "[supercollider-mcp] listening on http://127.0.0.1:9000/mcp",
            "[supercollider-mcp] tools: ping_supercollider, get_servers · Ctrl+C to stop",
        ]
    );
    assert_eq!(streamable_http_lines("[::]:1", None, 1).len(), 2);
}
