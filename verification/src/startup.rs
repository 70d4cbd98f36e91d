//! The human-readable startup messages (written to stderr by the caller; for
//! the stdio transport, stdout carries only MCP JSON-RPC).
use vstd::prelude::*;

use crate::text::{decimal, push_decimal, texts};

verus! {

/// The messages shown when serving MCP over stdio.
pub open spec fn stdio_text() -> Seq<Seq<char>> {
    seq![
        "[supercollider-mcp] MCP over stdio (default). JSON-RPC on stdout; logs on stderr. Use --http for Streamable HTTP."@,
        "[supercollider-mcp] tools: ping_supercollider, get_servers"@,
    ]
}

/// The messages shown when serving MCP over stdio.
pub fn stdio_lines() -> (lines: Vec<String>)
    ensures
        texts(lines@) == stdio_text(),
{
    let mut lines: Vec<String> = Vec::new();
    lines.push(
        String::from_str(
            "[supercollider-mcp] MCP over stdio (default). JSON-RPC on stdout; logs on stderr. Use --http for Streamable HTTP.",
        ),
    );
    lines.push(String::from_str("[supercollider-mcp] tools: ping_supercollider, get_servers"));
    assert(texts(lines@) =~= stdio_text());
    lines
}

/// The address is the IPv4 "any" address `0.0.0.0`.
pub open spec fn unspecified_v4(ipv4: Option<[u8; 4]>) -> bool {
    match ipv4 {
        Some(o) => o[0] == 0 && o[1] == 0 && o[2] == 0 && o[3] == 0,
        None => false,
    }
}

/// The messages shown when serving Streamable HTTP on `addr` (as displayed),
/// whose IP is `ipv4` (`None` for IPv6) and whose port is `port`.
pub open spec fn streamable_http_text(addr: Seq<char>, ipv4: Option<[u8; 4]>, port: u16) -> Seq<
    Seq<char>,
> {
    let listening = "[supercollider-mcp] listening on http://"@ + addr + "/mcp"@;
    let tools = "[supercollider-mcp] tools: ping_supercollider, get_servers · Ctrl+C to stop"@;
    if unspecified_v4(ipv4) {
        seq![
            listening,
            "[supercollider-mcp] Open WebUI URL: http://127.0.0.1:"@ + decimal(port as nat)
                + "/mcp (use 127.0.0.1, not localhost, if tools fail)"@,
            tools,
        ]
    } else {
        seq![listening, tools]
    }
}

/// The messages shown when serving Streamable HTTP: where it listens, the
/// loopback URL to give Open WebUI when bound to every IPv4 interface, and
/// the tools offered.
pub fn streamable_http_lines(addr: &str, ipv4: Option<[u8; 4]>, port: u16) -> (lines: Vec<String>)
    ensures
        texts(lines@) == streamable_http_text(addr@, ipv4, port),
{
    let mut lines: Vec<String> = Vec::new();
    let mut listening = String::from_str("[supercollider-mcp] listening on http://");
    listening.append(addr);
    listening.append("/mcp");
    lines.push(listening);
    let unspecified = match ipv4 {
        Some(o) => o[0] == 0 && o[1] == 0 && o[2] == 0 && o[3] == 0,
        None => false,
    };
    if unspecified {
        let mut url = String::from_str("[supercollider-mcp] Open WebUI URL: http://127.0.0.1:");
        push_decimal(&mut url, port as u64);
        url.append("/mcp (use 127.0.0.1, not localhost, if tools fail)");
        lines.push(url);
    }
    lines.push(
        String::from_str(
            "[supercollider-mcp] tools: ping_supercollider, get_servers · Ctrl+C to stop",
        ),
    );
    assert(texts(lines@) =~= streamable_http_text(addr@, ipv4, port));
    lines
}

/// When bound to every IPv4 interface, the second message is the Open WebUI
/// URL on the loopback address with the port the server is bound to;
/// otherwise there are only the listening and tools messages. The first
/// message always names the bound address.
pub proof fn lemma_webui_line_names_bound_port(addr: Seq<char>, ipv4: Option<[u8; 4]>, port: u16)
    ensures
        streamable_http_text(addr, ipv4, port)[0] == "[supercollider-mcp] listening on http://"@
            + addr + "/mcp"@,
        unspecified_v4(ipv4) ==> streamable_http_text(addr, ipv4, port).len() == 3,
        unspecified_v4(ipv4) ==> streamable_http_text(addr, ipv4, port)[1]
            == "[supercollider-mcp] Open WebUI URL: http://"@ + ("127.0.0.1:"@ + decimal(
            port as nat,
        ) + "/mcp"@) + " (use 127.0.0.1, not localhost, if tools fail)"@,
        !unspecified_v4(ipv4) ==> streamable_http_text(addr, ipv4, port).len() == 2,
{
    reveal_strlit("[supercollider-mcp] Open WebUI URL: http://127.0.0.1:");
    reveal_strlit("[supercollider-mcp] Open WebUI URL: http://");
    reveal_strlit("127.0.0.1:");
    reveal_strlit("/mcp (use 127.0.0.1, not localhost, if tools fail)");
    reveal_strlit("/mcp");
    reveal_strlit(" (use 127.0.0.1, not localhost, if tools fail)");
    assert("[supercollider-mcp] Open WebUI URL: http://127.0.0.1:"@
        =~= "[supercollider-mcp] Open WebUI URL: http://"@ + "127.0.0.1:"@);
    assert("/mcp (use 127.0.0.1, not localhost, if tools fail)"@ =~= "/mcp"@
        + " (use 127.0.0.1, not localhost, if tools fail)"@);
    assert("[supercollider-mcp] Open WebUI URL: http://127.0.0.1:"@ + decimal(port as nat)
        + "/mcp (use 127.0.0.1, not localhost, if tools fail)"@
        =~= "[supercollider-mcp] Open WebUI URL: http://"@ + ("127.0.0.1:"@ + decimal(port as nat)
        + "/mcp"@) + " (use 127.0.0.1, not localhost, if tools fail)"@);
}

/// Bound to every IPv4 interface on two different ports, the server shows
/// two different Open WebUI URLs.
pub proof fn lemma_webui_line_differs_by_port(
    addr: Seq<char>,
    ipv4: Option<[u8; 4]>,
    p1: u16,
    p2: u16,
)
    requires
        unspecified_v4(ipv4),
        p1 != p2,
    ensures
        streamable_http_text(addr, ipv4, p1)[1] != streamable_http_text(addr, ipv4, p2)[1],
{
    lemma_webui_line_names_bound_port(addr, ipv4, p1);
    lemma_webui_line_names_bound_port(addr, ipv4, p2);
    crate::text::lemma_decimal_injective(p1 as nat, p2 as nat);
    crate::text::lemma_decimal_denotes(p1 as nat);
    crate::text::lemma_decimal_denotes(p2 as nat);
    let pre = "[supercollider-mcp] Open WebUI URL: http://127.0.0.1:"@;
    let post = "/mcp (use 127.0.0.1, not localhost, if tools fail)"@;
    reveal_strlit("[supercollider-mcp] Open WebUI URL: http://127.0.0.1:");
    reveal_strlit("/mcp (use 127.0.0.1, not localhost, if tools fail)");
    let d1 = decimal(p1 as nat);
    let d2 = decimal(p2 as nat);
    let l1 = pre + d1 + post;
    let l2 = pre + d2 + post;
    assert(streamable_http_text(addr, ipv4, p1)[1] == l1);
    assert(streamable_http_text(addr, ipv4, p2)[1] == l2);
    if l1 == l2 {
        let n = pre.len();
        if d1.len() < d2.len() {
            assert(l1[(n + d1.len()) as int] == '/');
            assert(l2[(n + d1.len()) as int] == d2[d1.len() as int]);
        } else if d2.len() < d1.len() {
            assert(l2[(n + d2.len()) as int] == '/');
            assert(l1[(n + d2.len()) as int] == d1[d2.len() as int]);
        } else {
            assert(d1 =~= d2) by {
                assert forall|i: int| 0 <= i < d1.len() implies d1[i] == d2[i] by {
                    assert(l1[n + i] == d1[i]);
                    assert(l2[n + i] == d2[i]);
                }
            }
        }
    }
}

} // verus!
