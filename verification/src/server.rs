//! The parameters of the MCP tools and the reply of the ping tool.
use vstd::prelude::*;

use crate::text::{blank, is_blank};

verus! {

/// Parameters of the ping tool: an optional note, echoed in the reply.
#[derive(Clone, Debug)]
pub struct PingParams {
    pub message: Option<String>,
}

/// Parameters of a tool that takes none.
#[derive(Clone, Debug, Default)]
pub struct EmptyParams {}

/// The note that a ping reply echoes: the message, unless it is absent or
/// only white space.
pub open spec fn echoed_note(message: Option<String>) -> Option<Seq<char>> {
    match message {
        Some(m) => if blank(m@) {
            None
        } else {
            Some(m@)
        },
        None => None,
    }
}

/// The reply of the ping tool to a presence report.
pub open spec fn ping_reply_text(report: Seq<char>, message: Option<String>) -> Seq<char> {
    match echoed_note(message) {
        Some(m) => report + "\nNote: "@ + m,
        None => report,
    }
}

/// The reply of the ping tool: the presence report, followed by the caller's
/// note when one was given.
pub fn ping_reply(report: String, params: &PingParams) -> (reply: String)
    ensures
        reply@ == ping_reply_text(report@, params.message),
{
    match &params.message {
        Some(m) => {
            if is_blank(m.as_str()) {
                report
            } else {
                let mut out = report;
                out.append("\nNote: ");
                out.append(m.as_str());
                out
            }
        },
        None => report,
    }
}

/// A ping reply always begins with the full presence report, and adds
/// nothing when no note (or a blank one) was given.
pub proof fn lemma_ping_reply_extends_report(report: Seq<char>, message: Option<String>)
    ensures
        ping_reply_text(report, message).len() >= report.len(),
        ping_reply_text(report, message).subrange(0, report.len() as int) == report,
        echoed_note(message) is None ==> ping_reply_text(report, message) == report,
{
    let r = ping_reply_text(report, message);
    assert(r.subrange(0, report.len() as int) =~= report);
}

/// A note that is not blank is echoed whole after the report: the reply is
/// the report, `\nNote: ` and the note, so it ends with the note and is
/// seven characters longer than report and note together; a missing or
/// blank note leaves the report as it is.
pub proof fn lemma_note_echoed_whole(report: Seq<char>, m: String)
    ensures
        !blank(m@) ==> ping_reply_text(report, Some(m)) == report + "\nNote: "@ + m@,
        !blank(m@) ==> ping_reply_text(report, Some(m)).len() == report.len() + 7 + m@.len(),
        !blank(m@) ==> ping_reply_text(report, Some(m)).subrange(
            report.len() + 7 as int,
            report.len() + 7 + m@.len() as int,
        ) == m@,
        blank(m@) ==> ping_reply_text(report, Some(m)) == report,
        ping_reply_text(report, None) == report,
{
    reveal_strlit("\nNote: ");
    if !blank(m@) {
        let r = report + "\nNote: "@ + m@;
        assert(r.subrange(report.len() + 7 as int, report.len() + 7 + m@.len() as int) =~= m@);
    }
}

} // verus!
