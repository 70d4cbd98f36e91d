//! Normalising the `Accept` header of Streamable HTTP requests: the MCP
//! transport demands strict `Accept` values, which some clients omit.
use vstd::prelude::*;

use crate::text::{contains_text, occurs_at, text_contains};

verus! {

/// The HTTP methods the normalisation tells apart.
#[derive(Clone, Copy, Debug, PartialEq, Eq, Structural)]
pub enum RequestMethod {
    Get,
    Post,
    Other,
}

/// The `Accept` value that a POST is given when its own does not do.
pub open spec fn post_accept() -> Seq<char> {
    "application/json, text/event-stream"@
}

/// The `Accept` value that a GET is given when its own does not do.
pub open spec fn get_accept() -> Seq<char> {
    "text/event-stream"@
}

/// The request already carries an `Accept` value the transport takes.
pub open spec fn accept_ok(method: RequestMethod, accept: Option<Seq<char>>) -> bool {
    match method {
        RequestMethod::Post => match accept {
            Some(h) => contains_text(h, "application/json"@) && contains_text(
                h,
                "text/event-stream"@,
            ),
            None => false,
        },
        RequestMethod::Get => match accept {
            Some(h) => contains_text(h, "text/event-stream"@),
            None => false,
        },
        RequestMethod::Other => true,
    }
}

/// The `Accept` value to set on the request, if any: none when its own
/// already does, else the full value the transport expects for its method.
pub open spec fn accept_replacement(method: RequestMethod, accept: Option<Seq<char>>) -> Option<
    Seq<char>,
> {
    if accept_ok(method, accept) {
        None
    } else {
        match method {
            RequestMethod::Post => Some(post_accept()),
            RequestMethod::Get => Some(get_accept()),
            RequestMethod::Other => None,
        }
    }
}

/// The `Accept` value the request carries after normalisation.
pub open spec fn accept_after(method: RequestMethod, accept: Option<Seq<char>>) -> Option<
    Seq<char>,
> {
    match accept_replacement(method, accept) {
        Some(v) => Some(v),
        None => accept,
    }
}

/// The characters of an optional text.
pub open spec fn opt_text(s: Option<&str>) -> Option<Seq<char>> {
    match s {
        Some(t) => Some(t@),
        None => None,
    }
}

/// The characters of an optional string.
pub open spec fn opt_string(s: Option<String>) -> Option<Seq<char>> {
    match s {
        Some(t) => Some(t@),
        None => None,
    }
}

/// The `Accept` value to set on a request with the given method and `Accept`
/// value (`None` when the header is missing or not visible ASCII), or `None`
/// to leave the request as it is.
pub fn normalize_accept(method: RequestMethod, accept: Option<&str>) -> (r: Option<String>)
    ensures
        opt_string(r) == accept_replacement(method, opt_text(accept)),
{
    match method {
        RequestMethod::Post => {
            let ok = match accept {
                Some(h) => text_contains(h, "application/json") && text_contains(
                    h,
                    "text/event-stream",
                ),
                None => false,
            };
            if ok {
                None
            } else {
                Some(String::from_str("application/json, text/event-stream"))
            }
        },
        RequestMethod::Get => {
            let ok = match accept {
                Some(h) => text_contains(h, "text/event-stream"),
                None => false,
            };
            if ok {
                None
            } else {
                Some(String::from_str("text/event-stream"))
            }
        },
        RequestMethod::Other => None,
    }
}

/// After normalisation every request carries an `Accept` value the transport
/// takes, and normalising it again changes nothing.
pub proof fn lemma_normalized_accept_ok(method: RequestMethod, accept: Option<Seq<char>>)
    ensures
        accept_ok(method, accept_after(method, accept)),
        accept_replacement(method, accept_after(method, accept)) is None,
{
    reveal_strlit("application/json, text/event-stream");
    reveal_strlit("application/json");
    reveal_strlit("text/event-stream");
    let p = post_accept();
    let g = get_accept();
    assert(p.subrange(0, 16) =~= "application/json"@);
    assert(occurs_at(p, "application/json"@, 0));
    assert(p.subrange(18, 35) =~= "text/event-stream"@);
    assert(occurs_at(p, "text/event-stream"@, 18));
    assert(g.subrange(0, 17) =~= "text/event-stream"@);
    assert(occurs_at(g, "text/event-stream"@, 0));
}

/// A request is left as it is exactly when its `Accept` value already names
/// what the transport needs (both `application/json` and `text/event-stream`
/// for a POST, `text/event-stream` for a GET), and otherwise gets exactly the
/// value the transport expects; other methods are never touched.
pub proof fn lemma_accept_left_alone_only_when_sufficient(h: Seq<char>)
    ensures
        accept_replacement(RequestMethod::Get, Some(h)) is None <==> contains_text(
            h,
            "text/event-stream"@,
        ),
        accept_replacement(RequestMethod::Post, Some(h)) is None <==> (contains_text(
            h,
            "application/json"@,
        ) && contains_text(h, "text/event-stream"@)),
        !contains_text(h, "text/event-stream"@) ==> accept_replacement(
            RequestMethod::Get,
            Some(h),
        ) == Some("text/event-stream"@),
        !(contains_text(h, "application/json"@) && contains_text(h, "text/event-stream"@))
            ==> accept_replacement(RequestMethod::Post, Some(h)) == Some(
            "application/json, text/event-stream"@,
        ),
        accept_replacement(RequestMethod::Get, None) == Some("text/event-stream"@),
        accept_replacement(RequestMethod::Post, None) == Some(
            "application/json, text/event-stream"@,
        ),
        accept_replacement(RequestMethod::Other, Some(h)) is None,
        accept_replacement(RequestMethod::Other, None) is None,
{
}

} // verus!
