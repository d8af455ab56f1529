//! Requests that the proxy makes itself: revalidating a stale cache entry, and
//! forwarding a request that plugins have handled.
use crate::cache::ResponseText;
use crate::headers::{copy_pair, pairs, HeaderText};
use crate::message::{fields, FieldText, HeaderField};
use crate::plugin::Response;
use crate::relay::{storable, storable_headers};
use crate::router::{Endpoint, EndpointText};
use crate::text::{same_ignore_case, same_ignoring_case};
use vstd::prelude::*;
use vstd::string::StringExecFns;

verus! {

/// A request to an upstream, but for its body.
#[derive(Debug)]
pub struct Outbound {
    pub method: String,
    pub uri: String,
    pub headers: Vec<(String, String)>,
}

/// A request to an upstream as text.
#[verifier::ext_equal]
pub struct OutboundText {
    pub method: Seq<char>,
    pub uri: Seq<char>,
    pub headers: Seq<HeaderText>,
}

impl View for Outbound {
    type V = OutboundText;

    open spec fn view(&self) -> OutboundText {
        OutboundText { method: self.method@, uri: self.uri@, headers: pairs(self.headers@) }
    }
}

/// The URI of a path and query at a target.
pub open spec fn target_uri(target: EndpointText, path_and_query: Seq<char>) -> Seq<char> {
    (if target.tls {
        "https://"@
    } else {
        "http://"@
    }) + target.address + path_and_query
}

/// The URI of a path and query at a target.
pub fn upstream_uri(target: &Endpoint, path_and_query: &str) -> (r: String)
    ensures
        r@ == target_uri(target@, path_and_query@),
{
    let mut out = (if target.tls {
        "https://"
    } else {
        "http://"
    }).to_owned();
    out.append(target.address.as_str());
    out.append(path_and_query);
    out
}

/// What came of revalidating a stale entry with the origin.
#[derive(Debug)]
pub enum Revalidated {
    /// The stored body is still valid.
    NotModified,
    /// A new response to store and serve.
    Modified {
        /// Status.
        status: u16,
        /// The response headers that may be stored.
        headers: Vec<(String, String)>,
        /// The response body.
        body: Vec<u8>,
    },
    /// The origin could not be reached or gave no useful answer: fetch as
    /// usual.
    Failed,
}

/// What came of revalidating, as text.
pub enum RevalidatedText {
    NotModified,
    Modified(ResponseText),
    Failed,
}

impl View for Revalidated {
    type V = RevalidatedText;

    open spec fn view(&self) -> RevalidatedText {
        match *self {
            Revalidated::NotModified => RevalidatedText::NotModified,
            Revalidated::Modified { status, headers, body } => RevalidatedText::Modified(
                ResponseText { status, headers: pairs(headers@), body: body@ },
            ),
            Revalidated::Failed => RevalidatedText::Failed,
        }
    }
}

/// The conditional request that revalidates an entry.
pub open spec fn conditional_request(
    target: EndpointText,
    path_and_query: Seq<char>,
    host: Seq<char>,
    etag: Seq<char>,
) -> OutboundText {
    OutboundText {
        method: "GET"@,
        uri: target_uri(target, path_and_query),
        headers: seq![("host"@, host), ("if-none-match"@, etag)],
    }
}

/// The conditional request that revalidates an entry.
pub fn revalidation_request(target: &Endpoint, path_and_query: &str, host: &str, etag: &str) -> (r:
    Outbound)
    ensures
        r@ == conditional_request(target@, path_and_query@, host@, etag@),
{
    let mut headers: Vec<(String, String)> = Vec::new();
    headers.push(("host".to_owned(), host.to_owned()));
    headers.push(("if-none-match".to_owned(), etag.to_owned()));
    let r = Outbound {
        method: "GET".to_owned(),
        uri: upstream_uri(target, path_and_query),
        headers,
    };
    assert(r@.headers =~= seq![("host"@, host@), ("if-none-match"@, etag@)]);
    r
}

/// What happened while an entry is revalidated.
#[derive(Debug)]
pub enum RevalidationEvent {
    /// The request could not be built or sent, or no response came in time.
    NoAnswer,
    /// The origin answered with this status.
    Answered(u16),
    /// The headers and the body of a 200; the body is absent where it could
    /// not be read.
    BodyRead(Vec<HeaderField>, Option<Vec<u8>>),
}

/// What to do next while an entry is revalidated.
#[derive(Debug)]
pub enum RevalidationStep {
    /// Read the body of the answer.
    ReadBody,
    /// The outcome is settled.
    Settled(Revalidated),
}

/// What follows an event: none where the body is to be read. A 304 confirms
/// the entry; a 200 whose body is readable and not too large replaces it;
/// anything else fails.
pub open spec fn revalidation_outcome(event: RevalidationEvent, max_body: u64) -> Option<
    RevalidatedText,
> {
    match event {
        RevalidationEvent::NoAnswer => Some(RevalidatedText::Failed),
        RevalidationEvent::Answered(status) => if status == 304 {
            Some(RevalidatedText::NotModified)
        } else if status == 200 {
            None
        } else {
            Some(RevalidatedText::Failed)
        },
        RevalidationEvent::BodyRead(headers, body) => match body {
            Some(bytes) => if bytes@.len() > max_body {
                Some(RevalidatedText::Failed)
            } else {
                Some(
                    RevalidatedText::Modified(
                        ResponseText {
                            status: 200,
                            headers: storable(fields(headers@)),
                            body: bytes@,
                        },
                    ),
                )
            },
            None => Some(RevalidatedText::Failed),
        },
    }
}

/// What to do after an event.
pub fn revalidate(event: RevalidationEvent, max_body: u64) -> (r: RevalidationStep)
    ensures
        match r {
            RevalidationStep::ReadBody => revalidation_outcome(event, max_body) is None,
            RevalidationStep::Settled(outcome) => revalidation_outcome(event, max_body) == Some(
                outcome@,
            ),
        },
{
    match event {
        RevalidationEvent::NoAnswer => RevalidationStep::Settled(Revalidated::Failed),
        RevalidationEvent::Answered(status) => if status == 304 {
            RevalidationStep::Settled(Revalidated::NotModified)
        } else if status == 200 {
            RevalidationStep::ReadBody
        } else {
            RevalidationStep::Settled(Revalidated::Failed)
        },
        RevalidationEvent::BodyRead(headers, body) => match body {
            Some(bytes) => if bytes.len() as u64 > max_body {
                RevalidationStep::Settled(Revalidated::Failed)
            } else {
                RevalidationStep::Settled(
                    Revalidated::Modified {
                        status: 200,
                        headers: storable_headers(&headers),
                        body: bytes,
                    },
                )
            },
            None => RevalidationStep::Settled(Revalidated::Failed),
        },
    }
}

/// The headers but those called `Host`.
pub open spec fn not_host(h: Seq<HeaderText>) -> Seq<HeaderText>
    decreases h.len(),
{
    if h.len() == 0 {
        Seq::empty()
    } else if same_ignoring_case(h.last().0, "host"@) {
        not_host(h.drop_last())
    } else {
        not_host(h.drop_last()).push(h.last())
    }
}

/// The request that forwards what plugins have handled: the host is the one
/// the client asked for, whatever the headers say.
pub open spec fn plain_request(
    target: EndpointText,
    method: Seq<char>,
    path_and_query: Seq<char>,
    host: Seq<char>,
    headers: Seq<HeaderText>,
) -> OutboundText {
    OutboundText {
        method,
        uri: target_uri(target, path_and_query),
        headers: seq![("host"@, host)] + not_host(headers),
    }
}

/// The request that forwards what plugins have handled.
pub fn fetch_request(
    target: &Endpoint,
    method: &str,
    path_and_query: &str,
    host: &str,
    headers: &Vec<(String, String)>,
) -> (r: Outbound)
    ensures
        r@ == plain_request(target@, method@, path_and_query@, host@, pairs(headers@)),
{
    let ghost all = pairs(headers@);
    let mut list: Vec<(String, String)> = Vec::new();
    list.push(("host".to_owned(), host.to_owned()));
    let mut i: usize = 0;
    assert(pairs(list@) =~= seq![("host"@, host@)] + not_host(all.take(0)));
    while i < headers.len()
        invariant
            i <= headers.len(),
            all == pairs(headers@),
            pairs(list@) == seq![("host"@, host@)] + not_host(all.take(i as int)),
        decreases headers.len() - i,
    {
        let ghost o = list@;
        assert(all[i as int] == (headers@[i as int].0@, headers@[i as int].1@));
        assert(all.take(i + 1).drop_last() =~= all.take(i as int));
        if !same_ignore_case(headers[i].0.as_str(), "host") {
            let p = copy_pair(&headers[i]);
            list.push(p);
            assert(pairs(list@) =~= pairs(o).push((p.0@, p.1@)));
        }
        assert(pairs(list@) =~= seq![("host"@, host@)] + not_host(all.take(i + 1)));
        i = i + 1;
    }
    assert(all.take(i as int) =~= all);
    Outbound { method: method.to_owned(), uri: upstream_uri(target, path_and_query), headers: list }
}

/// The response that plugins are given for what the upstream answered; none
/// where its body exceeds the cap.
pub open spec fn fetched_text(
    status: u16,
    headers: Seq<FieldText>,
    body: Seq<u8>,
    max_body: u64,
) -> Option<ResponseText> {
    if body.len() > max_body {
        None
    } else {
        Some(ResponseText { status, headers: storable(headers), body })
    }
}

/// The response that plugins are given for what the upstream answered: its
/// body must not exceed the cap, and headers of the connection are dropped.
pub fn fetched(status: u16, headers: &Vec<HeaderField>, body: Vec<u8>, max_body: u64) -> (r: Result<
    Response,
    String,
>)
    ensures
        match r {
            Ok(response) => fetched_text(status, fields(headers@), body@, max_body) == Some(
                response@,
            ),
            Err(text) => fetched_text(status, fields(headers@), body@, max_body) is None && text@
                == "upstream response too large for a plugin route"@,
        },
{
    if body.len() as u64 > max_body {
        return Err("upstream response too large for a plugin route".to_owned());
    }
    Ok(Response { status, headers: storable_headers(headers), body })
}

} // verus!
