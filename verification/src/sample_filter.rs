//! A sample plugin: it blocks `/blocked` and tags every response.
use crate::cache::ResponseText;
use crate::headers::{pairs, HeaderText};
use crate::plugin::{Action, Request, Response};
use crate::text::same;
use vstd::prelude::*;
use vstd::slice::slice_to_vec;
use vstd::utf8::encode_utf8;

verus! {

/// The tag on every response.
pub open spec fn tag() -> HeaderText {
    ("x-plugin"@, "ran"@)
}

/// The answer to a blocked request.
pub open spec fn blocked(response: Response) -> bool {
    &&& response.status == 403
    &&& pairs(response.headers@) == seq![("content-type"@, "text/plain"@)]
    &&& response.body@ == encode_utf8("blocked by plugin"@)
}

/// Blocks `/blocked` and passes every other request on as it is. A request for
/// `/loop`, which stands for a plugin that never returns, is left out.
pub fn handle_request(req: Request) -> (r: Action)
    requires
        req.path@ != "/loop"@,
    ensures
        req.path@ == "/blocked"@ ==> (r matches Action::Respond(response) && blocked(response)),
        req.path@ != "/blocked"@ ==> r == Action::Continue(req),
{
    if same(req.path.as_str(), "/blocked") {
        let mut headers: Vec<(String, String)> = Vec::new();
        headers.push(("content-type".to_owned(), "text/plain".to_owned()));
        assert(pairs(headers@) =~= seq![("content-type"@, "text/plain"@)]);
        let body = slice_to_vec("blocked by plugin".as_bytes());
        Action::Respond(Response { status: 403, headers, body })
    } else {
        Action::Continue(req)
    }
}

/// The response with the tag behind its headers.
pub open spec fn tagged(response: ResponseText) -> ResponseText {
    ResponseText { headers: response.headers.push(tag()), ..response }
}

/// Tags a response.
pub fn handle_response(resp: Response) -> (r: Response)
    ensures
        r@ == tagged(resp@),
{
    let mut headers = resp.headers;
    let ghost before = headers@;
    headers.push(("x-plugin".to_owned(), "ran".to_owned()));
    assert(pairs(headers@) =~= pairs(before).push(tag()));
    Response { status: resp.status, headers, body: resp.body }
}

} // verus!
