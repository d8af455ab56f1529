//! Which plugins run for a request, in which order, and what the upstream's
//! answers come to.
use crate::cache::ResponseText;
use crate::config::Config;
use crate::laws::headers::{as_pair, end_to_end, law_end_to_end_headers_are_stored};
use crate::message::{fields, FieldText, HeaderField};
use crate::plugin::{
    body_cap, chain_paths, has_chain, requests_run, responses_run, run_next, Action, ChainOutcome,
    Request, Response, RunEvent, RunStep,
};
use crate::sample_filter::{blocked, tag, tagged};
use crate::text::texts;
use crate::upstream::{fetched_text, revalidation_outcome, RevalidatedText, RevalidationEvent};
use vstd::prelude::*;

verus! {

/// Every route runs the plugins that are configured for all, and its own behind
/// them. Where none is configured at all there are no chains.
pub proof fn law_chains_are_as_configured(config: Config, i: int)
    requires
        0 <= i < config.routes@.len(),
    ensures
        config.plugins matches Some(p) ==> (p.global@.len() > 0 ==> (chain_paths(
            config,
        ) matches Some(paths) && paths.len() == config.routes@.len() && paths[i] == texts(p.global@)
            + texts(config.routes@[i].plugins@))),
        (config.plugins is None || config.plugins->0.global@.len() == 0)
            && config.routes@[i].plugins@.len() > 0 ==> (chain_paths(config) matches Some(paths)
            && paths.len() == config.routes@.len() && paths[i] == texts(
            config.routes@[i].plugins@,
        )),
        chain_paths(config) is None <==> (config.plugins is None || config.plugins->0.global@.len()
            == 0) && forall|j: int|
            0 <= j < config.routes@.len() ==> (#[trigger] config.routes@[j]).plugins@.len() == 0,
{
    let global = crate::plugin::global_paths(config);
    if let Some(paths) = chain_paths(config) {
        if global.len() == 0 {
            assert(paths[i] =~= texts(config.routes@[i].plugins@));
        }
    }
}

/// Bodies are buffered up to the configured size, or a mebibyte.
pub proof fn law_buffer_is_as_configured(config: Config)
    ensures
        config.plugins matches Some(p) ==> body_cap(config) == p.max_body_bytes,
        config.plugins is None ==> body_cap(config) == 1024 * 1024,
{
}

/// A route has a chain exactly where its index is one and plugins are listed
/// under it.
pub proof fn law_chain_of_a_route<P>(chains: Seq<Seq<P>>, route_id: int)
    ensures
        has_chain(chains, route_id) <==> 0 <= route_id && route_id < chains.len()
            && chains[route_id].len() != 0,
{
}

/// Without plugins a request is passed on as it is; a single plugin's answer is
/// what comes of it: the request that it passes on, its response, or its
/// failure.
pub proof fn law_request_of_one_plugin<P, E, F: Fn(&P, Request) -> Result<Action, E>>(
    plugin: P,
    call: F,
    request: Request,
    outcome: Result<ChainOutcome, E>,
)
    ensures
        requests_run(Seq::<P>::empty(), call, request, outcome) <==> outcome == Ok::<
            ChainOutcome,
            E,
        >(ChainOutcome::Continue(request)),
        requests_run(seq![plugin], call, request, outcome) <==> exists|answer: Result<Action, E>|
            {
                &&& #[trigger] call_ensures(call, (&plugin, request), answer)
                &&& answer matches Ok(Action::Continue(passed)) ==> outcome == Ok::<
                    ChainOutcome,
                    E,
                >(ChainOutcome::Continue(passed))
                &&& answer matches Ok(Action::Respond(response)) ==> outcome == Ok::<
                    ChainOutcome,
                    E,
                >(ChainOutcome::Respond(response))
                &&& answer matches Err(e) ==> outcome == Err::<ChainOutcome, E>(e)
            },
{
    let one = seq![plugin];
    assert(one.skip(1) =~= Seq::<P>::empty());
    reveal_with_fuel(requests_run, 3);
    if requests_run(one, call, request, outcome) {
        let answer = choose|answer: Result<Action, E>|
            {
                &&& #[trigger] call_ensures(call, (&one[0], request), answer)
                &&& match answer {
                    Ok(Action::Continue(modified)) => requests_run(
                        one.skip(1),
                        call,
                        modified,
                        outcome,
                    ),
                    Ok(Action::Respond(response)) => outcome == Ok::<ChainOutcome, E>(
                        ChainOutcome::Respond(response),
                    ),
                    Err(e) => outcome == Err::<ChainOutcome, E>(e),
                }
            };
        assert(call_ensures(call, (&plugin, request), answer));
    }
    if exists|answer: Result<Action, E>|
        {
            &&& #[trigger] call_ensures(call, (&plugin, request), answer)
            &&& answer matches Ok(Action::Continue(passed)) ==> outcome == Ok::<ChainOutcome, E>(
                ChainOutcome::Continue(passed),
            )
            &&& answer matches Ok(Action::Respond(response)) ==> outcome == Ok::<ChainOutcome, E>(
                ChainOutcome::Respond(response),
            )
            &&& answer matches Err(e) ==> outcome == Err::<ChainOutcome, E>(e)
        } {
        let answer = choose|answer: Result<Action, E>|
            {
                &&& #[trigger] call_ensures(call, (&plugin, request), answer)
                &&& answer matches Ok(Action::Continue(passed)) ==> outcome == Ok::<
                    ChainOutcome,
                    E,
                >(ChainOutcome::Continue(passed))
                &&& answer matches Ok(Action::Respond(response)) ==> outcome == Ok::<
                    ChainOutcome,
                    E,
                >(ChainOutcome::Respond(response))
                &&& answer matches Err(e) ==> outcome == Err::<ChainOutcome, E>(e)
            };
        assert(call_ensures(call, (&one[0], request), answer));
    }
}

/// Without plugins a response is passed on as it is; a single plugin's answer is
/// what comes of it.
pub proof fn law_response_of_one_plugin<P, E, F: Fn(&P, Response) -> Result<Response, E>>(
    plugin: P,
    call: F,
    response: Response,
    outcome: Result<Response, E>,
)
    ensures
        responses_run(Seq::<P>::empty(), call, response, outcome) <==> outcome == Ok::<Response, E>(
            response,
        ),
        responses_run(seq![plugin], call, response, outcome) <==> call_ensures(
            call,
            (&plugin, response),
            outcome,
        ),
{
    let one = seq![plugin];
    assert(one.drop_last() =~= Seq::<P>::empty());
    assert(one.last() == plugin);
    reveal_with_fuel(responses_run, 3);
    if responses_run(one, call, response, outcome) {
        let answer = choose|answer: Result<Response, E>|
            {
                &&& #[trigger] call_ensures(call, (&one.last(), response), answer)
                &&& match answer {
                    Ok(modified) => responses_run(one.drop_last(), call, modified, outcome),
                    Err(e) => outcome == Err::<Response, E>(e),
                }
            };
        assert(answer == outcome);
    }
    if call_ensures(call, (&plugin, response), outcome) {
        assert(call_ensures(call, (&one.last(), response), outcome));
    }
}

/// A request that plugins pass on is forwarded, and what the upstream answers
/// goes through them again; what a plugin answers itself is final; a failure of
/// a plugin or of the upstream ends the request.
pub proof fn law_course_of_a_plugin_request(
    request: Request,
    response: Response,
    last: Option<Response>,
)
    ensures
        run_next(RunEvent::RequestRan(Some(ChainOutcome::Continue(request)))) == RunStep::Fetch(
            request,
        ),
        run_next(RunEvent::RequestRan(Some(ChainOutcome::Respond(response)))) == RunStep::Done(
            Some(response),
        ),
        run_next(RunEvent::RequestRan(None)) == RunStep::Done(None),
        run_next(RunEvent::Fetched(Some(response))) == RunStep::RunResponse(response),
        run_next(RunEvent::Fetched(None)) == RunStep::Done(None),
        run_next(RunEvent::ResponseRan(last)) == RunStep::Done(last),
{
}

/// Plugins get the upstream's answer with its status, its end-to-end headers and
/// its whole body, up to what is buffered for them; a larger one they do not
/// get.
pub proof fn law_plugins_get_the_answer(
    status: u16,
    headers: Seq<FieldText>,
    body: Seq<u8>,
    max_body: u64,
)
    ensures
        body.len() <= max_body ==> (fetched_text(status, headers, body, max_body) matches Some(r)
            && r.status == status && r.body == body && r.headers == headers.filter(
            end_to_end(),
        ).map_values(as_pair())),
        body.len() > max_body ==> fetched_text(status, headers, body, max_body) is None,
{
    law_end_to_end_headers_are_stored(headers);
}

/// What the origin's answer to a conditional request comes to: 304 confirms the
/// entry; the body of a 200 is read, and replaces it with the end-to-end headers
/// where it is not too large; anything else leaves it unsettled.
pub proof fn law_what_the_origin_answers(
    status: u16,
    headers: Vec<HeaderField>,
    body: Vec<u8>,
    max_body: u64,
)
    ensures
        revalidation_outcome(RevalidationEvent::NoAnswer, max_body) == Some(
            RevalidatedText::Failed,
        ),
        revalidation_outcome(RevalidationEvent::Answered(304), max_body) == Some(
            RevalidatedText::NotModified,
        ),
        revalidation_outcome(RevalidationEvent::Answered(200), max_body) is None,
        status != 200 && status != 304 ==> revalidation_outcome(
            RevalidationEvent::Answered(status),
            max_body,
        ) == Some(RevalidatedText::Failed),
        revalidation_outcome(RevalidationEvent::BodyRead(headers, None), max_body) == Some(
            RevalidatedText::Failed,
        ),
        body@.len() > max_body ==> revalidation_outcome(
            RevalidationEvent::BodyRead(headers, Some(body)),
            max_body,
        ) == Some(RevalidatedText::Failed),
        body@.len() <= max_body ==> revalidation_outcome(
            RevalidationEvent::BodyRead(headers, Some(body)),
            max_body,
        ) == Some(
            RevalidatedText::Modified(
                ResponseText {
                    status: 200,
                    headers: fields(headers@).filter(end_to_end()).map_values(as_pair()),
                    body: body@,
                },
            ),
        ),
{
    law_end_to_end_headers_are_stored(fields(headers@));
}

/// The sample plugin adds its tag behind the headers of a response and changes
/// nothing else; what it blocks gets 403.
pub proof fn law_sample_tags_responses(response: ResponseText, answer: Response)
    ensures
        tagged(response).status == response.status,
        tagged(response).body == response.body,
        tagged(response).headers == response.headers.push(("x-plugin"@, "ran"@)),
        blocked(answer) ==> answer.status == 403,
{
}

} // verus!
