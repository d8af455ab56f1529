//! Chains of plugins: requests pass through them in order, responses in
//! reverse.
use crate::cache::ResponseText;
use crate::config::Config;
use crate::headers::{pairs, HeaderText};
use crate::text::{copy_strings, texts};
use vstd::prelude::*;

verus! {

/// A request handed to a plugin.
#[derive(Debug, Clone)]
pub struct Request {
    /// Request method.
    pub method: String,
    /// Request path and query.
    pub path: String,
    /// Request headers, in order; names may repeat.
    pub headers: Vec<(String, String)>,
    /// Request body.
    pub body: Vec<u8>,
    /// Client address.
    pub client_ip: String,
}

/// A plugin's request as text.
#[verifier::ext_equal]
pub struct PluginRequest {
    pub method: Seq<char>,
    pub path: Seq<char>,
    pub headers: Seq<HeaderText>,
    pub body: Seq<u8>,
    pub client_ip: Seq<char>,
}

impl View for Request {
    type V = PluginRequest;

    open spec fn view(&self) -> PluginRequest {
        PluginRequest {
            method: self.method@,
            path: self.path@,
            headers: pairs(self.headers@),
            body: self.body@,
            client_ip: self.client_ip@,
        }
    }
}

/// A response produced or modified by a plugin.
#[derive(Debug, Clone)]
pub struct Response {
    /// Status code.
    pub status: u16,
    /// Response headers.
    pub headers: Vec<(String, String)>,
    /// Response body.
    pub body: Vec<u8>,
}

impl View for Response {
    type V = ResponseText;

    open spec fn view(&self) -> ResponseText {
        ResponseText { status: self.status, headers: pairs(self.headers@), body: self.body@ }
    }
}

/// A plugin's decision about a request.
#[derive(Debug, Clone)]
pub enum Action {
    /// Go on to the next plugin, or the upstream, with this request.
    Continue(Request),
    /// Answer with this response, without contacting the upstream.
    Respond(Response),
}

/// What came of the request phase of a chain.
#[derive(Debug, Clone)]
pub enum ChainOutcome {
    /// Every plugin continued: forward this request.
    Continue(Request),
    /// A plugin answered: do not contact the upstream.
    Respond(Response),
}

/// What happened last while a request of a plugin route is handled.
#[derive(Debug)]
pub enum RunEvent {
    /// The request phase of the chain is over; none where a plugin failed.
    RequestRan(Option<ChainOutcome>),
    /// The upstream was asked; none where it gave no answer to use.
    Fetched(Option<Response>),
    /// The response phase of the chain is over; none where a plugin failed.
    ResponseRan(Option<Response>),
}

/// What is to be done next for a request of a plugin route.
#[derive(Debug)]
pub enum RunStep {
    /// Forward this request to the upstream.
    Fetch(Request),
    /// Run the response phase of the chain on this response.
    RunResponse(Response),
    /// The request is handled with this response, or failed.
    Done(Option<Response>),
}

/// How a request of a plugin route goes on: a plugin's own answer is final;
/// what the upstream answers goes through the response phase; a failure ends
/// it.
pub open spec fn run_next(event: RunEvent) -> RunStep {
    match event {
        RunEvent::RequestRan(Some(ChainOutcome::Continue(request))) => RunStep::Fetch(request),
        RunEvent::RequestRan(Some(ChainOutcome::Respond(response))) => RunStep::Done(
            Some(response),
        ),
        RunEvent::RequestRan(None) => RunStep::Done(None),
        RunEvent::Fetched(Some(response)) => RunStep::RunResponse(response),
        RunEvent::Fetched(None) => RunStep::Done(None),
        RunEvent::ResponseRan(response) => RunStep::Done(response),
    }
}

/// How a request of a plugin route goes on.
pub fn run_step(event: RunEvent) -> (r: RunStep)
    ensures
        r == run_next(event),
{
    match event {
        RunEvent::RequestRan(outcome) => match outcome {
            Some(ChainOutcome::Continue(request)) => RunStep::Fetch(request),
            Some(ChainOutcome::Respond(response)) => RunStep::Done(Some(response)),
            None => RunStep::Done(None),
        },
        RunEvent::Fetched(answer) => match answer {
            Some(response) => RunStep::RunResponse(response),
            None => RunStep::Done(None),
        },
        RunEvent::ResponseRan(response) => RunStep::Done(response),
    }
}

/// An ordered chain of plugins, those of every route first.
pub struct PluginChain<P> {
    plugins: Vec<P>,
}

impl<P> View for PluginChain<P> {
    type V = Seq<P>;

    closed spec fn view(&self) -> Seq<P> {
        self.plugins@
    }
}

/// How the request phase of a chain runs: each plugin is called in turn with
/// the request that the one before it passed on. The first that answers or
/// fails ends it.
pub open spec fn requests_run<P, E, F: Fn(&P, Request) -> Result<Action, E>>(
    plugins: Seq<P>,
    call: F,
    request: Request,
    outcome: Result<ChainOutcome, E>,
) -> bool
    decreases plugins.len(),
{
    if plugins.len() == 0 {
        outcome == Ok::<ChainOutcome, E>(ChainOutcome::Continue(request))
    } else {
        exists|answer: Result<Action, E>|
            {
                &&& #[trigger] call_ensures(call, (&plugins[0], request), answer)
                &&& match answer {
                    Ok(Action::Continue(modified)) => requests_run(
                        plugins.skip(1),
                        call,
                        modified,
                        outcome,
                    ),
                    Ok(Action::Respond(response)) => outcome == Ok::<ChainOutcome, E>(
                        ChainOutcome::Respond(response),
                    ),
                    Err(e) => outcome == Err::<ChainOutcome, E>(e),
                }
            }
    }
}

/// How the response phase of a chain runs: each plugin is called, the last
/// first, with the response that the one behind it passed on. The first that
/// fails ends it.
pub open spec fn responses_run<P, E, F: Fn(&P, Response) -> Result<Response, E>>(
    plugins: Seq<P>,
    call: F,
    response: Response,
    outcome: Result<Response, E>,
) -> bool
    decreases plugins.len(),
{
    if plugins.len() == 0 {
        outcome == Ok::<Response, E>(response)
    } else {
        exists|answer: Result<Response, E>|
            {
                &&& #[trigger] call_ensures(call, (&plugins.last(), response), answer)
                &&& match answer {
                    Ok(modified) => responses_run(plugins.drop_last(), call, modified, outcome),
                    Err(e) => outcome == Err::<Response, E>(e),
                }
            }
    }
}

impl<P> PluginChain<P> {
    /// A chain of plugins in order.
    pub fn new(plugins: Vec<P>) -> (r: PluginChain<P>)
        ensures
            r@ == plugins@,
    {
        PluginChain { plugins }
    }

    /// Whether the chain has no plugins.
    pub fn is_empty(&self) -> (r: bool)
        ensures
            r == (self@.len() == 0),
    {
        self.plugins.len() == 0
    }

    /// Calls each plugin's request hook in order, passing the request on.
    /// Stops at the first plugin that answers or fails.
    pub fn handle_request<E, F: Fn(&P, Request) -> Result<Action, E>>(
        &self,
        request: Request,
        call: F,
    ) -> (r: Result<ChainOutcome, E>)
        requires
            forall|p: &P, q: Request| #[trigger] call_requires(call, (p, q)),
        ensures
            requests_run(self@, call, request, r),
    {
        assert(self@.skip(0) =~= self@);
        self.requests_from(0, request, call)
    }

    fn requests_from<E, F: Fn(&P, Request) -> Result<Action, E>>(
        &self,
        i: usize,
        request: Request,
        call: F,
    ) -> (r: Result<ChainOutcome, E>)
        requires
            i <= self@.len(),
            forall|p: &P, q: Request| #[trigger] call_requires(call, (p, q)),
        ensures
            requests_run(self@.skip(i as int), call, request, r),
        decreases self@.len() - i,
    {
        let ghost rest = self@.skip(i as int);
        if i == self.plugins.len() {
            return Ok(ChainOutcome::Continue(request));
        }
        assert(rest[0] == self.plugins@[i as int]);
        assert(rest.skip(1) =~= self@.skip(i + 1));
        let answer = call(&self.plugins[i], request);
        assert(call_ensures(call, (&rest[0], request), answer));
        match answer {
            Ok(Action::Continue(modified)) => self.requests_from(i + 1, modified, call),
            Ok(Action::Respond(response)) => Ok(ChainOutcome::Respond(response)),
            Err(e) => Err(e),
        }
    }

    /// Calls each plugin's response hook in reverse order, passing the
    /// response on. Stops at the first plugin that fails.
    pub fn handle_response<E, F: Fn(&P, Response) -> Result<Response, E>>(
        &self,
        response: Response,
        call: F,
    ) -> (r: Result<Response, E>)
        requires
            forall|p: &P, q: Response| #[trigger] call_requires(call, (p, q)),
        ensures
            responses_run(self@, call, response, r),
    {
        assert(self@.take(self@.len() as int) =~= self@);
        self.responses_below(self.plugins.len(), response, call)
    }

    fn responses_below<E, F: Fn(&P, Response) -> Result<Response, E>>(
        &self,
        n: usize,
        response: Response,
        call: F,
    ) -> (r: Result<Response, E>)
        requires
            n <= self@.len(),
            forall|p: &P, q: Response| #[trigger] call_requires(call, (p, q)),
        ensures
            responses_run(self@.take(n as int), call, response, r),
        decreases n,
    {
        let ghost front = self@.take(n as int);
        if n == 0 {
            return Ok(response);
        }
        assert(front.last() == self.plugins@[n - 1]);
        assert(front.drop_last() =~= self@.take(n - 1));
        let answer = call(&self.plugins[n - 1], response);
        assert(call_ensures(call, (&front.last(), response), answer));
        match answer {
            Ok(modified) => self.responses_below(n - 1, modified, call),
            Err(e) => Err(e),
        }
    }
}

/// Plugins in front decide first: a chain of two parts runs the first part,
/// and the second only where every plugin of the first continued, with the
/// request that it passed on.
pub proof fn law_chain_parts_run_in_order<P, E, F: Fn(&P, Request) -> Result<Action, E>>(
    front: Seq<P>,
    back: Seq<P>,
    call: F,
    request: Request,
    outcome: Result<ChainOutcome, E>,
) -> (middle: Result<ChainOutcome, E>)
    requires
        requests_run(front + back, call, request, outcome),
    ensures
        requests_run(front, call, request, middle),
        match middle {
            Ok(ChainOutcome::Continue(passed)) => requests_run(back, call, passed, outcome),
            _ => outcome == middle,
        },
    decreases front.len(),
{
    let all = front + back;
    if front.len() == 0 {
        assert(all =~= back);
        Ok(ChainOutcome::Continue(request))
    } else {
        assert(all[0] == front[0]);
        assert(all.skip(1) =~= front.skip(1) + back);
        let answer = choose|answer: Result<Action, E>|
            {
                &&& #[trigger] call_ensures(call, (&all[0], request), answer)
                &&& match answer {
                    Ok(Action::Continue(modified)) => requests_run(
                        all.skip(1),
                        call,
                        modified,
                        outcome,
                    ),
                    Ok(Action::Respond(response)) => outcome == Ok::<ChainOutcome, E>(
                        ChainOutcome::Respond(response),
                    ),
                    Err(e) => outcome == Err::<ChainOutcome, E>(e),
                }
            };
        assert(call_ensures(call, (&front[0], request), answer));
        match answer {
            Ok(Action::Continue(modified)) => law_chain_parts_run_in_order(
                front.skip(1),
                back,
                call,
                modified,
                outcome,
            ),
            _ => outcome,
        }
    }
}

/// Responses pass through the parts of a chain the other way round: through
/// the second part, and through the first only where that did not fail.
pub proof fn law_chain_parts_unwind_in_reverse<P, E, F: Fn(&P, Response) -> Result<Response, E>>(
    front: Seq<P>,
    back: Seq<P>,
    call: F,
    response: Response,
    outcome: Result<Response, E>,
) -> (middle: Result<Response, E>)
    requires
        responses_run(front + back, call, response, outcome),
    ensures
        responses_run(back, call, response, middle),
        match middle {
            Ok(passed) => responses_run(front, call, passed, outcome),
            Err(_) => outcome == middle,
        },
    decreases back.len(),
{
    let all = front + back;
    if back.len() == 0 {
        assert(all =~= front);
        Ok(response)
    } else {
        assert(all.last() == back.last());
        assert(all.drop_last() =~= front + back.drop_last());
        let answer = choose|answer: Result<Response, E>|
            {
                &&& #[trigger] call_ensures(call, (&all.last(), response), answer)
                &&& match answer {
                    Ok(modified) => responses_run(all.drop_last(), call, modified, outcome),
                    Err(e) => outcome == Err::<Response, E>(e),
                }
            };
        assert(call_ensures(call, (&back.last(), response), answer));
        match answer {
            Ok(modified) => law_chain_parts_unwind_in_reverse(
                front,
                back.drop_last(),
                call,
                modified,
                outcome,
            ),
            Err(_) => outcome,
        }
    }
}

/// The plugin files of every route's chain, the global ones first; none where
/// the configuration names no plugin at all.
pub open spec fn chain_paths(config: Config) -> Option<Seq<Seq<Seq<char>>>> {
    let global = global_paths(config);
    if global.len() == 0 && forall|i: int|
        0 <= i < config.routes@.len() ==> (#[trigger] config.routes@[i]).plugins@.len() == 0 {
        None
    } else {
        Some(
            Seq::new(
                config.routes@.len(),
                |i: int| global + texts(config.routes@[i].plugins@),
            ),
        )
    }
}

/// The plugin files that every route runs.
pub open spec fn global_paths(config: Config) -> Seq<Seq<char>> {
    match config.plugins {
        Some(p) => texts(p.global@),
        None => Seq::empty(),
    }
}

/// The texts of a list of lists of strings.
pub open spec fn text_lists(v: Seq<Vec<String>>) -> Seq<Seq<Seq<char>>> {
    v.map_values(|x: Vec<String>| texts(x@))
}

/// The plugin files to load for every route's chain; `None` where there are
/// no plugins.
pub fn plan_chains(config: &Config) -> (r: Option<Vec<Vec<String>>>)
    ensures
        match r {
            Some(lists) => chain_paths(*config) == Some(text_lists(lists@)),
            None => chain_paths(*config) is None,
        },
{
    let global: Vec<String> = match &config.plugins {
        Some(p) => copy_strings(&p.global),
        None => Vec::new(),
    };
    let ghost g = global_paths(*config);
    assert(texts(global@) =~= g);
    let mut any = global.len() > 0;
    let mut lists: Vec<Vec<String>> = Vec::new();
    let mut i: usize = 0;
    while i < config.routes.len()
        invariant
            i <= config.routes.len(),
            texts(global@) == g,
            any <==> (g.len() > 0 || exists|j: int|
                0 <= j < i && (#[trigger] config.routes@[j]).plugins@.len() > 0),
            text_lists(lists@) == Seq::new(
                i as nat,
                |j: int| g + texts(config.routes@[j].plugins@),
            ),
        decreases config.routes.len() - i,
    {
        let ghost before = lists@;
        let route = &config.routes[i];
        if route.plugins.len() > 0 {
            any = true;
        }
        let mut list = copy_strings(&global);
        let ghost l0 = list@;
        let mut own = copy_strings(&route.plugins);
        let ghost o0 = own@;
        list.append(&mut own);
        assert(texts(list@) =~= texts(l0) + texts(o0));
        let ghost l1 = list@;
        lists.push(list);
        assert(text_lists(lists@) =~= text_lists(before).push(texts(l1)));
        i = i + 1;
        assert(text_lists(lists@) =~= Seq::new(
            i as nat,
            |j: int| g + texts(config.routes@[j].plugins@),
        ));
    }
    if any {
        Some(lists)
    } else {
        None
    }
}

/// The plugin chains of all routes.
pub struct Plugins<P> {
    chains: Vec<PluginChain<P>>,
    max_body: u64,
}

/// The plugins of each chain.
pub open spec fn chain_views<P>(chains: Seq<PluginChain<P>>) -> Seq<Seq<P>> {
    chains.map_values(|c: PluginChain<P>| c@)
}

impl<P> View for Plugins<P> {
    type V = Seq<Seq<P>>;

    closed spec fn view(&self) -> Seq<Seq<P>> {
        chain_views(self.chains@)
    }
}

/// The largest body that is buffered for plugins: the configured size, one
/// mebibyte where none is configured.
pub open spec fn body_cap(config: Config) -> u64 {
    match config.plugins {
        Some(p) => p.max_body_bytes,
        None => 1_048_576,
    }
}

impl<P> Plugins<P> {
    /// The largest body that is buffered for plugins.
    pub closed spec fn cap(&self) -> u64 {
        self.max_body
    }

    /// The chains of all routes, by the routes' indices. Bodies are buffered
    /// up to the configured size, one mebibyte where none is configured.
    pub fn build(config: &Config, chains: Vec<PluginChain<P>>) -> (r: Plugins<P>)
        ensures
            r@ == chain_views(chains@),
            r.cap() == body_cap(*config),
    {
        let max_body: u64 = match &config.plugins {
            Some(p) => p.max_body_bytes,
            None => 1_048_576,
        };
        Plugins { chains, max_body }
    }

    /// The chain of a route, if it has any plugins.
    pub fn chain(&self, route_id: usize) -> (r: Option<&PluginChain<P>>)
        ensures
            match r {
                Some(c) => has_chain(self@, route_id as int) && c@ == self@[route_id as int],
                None => !has_chain(self@, route_id as int),
            },
    {
        if route_id < self.chains.len() {
            assert(self@[route_id as int] == self.chains@[route_id as int]@);
            if !self.chains[route_id].is_empty() {
                return Some(&self.chains[route_id]);
            }
        }
        None
    }

    /// The largest body that is buffered for plugins.
    pub fn max_body(&self) -> (r: u64)
        ensures
            r == self.cap(),
    {
        self.max_body
    }
}

/// Whether the route has a chain with any plugins.
pub open spec fn has_chain<P>(chains: Seq<Seq<P>>, route_id: int) -> bool {
    0 <= route_id < chains.len() && chains[route_id].len() > 0
}

} // verus!
