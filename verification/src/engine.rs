//! The execution engine's decisions. The engine owns the route table and
//! consumes queued calls one at a time, in arrival order; this module holds
//! what it decides for each call, as functions from table and request to
//! action and from invocation outcome to response. The loop that carries
//! the queue, performs the invocation and writes each reply lives outside.
use crate::envelope::{
    encode_request, spec_request_json, RequestEnvelope, Response, ResponseModel,
};
use crate::route::spec_route_key;
use crate::table::{spec_insert, RouteTable};
use vstd::prelude::*;

verus! {

/// What the table decides for a (method, path): the handler to invoke, or
/// nothing.
pub open spec fn spec_decision<H>(
    m: Map<(Seq<char>, Seq<char>), (Seq<char>, H)>,
    method: Seq<char>,
    path: Seq<char>,
) -> Option<H> {
    if m.contains_key((method, path)) {
        Some(m[(method, path)].1)
    } else {
        None
    }
}

/// The response for an invocation outcome: a value coerced to a string
/// succeeds; a script-level error is caught at this boundary and reported,
/// never propagated.
pub open spec fn spec_outcome_response(outcome: Result<Seq<char>, Seq<char>>) -> ResponseModel {
    match outcome {
        Ok(b) => ResponseModel::Success(b),
        Err(d) => ResponseModel::HandlerError(d),
    }
}

/// The response for one call, given what the invocation (if any) came to:
/// an unmatched key is not-found, without reading any handler.
pub open spec fn spec_serve<H>(
    m: Map<(Seq<char>, Seq<char>), (Seq<char>, H)>,
    method: Seq<char>,
    path: Seq<char>,
    outcome: Result<Seq<char>, Seq<char>>,
) -> ResponseModel {
    if m.contains_key((method, path)) {
        spec_outcome_response(outcome)
    } else {
        ResponseModel::NotFound
    }
}

/// The view of an invocation outcome.
pub open spec fn outcome_view(outcome: Result<String, String>) -> Result<Seq<char>, Seq<char>> {
    match outcome {
        Ok(b) => Ok(b@),
        Err(d) => Err(d@),
    }
}

/// What the engine does with one queued call: reply at once, or invoke a
/// handler with the encoded request.
pub enum CallStep<'a, H> {
    Respond(Response),
    Invoke(&'a H, String),
}

/// The engine: sole owner of the route table between reloads.
pub struct Engine<H> {
    pub table: RouteTable<H>,
}

impl<H> Engine<H> {
    pub open spec fn wf(self) -> bool {
        self.table.wf()
    }

    pub fn new(table: RouteTable<H>) -> (r: Engine<H>)
        ensures
            r.table == table,
    {
        Engine { table }
    }

    /// Decides one queued call: an unmatched (method, path) is answered
    /// not-found without touching any handler; a matched one names the
    /// handler to invoke and the JSON object to hand it.
    pub fn on_call<'a>(&'a self, env: &RequestEnvelope) -> (r: CallStep<'a, H>)
        requires
            self.wf(),
        ensures
            match r {
                CallStep::Respond(resp) => spec_decision(self.table@, env.method@, env.path@)
                    is None && resp@ == ResponseModel::NotFound,
                CallStep::Invoke(h, arg) => {
                    &&& spec_decision(self.table@, env.method@, env.path@) == Some(*h)
                    &&& arg@ == spec_request_json(env.method@, env.query.deep_view())
                },
            },
    {
        match self.table.lookup(env.method.as_str(), env.path.as_str()) {
            None => CallStep::Respond(Response::NotFound),
            Some(h) => CallStep::Invoke(h, encode_request(env)),
        }
    }

    /// Converts an invocation outcome into the one response written for the
    /// call: the engine survives a failing handler by construction.
    pub fn on_outcome(outcome: Result<String, String>) -> (r: Response)
        ensures
            r@ == spec_outcome_response(outcome_view(outcome)),
    {
        match outcome {
            Ok(body) => Response::Success { body },
            Err(diagnostic) => Response::HandlerError { diagnostic },
        }
    }

    /// Replaces the table wholesale. Reload travels on the same queue as
    /// the calls, so calls enqueued before it see the old table and calls
    /// enqueued after it see the new one; no call sees a half-built table.
    pub fn on_reload(&mut self, table: RouteTable<H>)
        ensures
            final(self).table == table,
    {
        self.table = table;
    }
}

/// A registered route is served: a request whose method and path carry a
/// table key is dispatched to exactly the handler registered under that
/// key, and the coerced output of that handler comes back verbatim as the
/// success response.
pub proof fn lemma_registered_route_served<H>(
    m: Map<(Seq<char>, Seq<char>), (Seq<char>, H)>,
    method: Seq<char>,
    path: Seq<char>,
    h: H,
    out: Seq<char>,
)
    requires
        m.contains_key((method, path)),
        m[(method, path)].1 == h,
    ensures
        spec_decision(m, method, path) == Some(h),
        spec_serve(m, method, path, Ok(out)) == ResponseModel::Success(out),
{
}

/// A discovered handler file is served: when the loader derives the key of
/// a file at `<routes>/<segments…>/<METHOD>.ext` and registers its handler
/// under a key not yet taken, a request with that method to `/` + the
/// segments joined by `/` is dispatched to that very handler, and the
/// handler's coerced output comes back verbatim as the success response.
pub proof fn lemma_discovered_file_served<H>(
    m: Map<(Seq<char>, Seq<char>), (Seq<char>, H)>,
    dirs: Seq<Seq<char>>,
    name: Seq<char>,
    source: Seq<char>,
    h: H,
    out: Seq<char>,
)
    requires
        spec_route_key(dirs, name) is Some,
        !m.contains_key(spec_route_key(dirs, name)->Some_0),
    ensures
        ({
            let k = spec_route_key(dirs, name)->Some_0;
            let loaded = spec_insert(m, k.0, k.1, source, h);
            &&& loaded.1 is None
            &&& spec_decision(loaded.0, k.0, k.1) == Some(h)
            &&& spec_serve(loaded.0, k.0, k.1, Ok(out)) == ResponseModel::Success(out)
        }),
{
}

/// A failing handler is isolated: its call yields a handler-error response,
/// distinguishable from every success, the table is untouched, and an
/// immediately following call to any registered route succeeds exactly as
/// it would have without the failure.
pub proof fn lemma_handler_error_isolated<H>(
    m: Map<(Seq<char>, Seq<char>), (Seq<char>, H)>,
    method1: Seq<char>,
    path1: Seq<char>,
    diagnostic: Seq<char>,
    method2: Seq<char>,
    path2: Seq<char>,
    out2: Seq<char>,
)
    requires
        m.contains_key((method1, path1)),
        m.contains_key((method2, path2)),
    ensures
        spec_serve(m, method1, path1, Err(diagnostic)) == ResponseModel::HandlerError(diagnostic),
        forall|b: Seq<char>|
            spec_serve(m, method1, path1, Err(diagnostic)) != ResponseModel::Success(b),
        spec_serve(m, method2, path2, Ok(out2)) == ResponseModel::Success(out2),
{
}

/// An unmatched (method, path) is answered not-found whatever any handler
/// would have returned, no handler is consulted for it, and a following
/// matched call is served exactly as if the unmatched one had never come.
pub proof fn lemma_unmatched_isolated<H>(
    m: Map<(Seq<char>, Seq<char>), (Seq<char>, H)>,
    method1: Seq<char>,
    path1: Seq<char>,
    method2: Seq<char>,
    path2: Seq<char>,
    out2: Seq<char>,
)
    requires
        !m.contains_key((method1, path1)),
        m.contains_key((method2, path2)),
    ensures
        spec_decision(m, method1, path1) is None,
        forall|o: Result<Seq<char>, Seq<char>>|
            spec_serve(m, method1, path1, o) == ResponseModel::NotFound,
        forall|o: Result<Seq<char>, Seq<char>>|
            spec_serve(m, method2, path2, o) == spec_outcome_response(o),
{
}

/// The responses for a batch of calls, processed one at a time in arrival
/// order: the i-th response is computed from the i-th request and the i-th
/// invocation outcome alone.
pub open spec fn spec_serve_all<H>(
    m: Map<(Seq<char>, Seq<char>), (Seq<char>, H)>,
    reqs: Seq<(Seq<char>, Seq<char>)>,
    outcomes: Seq<Result<Seq<char>, Seq<char>>>,
) -> Seq<ResponseModel> {
    Seq::new(reqs.len(), |i: int| spec_serve(m, reqs[i].0, reqs[i].1, outcomes[i]))
}

/// No cross-talk through the single queue: when each of many concurrent
/// callers' requests is answered by a handler echoing that caller's own
/// token, the i-th caller's reply carries the i-th token, and no other
/// reply in the batch carries it.
pub proof fn lemma_no_cross_talk<H>(
    m: Map<(Seq<char>, Seq<char>), (Seq<char>, H)>,
    reqs: Seq<(Seq<char>, Seq<char>)>,
    outcomes: Seq<Result<Seq<char>, Seq<char>>>,
    tokens: Seq<Seq<char>>,
)
    requires
        reqs.len() == outcomes.len(),
        reqs.len() == tokens.len(),
        forall|i: int| 0 <= i < reqs.len() ==> m.contains_key((reqs[i].0, reqs[i].1)),
        forall|i: int|
            0 <= i < reqs.len() ==> outcomes[i] == Ok::<Seq<char>, Seq<char>>(tokens[i]),
        forall|i: int, j: int|
            0 <= i < j < tokens.len() ==> tokens[i] != tokens[j],
    ensures
        spec_serve_all(m, reqs, outcomes).len() == reqs.len(),
        forall|i: int|
            0 <= i < reqs.len() ==> spec_serve_all(m, reqs, outcomes)[i]
                == ResponseModel::Success(tokens[i]),
        forall|i: int, j: int|
            0 <= i < reqs.len() && 0 <= j < reqs.len() && i != j ==> spec_serve_all(
                m,
                reqs,
                outcomes,
            )[j] != ResponseModel::Success(tokens[i]),
{
}

} // verus!
