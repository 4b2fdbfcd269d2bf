//! The request and response envelopes, and the encoding of a request into
//! the JSON object handed to a handler: `{"method": ..., "query": {...},
//! "body": ""}`. The object is framed here, piece by piece; only the JSON
//! string literals inside it come from an outside encoder.
use crate::query::{parse_query, spec_parse_query};
use vstd::prelude::*;

verus! {

/// What `serde_json::to_string` returns on a string slice: the quoted,
/// escaped JSON string literal, a function of the characters alone.
pub uninterp spec fn json_str_of(s: Seq<char>) -> Seq<char>;

/// Relies on serde_json::to_string on a `&str`: the JSON string literal
/// for `s`. Serializing a string slice cannot fail, so the unwrap never
/// panics.
#[verifier::external_body]
fn json_quote(s: &str) -> (r: String)
    ensures
        r@ == json_str_of(s@),
{
    serde_json::to_string(s).unwrap()
}

/// One request as the engine sees it: the body is always empty in this
/// design (request bodies are not read).
pub struct RequestEnvelope {
    pub method: String,
    pub path: String,
    pub query: Vec<(String, String)>,
    pub body: String,
}

impl RequestEnvelope {
    /// The body carried to handlers is always the empty string.
    pub open spec fn wf(self) -> bool {
        self.body@ == Seq::<char>::empty()
    }

    /// Builds the envelope for a request: the query string is parsed here,
    /// the body left empty.
    pub fn new(method: String, path: String, raw_query: &str) -> (r: RequestEnvelope)
        ensures
            r.wf(),
            r.method == method,
            r.path == path,
            r.query.deep_view() == spec_parse_query(raw_query@),
    {
        RequestEnvelope { method, path, query: parse_query(raw_query), body: String::new() }
    }
}

/// One response. Not-found and handler failure are distinguished from
/// success by variant, not by a sentinel body.
pub enum Response {
    Success { body: String },
    NotFound,
    HandlerError { diagnostic: String },
}

/// The abstract value of a response.
pub enum ResponseModel {
    Success(Seq<char>),
    NotFound,
    HandlerError(Seq<char>),
}

impl View for Response {
    type V = ResponseModel;

    open spec fn view(&self) -> ResponseModel {
        match self {
            Response::Success { body } => ResponseModel::Success(body@),
            Response::NotFound => ResponseModel::NotFound,
            Response::HandlerError { diagnostic } => ResponseModel::HandlerError(diagnostic@),
        }
    }
}

/// The HTTP body written for a response: the coerced handler output
/// verbatim on success, fixed sentinels otherwise, so that the three
/// outcomes stay distinguishable and consistent across all requests.
pub open spec fn spec_body_of(r: ResponseModel) -> Seq<char> {
    match r {
        ResponseModel::Success(b) => b,
        ResponseModel::NotFound => "Not found"@,
        ResponseModel::HandlerError(d) => "Handler error: "@ + d,
    }
}

impl Response {
    /// Renders this response as the body the front door writes back.
    pub fn into_body(self) -> (r: String)
        ensures
            r@ == spec_body_of(self@),
    {
        match self {
            Response::Success { body } => body,
            Response::NotFound => String::from_str("Not found"),
            Response::HandlerError { diagnostic } => {
                let mut s = String::from_str("Handler error: ");
                s.append(diagnostic.as_str());
                s
            },
        }
    }
}

/// One `"key":"value"` member of the query object.
pub open spec fn spec_query_member(p: (Seq<char>, Seq<char>)) -> Seq<char> {
    json_str_of(p.0) + ":"@ + json_str_of(p.1)
}

/// The members of the query object, joined with commas, in query order.
pub open spec fn spec_query_object(q: Seq<(Seq<char>, Seq<char>)>) -> Seq<char>
    decreases q.len(),
{
    if q.len() == 0 {
        Seq::empty()
    } else if q.len() == 1 {
        spec_query_member(q[0])
    } else {
        spec_query_member(q[0]) + ","@ + spec_query_object(q.drop_first())
    }
}

/// The JSON object a handler receives: its method, its query mapping, and
/// the (always empty) body.
pub open spec fn spec_request_json(method: Seq<char>, q: Seq<(Seq<char>, Seq<char>)>) -> Seq<
    char,
> {
    "{\"method\":"@ + json_str_of(method) + ",\"query\":{"@ + spec_query_object(q)
        + "},\"body\":\"\"}"@
}

/// Appending one member to the already-joined members puts a comma between
/// them exactly when members were already there.
proof fn lemma_query_object_step(q: Seq<(Seq<char>, Seq<char>)>, i: int)
    requires
        0 <= i < q.len(),
    ensures
        spec_query_object(q.take(i).push(q[i])) =~= spec_query_object(q.take(i)) + (
            if i > 0 { ","@ } else { Seq::<char>::empty() }
        ) + spec_query_member(q[i]),
    decreases i,
{
    if i == 0 {
        assert(q.take(0).push(q[0]) =~= seq![q[0]]);
        assert(spec_query_object(seq![q[0]]) == spec_query_member(q[0]));
    } else {
        lemma_query_object_step(q.drop_first(), i - 1);
        let p = q.take(i).push(q[i]);
        assert(p.len() >= 2);
        assert(p.drop_first() =~= q.drop_first().take(i - 1).push(q[i]));
        assert(q.take(i).drop_first() =~= q.drop_first().take(i - 1));
        assert(q.take(i).len() >= 1);
        if i == 1 {
            assert(spec_query_object(q.take(1)) == spec_query_member(q[0]));
        }
    }
}

/// Encodes a request as the JSON object its handler is called with.
pub fn encode_request(env: &RequestEnvelope) -> (r: String)
    ensures
        r@ == spec_request_json(env.method@, env.query.deep_view()),
{
    let ghost q = env.query.deep_view();
    let mut out = String::from_str("{\"method\":");
    let mq = json_quote(env.method.as_str());
    out.append(mq.as_str());
    out.append(",\"query\":{");
    let ghost head = "{\"method\":"@ + json_str_of(env.method@) + ",\"query\":{"@;
    proof {
        assert(out@ =~= head + spec_query_object(q.take(0)));
    }
    let n = env.query.len();
    let mut i: usize = 0;
    while i < n
        invariant
            i <= n,
            n == env.query@.len(),
            q == env.query.deep_view(),
            q.len() == n,
            forall|j: int| 0 <= j < n ==> q[j] == (env.query@[j].0@, env.query@[j].1@),
            out@ == head + spec_query_object(q.take(i as int)) + (
                if 0 < i < n { ","@ } else { Seq::<char>::empty() }
            ),
        decreases n - i,
    {
        let kq = json_quote(env.query[i].0.as_str());
        out.append(kq.as_str());
        out.append(":");
        let vq = json_quote(env.query[i].1.as_str());
        out.append(vq.as_str());
        proof {
            lemma_query_object_step(q, i as int);
            assert(q.take(i as int).push(q[i as int]) =~= q.take(i as int + 1));
        }
        if i + 1 < n {
            out.append(",");
        }
        i = i + 1;
        proof {
            if i < n {
                assert(out@ =~= head + spec_query_object(q.take(i as int)) + ","@);
            } else {
                assert(out@ =~= head + spec_query_object(q.take(i as int)));
            }
        }
    }
    out.append("},\"body\":\"\"}");
    proof {
        assert(q.take(n as int) =~= q);
        if n == 0 {
            assert(out@ =~= head + spec_query_object(q) + "},\"body\":\"\"}"@);
        }
        assert(out@ =~= spec_request_json(env.method@, q));
    }
    out
}

} // verus!
