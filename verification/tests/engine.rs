use corex::engine::{CallStep, Engine};
use corex::envelope::{encode_request, RequestEnvelope, Response};
use corex::table::RouteTable;

fn demo_engine() -> Engine<u32> {
    let mut t: RouteTable<u32> = RouteTable::new();
    t.insert("GET".to_string(), "/".to_string(), "routes/get.ts".to_string(), 10).unwrap();
    t.insert("GET".to_string(), "/hello".to_string(), "routes/hello/get.ts".to_string(), 20)
        .unwrap();
    t.insert("POST".to_string(), "/hello".to_string(), "routes/hello/post.ts".to_string(), 30)
        .unwrap();
    Engine::new(t)
}

#[test]
fn matched_call_invokes_registered_handler() {
    let e = demo_engine();
    let env = RequestEnvelope::new("GET".to_string(), "/hello".to_string(), "a=1");
    match e.on_call(&env) {
        CallStep::Invoke(h, arg) => {
            assert_eq!(*h, 20);
            assert_eq!(arg, "{\"method\":\"GET\",\"query\":{\"a\":\"1\"},\"body\":\"\"}");
        }
        CallStep::Respond(_) => panic!("a registered route must be invoked"),
    }
}

#[test]
fn unmatched_call_is_not_found() {
    let e = demo_engine();
    let env = RequestEnvelope::new("GET".to_string(), "/missing".to_string(), "");
    match e.on_call(&env) {
        CallStep::Respond(Response::NotFound) => {}
        _ => panic!("an unmatched route must answer not-found"),
    }
}

#[test]
fn unmatched_call_does_not_disturb_later_calls() {
    let e = demo_engine();
    let miss = RequestEnvelope::new("DELETE".to_string(), "/hello".to_string(), "");
    assert!(matches!(e.on_call(&miss), CallStep::Respond(Response::NotFound)));
    let hit = RequestEnvelope::new("POST".to_string(), "/hello".to_string(), "");
    match e.on_call(&hit) {
        CallStep::Invoke(h, _) => assert_eq!(*h, 30),
        CallStep::Respond(_) => panic!("the following matched call must still be served"),
    }
}

#[test]
fn handler_error_is_distinguishable_and_engine_survives() {
    let e = demo_engine();
    let first = RequestEnvelope::new("GET".to_string(), "/".to_string(), "");
    assert!(matches!(e.on_call(&first), CallStep::Invoke(_, _)));
    let r = Engine::<u32>::on_outcome(Err("boom".to_string()));
    match r {
        Response::HandlerError { diagnostic } => assert_eq!(diagnostic, "boom"),
        _ => panic!("a raising handler must yield a handler-error response"),
    }
    // An immediately following unrelated request still succeeds.
    let second = RequestEnvelope::new("GET".to_string(), "/hello".to_string(), "");
    assert!(matches!(e.on_call(&second), CallStep::Invoke(h, _) if *h == 20));
    match Engine::<u32>::on_outcome(Ok("fine".to_string())) {
        Response::Success { body } => assert_eq!(body, "fine"),
        _ => panic!("a returning handler must yield a success response"),
    }
}

#[test]
fn correlated_replies_carry_their_own_token() {
    let e = demo_engine();
    let envs: Vec<RequestEnvelope> = (0..4)
        .map(|i| {
            RequestEnvelope::new(
                "GET".to_string(),
                "/hello".to_string(),
                &format!("token=t{}", i),
            )
        })
        .collect();
    // Each caller's handler echoes that caller's token; replies pair up
    // positionally, so each caller reads back its own token and no other's.
    let replies: Vec<Response> = envs
        .iter()
        .map(|env| match e.on_call(env) {
            CallStep::Invoke(_, _) => {
                Engine::<u32>::on_outcome(Ok(env.query[0].1.clone()))
            }
            CallStep::Respond(r) => r,
        })
        .collect();
    for (i, r) in replies.iter().enumerate() {
        match r {
            Response::Success { body } => assert_eq!(body, &format!("t{}", i)),
            _ => panic!("every correlated call must succeed"),
        }
    }
}

#[test]
fn encode_request_escapes_and_quotes() {
    let env = RequestEnvelope::new("GET".to_string(), "/".to_string(), "q=a\"b&empty=");
    let s = encode_request(&env);
    assert_eq!(s, "{\"method\":\"GET\",\"query\":{\"q\":\"a\\\"b\",\"empty\":\"\"},\"body\":\"\"}");
}

#[test]
fn encode_request_with_empty_query() {
    let env = RequestEnvelope::new("PUT".to_string(), "/x".to_string(), "");
    assert_eq!(encode_request(&env), "{\"method\":\"PUT\",\"query\":{},\"body\":\"\"}");
}

#[test]
fn reload_replaces_the_table() {
    let mut e = demo_engine();
    let mut t: RouteTable<u32> = RouteTable::new();
    t.insert("GET".to_string(), "/new".to_string(), "routes/new/get.ts".to_string(), 99)
        .unwrap();
    e.on_reload(t);
    let old = RequestEnvelope::new("GET".to_string(), "/hello".to_string(), "");
    assert!(matches!(e.on_call(&old), CallStep::Respond(Response::NotFound)));
    let new = RequestEnvelope::new("GET".to_string(), "/new".to_string(), "");
    assert!(matches!(e.on_call(&new), CallStep::Invoke(h, _) if *h == 99));
}

#[test]
fn discovered_file_is_served_end_to_end() {
    // A handler file at <routes>/greet/get.ts, once loaded, serves
    // GET /greet with exactly the handler's coerced output.
    let dirs: Vec<String> = vec!["greet".to_string()];
    let (method, path) = corex::route::derive_route(&dirs, "get.ts").unwrap();
    let mut t: RouteTable<u32> = RouteTable::new();
    t.insert(method, path, "routes/greet/get.ts".to_string(), 7).unwrap();
    let e = Engine::new(t);
    let env = RequestEnvelope::new("GET".to_string(), "/greet".to_string(), "");
    match e.on_call(&env) {
        CallStep::Invoke(h, _) => assert_eq!(*h, 7),
        CallStep::Respond(_) => panic!("the discovered route must be invoked"),
    }
    match Engine::<u32>::on_outcome(Ok("hello from the handler".to_string())) {
        Response::Success { body } => assert_eq!(body, "hello from the handler"),
        _ => panic!("the handler's output must come back verbatim"),
    }
}

#[test]
fn response_bodies_are_consistent_sentinels() {
    assert_eq!(
        (Response::Success { body: "out".to_string() }).into_body(),
        "out"
    );
    assert_eq!(Response::NotFound.into_body(), "Not found");
    assert_eq!(
        (Response::HandlerError { diagnostic: "boom".to_string() }).into_body(),
        "Handler error: boom"
    );
}
