use route_dispatch::dispatch::build_demo_app;
use route_dispatch::dispatch::dispatch;
use route_dispatch::http::Method;
use route_dispatch::http::Request;
use route_dispatch::http::ResponseBody;
use route_dispatch::http::ResponseDescriptor;

fn get(path: &[u8]) -> Request {
    Request { method: Method::Get, path: path.to_vec(), query: Vec::new(), body: Vec::new() }
}

fn get_q(path: &[u8], query: &[u8]) -> Request {
    Request { method: Method::Get, path: path.to_vec(), query: query.to_vec(), body: Vec::new() }
}

fn post(path: &[u8], body: &[u8]) -> Request {
    Request { method: Method::Post, path: path.to_vec(), query: Vec::new(), body: body.to_vec() }
}

fn fixed_body(r: &ResponseDescriptor) -> Vec<u8> {
    match &r.body {
        ResponseBody::Fixed(b) => b.clone(),
        ResponseBody::Streaming(_) => panic!("expected a buffered body"),
    }
}

#[test]
fn root_returns_greeting() {
    let mut app = build_demo_app().unwrap();
    let r = dispatch(&app.table, &mut app.store, &get(b"/"));
    assert_eq!(r.status, 200);
    assert_eq!(fixed_body(&r), b"Hi there!".to_vec());
}

#[test]
fn echo_returns_posted_body() {
    let mut app = build_demo_app().unwrap();
    let r = dispatch(&app.table, &mut app.store, &post(b"/echo", b"abc"));
    assert_eq!(r.status, 200);
    assert_eq!(fixed_body(&r), b"abc".to_vec());
}

#[test]
fn manual_route_returns_greeting() {
    let mut app = build_demo_app().unwrap();
    let r = dispatch(&app.table, &mut app.store, &get(b"/hey"));
    assert_eq!(r.status, 200);
    assert_eq!(fixed_body(&r), b"Hi there!".to_vec());
}

#[test]
fn wait_declares_suspension() {
    let mut app = build_demo_app().unwrap();
    let r = dispatch(&app.table, &mut app.store, &get(b"/wait"));
    assert_eq!(r.status, 200);
    assert_eq!(r.delay_secs, 5);
    assert_eq!(fixed_body(&r), b"Waited 5 seconds!".to_vec());
}

#[test]
fn unknown_path_is_not_found() {
    let mut app = build_demo_app().unwrap();
    let r = dispatch(&app.table, &mut app.store, &get(b"/nope"));
    assert_eq!(r.status, 404);
}

#[test]
fn wrong_method_is_not_found() {
    let mut app = build_demo_app().unwrap();
    let r = dispatch(&app.table, &mut app.store, &post(b"/wait", b""));
    assert_eq!(r.status, 404);
}

#[test]
fn index_greets_registered_app_name() {
    let mut app = build_demo_app().unwrap();
    let r = dispatch(&app.table, &mut app.store, &get(b"/app/index.html"));
    assert_eq!(r.status, 200);
    assert_eq!(fixed_body(&r), b"Hello Actix Web!".to_vec());
}

#[test]
fn visits_counts_each_request() {
    let mut app = build_demo_app().unwrap();
    let r1 = dispatch(&app.table, &mut app.store, &get(b"/app/visits.html"));
    let r2 = dispatch(&app.table, &mut app.store, &get(b"/app/visits.html"));
    let r3 = dispatch(&app.table, &mut app.store, &get(b"/app/visits.html"));
    assert_eq!(fixed_body(&r1), b"Visits so far: 1".to_vec());
    assert_eq!(fixed_body(&r2), b"Visits so far: 2".to_vec());
    assert_eq!(fixed_body(&r3), b"Visits so far: 3".to_vec());
}

#[test]
fn users_path_binds_both_segments() {
    let mut app = build_demo_app().unwrap();
    let r = dispatch(&app.table, &mut app.store, &get(b"/app/users/7/sam"));
    assert_eq!(r.status, 200);
    assert_eq!(fixed_body(&r), b"Welcome sam, user_id 7!".to_vec());
}

#[test]
fn users_path_rejects_non_numeric_id() {
    let mut app = build_demo_app().unwrap();
    let r = dispatch(&app.table, &mut app.store, &get(b"/app/users/abc/sam"));
    assert_eq!(r.status, 400);
}

#[test]
fn query_extracts_username() {
    let mut app = build_demo_app().unwrap();
    let r = dispatch(&app.table, &mut app.store, &get_q(b"/app/query", b"username=al"));
    assert_eq!(r.status, 200);
    assert_eq!(fixed_body(&r), b"Welcome al!".to_vec());
}

#[test]
fn query_missing_key_is_bad_request() {
    let mut app = build_demo_app().unwrap();
    let r = dispatch(&app.table, &mut app.store, &get_q(b"/app/query", b"user=al"));
    assert_eq!(r.status, 400);
}

#[test]
fn query_duplicate_key_last_value_wins() {
    let mut app = build_demo_app().unwrap();
    let r = dispatch(&app.table, &mut app.store, &get_q(b"/app/query", b"username=a&username=b"));
    assert_eq!(r.status, 200);
    assert_eq!(fixed_body(&r), b"Welcome b!".to_vec());
}

#[test]
fn submit_valid_json_is_accepted() {
    let mut app = build_demo_app().unwrap();
    let body = br#"{"username":"al","password":"pw"}"#;
    let r = dispatch(&app.table, &mut app.store, &post(b"/app/submit", body));
    assert_eq!(r.status, 200);
    assert_eq!(fixed_body(&r), b"Submitting for al with password pw!".to_vec());
}

#[test]
fn submit_oversized_body_maps_to_conflict() {
    let mut app = build_demo_app().unwrap();
    let body = vec![b'x'; 5000];
    let r = dispatch(&app.table, &mut app.store, &post(b"/app/submit", &body));
    assert_eq!(r.status, 409);
}

#[test]
fn submit_body_at_limit_is_parsed() {
    let mut app = build_demo_app().unwrap();
    // A valid JSON body of exactly 4096 bytes: the limit itself is allowed.
    let frame = br#"{"username":"al","password":""}"#;
    let mut pw = Vec::new();
    pw.resize(4096 - frame.len(), b'p');
    let mut body = br#"{"username":"al","password":""#.to_vec();
    body.extend_from_slice(&pw);
    body.extend_from_slice(br#""}"#);
    assert_eq!(body.len(), 4096);
    let r = dispatch(&app.table, &mut app.store, &post(b"/app/submit", &body));
    assert_eq!(r.status, 200);
}

#[test]
fn submit_malformed_body_maps_to_conflict() {
    let mut app = build_demo_app().unwrap();
    let r = dispatch(&app.table, &mut app.store, &post(b"/app/submit", b"not json"));
    assert_eq!(r.status, 409);
}

#[test]
fn submit_missing_field_maps_to_conflict() {
    let mut app = build_demo_app().unwrap();
    let r = dispatch(&app.table, &mut app.store, &post(b"/app/submit", br#"{"username":"al"}"#));
    assert_eq!(r.status, 409);
}

#[test]
fn profile_returns_json_object() {
    let mut app = build_demo_app().unwrap();
    let r = dispatch(&app.table, &mut app.store, &get(b"/app/profile/sam"));
    assert_eq!(r.status, 200);
    assert_eq!(fixed_body(&r), br#"{"username":"sam"}"#.to_vec());
}

#[test]
fn stream_declares_single_chunk() {
    let mut app = build_demo_app().unwrap();
    let r = dispatch(&app.table, &mut app.store, &get(b"/app/stream"));
    assert_eq!(r.status, 200);
    match r.body {
        ResponseBody::Streaming(chunks) => {
            assert_eq!(chunks, vec![b"streamed body".to_vec()]);
        },
        ResponseBody::Fixed(_) => panic!("expected a streaming body"),
    }
}

#[test]
fn trailing_and_doubled_slashes_are_normalized() {
    let mut app = build_demo_app().unwrap();
    let r = dispatch(&app.table, &mut app.store, &get(b"//app//users/7/sam/"));
    assert_eq!(r.status, 200);
    assert_eq!(fixed_body(&r), b"Welcome sam, user_id 7!".to_vec());
}

#[test]
fn submit_ignores_non_string_fields() {
    let mut app = build_demo_app().unwrap();
    let body = br#"{"username":"al","password":"pw","attempts":3}"#;
    let r = dispatch(&app.table, &mut app.store, &post(b"/app/submit", body));
    assert_eq!(r.status, 200);
    assert_eq!(fixed_body(&r), b"Submitting for al with password pw!".to_vec());
}

#[test]
fn query_percent_escape_decodes() {
    let mut app = build_demo_app().unwrap();
    let r = dispatch(&app.table, &mut app.store, &get_q(b"/app/query", b"username=a%20b"));
    assert_eq!(r.status, 200);
    assert_eq!(fixed_body(&r), b"Welcome a b!".to_vec());
}

#[test]
fn query_plus_decodes_to_space() {
    let mut app = build_demo_app().unwrap();
    let r = dispatch(&app.table, &mut app.store, &get_q(b"/app/query", b"username=a+b"));
    assert_eq!(r.status, 200);
    assert_eq!(fixed_body(&r), b"Welcome a b!".to_vec());
}

#[test]
fn query_malformed_escape_stays_literal() {
    let mut app = build_demo_app().unwrap();
    let r = dispatch(&app.table, &mut app.store, &get_q(b"/app/query", b"username=a%zzb"));
    assert_eq!(r.status, 200);
    assert_eq!(fixed_body(&r), b"Welcome a%zzb!".to_vec());
}
