use route_dispatch::bytes::parse_u32;
use route_dispatch::bytes::path_segments;
use route_dispatch::bytes::split_bytes;
use route_dispatch::bytes::u64_to_dec;
use route_dispatch::dispatch::HandlerId;
use route_dispatch::extract::extract_fields;
use route_dispatch::extract::ExtractError;
use route_dispatch::extract::FieldSpec;
use route_dispatch::extract::FieldType;
use route_dispatch::extract::FieldValue;
use route_dispatch::extract::parse_query;
use route_dispatch::http::Binding;
use route_dispatch::http::ChunkStream;
use route_dispatch::http::Method;
use route_dispatch::route::ConfigError;
use route_dispatch::route::RouteTable;
use route_dispatch::route::TemplateSeg;
use route_dispatch::state::AccessMode;
use route_dispatch::state::StateStore;
use route_dispatch::state::StateValue;

#[test]
fn decimal_round_trip() {
    assert_eq!(u64_to_dec(0), b"0".to_vec());
    assert_eq!(u64_to_dec(7), b"7".to_vec());
    assert_eq!(u64_to_dec(4096), b"4096".to_vec());
    assert_eq!(parse_u32(b"0"), Some(0));
    assert_eq!(parse_u32(b"007"), Some(7));
    assert_eq!(parse_u32(b"4294967295"), Some(u32::MAX));
    assert_eq!(parse_u32(b"4294967296"), None);
    assert_eq!(parse_u32(b""), None);
    assert_eq!(parse_u32(b"12a"), None);
}

#[test]
fn path_segments_drop_empty_parts() {
    let segs = path_segments(b"//a//b/");
    assert_eq!(segs, vec![b"a".to_vec(), b"b".to_vec()]);
    let none = path_segments(b"/");
    assert_eq!(none.len(), 0);
}

#[test]
fn split_keeps_empty_segments() {
    let parts = split_bytes(b"a==b", b'=');
    assert_eq!(parts, vec![b"a".to_vec(), b"".to_vec(), b"b".to_vec()]);
}

#[test]
fn query_pairs_parse() {
    let ps = parse_query(b"a=1&b=&c");
    assert_eq!(ps.len(), 3);
    assert_eq!(ps[0].name, b"a".to_vec());
    assert_eq!(ps[0].value, b"1".to_vec());
    assert_eq!(ps[1].name, b"b".to_vec());
    assert_eq!(ps[1].value, b"".to_vec());
    assert_eq!(ps[2].name, b"c".to_vec());
    assert_eq!(ps[2].value, b"".to_vec());
}

#[test]
fn conflicting_registration_is_refused() {
    let mut table: RouteTable<HandlerId> = RouteTable::new();
    let t1 = vec![TemplateSeg::Lit(b"echo".to_vec())];
    let t2 = vec![TemplateSeg::Lit(b"echo".to_vec())];
    assert!(table.register(0, Method::Post, t1, HandlerId::Echo).is_ok());
    let second = table.register(0, Method::Post, t2, HandlerId::Hello);
    assert_eq!(second, Err(ConfigError::RouteConflict));
    // A different method on the same template is no conflict.
    let t3 = vec![TemplateSeg::Lit(b"echo".to_vec())];
    assert!(table.register(0, Method::Get, t3, HandlerId::Hello).is_ok());
}

#[test]
fn match_returns_registered_handler_and_bindings() {
    let mut table: RouteTable<HandlerId> = RouteTable::new();
    let t = vec![TemplateSeg::Lit(b"users".to_vec()), TemplateSeg::Dyn(b"id".to_vec())];
    table.register(0, Method::Get, t, HandlerId::AppPath).unwrap();
    let segs = vec![b"users".to_vec(), b"42".to_vec()];
    let m = table.match_route(Method::Get, &segs).unwrap();
    assert_eq!(m.handler, HandlerId::AppPath);
    assert_eq!(m.params.len(), 1);
    assert_eq!(m.params[0].name, b"id".to_vec());
    assert_eq!(m.params[0].value, b"42".to_vec());
    assert!(table.match_route(Method::Post, &segs).is_none());
}

#[test]
fn state_resolution_prefers_specific_scope() {
    let mut table: RouteTable<HandlerId> = RouteTable::new();
    let child = table.add_scope(0, vec![b"app".to_vec()], None);
    let mut store = StateStore::new();
    store.register(0, 9, AccessMode::SharedImmutable, StateValue::Text(b"root".to_vec()));
    store.register(child, 9, AccessMode::SharedImmutable, StateValue::Text(b"child".to_vec()));
    let chain = table.scope_chain(child);
    let ix = store.resolve(&chain, 9).unwrap();
    assert_eq!(store.text_value(ix), b"child".to_vec());
    let root_chain = table.scope_chain(0);
    let rx = store.resolve(&root_chain, 9).unwrap();
    assert_eq!(store.text_value(rx), b"root".to_vec());
    assert!(store.resolve(&chain, 8).is_none());
}

#[test]
fn counter_increment_is_exact() {
    let mut store = StateStore::new();
    store.register(0, 2, AccessMode::SharedExclusive, StateValue::Counter(0));
    assert_eq!(store.counter_increment(0), 1);
    assert_eq!(store.counter_increment(0), 2);
    assert_eq!(store.counter_value(0), 2);
}

#[test]
fn extraction_is_all_or_nothing() {
    let src = vec![Binding { name: b"user_id".to_vec(), value: b"7".to_vec() }];
    let tgt = vec![
        FieldSpec { name: b"user_id".to_vec(), ty: FieldType::Unsigned },
        FieldSpec { name: b"friend".to_vec(), ty: FieldType::Text },
    ];
    let r = extract_fields(
        &src,
        &tgt,
        false,
        ExtractError::MissingSegment,
        ExtractError::TypeMismatch,
    );
    assert_eq!(r, Err(ExtractError::MissingSegment));
}

#[test]
fn extraction_converts_declared_types() {
    let src = vec![
        Binding { name: b"user_id".to_vec(), value: b"7".to_vec() },
        Binding { name: b"friend".to_vec(), value: b"sam".to_vec() },
    ];
    let tgt = vec![
        FieldSpec { name: b"user_id".to_vec(), ty: FieldType::Unsigned },
        FieldSpec { name: b"friend".to_vec(), ty: FieldType::Text },
    ];
    let r = extract_fields(
        &src,
        &tgt,
        false,
        ExtractError::MissingSegment,
        ExtractError::TypeMismatch,
    )
        .unwrap();
    assert_eq!(r, vec![FieldValue::Unsigned(7), FieldValue::Text(b"sam".to_vec())]);
}

#[test]
fn extraction_reports_first_failure() {
    let src = vec![Binding { name: b"user_id".to_vec(), value: b"x".to_vec() }];
    let tgt = vec![
        FieldSpec { name: b"user_id".to_vec(), ty: FieldType::Unsigned },
        FieldSpec { name: b"friend".to_vec(), ty: FieldType::Text },
    ];
    let r = extract_fields(
        &src,
        &tgt,
        false,
        ExtractError::MissingSegment,
        ExtractError::TypeMismatch,
    );
    assert_eq!(r, Err(ExtractError::TypeMismatch));
}

#[test]
fn stream_delivers_chunks_in_order_and_ends() {
    let chunks = vec![b"one".to_vec(), b"two".to_vec(), b"three".to_vec()];
    let mut s = ChunkStream::new(chunks.clone());
    assert_eq!(s.next_chunk(), Some(b"one".to_vec()));
    let rest = s.deliver_all();
    assert_eq!(rest, vec![b"two".to_vec(), b"three".to_vec()]);
    assert_eq!(s.next_chunk(), None);
    let mut again = ChunkStream::new(chunks);
    assert_eq!(again.deliver_all(), vec![b"one".to_vec(), b"two".to_vec(), b"three".to_vec()]);
}
