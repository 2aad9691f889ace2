use chat_gateway::aggregate::{
    build_init_data, cache_key_channels, cache_key_directory, cache_key_friends,
    cache_key_me_user, friend_channel, last_seen_key, subscriptions_key, user_channel, channels_index, presence_info, presence_json,
    profile_decode, profile_encode, profile_to_json, relationship_of, relationships_json,
    users_json, users_to_load, Friend, PresenceInfo, Profile, Relationship,
};
use chat_gateway::codec::{compress_frame, decompress, FrameError, InEvent};
use chat_gateway::json::{json_to_bytes, parse_json, Json};
use chat_gateway::session::{
    connect_plan, dispatch_event, init_frame, parse_event, pong_frame, presence_online_frame,
    record_subscriptions, teardown_plan, InboundAction, RealTimeEvents,
};
use chat_gateway::store::{cache_fill, cache_lookup, CacheOutcome, MemStore};
use chat_gateway::util::get_cookie;

fn bv(s: &str) -> Vec<u8> {
    s.as_bytes().to_vec()
}

fn obj(pairs: Vec<(&str, Json)>) -> Json {
    Json::Obj(pairs.into_iter().map(|(k, v)| (bv(k), v)).collect())
}

fn get<'a>(v: &'a Json, key: &str) -> &'a Json {
    match v {
        Json::Obj(pairs) => {
            for (k, val) in pairs {
                if k.as_slice() == key.as_bytes() {
                    return val;
                }
            }
            panic!("key {} not found", key);
        }
        _ => panic!("not an object"),
    }
}

#[test]
fn frame_round_trip_ping() {
    let wire = compress_frame(bv("PING"), Json::Null);
    let ev = decompress(&wire).ok().expect("frame should decode");
    assert_eq!(ev.kind, bv("PING"));
    assert!(matches!(ev.data, Json::Null));
}

#[test]
fn frame_round_trip_unicode_payload() {
    let data = obj(vec![
        ("msg", Json::Str("héllo ▲ wörld".as_bytes().to_vec())),
        ("empty", obj(vec![])),
        ("n", Json::Num(bv("-12.5e3"))),
        ("list", Json::Arr(vec![Json::Bool(true), Json::Null])),
    ]);
    let wire = compress_frame(bv("EVENT"), data);
    let ev = decompress(&wire).ok().expect("frame should decode");
    assert_eq!(ev.kind, bv("EVENT"));
    assert_eq!(
        get(&ev.data, "msg"),
        &Json::Str("héllo ▲ wörld".as_bytes().to_vec())
    );
    assert!(matches!(get(&ev.data, "empty"), Json::Obj(p) if p.is_empty()));
    assert_eq!(get(&ev.data, "n"), &Json::Num(bv("-12.5e3")));
}

#[test]
fn malformed_bytes_are_rejected_then_ping_still_works() {
    let garbage = b"this is not deflate data at all";
    assert!(matches!(decompress(garbage), Err(_)));
    assert!(matches!(dispatch_event(garbage), InboundAction::Ignore));
    let ping = compress_frame(bv("PING"), Json::Null);
    assert!(matches!(dispatch_event(&ping), InboundAction::ReplyPong));
}

#[test]
fn compressed_non_json_is_invalid_payload() {
    let mut enc = flate2::write::DeflateEncoder::new(Vec::new(), flate2::Compression::default());
    std::io::Write::write_all(&mut enc, b"definitely not json").unwrap();
    let wire = enc.finish().unwrap();
    assert!(matches!(decompress(&wire), Err(FrameError::InvalidPayload)));
    assert!(matches!(dispatch_event(&wire), InboundAction::Ignore));
}

#[test]
fn ping_frame_gets_exactly_a_pong_with_null_data() {
    let ping = compress_frame(bv("PING"), Json::Null);
    assert!(matches!(dispatch_event(&ping), InboundAction::ReplyPong));
    let pong = pong_frame();
    let ev = decompress(&pong).ok().expect("pong should decode");
    assert_eq!(ev.kind, bv("PONG"));
    assert!(matches!(ev.data, Json::Null));
}

#[test]
fn push_token_is_recorded() {
    let data = obj(vec![("token", Json::Str(bv("tok-123")))]);
    let wire = compress_frame(bv("PUSH_TOKEN"), data);
    match dispatch_event(&wire) {
        InboundAction::StorePushToken { token } => assert_eq!(token, "tok-123"),
        _ => panic!("expected a stored token"),
    }
}

#[test]
fn malformed_push_token_is_ignored() {
    let data = obj(vec![("token", Json::Num(bv("5")))]);
    let wire = compress_frame(bv("PUSH_TOKEN"), data);
    assert!(matches!(dispatch_event(&wire), InboundAction::Ignore));
    let wire2 = compress_frame(bv("PUSH_TOKEN"), Json::Null);
    assert!(matches!(dispatch_event(&wire2), InboundAction::Ignore));
}

#[test]
fn unknown_event_kind_is_ignored() {
    let wire = compress_frame(bv("SOMETHING_ELSE"), Json::Null);
    assert!(matches!(dispatch_event(&wire), InboundAction::Ignore));
}

#[test]
fn parse_event_reads_ping_and_token() {
    let ev = InEvent { kind: bv("PING"), data: Json::Null };
    assert!(matches!(parse_event(ev), Some(RealTimeEvents::Ping)));
    let ev2 = InEvent {
        kind: bv("PUSH_TOKEN"),
        data: obj(vec![("token", Json::Str(bv("t1")))]),
    };
    match parse_event(ev2) {
        Some(RealTimeEvents::PushToken { token }) => assert_eq!(token, "t1"),
        _ => panic!("expected a push token event"),
    }
}

#[test]
fn cache_miss_then_fill_then_hit_then_expiry() {
    let mut store = MemStore::new();
    let key = cache_key_me_user(&bv("u1"));
    assert!(matches!(cache_lookup(&store, &key), CacheOutcome::Miss));
    cache_fill(&mut store, key.clone(), bv("produced-value"), 21600);
    match cache_lookup(&store, &key) {
        CacheOutcome::Hit(v) => assert_eq!(v, bv("produced-value")),
        CacheOutcome::Miss => panic!("expected a hit"),
    }
    store.advance(21599);
    assert!(matches!(cache_lookup(&store, &key), CacheOutcome::Hit(_)));
    store.advance(1);
    assert!(matches!(cache_lookup(&store, &key), CacheOutcome::Miss));
}

#[test]
fn cached_profile_reads_back_exactly() {
    let p = Profile {
        id: bv("u1"),
        display_name: bv("Ann Example"),
        username: bv("ann"),
    };
    let encoded = profile_encode(&p);
    let back = profile_decode(&encoded).expect("cached profile should decode");
    assert_eq!(back.id, bv("u1"));
    assert_eq!(back.display_name, bv("Ann Example"));
    assert_eq!(back.username, bv("ann"));
    assert!(profile_decode(b"{\"id\":3}").is_none());
    assert!(profile_decode(b"not json").is_none());
}

#[test]
fn directory_is_members_and_counterparts_without_viewer() {
    let viewer = bv("v");
    let members = vec![bv("a"), bv("b"), bv("v"), bv("a")];
    let friends = vec![Friend {
        id: bv("e1"),
        user_a: bv("v"),
        user_b: bv("f1"),
        accepted_at: None,
        created_at: bv("2024-01-01T00:00:00Z"),
    }];
    let dir = users_to_load(&viewer, &members, &friends);
    let mut got: Vec<Vec<u8>> = dir.clone();
    got.sort();
    assert_eq!(got, vec![bv("a"), bv("b"), bv("f1")]);
}

#[test]
fn relationship_direction_both_ways() {
    let f = Friend {
        id: bv("e1"),
        user_a: bv("X"),
        user_b: bv("Y"),
        accepted_at: Some(bv("2024-02-02T00:00:00Z")),
        created_at: bv("2024-01-01T00:00:00Z"),
    };
    let as_x = relationship_of(&bv("X"), &f);
    assert_eq!(as_x.user_id, bv("Y"));
    assert!(!as_x.incoming);
    let as_y = relationship_of(&bv("Y"), &f);
    assert_eq!(as_y.user_id, bv("X"));
    assert!(as_y.incoming);
}

#[test]
fn presence_defaults_to_offline() {
    let p = presence_info(None, None);
    assert_eq!(p.presence, bv("OFFLINE"));
    assert!(p.last_seen.is_none());
    let q = presence_info(Some(bv("ONLINE")), Some(bv("12345")));
    assert_eq!(q.presence, bv("ONLINE"));
    assert_eq!(q.last_seen, Some(bv("12345")));
}

#[test]
fn connect_scenario_subscriptions_and_publishes() {
    let plan = connect_plan(&bv("U1"), &vec![bv("U2"), bv("U3")]);
    assert_eq!(
        plan.subscriptions,
        vec![bv("U.U1"), bv("F.U2"), bv("F.U3")]
    );
    let channels: Vec<Vec<u8>> = plan.publishes.iter().map(|p| p.0.clone()).collect();
    assert_eq!(channels, vec![bv("U.U2"), bv("U.U3")]);
    for (_, frame) in &plan.publishes {
        let ev = decompress(frame).ok().expect("presence frame should decode");
        assert_eq!(ev.kind, bv("PRESENCE_UPDATE"));
        assert_eq!(get(&ev.data, "id"), &Json::Str(bv("U1")));
        assert_eq!(get(&ev.data, "presence"), &Json::Str(bv("ONLINE")));
        assert!(matches!(get(&ev.data, "lastSeen"), Json::Null));
    }
    let own = presence_online_frame(&bv("U1"));
    assert_eq!(&own, &plan.publishes[0].1);
}

#[test]
fn connect_plan_with_no_friends() {
    let plan = connect_plan(&bv("U1"), &vec![]);
    assert_eq!(plan.subscriptions, vec![bv("U.U1")]);
    assert!(plan.publishes.is_empty());
}

#[test]
fn subscription_symmetry_record_and_teardown() {
    let mut store = MemStore::new();
    let plan = connect_plan(&bv("U1"), &vec![bv("U2"), bv("U3")]);
    record_subscriptions(&mut store, &bv("sess-1"), &plan.subscriptions);
    let unsubscribed = teardown_plan(&mut store, &bv("sess-1"));
    assert_eq!(unsubscribed, plan.subscriptions);
    let again = teardown_plan(&mut store, &bv("sess-1"));
    assert!(again.is_empty());
}

#[test]
fn subscription_symmetry_zero_friends() {
    let mut store = MemStore::new();
    let plan = connect_plan(&bv("U9"), &vec![]);
    record_subscriptions(&mut store, &bv("sess-9"), &plan.subscriptions);
    let unsubscribed = teardown_plan(&mut store, &bv("sess-9"));
    assert_eq!(unsubscribed, vec![bv("U.U9")]);
}

#[test]
fn init_frame_carries_directory_users() {
    let me = profile_to_json(&Profile {
        id: bv("U1"),
        display_name: bv("One"),
        username: bv("one"),
    });
    let users = users_json(&vec![
        Profile { id: bv("U2"), display_name: bv("Two"), username: bv("two") },
        Profile { id: bv("U3"), display_name: bv("Three"), username: bv("three") },
    ]);
    let rels = relationships_json(&vec![Relationship {
        id: bv("e1"),
        user_id: bv("U2"),
        incoming: false,
        accepted_at: None,
        created_at: bv("2024-01-01T00:00:00Z"),
    }]);
    let presence = presence_json(&vec![(
        bv("U2"),
        PresenceInfo { presence: bv("ONLINE"), last_seen: None },
    )]);
    let data = build_init_data(
        rels,
        users,
        me,
        Json::Obj(vec![]),
        presence,
        bv("sess-1"),
        None,
    );
    let wire = init_frame(data);
    let ev = decompress(&wire).ok().expect("INIT should decode");
    assert_eq!(ev.kind, bv("INIT"));
    let users_back = get(&ev.data, "users");
    match users_back {
        Json::Obj(pairs) => {
            let keys: Vec<&[u8]> = pairs.iter().map(|p| p.0.as_slice()).collect();
            assert_eq!(keys, vec![b"U2".as_slice(), b"U3".as_slice()]);
        }
        _ => panic!("users should be a map"),
    }
    assert_eq!(get(&ev.data, "session"), &Json::Str(bv("sess-1")));
    assert!(matches!(get(&ev.data, "push_token"), Json::Null));
    assert_eq!(
        get(get(&ev.data, "relationships"), "e1"),
        &obj(vec![
            ("id", Json::Str(bv("e1"))),
            ("user_id", Json::Str(bv("U2"))),
            ("incoming", Json::Bool(false)),
            ("accepted_at", Json::Null),
            ("created_at", Json::Str(bv("2024-01-01T00:00:00Z"))),
        ])
    );
}

#[test]
fn channels_doc_is_keyed_by_id_with_members_collected() {
    let doc = Json::Arr(vec![
        obj(vec![
            ("id", Json::Str(bv("c1"))),
            ("name", Json::Str(bv("general"))),
            ("members", Json::Arr(vec![Json::Str(bv("a")), Json::Str(bv("b"))])),
        ]),
        obj(vec![("name", Json::Str(bv("no-id")))]),
        obj(vec![
            ("id", Json::Str(bv("c2"))),
            ("members", Json::Arr(vec![Json::Str(bv("b")), Json::Str(bv("c"))])),
        ]),
    ]);
    let (pairs, members) = channels_index(doc).expect("a list of records is indexable");
    let keys: Vec<&[u8]> = pairs.iter().map(|p| p.0.as_slice()).collect();
    assert_eq!(keys, vec![b"c1".as_slice(), b"c2".as_slice()]);
    assert_eq!(members, vec![bv("a"), bv("b"), bv("b"), bv("c")]);
    let (p2, m2) = channels_index(Json::Null).expect("a null document reads as no channels");
    assert!(p2.is_empty() && m2.is_empty());
    assert!(channels_index(Json::Bool(true)).is_none());
}

#[test]
fn json_serializer_writes_compact_form() {
    let v = obj(vec![
        ("a", Json::Num(bv("1"))),
        ("b", Json::Arr(vec![Json::Str(bv("x\"y")), Json::Null])),
    ]);
    let bytes = json_to_bytes(&v);
    assert_eq!(
        String::from_utf8(bytes).unwrap(),
        "{\"a\":1,\"b\":[\"x\\\"y\",null]}"
    );
}

#[test]
fn json_parser_accepts_whitespace_and_escapes() {
    let v = parse_json(b" { \"a\" : [ 1 , -2.5e+1 , \"\\u0041\\n\" ] } ").expect("valid json");
    match get(&v, "a") {
        Json::Arr(items) => {
            assert_eq!(items[0], Json::Num(bv("1")));
            assert_eq!(items[1], Json::Num(bv("-2.5e+1")));
            assert_eq!(items[2], Json::Str(bv("A\n")));
        }
        _ => panic!("expected a list"),
    }
    assert!(parse_json(b"{\"a\":}").is_none());
    assert!(parse_json(b"[1,]").is_none());
    assert!(parse_json(b"01").is_none());
    assert!(parse_json(b"\"unterminated").is_none());
    assert!(parse_json(b"{}extra").is_none());
}

#[test]
fn store_keys_have_the_documented_shapes() {
    assert_eq!(cache_key_me_user(&bv("u1")), bv("CACHE:ME_USER:u1"));
    assert_eq!(cache_key_friends(&bv("u1")), bv("CACHE:U_FRNDS:u1"));
    assert_eq!(cache_key_directory(&bv("u1")), bv("CACHE:UF:u1"));
    assert_eq!(cache_key_channels(&bv("u1")), bv("CACHE:U_CHANNELS:u1"));
    assert_eq!(chat_gateway::aggregate::presence_key(&bv("u1")), bv("user:u1"));
    assert_eq!(last_seen_key(&bv("u1")), bv("user-lastSeen:u1"));
    assert_eq!(subscriptions_key(&bv("s1")), bv("user:session:s1:subscriptions"));
    assert_eq!(user_channel(&bv("u1")), bv("U.u1"));
    assert_eq!(friend_channel(&bv("u1")), bv("F.u1"));
}

#[test]
fn string_escapes_round_trip_exactly() {
    let v = Json::Str(vec![0x01, b'"', b'\\', b'a']);
    let bytes = json_to_bytes(&v);
    assert_eq!(String::from_utf8(bytes.clone()).unwrap(), "\"\\u0001\\\"\\\\a\"");
    assert_eq!(parse_json(&bytes), Some(v));
}

#[test]
fn cookie_header_lookup() {
    let header = b"theme=dark; token=abc=def ; other=1";
    assert_eq!(get_cookie(header, b"token"), Some(bv("abc=def")));
    assert_eq!(get_cookie(header, b"theme"), Some(bv("dark")));
    assert_eq!(get_cookie(header, b"other"), Some(bv("1")));
    assert_eq!(get_cookie(header, b"missing"), None);
    assert_eq!(get_cookie(b"", b"token"), None);
    assert_eq!(get_cookie(b"token", b"token"), None);
    assert_eq!(get_cookie(b"token=", b"token"), Some(bv("")));
    assert_eq!(get_cookie(b"a=1;token=first;token=second", b"token"), Some(bv("first")));
}

#[test]
fn zlib_wrapped_documents_decode() {
    let text = b"{\"username\":\"ann\",\"password\":\"pw\",\"cookie\":true}";
    let mut enc = flate2::write::ZlibEncoder::new(Vec::new(), flate2::Compression::default());
    std::io::Write::write_all(&mut enc, text).unwrap();
    let body = enc.finish().unwrap();
    let doc = chat_gateway::codec::decode_zlib_json(&body).ok().expect("valid body");
    assert_eq!(get(&doc, "username"), &Json::Str(bv("ann")));
    assert_eq!(get(&doc, "cookie"), &Json::Bool(true));
    assert!(chat_gateway::codec::decode_zlib_json(b"junk").is_err());
}
