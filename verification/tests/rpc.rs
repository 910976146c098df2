use ccs_sidecar::rpc::{
    arg_position, authorized, authorized_with_query, command_listing, rpc_finish, rpc_gate,
    stream_step, stringify_err, unauthorized_message, Handlers, Received, RpcReply, StreamStep,
};

fn pairs(v: &[(&str, u32)]) -> Vec<(String, u32)> {
    v.iter().map(|(n, h)| (n.to_string(), *h)).collect()
}

#[test]
fn later_registration_wins() {
    let h = Handlers::from_pairs(pairs(&[("a", 1), ("b", 2), ("a", 3)]));
    assert_eq!(h.len(), 2);
    assert_eq!(h.get("a"), Some(3));
    assert_eq!(h.get("b"), Some(2));
    assert_eq!(h.get("c"), None);
    assert!(!h.is_empty());
    assert!(Handlers::<u32>::from_pairs(vec![]).is_empty());
}

#[test]
fn extend_prefers_the_added_table() {
    let mut h = Handlers::from_pairs(pairs(&[("a", 1), ("b", 2)]));
    h.extend(Handlers::from_pairs(pairs(&[("b", 20), ("c", 30)])));
    assert_eq!(h.len(), 3);
    assert_eq!(h.get("a"), Some(1));
    assert_eq!(h.get("b"), Some(20));
    assert_eq!(h.get("c"), Some(30));
}

#[test]
fn names_are_sorted_and_unique() {
    let h = Handlers::from_pairs(pairs(&[("ping", 1), ("get_provider", 2), ("ab", 3), ("a", 4), ("ping", 5)]));
    assert_eq!(h.names(), vec!["a", "ab", "get_provider", "ping"]);
}

#[test]
fn unknown_commands_are_named() {
    let h = Handlers::from_pairs(pairs(&[("a", 1)]));
    assert_eq!(h.dispatch_target("a"), Ok(1));
    assert_eq!(h.dispatch_target("no_such_command").unwrap_err(), "未知命令: no_such_command");
}

#[test]
fn token_checks() {
    assert!(authorized("t", Some("t")));
    assert!(!authorized("t", Some("u")));
    assert!(!authorized("t", None));
    assert!(authorized_with_query("t", None, Some("t")));
    assert!(authorized_with_query("t", Some("t"), None));
    assert!(!authorized_with_query("t", Some("x"), Some("y")));
}

#[test]
fn rpc_replies() {
    let h = Handlers::from_pairs(pairs(&[("a", 1)]));
    match rpc_gate::<u32, ()>("t", Some("bad"), &h, "a") {
        Err(r @ RpcReply::Unauthorized(_)) => {
            assert_eq!(r.status(), 401);
            if let RpcReply::Unauthorized(m) = r {
                assert_eq!(m, unauthorized_message());
                assert_eq!(m, "无效的 X-CCS-Token");
            }
        }
        _ => panic!("expected 401"),
    }
    match rpc_gate::<u32, ()>("t", Some("t"), &h, "zzz") {
        Err(r @ RpcReply::UnknownCommand(_)) => {
            assert_eq!(r.status(), 404);
            if let RpcReply::UnknownCommand(m) = r {
                assert_eq!(m, "未知命令: zzz");
            }
        }
        _ => panic!("expected 404"),
    }
    assert!(matches!(rpc_gate::<u32, ()>("t", Some("t"), &h, "a"), Ok(1)));
    let ok = rpc_finish::<u32>(Ok(5));
    assert_eq!(ok.status(), 200);
    assert!(matches!(ok, RpcReply::Success(5)));
    let err = rpc_finish::<u32>(Err("boom".into()));
    assert_eq!(err.status(), 200);
    assert!(matches!(err, RpcReply::Failure(ref m) if m == "boom"));
}

#[test]
fn listing_needs_the_token() {
    let h = Handlers::from_pairs(pairs(&[("b", 1), ("a", 2)]));
    assert!(command_listing("t", None, &h).is_none());
    let (n, names) = command_listing("t", Some("t"), &h).unwrap();
    assert_eq!(n, 2);
    assert_eq!(names, vec!["a", "b"]);
}

#[test]
fn arguments_by_camel_then_snake_key() {
    let keys: Vec<String> = vec!["provider_id".into(), "appType".into()];
    assert_eq!(arg_position(&keys, "appType"), Some(1));
    assert_eq!(arg_position(&keys, "providerId"), Some(0));
    assert_eq!(arg_position(&keys, "missing"), None);
    assert_eq!(arg_position(&keys, "missingKey"), None);
    let dup: Vec<String> = vec!["k".into(), "k".into()];
    assert_eq!(arg_position(&dup, "k"), Some(0));
}

#[test]
fn errors_become_their_display_text() {
    assert_eq!(stringify_err("id 为空"), "id 为空");
    assert_eq!(stringify_err(String::from("boom")), "boom");
    assert_eq!(stringify_err(42), "42");
}

#[test]
fn the_event_stream_survives_lag_and_ends_on_close() {
    assert!(matches!(stream_step(Received::Event(7)), StreamStep::Send(7)));
    assert!(matches!(stream_step(Received::<u8>::Lagged(3)), StreamStep::Skip(3)));
    assert!(matches!(stream_step(Received::<u8>::Closed), StreamStep::Stop));
}

#[test]
fn replaced_registrations_are_reported() {
    let (h, replaced) = Handlers::from_pairs_with_replaced(pairs(&[("a", 1), ("b", 2), ("a", 3), ("a", 4)]));
    assert_eq!(h.get("a"), Some(4));
    assert_eq!(replaced, vec!["a", "a"]);
    let mut h = h;
    let mut rep = h.extend_with_replaced(Handlers::from_pairs(pairs(&[("c", 5), ("b", 6), ("a", 7)])));
    rep.sort();
    assert_eq!(rep, vec!["a", "b"]);
    assert_eq!(h.get("b"), Some(6));
    assert_eq!(h.len(), 3);
}
