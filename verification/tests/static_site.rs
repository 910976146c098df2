use ccs_sidecar::static_site::{
    content_type_for, directory_index, handshake_script, inject_handshake, missing_index,
    read_failed, render_static, resolve_under, static_start, static_step, static_target, StaticAction,
    StaticBody,
};

#[test]
fn plain_paths_resolve_under_the_root() {
    assert_eq!(resolve_under("/w", "index.html").as_deref(), Some("/w/index.html"));
    assert_eq!(resolve_under("/w", "assets/app.js").as_deref(), Some("/w/assets/app.js"));
    assert_eq!(resolve_under("/w/", "a.css").as_deref(), Some("/w/a.css"));
    assert_eq!(resolve_under("/w", "./a//b/./c").as_deref(), Some("/w/a/b/c"));
    assert_eq!(resolve_under("/w", "").as_deref(), Some("/w"));
    assert_eq!(resolve_under("", "a").as_deref(), Some("a"));
}

#[test]
fn traversal_is_refused() {
    assert_eq!(resolve_under("/w", "../etc/passwd"), None);
    assert_eq!(resolve_under("/w", "a/../../b"), None);
    assert_eq!(resolve_under("/w", "a/.."), None);
    assert_eq!(resolve_under("/w", "/etc/passwd"), None);
    assert_eq!(resolve_under("/w", "a/..b").as_deref(), Some("/w/a/..b"));
}

#[test]
fn content_types_follow_the_extension() {
    assert_eq!(content_type_for("/w/index.html"), "text/html; charset=utf-8");
    assert_eq!(content_type_for("/w/INDEX.HTML"), "text/html; charset=utf-8");
    assert_eq!(content_type_for("a.js"), "text/javascript; charset=utf-8");
    assert_eq!(content_type_for("a.mjs"), "text/javascript; charset=utf-8");
    assert_eq!(content_type_for("a.css"), "text/css; charset=utf-8");
    assert_eq!(content_type_for("a.json"), "application/json; charset=utf-8");
    assert_eq!(content_type_for("a.svg"), "image/svg+xml");
    assert_eq!(content_type_for("a.png"), "image/png");
    assert_eq!(content_type_for("a.jpg"), "image/jpeg");
    assert_eq!(content_type_for("a.jpeg"), "image/jpeg");
    assert_eq!(content_type_for("a.gif"), "image/gif");
    assert_eq!(content_type_for("a.webp"), "image/webp");
    assert_eq!(content_type_for("a.ico"), "image/x-icon");
    assert_eq!(content_type_for("a.woff"), "font/woff");
    assert_eq!(content_type_for("a.woff2"), "font/woff2");
    assert_eq!(content_type_for("a.ttf"), "font/ttf");
    assert_eq!(content_type_for("a.js.map"), "application/json; charset=utf-8");
    assert_eq!(content_type_for("a.wasm"), "application/wasm");
    assert_eq!(content_type_for("a.bin"), "application/octet-stream");
    assert_eq!(content_type_for("Makefile"), "application/octet-stream");
    assert_eq!(content_type_for(".html"), "application/octet-stream");
    assert_eq!(content_type_for("dir/a.html/"), "text/html; charset=utf-8");
    assert_eq!(content_type_for("a.html/.."), "application/octet-stream");
}

#[test]
fn handshake_script_carries_port_and_token() {
    assert_eq!(
        handshake_script(8080, "abc"),
        "<script>window.__CCS_SIDECAR__={\"port\":8080,\"token\":\"abc\"};</script>"
    );
    assert_eq!(
        handshake_script(0, "t"),
        "<script>window.__CCS_SIDECAR__={\"port\":0,\"token\":\"t\"};</script>"
    );
}

#[test]
fn script_goes_after_the_first_head() {
    assert_eq!(inject_handshake("<html><head><title/></head>", "S"), "<html><head>S<title/></head>");
    assert_eq!(inject_handshake("<head><head>", "S"), "<head>S<head>");
    assert_eq!(inject_handshake("<body></body>", "S"), "S<body></body>");
    assert_eq!(inject_handshake("", "S"), "S");
}

#[test]
fn targets_and_plain_errors() {
    let e = static_target(None, "a").err().unwrap();
    assert_eq!(e.status, 404);
    assert_eq!(e.message, "sidecar 未配置 --webroot，静态站点不可用");
    assert_eq!(static_target(Some("/w"), "").ok().unwrap(), "/w/index.html");
    assert_eq!(static_target(Some("/w"), "x/y.js").ok().unwrap(), "/w/x/y.js");
    let e = static_target(Some("/w"), "../x").err().unwrap();
    assert_eq!(e.status, 400);
    assert_eq!(e.message, "非法路径");
    assert_eq!(directory_index("/w/docs"), "/w/docs/index.html");
    assert_eq!(directory_index("/w/docs/"), "/w/docs/index.html");
    let m = missing_index();
    assert_eq!((m.status, m.message.as_str()), (404, "index.html 不存在"));
    let f = read_failed();
    assert_eq!((f.status, f.message.as_str()), (500, "读取静态文件失败"));
}

#[test]
fn index_gets_handshake_and_no_cache() {
    let a = render_static("/w/index.html", b"<head></head>".to_vec(), 7, "tok");
    assert_eq!(a.content_type, "text/html; charset=utf-8");
    assert_eq!(a.cache_control, "no-store");
    match a.body {
        StaticBody::Html(h) => assert_eq!(
            h,
            "<head><script>window.__CCS_SIDECAR__={\"port\":7,\"token\":\"tok\"};</script></head>"
        ),
        StaticBody::Bytes(_) => panic!("index must be HTML"),
    }
}

#[test]
fn assets_are_sent_as_they_are() {
    let a = render_static("/w/app.js", vec![1, 2, 3], 7, "tok");
    assert_eq!(a.content_type, "text/javascript; charset=utf-8");
    assert_eq!(a.cache_control, "public, max-age=31536000, immutable");
    match a.body {
        StaticBody::Bytes(b) => assert_eq!(b, vec![1, 2, 3]),
        StaticBody::Html(_) => panic!("assets are bytes"),
    }
}

#[test]
fn invalid_utf8_in_index_is_replaced() {
    let a = render_static("/w/index.html", vec![0xff, b'x'], 1, "t");
    match a.body {
        StaticBody::Html(h) => assert_eq!(h, "<script>window.__CCS_SIDECAR__={\"port\":1,\"token\":\"t\"};</script>\u{fffd}x"),
        StaticBody::Bytes(_) => panic!("index must be HTML"),
    }
}

fn probe_path(a: &StaticAction) -> Option<String> {
    match a {
        StaticAction::ProbeDir(p) | StaticAction::ProbeFile(p) | StaticAction::Read(p) => Some(p.clone()),
        StaticAction::Respond(_) => None,
    }
}

#[test]
fn a_directory_is_served_by_its_index() {
    let (st, a) = static_start(Some("/w"), "docs");
    assert!(matches!(a, StaticAction::ProbeDir(ref p) if p == "/w/docs"));
    let (st, a) = static_step(st.unwrap(), true);
    assert_eq!(probe_path(&a).as_deref(), Some("/w/docs/index.html"));
    let (st, a) = static_step(st.unwrap(), true);
    assert!(st.is_none());
    assert!(matches!(a, StaticAction::Read(ref p) if p == "/w/docs/index.html"));
}

#[test]
fn a_missing_file_falls_back_to_the_root_index() {
    let (st, a) = static_start(Some("/w"), "");
    assert_eq!(probe_path(&a).as_deref(), Some("/w/index.html"));
    let (st, _) = static_step(st.unwrap(), false);
    let (st, a) = static_step(st.unwrap(), false);
    assert!(matches!(a, StaticAction::ProbeFile(ref p) if p == "/w/index.html"));
    let (st2, a2) = static_step(st.unwrap(), false);
    assert!(st2.is_none());
    match a2 {
        StaticAction::Respond(r) => {
            assert_eq!(r.status, 404);
            assert_eq!(r.message, "index.html 不存在");
        }
        _ => panic!("expected 404"),
    }
    let (st, _) = static_start(Some("/w"), "app/route");
    let (st, _) = static_step(st.unwrap(), false);
    let (st, _) = static_step(st.unwrap(), false);
    let (_, a) = static_step(st.unwrap(), true);
    assert!(matches!(a, StaticAction::Read(ref p) if p == "/w/index.html"));
}

#[test]
fn refused_requests_never_touch_the_file_system() {
    let (st, a) = static_start(None, "index.html");
    assert!(st.is_none());
    assert!(matches!(a, StaticAction::Respond(ref r) if r.status == 404));
    let (st, a) = static_start(Some("/w"), "../etc/passwd");
    assert!(st.is_none());
    assert!(matches!(a, StaticAction::Respond(ref r) if r.status == 400 && r.message == "非法路径"));
}
