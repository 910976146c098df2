use ccs_sidecar::startup::{
    android_sidecar_port, effective_webroot, webroot_arg, local_url, new_token, parse_u16, set_store_base_dir,
    store_base_dir,
};

fn args(v: &[&str]) -> Vec<String> {
    v.iter().map(|s| s.to_string()).collect()
}

#[test]
fn u16_parsing_follows_str_parse() {
    for s in ["0", "8080", "+80", "0080", "65535", "", "+", "-1", "65536", "8a", " 80", "99999999999"] {
        assert_eq!(parse_u16(s), s.parse::<u16>().ok(), "{s}");
    }
}

#[test]
fn port_from_equals_form() {
    assert_eq!(android_sidecar_port(&args(&["--port=1234"]), None), 1234);
}

#[test]
fn port_from_separate_value() {
    assert_eq!(android_sidecar_port(&args(&["--webroot", "/w", "--port", "4321"]), None), 4321);
}

#[test]
fn bad_values_fall_through_to_later_arguments() {
    assert_eq!(android_sidecar_port(&args(&["--port=x", "--port=7"]), None), 7);
    assert_eq!(android_sidecar_port(&args(&["--port", "x", "--port=9"]), None), 9);
    // The value after `--port` is consumed even when it is another flag.
    assert_eq!(android_sidecar_port(&args(&["--port", "--port=5"]), Some("6")), 6);
}

#[test]
fn environment_then_zero() {
    assert_eq!(android_sidecar_port(&args(&[]), Some("3000")), 3000);
    assert_eq!(android_sidecar_port(&args(&["--port"]), Some("3001")), 3001);
    assert_eq!(android_sidecar_port(&args(&[]), Some("nope")), 0);
    assert_eq!(android_sidecar_port(&args(&[]), None), 0);
    assert_eq!(android_sidecar_port(&args(&["--port=70000"]), None), 0);
}

#[test]
fn webroot_must_be_a_directory() {
    assert_eq!(effective_webroot(Some("/w".into()), true), Some("/w".to_string()));
    assert_eq!(effective_webroot(Some("/w".into()), false), None);
    assert_eq!(effective_webroot(None, true), None);
}

#[test]
fn local_url_names_the_port() {
    assert_eq!(local_url(8080), "http://127.0.0.1:8080/");
    assert_eq!(local_url(0), "http://127.0.0.1:0/");
}

#[test]
fn tokens_are_32_lowercase_hex_digits() {
    let t = new_token();
    assert_eq!(t.len(), 32);
    assert!(t.chars().all(|c| c.is_ascii_digit() || ('a'..='f').contains(&c)));
    assert_ne!(t, new_token());
}

#[test]
fn store_base_dir_is_set_once() {
    let mut slot = None;
    assert!(set_store_base_dir(&mut slot, "/a".into()));
    assert!(!set_store_base_dir(&mut slot, "/b".into()));
    assert_eq!(slot.as_deref(), Some("/a"));
}

#[test]
fn store_base_dir_falls_back_to_home() {
    assert_eq!(store_base_dir(Some("/cfg"), Some("/home/u")), "/cfg");
    assert_eq!(store_base_dir(None, Some("/home/u")), "/home/u/.cc-switch");
    assert_eq!(store_base_dir(None, None), "./.cc-switch");
}

#[test]
fn webroot_from_the_command_line() {
    assert_eq!(webroot_arg(&args(&["--port", "1", "--webroot=/w/dist"])), Some("/w/dist".to_string()));
    assert_eq!(webroot_arg(&args(&["--webroot", "/d", "--webroot=/e"])), Some("/d".to_string()));
    assert_eq!(webroot_arg(&args(&["--webroot"])), None);
    assert_eq!(webroot_arg(&args(&["--port=3"])), None);
    assert_eq!(webroot_arg(&args(&["--webroot="])), Some(String::new()));
}
