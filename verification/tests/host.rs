use ccs_sidecar::host::{
    all_events, enter_lightweight_mode, exit_lightweight_mode, is_lightweight_mode,
    refresh_tray_menu, schedule_tray_refresh, AppHost, NullHost, PROVIDER_SWITCHED, TRAY_ID,
};

#[test]
fn event_names_are_distinct_and_non_empty() {
    let all = all_events();
    let mut seen = std::collections::HashSet::new();
    for name in &all {
        assert!(!name.is_empty());
        assert!(seen.insert(*name), "事件名重复: {name}");
    }
    assert_eq!(seen.len(), all.len());
}

#[test]
fn null_host_refuses_unsupported_actions() {
    let h = NullHost;
    assert!(h.open_external("https://example.com").is_err());
    assert!(h.pick_directory().is_err());
    assert!(!h.supports_self_update());
    h.refresh_tray();
}

#[test]
fn null_host_messages() {
    let h = NullHost;
    assert_eq!(h.open_external("x").unwrap_err(), "当前宿主不支持打开外部链接");
    assert_eq!(h.open_path("/x").unwrap_err(), "当前宿主不支持打开路径");
    assert_eq!(h.pick_directory().unwrap_err(), "当前宿主不支持目录选择");
    assert_eq!(h.restart().unwrap_err(), "当前宿主不支持重启");
    assert!(h.set_theme("dark").is_ok());
}

#[test]
fn event_names_are_the_front_end_names() {
    let all = all_events();
    assert_eq!(all.len(), 10);
    assert_eq!(all[0], PROVIDER_SWITCHED);
    assert_eq!(all[0], "provider-switched");
    assert_eq!(all[9], "webdav-sync-status-updated");
}

#[test]
fn lightweight_mode_is_not_available() {
    assert_eq!(
        enter_lightweight_mode(&()).unwrap_err(),
        "Android 版本不支持轻量模式（sidecar 本身即无窗口后台进程）"
    );
    assert!(exit_lightweight_mode(&()).is_ok());
    assert!(!is_lightweight_mode());
}

#[test]
fn tray_calls_do_nothing() {
    refresh_tray_menu(&());
    schedule_tray_refresh(&());
    assert_eq!(TRAY_ID, "cc-switch");
}

struct Recorder(std::sync::Mutex<Vec<(String, serde_json::Value)>>);

impl AppHost for Recorder {
    fn emit_json(&self, event: &str, payload: serde_json::Value) {
        self.0.lock().unwrap().push((event.to_string(), payload));
    }
    fn open_external(&self, _url: &str) -> Result<(), String> {
        Ok(())
    }
    fn open_path(&self, _path: &str) -> Result<(), String> {
        Ok(())
    }
    fn pick_directory(&self) -> Result<Option<String>, String> {
        Ok(None)
    }
    fn restart(&self) -> Result<(), String> {
        Ok(())
    }
}

#[test]
fn events_go_out_through_a_trait_object() {
    let rec = std::sync::Arc::new(Recorder(std::sync::Mutex::new(Vec::new())));
    let host: std::sync::Arc<dyn AppHost> = rec.clone();
    let mut payload = serde_json::Map::new();
    payload.insert("appType".to_string(), serde_json::Value::String("codex".to_string()));
    payload.insert("providerId".to_string(), serde_json::Value::String("p1".to_string()));
    host.emit_json(PROVIDER_SWITCHED, serde_json::Value::Object(payload));
    let got = rec.0.lock().unwrap();
    assert_eq!(got.len(), 1);
    assert_eq!(got[0].0, "provider-switched");
    assert_eq!(got[0].1["providerId"], "p1");
    assert!(!host.supports_self_update());
    assert!(host.set_theme("dark").is_ok());
}
