use ccs_sidecar::auto_launch::AutoLaunchBuilder;
use ccs_sidecar::bridge::{
    EventSink, Error, FilePath, HostAction, HostBridge, NoopEventSink, NoopHostBridge, Theme,
    RESTART_EXIT_CODE,
};
use ccs_sidecar::clipboard::{copy_text_reply, Clipboard, CopyOutcome, GetTextOutcome, SetTextOutcome};
use ccs_sidecar::commands::{
    auth_start_login, auto_launch_call_site, find_thing, get_provider, is_ready, ping, theme_for,
    upsert_provider, AppError, AppState, ProviderPayload,
};
use ccs_sidecar::state::State;
use ccs_sidecar::updater::{
    check_app_update_available, install_update_and_restart, Update, UpdaterBuilder,
};
use std::sync::Arc;

#[test]
fn auto_launch_reports_unsupported() {
    assert_eq!(auto_launch_call_site(), Ok(false));
    let mut b = AutoLaunchBuilder::new();
    assert_eq!(b.build().err().unwrap().message(), "未设置 app_name");
    let a = b.set_app_name("X").set_use_launch_agent(true).set_args(&["--a"]).build().ok().unwrap();
    assert_eq!(
        a.enable().unwrap_err().message(),
        "Android 不支持由应用自行设置开机自启（X）；请在 ZeroTermux 中配置启动项"
    );
    assert!(a.disable().is_ok());
    assert_eq!(a.is_enabled().ok(), Some(false));
}

#[test]
fn updates_never_come() {
    assert_eq!(check_app_update_available(UpdaterBuilder::<ccs_sidecar::bridge::Wry>::new()), Ok(None));
    assert_eq!(install_update_and_restart(UpdaterBuilder::<ccs_sidecar::bridge::Wry>::new()), Ok(false));
    let u = Update { version: "1".into(), current_version: "0".into(), body: None };
    assert_eq!(
        u.install(vec![]).unwrap_err().message(),
        "Android 版本的更新由 ZeroTermux 负责，sidecar 不安装更新"
    );
    assert_eq!(
        u.download(|_, _| {}, || {}).unwrap_err().message(),
        "Android 版本的更新由 ZeroTermux 负责，sidecar 不下载更新"
    );
    let updater = UpdaterBuilder::<ccs_sidecar::bridge::Wry>::new().build().ok().unwrap();
    assert!(updater.check().ok().unwrap().is_none());
}

#[test]
fn clipboard_needs_termux_api() {
    let e = Clipboard::new(false).err().unwrap();
    assert_eq!(e.message(), "termux-clipboard-set 不可用；请安装 Termux:API 应用与 termux-api 包");
    let c = Clipboard::new(true).ok().unwrap();
    assert_eq!(c.setter_program(), "termux-clipboard-set");
    assert_eq!(c.getter_program(), "termux-clipboard-get");
}

#[test]
fn clipboard_outcomes() {
    let c = Clipboard::new(true).ok().unwrap();
    assert!(c.set_text_result(SetTextOutcome::Exited { success: true, code: Some(0), stderr: vec![] }).is_ok());
    assert_eq!(
        c.set_text_result(SetTextOutcome::Exited { success: false, code: Some(2), stderr: b"  oops \n".to_vec() })
            .unwrap_err()
            .message(),
        "termux-clipboard-set 退出码 Some(2): oops"
    );
    assert_eq!(
        c.set_text_result(SetTextOutcome::Exited { success: false, code: None, stderr: vec![] }).unwrap_err().message(),
        "termux-clipboard-set 退出码 None: "
    );
    assert_eq!(
        c.set_text_result(SetTextOutcome::Exited { success: false, code: Some(-1), stderr: vec![] }).unwrap_err().message(),
        "termux-clipboard-set 退出码 Some(-1): "
    );
    assert_eq!(
        c.set_text_result(SetTextOutcome::SpawnFailed("no such file".into())).unwrap_err().message(),
        "启动 termux-clipboard-set 失败: no such file"
    );
    assert_eq!(c.set_text_result(SetTextOutcome::NoStdin).unwrap_err().message(), "无法写入剪贴板进程 stdin");
    assert_eq!(c.set_text_result(SetTextOutcome::WriteFailed("w".into())).unwrap_err().message(), "写入剪贴板失败: w");
    assert_eq!(c.set_text_result(SetTextOutcome::WaitFailed("x".into())).unwrap_err().message(), "等待剪贴板进程失败: x");
    assert_eq!(
        c.get_text_result(GetTextOutcome::Exited { success: true, code: Some(0), stdout: "你好".as_bytes().to_vec() }).ok().unwrap(),
        "你好"
    );
    assert_eq!(
        c.get_text_result(GetTextOutcome::Exited { success: false, code: Some(1), stdout: vec![] }).unwrap_err().message(),
        "termux-clipboard-get 退出码 Some(1)"
    );
    assert_eq!(
        c.get_text_result(GetTextOutcome::SpawnFailed("e".into())).unwrap_err().message(),
        "启动 termux-clipboard-get 失败: e"
    );
}

#[test]
fn default_host_refuses_everything() {
    let h = NoopHostBridge;
    assert_eq!(h.open_url("https://example.com").unwrap_err(), "当前平台不支持打开外部链接: https://example.com");
    assert_eq!(h.open_path("/p").unwrap_err(), "当前平台不支持打开路径: /p");
    assert_eq!(h.pick_folder(), None);
    assert_eq!(h.pick_file(&["sql"]), None);
    assert_eq!(h.save_file("a.sql", &["sql"]), None);
    h.restart();
    h.exit(RESTART_EXIT_CODE);
    NoopEventSink.dispatch("e", serde_json::Value::Null);
}

#[test]
fn host_actions() {
    let a = HostAction::open_url("u");
    assert_eq!((a.kind, a.value.as_deref()), ("open-url", Some("u")));
    let a = HostAction::open_path("p");
    assert_eq!((a.kind, a.value.as_deref()), ("open-path", Some("p")));
    let a = HostAction::restart();
    assert_eq!((a.kind, a.value), ("restart", None));
    let a = HostAction::exit(-3);
    assert_eq!((a.kind, a.value.as_deref()), ("exit", Some("-3")));
    let a = HostAction::exit(i32::MIN);
    assert_eq!(a.value.as_deref(), Some("-2147483648"));
    assert_eq!(HostAction::event_name(), "host-action");
}

#[test]
fn errors_and_paths() {
    assert_eq!(Error::Serialize("bad".into()).message(), "序列化失败: bad");
    assert_eq!(Error::Host("h".into()).message(), "h");
    let p = FilePath::new("/a/b.sql".into()).simplified();
    assert_eq!(p.to_string(), "/a/b.sql");
    assert_eq!(p.into_path().unwrap(), "/a/b.sql");
    assert_eq!(RESTART_EXIT_CODE, 51);
}

#[test]
fn state_shares_the_value() {
    let s = State::new(Arc::new(AppState { label: "sidecar".into() }));
    assert_eq!(s.inner().label, "sidecar");
    assert_eq!(s.label, "sidecar");
    let t = s.clone();
    assert!(Arc::ptr_eq(&s.to_arc(), &t.to_arc()));
}

#[test]
fn command_shapes() {
    let p = get_provider("p1".into()).ok().unwrap();
    assert_eq!((p.id.as_str(), p.enabled), ("p1", true));
    assert_eq!(get_provider("".into()).err().unwrap(), "id 为空");
    assert_eq!(find_thing("ok".into()).ok().unwrap(), "found");
    assert_eq!(find_thing("zzz".into()).err().unwrap().message(), "未找到: zzz");
    assert!(matches!(AppError::NotFound("k".into()), AppError::NotFound(_)));
    assert!(is_ready());
    ping();
    assert_eq!(
        auth_start_login("github-copilot".into(), Some("example.com".into()), "cop", "xai").unwrap(),
        "github-copilot|example.com|cop|xai"
    );
    assert_eq!(auth_start_login("x".into(), None, "cop", "xai").unwrap(), "x|none|cop|xai");
    let st = AppState { label: "sidecar".into() };
    assert_eq!(
        upsert_provider(&st, ProviderPayload { id: "x".into(), enabled: false }, Some(true)).unwrap(),
        "sidecar:x:false:true"
    );
    assert_eq!(
        upsert_provider(&st, ProviderPayload { id: "y".into(), enabled: true }, None).unwrap(),
        "sidecar:y:true:false"
    );
    assert_eq!(theme_for("dark"), Some(Theme::Dark));
    assert_eq!(theme_for("light"), Some(Theme::Light));
    assert_eq!(theme_for("auto"), None);
}

#[test]
fn copy_replies_name_the_failed_step() {
    assert_eq!(copy_text_reply(CopyOutcome::Copied), Ok(true));
    let e = Clipboard::new(false).err().unwrap();
    let msg = e.message();
    assert_eq!(copy_text_reply(CopyOutcome::OpenFailed(e)).unwrap_err(), format!("访问系统剪贴板失败: {msg}"));
    let c = Clipboard::new(true).ok().unwrap();
    let w = c.set_text_result(SetTextOutcome::NoStdin).unwrap_err();
    assert_eq!(copy_text_reply(CopyOutcome::WriteFailed(w)).unwrap_err(), "写入系统剪贴板失败: 无法写入剪贴板进程 stdin");
    assert_eq!(copy_text_reply(CopyOutcome::TaskFailed("panicked".into())).unwrap_err(), "剪贴板任务执行失败: panicked");
}
