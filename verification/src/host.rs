//! The host abstraction the app's core talks to, the host that supports
//! nothing, the names of the events the front end listens to, and the
//! Android stand-ins for the light-weight mode and the tray.

use vstd::prelude::*;

verus! {

/// What the app's core needs from its host.
pub trait AppHost: Send + Sync {
    /// Pushes an event to the front end.
    fn emit_json(&self, event: &str, payload: serde_json::Value);

    /// Opens a URL the system's way.
    fn open_external(&self, url: &str) -> Result<(), String>;

    /// Opens a local path in a file manager.
    fn open_path(&self, path: &str) -> Result<(), String>;

    /// Asks for a directory; `Ok(None)` means the user cancelled.
    fn pick_directory(&self) -> Result<Option<String>, String>;

    /// Restarts the app.
    fn restart(&self) -> Result<(), String>;

    /// Refreshes the tray menu; there is no tray by default.
    fn refresh_tray(&self) {
    }

    /// Sets the window theme; the native side owns it by default.
    fn set_theme(&self, _theme: &str) -> (r: Result<(), String>)
        default_ensures
            r is Ok,
    {
        Ok(())
    }

    /// Whether the app updates itself; by default it does not.
    fn supports_self_update(&self) -> (r: bool)
        default_ensures
            !r,
    {
        false
    }
}

/// A host that does nothing and supports none of the actions.
pub struct NullHost;

impl AppHost for NullHost {
    fn emit_json(&self, _event: &str, _payload: serde_json::Value) {
    }

    fn open_external(&self, _url: &str) -> (r: Result<(), String>)
        ensures
            r matches Err(m) && m@ == "当前宿主不支持打开外部链接"@,
    {
        Err("当前宿主不支持打开外部链接".to_owned())
    }

    fn open_path(&self, _path: &str) -> (r: Result<(), String>)
        ensures
            r matches Err(m) && m@ == "当前宿主不支持打开路径"@,
    {
        Err("当前宿主不支持打开路径".to_owned())
    }

    fn pick_directory(&self) -> (r: Result<Option<String>, String>)
        ensures
            r matches Err(m) && m@ == "当前宿主不支持目录选择"@,
    {
        Err("当前宿主不支持目录选择".to_owned())
    }

    fn restart(&self) -> (r: Result<(), String>)
        ensures
            r matches Err(m) && m@ == "当前宿主不支持重启"@,
    {
        Err("当前宿主不支持重启".to_owned())
    }
}

pub const PROVIDER_SWITCHED: &'static str = "provider-switched";
pub const USAGE_CACHE_UPDATED: &'static str = "usage-cache-updated";
pub const USAGE_LOG_RECORDED: &'static str = "usage-log-recorded";
pub const DEEPLINK_IMPORT: &'static str = "deeplink-import";
pub const DEEPLINK_ERROR: &'static str = "deeplink-error";
pub const PROXY_FLAGS_CHANGED: &'static str = "proxy-flags-changed";
pub const PROFILE_APPLIED: &'static str = "profile-applied";
pub const UNIVERSAL_PROVIDER_SYNCED: &'static str = "universal-provider-synced";
pub const S3_SYNC_STATUS_UPDATED: &'static str = "s3-sync-status-updated";
pub const WEBDAV_SYNC_STATUS_UPDATED: &'static str = "webdav-sync-status-updated";

/// Every event name the front end listens to, in a fixed order.
pub open spec fn spec_all_events() -> Seq<Seq<char>> {
    seq![
        "provider-switched"@,
        "usage-cache-updated"@,
        "usage-log-recorded"@,
        "deeplink-import"@,
        "deeplink-error"@,
        "proxy-flags-changed"@,
        "profile-applied"@,
        "universal-provider-synced"@,
        "s3-sync-status-updated"@,
        "webdav-sync-status-updated"@,
    ]
}

/// Every event name the front end listens to.
pub fn all_events() -> (r: Vec<&'static str>)
    ensures
        r@.map_values(|s: &'static str| s@) == spec_all_events(),
{
    let v = vec![
        PROVIDER_SWITCHED,
        USAGE_CACHE_UPDATED,
        USAGE_LOG_RECORDED,
        DEEPLINK_IMPORT,
        DEEPLINK_ERROR,
        PROXY_FLAGS_CHANGED,
        PROFILE_APPLIED,
        UNIVERSAL_PROVIDER_SYNCED,
        S3_SYNC_STATUS_UPDATED,
        WEBDAV_SYNC_STATUS_UPDATED,
    ];
    assert(v@.map_values(|s: &'static str| s@) =~= spec_all_events());
    v
}

/// Law: the event names are all non-empty and pairwise different.
pub proof fn lemma_event_names_distinct()
    ensures
        forall|i: int| 0 <= i < spec_all_events().len() ==> (#[trigger] spec_all_events()[i]).len() > 0,
        forall|i: int, j: int| 0 <= i < j < spec_all_events().len() ==> #[trigger] spec_all_events()[i] != #[trigger] spec_all_events()[j],
{
    reveal_strlit("provider-switched");
    reveal_strlit("usage-cache-updated");
    reveal_strlit("usage-log-recorded");
    reveal_strlit("deeplink-import");
    reveal_strlit("deeplink-error");
    reveal_strlit("proxy-flags-changed");
    reveal_strlit("profile-applied");
    reveal_strlit("universal-provider-synced");
    reveal_strlit("s3-sync-status-updated");
    reveal_strlit("webdav-sync-status-updated");
    let e = spec_all_events();
    assert forall|i: int, j: int| 0 <= i < j < e.len() implies #[trigger] e[i] != #[trigger] e[j] by {
        if e[i] == e[j] {
            assert(e[i].len() == e[j].len());
            assert(e[i][0] == e[j][0]);
            assert(e[i][2] == e[j][2]);
            assert(e[i][e[i].len() - 1] == e[j][e[j].len() - 1]);
            assert(e[i][7] == e[j][7]);
            assert(e[i][9] == e[j][9]);
        }
    }
}

/// The light-weight mode does not exist on Android: entering it fails.
pub fn enter_lightweight_mode<A>(_app: &A) -> (r: Result<(), String>)
    ensures
        r matches Err(m) && m@ == "Android 版本不支持轻量模式（sidecar 本身即无窗口后台进程）"@,
{
    Err("Android 版本不支持轻量模式（sidecar 本身即无窗口后台进程）".to_owned())
}

/// Leaving the light-weight mode means the window is visible, which the
/// host already guarantees.
pub fn exit_lightweight_mode<A>(_app: &A) -> (r: Result<(), String>)
    ensures
        r is Ok,
{
    Ok(())
}

/// Never in the light-weight mode.
pub fn is_lightweight_mode() -> (r: bool)
    ensures
        !r,
{
    false
}

/// Identifier of the tray.
pub const TRAY_ID: &'static str = "cc-switch";

/// There is no tray on Android: nothing to rebuild.
pub fn refresh_tray_menu<A>(_app: &A) {
}

/// There is no tray on Android: nothing to schedule.
pub fn schedule_tray_refresh<A>(_app: &A) {
}

} // verus!
