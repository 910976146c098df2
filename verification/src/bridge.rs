//! The handle's collaborators: where events go, what the host can do for
//! the app, and the small types that command signatures name.

use vstd::prelude::*;
use crate::text::{push_signed_decimal, spec_signed_decimal};

verus! {

/// A JSON value, carried through unread.
#[verifier::external_type_specification]
#[verifier::external_body]
pub struct ExJsonValue(serde_json::Value);

/// Receives the events the app emits (the sidecar forwards them over SSE).
pub trait EventSink: Send + Sync {
    fn dispatch(&self, event: &str, payload: serde_json::Value);
}

/// An event sink that drops every event.
pub struct NoopEventSink;

impl EventSink for NoopEventSink {
    fn dispatch(&self, _event: &str, _payload: serde_json::Value) {
    }
}

/// What the host (the Android side) can do for the app: open links and
/// paths, pick files, restart or exit.  By default nothing is available.
pub trait HostBridge: Send + Sync {
    fn open_url(&self, url: &str) -> (r: Result<(), String>)
        default_ensures
            r matches Err(m) && m@ == "当前平台不支持打开外部链接: "@ + url@,
    {
        let mut m = String::new();
        m.append("当前平台不支持打开外部链接: ");
        m.append(url);
        Err(m)
    }

    fn open_path(&self, path: &str) -> (r: Result<(), String>)
        default_ensures
            r matches Err(m) && m@ == "当前平台不支持打开路径: "@ + path@,
    {
        let mut m = String::new();
        m.append("当前平台不支持打开路径: ");
        m.append(path);
        Err(m)
    }

    fn pick_folder(&self) -> (r: Option<String>)
        default_ensures
            r is None,
    {
        None
    }

    fn pick_file(&self, _extensions: &[&str]) -> (r: Option<String>)
        default_ensures
            r is None,
    {
        None
    }

    fn save_file(&self, _default_name: &str, _extensions: &[&str]) -> (r: Option<String>)
        default_ensures
            r is None,
    {
        None
    }

    fn restart(&self) {
    }

    fn exit(&self, _code: i32) {
    }
}

/// A host that offers none of the actions.
pub struct NoopHostBridge;

impl HostBridge for NoopHostBridge {
}

/// Marker for the runtime a handle belongs to.
pub trait Runtime: Send + Sync + 'static {
}

/// The only runtime: the sidecar.
pub struct Wry;

impl Runtime for Wry {
}

/// What `app.env()` returns; it holds nothing here.
pub struct Env;

/// Exit code with which a restart is requested.
pub const RESTART_EXIT_CODE: i32 = 51;

/// Errors of emitting events and of host operations.
pub enum Error {
    /// The event payload could not be serialized (the serializer's message).
    Serialize(String),
    /// Another host-side error.
    Host(String),
}

impl Error {
    /// The text shown for the error.
    pub fn message(&self) -> (r: String)
        ensures
            self matches Error::Serialize(e) ==> r@ == "序列化失败: "@ + e@,
            self matches Error::Host(m) ==> r@ == m@,
    {
        match self {
            Error::Serialize(e) => {
                let mut m = String::new();
                m.append("序列化失败: ");
                m.append(e.as_str());
                m
            }
            Error::Host(m) => m.clone(),
        }
    }
}

/// Window theme.
#[derive(Clone, Copy, Debug, PartialEq, Eq, Structural)]
pub enum Theme {
    Light,
    Dark,
}

/// A path chosen in a file dialog.
pub struct FilePath {
    path: String,
}

impl FilePath {
    /// The path as text.
    pub closed spec fn view(&self) -> Seq<char> {
        self.path@
    }

    pub fn new(p: String) -> (r: Self)
        ensures
            r@ == p@,
    {
        FilePath { path: p }
    }

    /// Paths here carry no prefix to strip: the same path.
    pub fn simplified(self) -> (r: Self)
        ensures
            r@ == self@,
    {
        self
    }

    /// The path itself; never fails.
    pub fn into_path(self) -> (r: Result<String, String>)
        ensures
            r matches Ok(p) && p@ == self@,
    {
        Ok(self.path)
    }

    /// The path as text, as it is displayed.
    pub fn to_string(&self) -> (r: String)
        ensures
            r@ == self@,
    {
        self.path.clone()
    }
}

/// An action the sidecar asks the host to perform, sent as the event
/// `host-action` with payload `{kind, value?}`.
pub struct HostAction {
    pub kind: &'static str,
    pub value: Option<String>,
}

impl HostAction {
    /// Open a link.
    pub fn open_url(url: &str) -> (r: Self)
        ensures
            r.kind@ == "open-url"@,
            r.value matches Some(v) && v@ == url@,
    {
        HostAction { kind: "open-url", value: Some(url.to_owned()) }
    }

    /// Open a local path.
    pub fn open_path(path: &str) -> (r: Self)
        ensures
            r.kind@ == "open-path"@,
            r.value matches Some(v) && v@ == path@,
    {
        HostAction { kind: "open-path", value: Some(path.to_owned()) }
    }

    /// Restart the sidecar.
    pub fn restart() -> (r: Self)
        ensures
            r.kind@ == "restart"@,
            r.value is None,
    {
        HostAction { kind: "restart", value: None }
    }

    /// Exit with `code`, given in decimal.
    pub fn exit(code: i32) -> (r: Self)
        ensures
            r.kind@ == "exit"@,
            r.value matches Some(v) && v@ == spec_signed_decimal(code as int),
    {
        let mut v = String::new();
        push_signed_decimal(&mut v, code);
        HostAction { kind: "exit", value: Some(v) }
    }

    /// The name of the event that carries host actions.
    pub fn event_name() -> (r: &'static str)
        ensures
            r@ == "host-action"@,
    {
        "host-action"
    }
}

} // verus!
