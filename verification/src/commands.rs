//! Commands in the shapes the real command set uses, with the state types
//! they read; they exercise every path of the command plumbing.

use vstd::prelude::*;
use crate::auto_launch::{AutoLaunchBuilder, enable_refusal};
use crate::bridge::Theme;
use crate::text::str_eq;

verus! {

/// The app's main state (only its label matters here).
pub struct AppState {
    pub label: String,
}

/// Command error with a message of its own.
pub enum AppError {
    NotFound(String),
}

impl AppError {
    /// The error's text: `未找到: <key>`.
    pub fn message(&self) -> (r: String)
        ensures
            self matches AppError::NotFound(k) ==> r@ == "未找到: "@ + k@,
    {
        match self {
            AppError::NotFound(k) => {
                let mut m = String::new();
                m.append("未找到: ");
                m.append(k.as_str());
                m
            }
        }
    }
}

/// A provider as the front end sends and receives it.
pub struct ProviderPayload {
    pub id: String,
    pub enabled: bool,
}

/// Looks a provider up by id; an empty id is an error.
pub fn get_provider(provider_id: String) -> (r: Result<ProviderPayload, String>)
    ensures
        provider_id@.len() == 0 ==> (r matches Err(m) && m@ == "id 为空"@),
        provider_id@.len() > 0 ==> (r matches Ok(p) && p.id@ == provider_id@ && p.enabled),
{
    if provider_id.as_str().is_empty() {
        return Err("id 为空".to_owned());
    }
    Ok(ProviderPayload { id: provider_id, enabled: true })
}

/// Finds `ok`; any other key is not found.
pub fn find_thing(key: String) -> (r: Result<String, AppError>)
    ensures
        key@ == "ok"@ ==> (r matches Ok(v) && v@ == "found"@),
        key@ != "ok"@ ==> (r matches Err(AppError::NotFound(k)) && k@ == key@),
{
    if str_eq(key.as_str(), "ok") {
        Ok("found".to_owned())
    } else {
        Err(AppError::NotFound(key))
    }
}

/// Always ready.
pub fn is_ready() -> (r: bool)
    ensures
        r,
{
    true
}

/// Does nothing.
pub fn ping() {
}

/// The text of a boolean.
pub open spec fn bool_text(b: bool) -> Seq<char> {
    if b { "true"@ } else { "false"@ }
}

fn push_bool(out: &mut String, b: bool)
    ensures
        final(out)@ == old(out)@ + bool_text(b),
{
    if b {
        out.append("true");
    } else {
        out.append("false");
    }
}

/// Starts a login: reports the provider, the domain (`none` when absent)
/// and the two authentication states it read.
pub fn auth_start_login(auth_provider: String, github_domain: Option<String>, copilot_state: &str, xai_state: &str) -> (r: Result<String, String>)
    ensures
        r matches Ok(s) && s@ == auth_provider@ + "|"@ + (match github_domain {
            Some(d) => d@,
            None => "none"@,
        }) + "|"@ + copilot_state@ + "|"@ + xai_state@,
{
    let mut s = String::new();
    s.append(auth_provider.as_str());
    s.append("|");
    match &github_domain {
        Some(d) => s.append(d.as_str()),
        None => s.append("none"),
    }
    s.append("|");
    s.append(copilot_state);
    s.append("|");
    s.append(xai_state);
    Ok(s)
}

/// Saves a provider: reports the state's label, the provider and whether it
/// was a dry run (`false` when not said).
pub fn upsert_provider(state: &AppState, payload: ProviderPayload, dry_run: Option<bool>) -> (r: Result<String, String>)
    ensures
        r matches Ok(s) && s@ == state.label@ + ":"@ + payload.id@ + ":"@ + bool_text(payload.enabled) + ":"@
            + bool_text(match dry_run { Some(b) => b, None => false }),
{
    let mut s = String::new();
    s.append(state.label.as_str());
    s.append(":");
    s.append(payload.id.as_str());
    s.append(":");
    push_bool(&mut s, payload.enabled);
    s.append(":");
    let d = match dry_run { Some(b) => b, None => false };
    push_bool(&mut s, d);
    Ok(s)
}

/// The theme named `dark` or `light`; anything else means none.
pub fn theme_for(theme: &str) -> (r: Option<Theme>)
    ensures
        theme@ == "dark"@ ==> r == Some(Theme::Dark),
        theme@ == "light"@ ==> r == Some(Theme::Light),
        theme@ != "dark"@ && theme@ != "light"@ ==> r is None,
{
    proof {
        reveal_strlit("dark");
        reveal_strlit("light");
        assert("dark"@.len() == 4);
        assert("light"@.len() == 5);
    }
    if str_eq(theme, "dark") {
        Some(Theme::Dark)
    } else if str_eq(theme, "light") {
        Some(Theme::Light)
    } else {
        None
    }
}

/// The start-at-boot calls the app makes, in order: build the entry for
/// the app, try to turn it on (refused and ignored), turn it off, and
/// report whether it is on.
pub fn auto_launch_call_site() -> (r: Result<bool, String>)
    ensures
        r == Ok::<bool, String>(false),
{
    let app_name = "CC Switch";
    let app_path = "/data/data/com.termux/files/usr/bin/cc-switch";
    let mut builder = AutoLaunchBuilder::new();
    let auto_launch = match builder.set_app_name(app_name).set_app_path(app_path).build() {
        Ok(a) => a,
        Err(e) => {
            let mut m = String::new();
            m.append("创建 AutoLaunch 失败: ");
            m.append(e.message().as_str());
            return Err(m);
        }
    };
    let _ = auto_launch.enable();
    match auto_launch.disable() {
        Ok(()) => {}
        Err(e) => {
            let mut m = String::new();
            m.append("禁用开机自启失败: ");
            m.append(e.message().as_str());
            return Err(m);
        }
    }
    match auto_launch.is_enabled() {
        Ok(b) => Ok(b),
        Err(e) => {
            let mut m = String::new();
            m.append("检查开机自启状态失败: ");
            m.append(e.message().as_str());
            Err(m)
        }
    }
}

} // verus!
