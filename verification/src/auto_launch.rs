//! Start at boot: not something an Android app can set for itself, so the
//! switch reports "off", turning it on fails with the reason, and turning
//! it off succeeds.

use vstd::prelude::*;

verus! {

/// Error of the start-at-boot operations; shown by its message.
pub struct Error {
    message: String,
}

impl Error {
    pub closed spec fn view(&self) -> Seq<char> {
        self.message@
    }

    /// The error's text.
    pub fn message(&self) -> (r: String)
        ensures
            r@ == self@,
    {
        self.message.clone()
    }
}

/// Start-at-boot entry for one app.
pub struct AutoLaunch {
    app_name: String,
}

/// The refusal to turn start-at-boot on for `name`.
pub open spec fn enable_refusal(name: Seq<char>) -> Seq<char> {
    "Android 不支持由应用自行设置开机自启（"@ + name + "）；请在 ZeroTermux 中配置启动项"@
}

impl AutoLaunch {
    /// The app's name.
    pub closed spec fn app_name(&self) -> Seq<char> {
        self.app_name@
    }

    /// Turning start-at-boot on always fails, naming the app.
    pub fn enable(&self) -> (r: Result<(), Error>)
        ensures
            r matches Err(e) && e@ == enable_refusal(self.app_name()),
    {
        let mut m = String::new();
        m.append("Android 不支持由应用自行设置开机自启（");
        m.append(self.app_name.as_str());
        m.append("）；请在 ZeroTermux 中配置启动项");
        Err(Error { message: m })
    }

    /// It was never on, so turning it off succeeds.
    pub fn disable(&self) -> (r: Result<(), Error>)
        ensures
            r is Ok,
    {
        Ok(())
    }

    /// Always off.
    pub fn is_enabled(&self) -> (r: Result<bool, Error>)
        ensures
            r == Ok::<bool, Error>(false),
    {
        Ok(false)
    }
}

/// Builder of an `AutoLaunch`; only the app's name is required.
pub struct AutoLaunchBuilder {
    app_name: Option<String>,
    app_path: Option<String>,
}

impl AutoLaunchBuilder {
    /// The name set so far.
    pub closed spec fn app_name(&self) -> Option<Seq<char>> {
        match self.app_name {
            Some(n) => Some(n@),
            None => None,
        }
    }

    /// The path set so far.
    pub closed spec fn app_path(&self) -> Option<Seq<char>> {
        match self.app_path {
            Some(p) => Some(p@),
            None => None,
        }
    }

    /// A builder with nothing set.
    pub fn new() -> (r: Self)
        ensures
            r.app_name() is None,
            r.app_path() is None,
    {
        AutoLaunchBuilder { app_name: None, app_path: None }
    }

    pub fn set_app_name(&mut self, name: &str) -> (r: &mut Self)
        ensures
            *final(self) == *final(r),
            r.app_name() == Some(name@),
            r.app_path() == old(self).app_path(),
    {
        self.app_name = Some(name.to_owned());
        self
    }

    pub fn set_app_path(&mut self, path: &str) -> (r: &mut Self)
        ensures
            *final(self) == *final(r),
            r.app_path() == Some(path@),
            r.app_name() == old(self).app_name(),
    {
        self.app_path = Some(path.to_owned());
        self
    }

    /// Ignored on Android.
    pub fn set_use_launch_agent(&mut self, _use_agent: bool) -> (r: &mut Self)
        ensures
            *final(self) == *final(r),
            *r == *old(self),
    {
        self
    }

    /// Ignored on Android.
    pub fn set_args<S: AsRef<str>>(&mut self, _args: &[S]) -> (r: &mut Self)
        ensures
            *final(self) == *final(r),
            *r == *old(self),
    {
        self
    }

    /// The entry, or an error when no name was set.
    pub fn build(&self) -> (r: Result<AutoLaunch, Error>)
        ensures
            self.app_name() matches Some(n) ==> (r matches Ok(a) && a.app_name() == n),
            self.app_name() is None ==> (r matches Err(e) && e@ == "未设置 app_name"@),
    {
        match &self.app_name {
            Some(n) => Ok(AutoLaunch { app_name: n.clone() }),
            None => Err(Error { message: "未设置 app_name".to_owned() }),
        }
    }
}

} // verus!
