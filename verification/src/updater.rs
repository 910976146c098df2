//! Self-update: on Android the host app ships the sidecar, so there is
//! never an update to offer, download or install.

use vstd::prelude::*;
use std::marker::PhantomData;
use crate::bridge::Runtime;

verus! {

/// Error of the update operations; shown by its message.
pub struct Error {
    message: String,
}

impl Error {
    pub closed spec fn view(&self) -> Seq<char> {
        self.message@
    }

    /// The error's text.
    pub fn message(&self) -> (r: String)
        ensures
            r@ == self@,
    {
        self.message.clone()
    }
}

/// An available update (never produced here).
pub struct Update {
    pub version: String,
    pub current_version: String,
    pub body: Option<String>,
}

impl Update {
    /// Downloading is the host's business: always an error.
    pub fn download<C, D>(&self, _on_chunk: C, _on_done: D) -> (r: Result<Vec<u8>, Error>)
        where
            C: FnMut(usize, Option<u64>) + Send + 'static,
            D: FnOnce() + Send + 'static,
        ensures
            r matches Err(e) && e@ == "Android 版本的更新由 ZeroTermux 负责，sidecar 不下载更新"@,
    {
        Err(Error { message: "Android 版本的更新由 ZeroTermux 负责，sidecar 不下载更新".to_owned() })
    }

    /// Installing is the host's business: always an error.
    pub fn install(&self, _bytes: Vec<u8>) -> (r: Result<(), Error>)
        ensures
            r matches Err(e) && e@ == "Android 版本的更新由 ZeroTermux 负责，sidecar 不安装更新"@,
    {
        Err(Error { message: "Android 版本的更新由 ZeroTermux 负责，sidecar 不安装更新".to_owned() })
    }
}

/// Checks for updates.
pub struct Updater<R: Runtime> {
    _marker: PhantomData<R>,
}

impl<R: Runtime> Updater<R> {
    /// There is never an update.
    pub fn check(&self) -> (r: Result<Option<Update>, Error>)
        ensures
            r matches Ok(u) && u is None,
    {
        Ok(None)
    }
}

/// Builds an `Updater`.
pub struct UpdaterBuilder<R: Runtime> {
    _marker: PhantomData<R>,
}

impl<R: Runtime> UpdaterBuilder<R> {
    /// A builder with default settings.
    pub fn new() -> (r: Self) {
        UpdaterBuilder { _marker: PhantomData }
    }

    /// Always succeeds.
    pub fn build(self) -> (r: Result<Updater<R>, Error>)
        ensures
            r is Ok,
    {
        Ok(Updater { _marker: PhantomData })
    }
}

/// Gives a handle its updater builder.
pub trait UpdaterExt<R: Runtime> {
    fn updater_builder(&self) -> UpdaterBuilder<R>;
}

/// What the version check answers: the version of the available update,
/// if any; with no update ever offered, `Ok(None)`.
pub fn check_app_update_available<R: Runtime>(builder: UpdaterBuilder<R>) -> (r: Result<Option<String>, String>)
    ensures
        r matches Ok(v) && v is None,
{
    let updater = match builder.build() {
        Ok(u) => u,
        Err(e) => {
            let mut m = String::new();
            m.append("初始化更新器失败: ");
            m.append(e.message().as_str());
            return Err(m);
        }
    };
    match updater.check() {
        Ok(Some(u)) => Ok(Some(u.version)),
        Ok(None) => Ok(None),
        Err(e) => {
            let mut m = String::new();
            m.append("检查更新失败: ");
            m.append(e.message().as_str());
            Err(m)
        }
    }
}

/// The install-and-restart flow: build the updater, check, and when there
/// is an update download and install it.  With no update ever offered it
/// reports `Ok(false)` (nothing installed).
pub fn install_update_and_restart<R: Runtime>(builder: UpdaterBuilder<R>) -> (r: Result<bool, String>)
    ensures
        r == Ok::<bool, String>(false),
{
    let updater = match builder.build() {
        Ok(u) => u,
        Err(e) => {
            let mut m = String::new();
            m.append("初始化更新器失败: ");
            m.append(e.message().as_str());
            return Err(m);
        }
    };
    let update = match updater.check() {
        Ok(Some(u)) => u,
        Ok(None) => {
            return Ok(false);
        }
        Err(e) => {
            let mut m = String::new();
            m.append("检查更新失败: ");
            m.append(e.message().as_str());
            return Err(m);
        }
    };
    let bytes = match update.download(|_chunk: usize, _total: Option<u64>| {}, || {}) {
        Ok(b) => b,
        Err(e) => {
            let mut m = String::new();
            m.append("下载更新失败: ");
            m.append(e.message().as_str());
            return Err(m);
        }
    };
    match update.install(bytes) {
        Ok(()) => Ok(true),
        Err(e) => {
            let mut m = String::new();
            m.append("安装更新失败: ");
            m.append(e.message().as_str());
            Err(m)
        }
    }
}

} // verus!
