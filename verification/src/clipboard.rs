//! Clipboard through Termux's `termux-clipboard-set` / `termux-clipboard-get`.
//! The processes are run by the caller; this module decides what their
//! outcomes mean and words the errors.

use vstd::prelude::*;
use crate::text::{
    chars_of, push_chars, push_signed_decimal, spec_lossy_text, spec_signed_decimal, utf8_lossy,
};

verus! {

/// Clipboard error; shown by its message.
pub struct Error {
    message: String,
}

impl Error {
    pub closed spec fn view(&self) -> Seq<char> {
        self.message@
    }

    /// The error's text.
    pub fn message(&self) -> (r: String)
        ensures
            r@ == self@,
    {
        self.message.clone()
    }
}

/// Program that writes the clipboard.
pub open spec fn setter_name() -> Seq<char> {
    "termux-clipboard-set"@
}

/// Program that reads the clipboard.
pub open spec fn getter_name() -> Seq<char> {
    "termux-clipboard-get"@
}

/// The clipboard: the two Termux:API programs.
pub struct Clipboard {
    setter: &'static str,
    getter: &'static str,
}

/// How a run of the writing program ended.
pub enum SetTextOutcome {
    /// The program could not be started (the system's message).
    SpawnFailed(String),
    /// Its standard input was not available.
    NoStdin,
    /// Writing the text failed (the system's message).
    WriteFailed(String),
    /// Waiting for it failed (the system's message).
    WaitFailed(String),
    /// It exited.
    Exited { success: bool, code: Option<i32>, stderr: Vec<u8> },
}

/// How a run of the reading program ended.
pub enum GetTextOutcome {
    /// The program could not be started (the system's message).
    SpawnFailed(String),
    /// It exited.
    Exited { success: bool, code: Option<i32>, stdout: Vec<u8> },
}

/// `char::is_whitespace`: the Unicode White_Space property.
pub open spec fn is_white_space(c: char) -> bool {
    let u = c as u32;
    (0x9 <= u && u <= 0xD) || u == 0x20 || u == 0x85 || u == 0xA0 || u == 0x1680
        || (0x2000 <= u && u <= 0x200A) || u == 0x2028 || u == 0x2029 || u == 0x202F
        || u == 0x205F || u == 0x3000
}

/// `str::trim`: without leading and trailing white space.
pub open spec fn spec_trim(s: Seq<char>) -> Seq<char>
    decreases s.len(),
{
    if s.len() > 0 && is_white_space(s[0]) {
        spec_trim(s.drop_first())
    } else if s.len() > 0 && is_white_space(s.last()) {
        spec_trim(s.drop_last())
    } else {
        s
    }
}

fn is_ws(c: char) -> (r: bool)
    ensures
        r == is_white_space(c),
{
    let u = c as u32;
    (0x9 <= u && u <= 0xD) || u == 0x20 || u == 0x85 || u == 0xA0 || u == 0x1680
        || (0x2000 <= u && u <= 0x200A) || u == 0x2028 || u == 0x2029 || u == 0x202F
        || u == 0x205F || u == 0x3000
}

proof fn lemma_trim_trailing(s: Seq<char>)
    requires
        s.len() > 0 ==> !is_white_space(s[0]),
    ensures
        s.len() > 0 && is_white_space(s.last()) ==> spec_trim(s) == spec_trim(s.drop_last()),
        s.len() == 0 || !is_white_space(s.last()) ==> spec_trim(s) == s,
{
}

fn trim(s: &str) -> (r: String)
    ensures
        r@ == spec_trim(s@),
{
    let cs = chars_of(s);
    let mut a: usize = 0;
    proof {
        assert(cs@.subrange(0, cs@.len() as int) =~= cs@);
    }
    while a < cs.len() && is_ws(cs[a])
        invariant
            a <= cs@.len(),
            spec_trim(s@) == spec_trim(cs@.subrange(a as int, cs@.len() as int)),
            cs@ == s@,
        decreases cs@.len() - a,
    {
        proof {
            let t = cs@.subrange(a as int, cs@.len() as int);
            assert(t.drop_first() =~= cs@.subrange(a + 1, cs@.len() as int));
        }
        a = a + 1;
    }
    let mut b: usize = cs.len();
    while b > a && is_ws(cs[b - 1])
        invariant
            a <= b <= cs@.len(),
            spec_trim(s@) == spec_trim(cs@.subrange(a as int, b as int)),
            a < cs@.len() ==> !is_white_space(cs@[a as int]),
        decreases b - a,
    {
        proof {
            let t = cs@.subrange(a as int, b as int);
            assert(t[0] == cs@[a as int]);
            lemma_trim_trailing(t);
            assert(t.drop_last() =~= cs@.subrange(a as int, b - 1));
        }
        b = b - 1;
    }
    proof {
        let t = cs@.subrange(a as int, b as int);
        if t.len() > 0 {
            assert(t[0] == cs@[a as int]);
            assert(t.last() == cs@[b - 1]);
        }
        lemma_trim_trailing(t);
    }
    let mut out = String::new();
    push_chars(&mut out, &cs, a, b);
    out
}

/// `{:?}` of an exit code: `Some(<n>)` or `None`.
pub open spec fn spec_debug_code(code: Option<i32>) -> Seq<char> {
    match code {
        Some(n) => "Some("@ + spec_signed_decimal(n as int) + ")"@,
        None => "None"@,
    }
}

fn push_debug_code(out: &mut String, code: Option<i32>)
    ensures
        final(out)@ == old(out)@ + spec_debug_code(code),
{
    match code {
        Some(n) => {
            out.append("Some(");
            push_signed_decimal(out, n);
            out.append(")");
        }
        None => {
            out.append("None");
        }
    }
}

impl Clipboard {
    /// The program that writes the clipboard.
    pub closed spec fn setter(&self) -> Seq<char> {
        self.setter@
    }

    /// The program that reads the clipboard.
    pub closed spec fn getter(&self) -> Seq<char> {
        self.getter@
    }

    /// Opens the clipboard when the writing program was found on `PATH`;
    /// otherwise explains what to install.
    pub fn new(setter_found: bool) -> (r: Result<Self, Error>)
        ensures
            setter_found ==> (r matches Ok(c) && c.setter() == setter_name() && c.getter() == getter_name()),
            !setter_found ==> (r matches Err(e) && e@ == setter_name() + " 不可用；请安装 Termux:API 应用与 termux-api 包"@),
    {
        let setter = "termux-clipboard-set";
        let getter = "termux-clipboard-get";
        if setter_found {
            Ok(Clipboard { setter, getter })
        } else {
            let mut m = String::new();
            m.append(setter);
            m.append(" 不可用；请安装 Termux:API 应用与 termux-api 包");
            Err(Error { message: m })
        }
    }

    /// The name of the writing program, to run.
    pub fn setter_program(&self) -> (r: &'static str)
        ensures
            r@ == self.setter(),
    {
        self.setter
    }

    /// The name of the reading program, to run.
    pub fn getter_program(&self) -> (r: &'static str)
        ensures
            r@ == self.getter(),
    {
        self.getter
    }

    /// What writing the clipboard returns for how the writing program ended.
    pub fn set_text_result(&self, outcome: SetTextOutcome) -> (r: Result<(), Error>)
        ensures
            outcome matches SetTextOutcome::SpawnFailed(e) ==> (r matches Err(x) && x@ == "启动 "@ + self.setter() + " 失败: "@ + e@),
            outcome matches SetTextOutcome::NoStdin ==> (r matches Err(x) && x@ == "无法写入剪贴板进程 stdin"@),
            outcome matches SetTextOutcome::WriteFailed(e) ==> (r matches Err(x) && x@ == "写入剪贴板失败: "@ + e@),
            outcome matches SetTextOutcome::WaitFailed(e) ==> (r matches Err(x) && x@ == "等待剪贴板进程失败: "@ + e@),
            outcome matches SetTextOutcome::Exited { success, code, stderr } ==> {
                &&& success ==> r is Ok
                &&& !success ==> (r matches Err(x) && x@ == self.setter() + " 退出码 "@ + spec_debug_code(code) + ": "@
                    + spec_trim(spec_lossy_text(stderr@)))
            },
    {
        match outcome {
            SetTextOutcome::SpawnFailed(e) => {
                let mut m = String::new();
                m.append("启动 ");
                m.append(self.setter);
                m.append(" 失败: ");
                m.append(e.as_str());
                Err(Error { message: m })
            }
            SetTextOutcome::NoStdin => Err(Error { message: "无法写入剪贴板进程 stdin".to_owned() }),
            SetTextOutcome::WriteFailed(e) => {
                let mut m = String::new();
                m.append("写入剪贴板失败: ");
                m.append(e.as_str());
                Err(Error { message: m })
            }
            SetTextOutcome::WaitFailed(e) => {
                let mut m = String::new();
                m.append("等待剪贴板进程失败: ");
                m.append(e.as_str());
                Err(Error { message: m })
            }
            SetTextOutcome::Exited { success, code, stderr } => {
                if success {
                    Ok(())
                } else {
                    let mut m = String::new();
                    m.append(self.setter);
                    m.append(" 退出码 ");
                    push_debug_code(&mut m, code);
                    m.append(": ");
                    let text = utf8_lossy(stderr.as_slice());
                    let t = trim(text.as_str());
                    m.append(t.as_str());
                    Err(Error { message: m })
                }
            }
        }
    }

    /// What reading the clipboard returns for how the reading program ended:
    /// its output as text on success.
    pub fn get_text_result(&self, outcome: GetTextOutcome) -> (r: Result<String, Error>)
        ensures
            outcome matches GetTextOutcome::SpawnFailed(e) ==> (r matches Err(x) && x@ == "启动 "@ + self.getter() + " 失败: "@ + e@),
            outcome matches GetTextOutcome::Exited { success, code, stdout } ==> {
                &&& success ==> (r matches Ok(t) && t@ == spec_lossy_text(stdout@))
                &&& !success ==> (r matches Err(x) && x@ == self.getter() + " 退出码 "@ + spec_debug_code(code))
            },
    {
        match outcome {
            GetTextOutcome::SpawnFailed(e) => {
                let mut m = String::new();
                m.append("启动 ");
                m.append(self.getter);
                m.append(" 失败: ");
                m.append(e.as_str());
                Err(Error { message: m })
            }
            GetTextOutcome::Exited { success, code, stdout } => {
                if success {
                    Ok(utf8_lossy(stdout.as_slice()))
                } else {
                    let mut m = String::new();
                    m.append(self.getter);
                    m.append(" 退出码 ");
                    push_debug_code(&mut m, code);
                    Err(Error { message: m })
                }
            }
        }
    }
}


/// How copying text to the clipboard went.
pub enum CopyOutcome {
    /// The clipboard could not be opened.
    OpenFailed(Error),
    /// Writing the text failed.
    WriteFailed(Error),
    /// The text was copied.
    Copied,
    /// The background task that copies failed (the runtime's message).
    TaskFailed(String),
}

/// What the copy command answers: `true` once the text is copied, else the
/// step that failed and why.
pub fn copy_text_reply(outcome: CopyOutcome) -> (r: Result<bool, String>)
    ensures
        outcome matches CopyOutcome::OpenFailed(e) ==> (r matches Err(m) && m@ == "访问系统剪贴板失败: "@ + e@),
        outcome matches CopyOutcome::WriteFailed(e) ==> (r matches Err(m) && m@ == "写入系统剪贴板失败: "@ + e@),
        outcome matches CopyOutcome::TaskFailed(t) ==> (r matches Err(m) && m@ == "剪贴板任务执行失败: "@ + t@),
        outcome is Copied ==> r == Ok::<bool, String>(true),
{
    match outcome {
        CopyOutcome::OpenFailed(e) => {
            let mut m = String::new();
            m.append("访问系统剪贴板失败: ");
            m.append(e.message.as_str());
            Err(m)
        },
        CopyOutcome::WriteFailed(e) => {
            let mut m = String::new();
            m.append("写入系统剪贴板失败: ");
            m.append(e.message.as_str());
            Err(m)
        },
        CopyOutcome::TaskFailed(t) => {
            let mut m = String::new();
            m.append("剪贴板任务执行失败: ");
            m.append(t.as_str());
            Err(m)
        },
        CopyOutcome::Copied => Ok(true),
    }
}

} // verus!
