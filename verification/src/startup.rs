//! Start-up decisions of the sidecar: which port to listen on, whether the
//! web root is served, and the URL the host loads.

use vstd::prelude::*;
use crate::static_site::{join_seg, push_path};
use crate::text::{digits_value, is_digit, lemma_decimal_reads_back, chars_of, push_chars, push_decimal, spec_decimal, starts_with, str_eq, str_starts_with};

verus! {

/// `str::parse::<u16>`: an optional `+`, then one or more ASCII digits
/// (leading zeros allowed) whose value fits in 16 bits.
pub open spec fn spec_parse_u16(s: Seq<char>) -> Option<u16> {
    parse_digits(if s.len() > 0 && s[0] == '+' { s.drop_first() } else { s })
}

/// One or more ASCII digits whose value fits in 16 bits.
pub open spec fn parse_digits(d: Seq<char>) -> Option<u16> {
    if d.len() > 0 && (forall|i: int| 0 <= i < d.len() ==> is_digit(#[trigger] d[i])) && digits_value(d) <= 65535 {
        Some(digits_value(d) as u16)
    } else {
        None
    }
}

proof fn lemma_digits_grow(d: Seq<char>, k: int)
    requires
        0 <= k <= d.len(),
        forall|i: int| 0 <= i < d.len() ==> is_digit(#[trigger] d[i]),
    ensures
        digits_value(d) >= digits_value(d.take(k)),
    decreases d.len() - k,
{
    if k < d.len() {
        let e = d.take(k + 1);
        assert(e.drop_last() =~= d.take(k));
        assert(e.len() == k + 1);
        assert(is_digit(d[k]));
        assert(digits_value(e) >= digits_value(d.take(k)));
        lemma_digits_grow(d, k + 1);
    } else {
        assert(d.take(k) =~= d);
    }
}

/// Parses `cs[from..]` as `str::parse::<u16>` does.
fn parse_u16_from(cs: &Vec<char>, from: usize) -> (r: Option<u16>)
    requires
        from <= cs@.len(),
    ensures
        r == spec_parse_u16(cs@.skip(from as int)),
{
    let ghost s = cs@.skip(from as int);
    let mut start = from;
    if start < cs.len() && cs[start] == '+' {
        start = start + 1;
    }
    let ghost d = cs@.skip(start as int);
    proof {
        if s.len() > 0 && s[0] == '+' {
            assert(s.drop_first() =~= d);
        } else {
            assert(s =~= d);
        }
    }
    if start >= cs.len() {
        proof {
            assert(d.len() == 0);
        }
        return None;
    }
    let mut acc: u32 = 0;
    let mut i = start;
    while i < cs.len()
        invariant
            start <= i <= cs@.len(),
            d == cs@.skip(start as int),
            spec_parse_u16(cs@.skip(from as int)) == parse_digits(d),
            acc <= 65535,
            acc == digits_value(d.take(i - start)),
            forall|j: int| 0 <= j < i - start ==> is_digit(#[trigger] d[j]),
        decreases cs@.len() - i,
    {
        let c = cs[i];
        proof {
            assert(d[i - start] == c);
            assert(d.take(i - start + 1).drop_last() =~= d.take(i - start));
        }
        if !('0' <= c && c <= '9') {
            proof {
                assert(!is_digit(d[i - start]));
                assert(parse_digits(d) is None);
            }
            return None;
        }
        let v = acc * 10 + ((c as u32) - 48);
        if v > 65535 {
            proof {
                assert(digits_value(d.take(i - start + 1)) == v);
                if forall|j: int| 0 <= j < d.len() ==> is_digit(#[trigger] d[j]) {
                    lemma_digits_grow(d, i - start + 1);
                }
                assert(parse_digits(d) is None);
            }
            return None;
        }
        acc = v;
        i = i + 1;
    }
    proof {
        assert(d.take(i - start) =~= d);
    }
    Some(acc as u16)
}

/// `str::parse::<u16>`.
pub fn parse_u16(s: &str) -> (r: Option<u16>)
    ensures
        r == spec_parse_u16(s@),
{
    let cs = chars_of(s);
    proof {
        assert(cs@.skip(0) =~= cs@);
    }
    parse_u16_from(&cs, 0)
}

/// The port asked for on the command line: `--port=<N>` or `--port <N>`,
/// the first that parses; a value that does not parse is skipped (and after
/// `--port` the next argument is consumed either way).
pub open spec fn port_from_args(a: Seq<Seq<char>>) -> Option<u16>
    decreases a.len(),
{
    if a.len() == 0 {
        None
    } else if starts_with(a[0], "--port="@) {
        match spec_parse_u16(a[0].skip(7)) {
            Some(p) => Some(p),
            None => port_from_args(a.drop_first()),
        }
    } else if a[0] == "--port"@ {
        if a.len() >= 2 {
            match spec_parse_u16(a[1]) {
                Some(p) => Some(p),
                None => port_from_args(a.skip(2)),
            }
        } else {
            None
        }
    } else {
        port_from_args(a.drop_first())
    }
}

/// The listening port: command line first, then the `CCS_SIDECAR_PORT`
/// value, then 0 (the kernel picks one).
pub open spec fn spec_sidecar_port(args: Seq<Seq<char>>, env_port: Option<Seq<char>>) -> u16 {
    match port_from_args(args) {
        Some(p) => p,
        None => match env_port {
            Some(v) => match spec_parse_u16(v) {
                Some(p) => p,
                None => 0,
            },
            None => 0,
        },
    }
}

/// Law: `str::parse::<u16>` reads the decimal text of a port back as that
/// port.
pub proof fn lemma_parse_decimal_port(p: u16)
    ensures
        spec_parse_u16(spec_decimal(p as nat)) == Some(p),
{
    lemma_decimal_reads_back(p as nat);
    let d = spec_decimal(p as nat);
    assert(is_digit(d[0]));
    assert(d[0] != '+');
}

/// Law: the command line wins.  Whenever the arguments hold a `--port`
/// value that parses, that is the port, whatever `CCS_SIDECAR_PORT` holds;
/// only without one is the environment read, and then the arguments no
/// longer matter; with neither the port is 0.
pub proof fn lemma_command_line_port_wins(args: Seq<Seq<char>>, env_port: Option<Seq<char>>, p: u16, rest: Seq<Seq<char>>)
    ensures
        port_from_args(args) == Some(p) ==> spec_sidecar_port(args, env_port) == p,
        port_from_args(args) is None ==> spec_sidecar_port(args, env_port) == spec_sidecar_port(Seq::empty(), env_port),
        spec_sidecar_port(seq!["--port="@ + spec_decimal(p as nat)] + rest, env_port) == p,
        spec_sidecar_port(Seq::empty(), Some(spec_decimal(p as nat))) == p,
        spec_sidecar_port(Seq::empty(), None) == 0,
{
    lemma_parse_decimal_port(p);
    reveal_strlit("--port=");
    let a = seq!["--port="@ + spec_decimal(p as nat)] + rest;
    let arg = "--port="@ + spec_decimal(p as nat);
    assert(a[0] == arg);
    assert(arg.take(7) =~= "--port="@);
    assert(starts_with(arg, "--port="@));
    assert(arg.skip(7) =~= spec_decimal(p as nat));
    assert(port_from_args(a) == Some(p));
    assert(port_from_args(Seq::<Seq<char>>::empty()) is None);
}

/// The text of each argument.
pub open spec fn arg_views(v: Seq<String>) -> Seq<Seq<char>> {
    v.map_values(|s: String| s@)
}

/// Chooses the sidecar's port from the arguments after the program name
/// and the value of `CCS_SIDECAR_PORT`; anything that does not parse falls
/// back to the next source, finally to 0.
pub fn android_sidecar_port(args: &Vec<String>, env_port: Option<&str>) -> (r: u16)
    ensures
        r == spec_sidecar_port(arg_views(args@), match env_port { Some(v) => Some(v@), None => None }),
{
    let ghost a = arg_views(args@);
    let mut i: usize = 0;
    proof {
        assert(a.skip(0) =~= a);
        reveal_strlit("--port=");
        reveal_strlit("--port");
    }
    while i < args.len()
        invariant
            a == arg_views(args@),
            i <= args@.len(),
            port_from_args(a) == port_from_args(a.skip(i as int)),
        decreases args@.len() - i,
    {
        let arg = args[i].as_str();
        proof {
            reveal_strlit("--port=");
            assert(a[i as int] == args@[i as int]@);
            assert(a.skip(i as int)[0] == arg@);
            assert(a.skip(i as int).drop_first() =~= a.skip(i + 1));
        }
        if str_starts_with(arg, "--port=") {
            let cs = chars_of(arg);
            proof {
                assert("--port="@.len() == 7);
            }
            if let Some(p) = parse_u16_from(&cs, 7) {
                return p;
            }
        } else if str_eq(arg, "--port") {
            if i + 1 < args.len() {
                proof {
                    assert(a[i + 1] == args@[i + 1]@);
                    assert(a.skip(i as int)[1] == args@[i + 1]@);
                    assert(a.skip(i as int).skip(2) =~= a.skip(i + 2));
                }
                if let Some(p) = parse_u16(args[i + 1].as_str()) {
                    return p;
                }
                i = i + 1;
            } else {
                proof {
                    assert(port_from_args(a) is None);
                }
                return port_from_env(env_port);
            }
        }
        i = i + 1;
    }
    proof {
        if i >= args@.len() {
            assert(a.skip(i as int).len() == 0);
        }
    }
    port_from_env(env_port)
}

fn port_from_env(env_port: Option<&str>) -> (r: u16)
    ensures
        r == (match env_port {
            Some(v) => match spec_parse_u16(v@) {
                Some(p) => p,
                None => 0,
            },
            None => 0,
        }),
{
    match env_port {
        Some(v) => match parse_u16(v) {
            Some(p) => p,
            None => 0,
        },
        None => 0,
    }
}

/// The web root named on the command line: the first `--webroot=<dir>`, or
/// the argument after the first `--webroot`.
pub open spec fn webroot_from_args(a: Seq<Seq<char>>) -> Option<Seq<char>>
    decreases a.len(),
{
    if a.len() == 0 {
        None
    } else if starts_with(a[0], "--webroot="@) {
        Some(a[0].skip(10))
    } else if a[0] == "--webroot"@ {
        if a.len() >= 2 {
            Some(a[1])
        } else {
            None
        }
    } else {
        webroot_from_args(a.drop_first())
    }
}

/// The directory of the front end, from the arguments after the program
/// name: `--webroot=<dir>` or `--webroot <dir>`.
pub fn webroot_arg(args: &Vec<String>) -> (r: Option<String>)
    ensures
        match r {
            Some(d) => webroot_from_args(arg_views(args@)) == Some(d@),
            None => webroot_from_args(arg_views(args@)) is None,
        },
{
    let ghost a = arg_views(args@);
    let mut i: usize = 0;
    proof {
        assert(a.skip(0) =~= a);
        reveal_strlit("--webroot=");
        reveal_strlit("--webroot");
        assert("--webroot="@.len() == 10);
    }
    while i < args.len()
        invariant
            a == arg_views(args@),
            i <= args@.len(),
            webroot_from_args(a) == webroot_from_args(a.skip(i as int)),
            "--webroot="@.len() == 10,
        decreases args@.len() - i,
    {
        let arg = args[i].as_str();
        proof {
            assert(a[i as int] == args@[i as int]@);
            assert(a.skip(i as int)[0] == arg@);
            assert(a.skip(i as int).drop_first() =~= a.skip(i + 1));
        }
        if str_starts_with(arg, "--webroot=") {
            let cs = chars_of(arg);
            let mut d = String::new();
            push_chars(&mut d, &cs, 10, cs.len());
            proof {
                assert(cs@.subrange(10, cs@.len() as int) =~= arg@.skip(10));
            }
            return Some(d);
        } else if str_eq(arg, "--webroot") {
            if i + 1 < args.len() {
                proof {
                    assert(a.skip(i as int)[1] == args@[i + 1]@);
                }
                return Some(args[i + 1].clone());
            } else {
                return None;
            }
        }
        i = i + 1;
    }
    proof {
        assert(a.skip(i as int).len() == 0);
    }
    None
}

/// The web root that is served: a directory that exists, or none.
pub fn effective_webroot(webroot: Option<String>, is_dir: bool) -> (r: Option<String>)
    ensures
        r == (if is_dir { webroot } else { None::<String> }),
{
    match webroot {
        Some(dir) => if is_dir { Some(dir) } else { None },
        None => None,
    }
}

/// The page the host loads: `http://127.0.0.1:<port>/`.
pub fn local_url(port: u16) -> (r: String)
    ensures
        r@ == "http://127.0.0.1:"@ + spec_decimal(port as nat) + "/"@,
{
    let mut s = String::new();
    s.append("http://127.0.0.1:");
    push_decimal(&mut s, port as u64);
    s.append("/");
    s
}


/// Lowercase hexadecimal digit.
pub open spec fn is_lower_hex(c: char) -> bool {
    ('0' <= c && c <= '9') || ('a' <= c && c <= 'f')
}

/// Calls `uuid::Uuid::new_v4` and writes it in the simple format.
/// Claimed: 32 lowercase hexadecimal digits (the value is random).
#[verifier::external_body]
pub fn new_token() -> (r: String)
    ensures
        r@.len() == 32,
        forall|i: int| 0 <= i < 32 ==> is_lower_hex(#[trigger] r@[i]),
{
    uuid::Uuid::new_v4().simple().to_string()
}

/// Records the store's base directory the first time it is given; later
/// calls change nothing.  Returns whether this call set it.
pub fn set_store_base_dir(slot: &mut Option<String>, dir: String) -> (set: bool)
    ensures
        *old(slot) is None ==> set,
        *old(slot) is None ==> (*final(slot) matches Some(d) && d@ == dir@),
        *old(slot) is Some ==> (!set && *final(slot) == *old(slot)),
{
    if slot.is_some() {
        return false;
    }
    *slot = Some(dir);
    true
}

/// Where the store files live: the directory that was set, else
/// `.cc-switch` in the home directory (or in `.` when there is none).
pub fn store_base_dir(configured: Option<&str>, home: Option<&str>) -> (r: String)
    ensures
        configured matches Some(c) ==> r@ == c@,
        configured is None ==> r@ == join_seg(match home { Some(h) => h@, None => "."@ }, ".cc-switch"@),
{
    match configured {
        Some(c) => c.to_owned(),
        None => {
            let base = match home {
                Some(h) => h,
                None => ".",
            };
            push_path(base, ".cc-switch")
        }
    }
}

} // verus!
