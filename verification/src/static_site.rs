//! Serving the front end from the sidecar's own origin: mapping a URL path
//! to a file under the web root, choosing the content type and the cache
//! policy, and injecting the handshake into `index.html`.

use vstd::prelude::*;
use crate::text::{
    digits_value, is_digit, lemma_decimal_reads_back,
    chars_eq, chars_of, find_chars, lemma_find_from_occurs, occurs_at, push_chars, push_decimal,
    spec_decimal, spec_find, spec_lossy_text, starts_with, str_starts_with, utf8_lossy,
};

verus! {

// ---------------------------------------------------------------------
// Paths as '/'-separated text
// ---------------------------------------------------------------------

/// The pieces of `s` between `/` separators, empty pieces included.
pub open spec fn split_slash(s: Seq<char>) -> Seq<Seq<char>>
    decreases s.len(),
{
    if s.len() == 0 {
        seq![Seq::empty()]
    } else {
        let p = split_slash(s.drop_last());
        if s.last() == '/' {
            p.push(Seq::empty())
        } else {
            p.update(p.len() - 1, p.last().push(s.last()))
        }
    }
}

/// The views of a vector of character vectors.
pub open spec fn views(v: Seq<Vec<char>>) -> Seq<Seq<char>> {
    v.map_values(|x: Vec<char>| x@)
}

/// The parent-directory piece `..`.
pub open spec fn is_parent(seg: Seq<char>) -> bool {
    seg == seq!['.', '.']
}

/// A piece that names nothing: empty, or the current directory `.`.
pub open spec fn is_skipped(seg: Seq<char>) -> bool {
    seg.len() == 0 || seg == seq!['.']
}

/// A piece that names a directory entry: not skipped, not `..`, no `/`.
pub open spec fn is_normal(seg: Seq<char>) -> bool {
    &&& !is_skipped(seg)
    &&& !is_parent(seg)
    &&& forall|i: int| 0 <= i < seg.len() ==> #[trigger] seg[i] != '/'
}

/// `PathBuf::push` of a relative piece: a separator is added unless the
/// path is empty or already ends with one.
pub open spec fn join_seg(out: Seq<char>, seg: Seq<char>) -> Seq<char> {
    if out.len() > 0 && out.last() != '/' {
        out.push('/') + seg
    } else {
        out + seg
    }
}

/// Pushes the pieces of `segs` onto `out` in order, skipping empty and `.`.
pub open spec fn join_all(out: Seq<char>, segs: Seq<Seq<char>>) -> Seq<char>
    decreases segs.len(),
{
    if segs.len() == 0 {
        out
    } else {
        let o = join_all(out, segs.drop_last());
        if is_skipped(segs.last()) {
            o
        } else {
            join_seg(o, segs.last())
        }
    }
}

/// Maps the relative URL path `rel` to a path under `root`: refused (`None`)
/// when it is absolute or holds a `..` piece; otherwise its pieces are
/// pushed onto `root`, empty and `.` pieces skipped.
pub open spec fn spec_resolve_under(root: Seq<char>, rel: Seq<char>) -> Option<Seq<char>> {
    if rel.len() > 0 && rel[0] == '/' {
        None
    } else if exists|i: int| 0 <= i < split_slash(rel).len() && is_parent(#[trigger] split_slash(rel)[i]) {
        None
    } else {
        Some(join_all(root, split_slash(rel)))
    }
}

proof fn lemma_split_nonempty(s: Seq<char>)
    ensures
        split_slash(s).len() >= 1,
    decreases s.len(),
{
    if s.len() > 0 {
        lemma_split_nonempty(s.drop_last());
    }
}

/// Splits `s` at every `/`.
pub fn split_slash_exec(s: &Vec<char>) -> (r: Vec<Vec<char>>)
    ensures
        views(r@) == split_slash(s@),
{
    let mut done: Vec<Vec<char>> = Vec::new();
    let mut cur: Vec<char> = Vec::new();
    let mut i: usize = 0;
    while i < s.len()
        invariant
            i <= s@.len(),
            views(done@).push(cur@) == split_slash(s@.take(i as int)),
        decreases s@.len() - i,
    {
        let c = s[i];
        proof {
            assert(s@.take(i + 1).drop_last() =~= s@.take(i as int));
            assert(s@.take(i + 1).last() == c);
            lemma_split_nonempty(s@.take(i as int));
        }
        if c == '/' {
            let ghost old_done = done@;
            done.push(cur);
            cur = Vec::new();
            proof {
                assert(views(done@) =~= views(old_done).push(done@.last()@));
                assert(views(done@).push(cur@) =~= split_slash(s@.take(i + 1)));
            }
        } else {
            let ghost old_cur = cur@;
            cur.push(c);
            proof {
                assert(views(done@).push(cur@) =~= views(done@).push(old_cur).update(views(done@).len() as int, old_cur.push(c)));
            }
        }
        i = i + 1;
    }
    done.push(cur);
    proof {
        assert(s@.take(s@.len() as int) =~= s@);
        assert(views(done@) =~= split_slash(s@));
    }
    done
}

/// `PathBuf::push` onto a character vector.
fn push_seg(out: &mut Vec<char>, seg: &Vec<char>)
    ensures
        final(out)@ == join_seg(old(out)@, seg@),
{
    if out.len() > 0 && out[out.len() - 1] != '/' {
        out.push('/');
    }
    let mut k: usize = 0;
    let ghost base = out@;
    while k < seg.len()
        invariant
            k <= seg@.len(),
            out@ == base + seg@.take(k as int),
        decreases seg@.len() - k,
    {
        out.push(seg[k]);
        proof {
            assert(seg@.take(k + 1) =~= seg@.take(k as int).push(seg@[k as int]));
        }
        k = k + 1;
    }
    proof {
        assert(seg@.take(seg@.len() as int) =~= seg@);
        assert(out@ =~= join_seg(old(out)@, seg@));
    }
}

/// The text of a character vector.
pub fn string_of(cs: &Vec<char>) -> (r: String)
    ensures
        r@ == cs@,
{
    let mut s = String::new();
    push_chars(&mut s, cs, 0, cs.len());
    proof {
        assert(cs@.subrange(0, cs@.len() as int) =~= cs@);
    }
    s
}

/// Maps a URL path to a file under `root`, refusing absolute paths and any
/// `..` piece so that no page can read outside the web root.
pub fn resolve_under(root: &str, rel: &str) -> (r: Option<String>)
    ensures
        r matches Some(p) ==> spec_resolve_under(root@, rel@) == Some(p@),
        r is None ==> spec_resolve_under(root@, rel@) is None,
{
    let rc = chars_of(rel);
    if rc.len() > 0 && rc[0] == '/' {
        return None;
    }
    let segs = split_slash_exec(&rc);
    let mut out = chars_of(root);
    let mut i: usize = 0;
    while i < segs.len()
        invariant
            i <= segs@.len(),
            views(segs@) == split_slash(rel@),
            out@ == join_all(root@, views(segs@).take(i as int)),
            forall|j: int| 0 <= j < i ==> !is_parent(#[trigger] views(segs@)[j]),
        decreases segs@.len() - i,
    {
        let seg = &segs[i];
        proof {
            assert(views(segs@).take(i + 1).drop_last() =~= views(segs@).take(i as int));
            assert(views(segs@)[i as int] == seg@);
        }
        let dot = seg.len() == 1 && seg[0] == '.';
        let dotdot = seg.len() == 2 && seg[0] == '.' && seg[1] == '.';
        proof {
            if dot {
                assert(seg@ =~= seq!['.']);
            }
            if seg@ == seq!['.'] {
                assert(seg@[0] == '.');
            }
            assert(dot == (seg@ == seq!['.']));
            assert(dotdot == is_parent(seg@)) by {
                if seg@ == seq!['.', '.'] {
                    assert(seg@[0] == '.' && seg@[1] == '.');
                }
                if dotdot {
                    assert(seg@ =~= seq!['.', '.']);
                }
            }
            if dot {
                assert(seg@ =~= seq!['.']);
            }
        }
        if dotdot {
            proof {
                assert(is_parent(split_slash(rel@)[i as int]));
            }
            return None;
        }
        if seg.len() != 0 && !dot {
            push_seg(&mut out, seg);
        }
        i = i + 1;
    }
    proof {
        assert(views(segs@).take(segs@.len() as int) =~= views(segs@));
        assert(!(exists|j: int| 0 <= j < split_slash(rel@).len() && is_parent(#[trigger] split_slash(rel@)[j])));
    }
    Some(string_of(&out))
}

/// Pushes `seg` onto `path` as `PathBuf::push` does.
pub fn push_path(path: &str, seg: &str) -> (r: String)
    ensures
        r@ == join_seg(path@, seg@),
{
    let mut out = chars_of(path);
    let s = chars_of(seg);
    push_seg(&mut out, &s);
    string_of(&out)
}

// ---------------------------------------------------------------------
// The law: a resolved path stays under the web root
// ---------------------------------------------------------------------

/// Pushes every piece of `n` onto `out`.
pub open spec fn join_each(out: Seq<char>, n: Seq<Seq<char>>) -> Seq<char>
    decreases n.len(),
{
    if n.len() == 0 {
        out
    } else {
        join_seg(join_each(out, n.drop_last()), n.last())
    }
}

/// The pieces of `segs` that are pushed, in order.
pub open spec fn kept(segs: Seq<Seq<char>>) -> Seq<Seq<char>>
    decreases segs.len(),
{
    if segs.len() == 0 {
        Seq::empty()
    } else if is_skipped(segs.last()) {
        kept(segs.drop_last())
    } else {
        kept(segs.drop_last()).push(segs.last())
    }
}

proof fn lemma_split_no_slash(s: Seq<char>)
    ensures
        forall|k: int, j: int| 0 <= k < split_slash(s).len() && 0 <= j < split_slash(s)[k].len() ==> split_slash(s)[k][j] != '/',
    decreases s.len(),
{
    if s.len() > 0 {
        lemma_split_no_slash(s.drop_last());
        lemma_split_nonempty(s.drop_last());
        let p = split_slash(s.drop_last());
        if s.last() != '/' {
            let q = p.update(p.len() - 1, p.last().push(s.last()));
            assert forall|k: int, j: int| 0 <= k < q.len() && 0 <= j < q[k].len() implies q[k][j] != '/' by {
                if k == p.len() - 1 {
                    if j < p.last().len() {
                        assert(q[k][j] == p[k][j]);
                    }
                } else {
                    assert(q[k] == p[k]);
                }
            }
        } else {
            let q = p.push(Seq::<char>::empty());
            assert forall|k: int, j: int| 0 <= k < q.len() && 0 <= j < q[k].len() implies q[k][j] != '/' by {
                if k < p.len() {
                    assert(q[k] == p[k]);
                }
            }
        }
    }
}

proof fn lemma_join_kept(root: Seq<char>, segs: Seq<Seq<char>>)
    requires
        forall|k: int| 0 <= k < segs.len() ==> !is_parent(#[trigger] segs[k]),
        forall|k: int, j: int| 0 <= k < segs.len() && 0 <= j < segs[k].len() ==> segs[k][j] != '/',
    ensures
        join_all(root, segs) == join_each(root, kept(segs)),
        forall|k: int| 0 <= k < kept(segs).len() ==> is_normal(#[trigger] kept(segs)[k]),
    decreases segs.len(),
{
    if segs.len() > 0 {
        let d = segs.drop_last();
        assert forall|k: int| 0 <= k < d.len() implies !is_parent(#[trigger] d[k]) by {
            assert(d[k] == segs[k]);
        }
        assert forall|k: int, j: int| 0 <= k < d.len() && 0 <= j < d[k].len() implies d[k][j] != '/' by {
            assert(d[k] == segs[k]);
        }
        lemma_join_kept(root, d);
        if !is_skipped(segs.last()) {
            let n = kept(d).push(segs.last());
            assert(n.drop_last() =~= kept(d));
            assert(!is_parent(segs[segs.len() - 1]));
            assert forall|j: int| 0 <= j < segs.last().len() implies #[trigger] segs.last()[j] != '/' by {
                assert(segs[segs.len() - 1][j] != '/');
            }
            assert forall|k: int| 0 <= k < n.len() implies is_normal(#[trigger] n[k]) by {
                if k < kept(d).len() {
                    assert(n[k] == kept(d)[k]);
                }
            }
        }
    }
}

proof fn lemma_join_each_prefix(root: Seq<char>, n: Seq<Seq<char>>)
    ensures
        join_each(root, n).len() >= root.len(),
        join_each(root, n).take(root.len() as int) == root,
    decreases n.len(),
{
    if n.len() > 0 {
        lemma_join_each_prefix(root, n.drop_last());
        let o = join_each(root, n.drop_last());
        let r = join_each(root, n);
        assert(r.take(root.len() as int) =~= o.take(root.len() as int));
    }
}

/// Law: whatever `resolve_under` accepts lies under the web root: the
/// result starts with `root`, and what follows is `root` with a sequence of
/// ordinary entry names pushed onto it (none empty, `.`, `..` or holding a
/// `/`).  A request can therefore never climb out of the web root.
pub proof fn lemma_resolved_path_stays_under_root(root: Seq<char>, rel: Seq<char>)
    requires
        spec_resolve_under(root, rel) is Some,
    ensures
        spec_resolve_under(root, rel)->0.len() >= root.len(),
        spec_resolve_under(root, rel)->0.take(root.len() as int) == root,
        exists|n: Seq<Seq<char>>|
            (forall|k: int| 0 <= k < n.len() ==> is_normal(#[trigger] n[k]))
                && spec_resolve_under(root, rel)->0 == join_each(root, n),
{
    let segs = split_slash(rel);
    lemma_split_no_slash(rel);
    lemma_join_kept(root, segs);
    lemma_join_each_prefix(root, kept(segs));
}

// ---------------------------------------------------------------------
// Content types
// ---------------------------------------------------------------------

/// The last piece of `segs` that is not empty and not `.`.
pub open spec fn last_named(segs: Seq<Seq<char>>) -> Option<Seq<char>>
    decreases segs.len(),
{
    if segs.len() == 0 {
        None
    } else if is_skipped(segs.last()) {
        last_named(segs.drop_last())
    } else {
        Some(segs.last())
    }
}

/// `Path::file_name`: the final component, or nothing when there is none
/// or it is `..`.
pub open spec fn spec_file_name(p: Seq<char>) -> Option<Seq<char>> {
    match last_named(split_slash(p)) {
        Some(n) => if is_parent(n) { None } else { Some(n) },
        None => None,
    }
}

/// Position of the last occurrence of `c` in `s`.
pub open spec fn last_index_of(s: Seq<char>, c: char) -> Option<int>
    decreases s.len(),
{
    if s.len() == 0 {
        None
    } else if s.last() == c {
        Some(s.len() - 1)
    } else {
        last_index_of(s.drop_last(), c)
    }
}

/// `Path::extension` of a file name: the text after the last `.`, unless
/// there is no `.` or the only `.` that could split it is the first
/// character.
pub open spec fn spec_extension_of_name(name: Seq<char>) -> Option<Seq<char>> {
    match last_index_of(name, '.') {
        Some(i) => if i == 0 { None } else { Some(name.skip(i + 1)) },
        None => None,
    }
}

/// The lowercased extension of a path, empty when it has none.
pub open spec fn spec_extension_key(p: Seq<char>) -> Seq<char> {
    match spec_file_name(p) {
        Some(n) => match spec_extension_of_name(n) {
            Some(e) => crate::text::spec_ascii_lowercase(e),
            None => Seq::empty(),
        },
        None => Seq::empty(),
    }
}

/// Content type served for a lowercased extension.
pub open spec fn spec_mime(e: Seq<char>) -> Seq<char> {
    if e == "html"@ {
        "text/html; charset=utf-8"@
    } else if e == "js"@ || e == "mjs"@ {
        "text/javascript; charset=utf-8"@
    } else if e == "css"@ {
        "text/css; charset=utf-8"@
    } else if e == "json"@ {
        "application/json; charset=utf-8"@
    } else if e == "svg"@ {
        "image/svg+xml"@
    } else if e == "png"@ {
        "image/png"@
    } else if e == "jpg"@ || e == "jpeg"@ {
        "image/jpeg"@
    } else if e == "gif"@ {
        "image/gif"@
    } else if e == "webp"@ {
        "image/webp"@
    } else if e == "ico"@ {
        "image/x-icon"@
    } else if e == "woff"@ {
        "font/woff"@
    } else if e == "woff2"@ {
        "font/woff2"@
    } else if e == "ttf"@ {
        "font/ttf"@
    } else if e == "map"@ {
        "application/json; charset=utf-8"@
    } else if e == "wasm"@ {
        "application/wasm"@
    } else {
        "application/octet-stream"@
    }
}

/// Content type for a path, chosen by its extension.
pub open spec fn spec_content_type(p: Seq<char>) -> Seq<char> {
    spec_mime(spec_extension_key(p))
}

fn is_ext(e: &Vec<char>, lit: &str) -> (r: bool)
    ensures
        r == (e@ == lit@),
{
    let l = chars_of(lit);
    chars_eq(e, &l)
}

fn mime_for(e: &Vec<char>) -> (r: &'static str)
    ensures
        r@ == spec_mime(e@),
{
    if is_ext(e, "html") {
        "text/html; charset=utf-8"
    } else if is_ext(e, "js") || is_ext(e, "mjs") {
        "text/javascript; charset=utf-8"
    } else if is_ext(e, "css") {
        "text/css; charset=utf-8"
    } else if is_ext(e, "json") {
        "application/json; charset=utf-8"
    } else if is_ext(e, "svg") {
        "image/svg+xml"
    } else if is_ext(e, "png") {
        "image/png"
    } else if is_ext(e, "jpg") || is_ext(e, "jpeg") {
        "image/jpeg"
    } else if is_ext(e, "gif") {
        "image/gif"
    } else if is_ext(e, "webp") {
        "image/webp"
    } else if is_ext(e, "ico") {
        "image/x-icon"
    } else if is_ext(e, "woff") {
        "font/woff"
    } else if is_ext(e, "woff2") {
        "font/woff2"
    } else if is_ext(e, "ttf") {
        "font/ttf"
    } else if is_ext(e, "map") {
        "application/json; charset=utf-8"
    } else if is_ext(e, "wasm") {
        "application/wasm"
    } else {
        "application/octet-stream"
    }
}

fn last_named_exec(segs: &Vec<Vec<char>>) -> (r: Option<usize>)
    ensures
        match r {
            Some(k) => k < segs@.len() && last_named(views(segs@)) == Some(segs@[k as int]@),
            None => last_named(views(segs@)) is None,
        },
{
    let mut i = segs.len();
    proof {
        assert(views(segs@).take(segs@.len() as int) =~= views(segs@));
    }
    while i > 0
        invariant
            i <= segs@.len(),
            last_named(views(segs@)) == last_named(views(segs@).take(i as int)),
        decreases i,
    {
        let s = &segs[i - 1];
        proof {
            assert(views(segs@).take(i as int).drop_last() =~= views(segs@).take(i - 1));
            assert(views(segs@).take(i as int).last() == s@);
        }
        let skip = s.len() == 0 || (s.len() == 1 && s[0] == '.');
        proof {
            if s.len() == 1 && s[0] == '.' {
                assert(s@ =~= seq!['.']);
            }
            if s@ == seq!['.'] {
                assert(s@[0] == '.');
            }
        }
        if !skip {
            return Some(i - 1);
        }
        i = i - 1;
    }
    proof {
        assert(views(segs@).take(0) =~= Seq::<Seq<char>>::empty());
    }
    None
}

/// Content type for a file path, by its lowercased extension.
pub fn content_type_for(path: &str) -> (r: &'static str)
    ensures
        r@ == spec_content_type(path@),
{
    let pc = chars_of(path);
    let segs = split_slash_exec(&pc);
    let mut ext: Vec<char> = Vec::new();
    match last_named_exec(&segs) {
        Some(k) => {
            let name = &segs[k];
            let parent = name.len() == 2 && name[0] == '.' && name[1] == '.';
            proof {
                if is_parent(name@) {
                    assert(name@[0] == '.' && name@[1] == '.');
                }
                if parent {
                    assert(name@ =~= seq!['.', '.']);
                }
            }
            if !parent {
                // last '.'
                let mut j = name.len();
                let mut dot: Option<usize> = None;
                proof {
                    assert(name@.take(name@.len() as int) =~= name@);
                }
                while j > 0 && dot.is_none()
                    invariant
                        j <= name@.len(),
                        dot is None ==> last_index_of(name@, '.') == last_index_of(name@.take(j as int), '.'),
                        dot matches Some(d) ==> last_index_of(name@, '.') == Some(d as int) && d < name@.len(),
                    decreases j,
                {
                    proof {
                        assert(name@.take(j as int).drop_last() =~= name@.take(j - 1));
                        assert(name@.take(j as int).last() == name@[j - 1]);
                    }
                    if name[j - 1] == '.' {
                        dot = Some(j - 1);
                    }
                    j = j - 1;
                }
                proof {
                    if dot is None {
                        assert(name@.take(j as int) =~= Seq::<char>::empty()) by {
                            assert(j == 0);
                        }
                    }
                }
                if let Some(d) = dot {
                    if d != 0 {
                        let mut m = d + 1;
                        while m < name.len()
                            invariant
                                d + 1 <= m <= name@.len(),
                                ext@ == crate::text::spec_ascii_lowercase(name@.subrange(d + 1, m as int)),
                            decreases name@.len() - m,
                        {
                            let c = name[m];
                            let lc = if 'A' <= c && c <= 'Z' { ((c as u32) + 32) as u8 as char } else { c };
                            proof {
                                assert(name@.subrange(d + 1, m + 1) =~= name@.subrange(d + 1, m as int).push(c));
                                assert(crate::text::spec_ascii_lowercase(name@.subrange(d + 1, m + 1)) =~= crate::text::spec_ascii_lowercase(name@.subrange(d + 1, m as int)).push(crate::text::ascii_lower_char(c)));
                            }
                            ext.push(lc);
                            m = m + 1;
                        }
                        proof {
                            assert(name@.subrange(d + 1, name@.len() as int) =~= name@.skip(d + 1));
                        }
                    }
                }
            }
        }
        None => {}
    }
    proof {
        assert(ext@ == spec_extension_key(path@));
    }
    mime_for(&ext)
}

// ---------------------------------------------------------------------
// The handshake injected into index.html
// ---------------------------------------------------------------------

/// The script that hands the port and token to the page.
pub open spec fn spec_handshake_script(port: u16, token: Seq<char>) -> Seq<char> {
    "<script>window.__CCS_SIDECAR__={\"port\":"@ + spec_decimal(port as nat) + ",\"token\":\""@ + token
        + "\"};</script>"@
}

/// Law: the handshake writes the port as its unsigned decimal: between the
/// fixed opening `<script>window.__CCS_SIDECAR__={"port":` and the token
/// part stand one or more digits that read back as the port, for every
/// port (so ports of 32768 and above are not written as negative numbers).
pub proof fn lemma_handshake_port_is_unsigned_decimal(port: u16, token: Seq<char>)
    ensures
        exists|d: Seq<char>| #![auto]
            d.len() > 0
            && (forall|i: int| 0 <= i < d.len() ==> is_digit(#[trigger] d[i]))
            && digits_value(d) == port
            && spec_handshake_script(port, token)
                == "<script>window.__CCS_SIDECAR__={\"port\":"@ + d + ",\"token\":\""@ + token + "\"};</script>"@,
{
    lemma_decimal_reads_back(port as nat);
    let d = spec_decimal(port as nat);
    assert(spec_handshake_script(port, token)
        == "<script>window.__CCS_SIDECAR__={\"port\":"@ + d + ",\"token\":\""@ + token + "\"};</script>"@);
}

/// Builds the handshake script for `port` and `token`.
pub fn handshake_script(port: u16, token: &str) -> (r: String)
    ensures
        r@ == spec_handshake_script(port, token@),
{
    let mut s = String::new();
    s.append("<script>window.__CCS_SIDECAR__={\"port\":");
    push_decimal(&mut s, port as u64);
    s.append(",\"token\":\"");
    s.append(token);
    s.append("\"};</script>");
    s
}

/// The opening head tag after which the script goes.
pub open spec fn head_tag() -> Seq<char> {
    "<head>"@
}

/// `html` with `script` inserted right after the first `<head>`, or in
/// front of everything when there is no `<head>`.
pub open spec fn spec_inject(html: Seq<char>, script: Seq<char>) -> Seq<char> {
    match spec_find(html, head_tag()) {
        Some(i) => html.take(i + head_tag().len()) + script + html.skip(i + head_tag().len()),
        None => script + html,
    }
}

/// Inserts `script` into `html` right after the first `<head>`, or in
/// front when there is none.
pub fn inject_handshake(html: &str, script: &str) -> (r: String)
    ensures
        r@ == spec_inject(html@, script@),
{
    let hc = chars_of(html);
    let tag = chars_of("<head>");
    match find_chars(&hc, &tag) {
        Some(i) => {
            proof {
                lemma_find_from_occurs(html@, head_tag(), 0);
            }
            assert(i + tag.len() <= hc.len());
            let at = i + tag.len();
            let mut out = String::new();
            push_chars(&mut out, &hc, 0, at);
            out.append(script);
            push_chars(&mut out, &hc, at, hc.len());
            proof {
                assert(hc@.subrange(0, at as int) =~= html@.take(at as int));
                assert(hc@.subrange(at as int, hc@.len() as int) =~= html@.skip(at as int));
            }
            out
        }
        None => {
            let mut out = String::new();
            out.append(script);
            out.append(html);
            out
        }
    }
}

/// Law: injecting the handshake keeps the page: taking the script back out
/// of the result gives the original HTML, and the script sits right after
/// the first `<head>` (or at the very front when there is none).
pub proof fn lemma_injection_keeps_page(html: Seq<char>, script: Seq<char>)
    ensures
        ({
            let r = spec_inject(html, script);
            let at = match spec_find(html, head_tag()) {
                Some(i) => i + head_tag().len(),
                None => 0,
            };
            &&& 0 <= at <= html.len()
            &&& r.len() == html.len() + script.len()
            &&& r.subrange(at, at + script.len()) == script
            &&& r.take(at) + r.skip(at + script.len()) == html
        }),
{
    let r = spec_inject(html, script);
    match spec_find(html, head_tag()) {
        Some(i) => {
            lemma_find_from_occurs(html, head_tag(), 0);
            let at = i + head_tag().len();
            assert(r.subrange(at, at + script.len()) =~= script);
            assert(r.take(at) + r.skip(at + script.len()) =~= html);
        }
        None => {
            assert(r.subrange(0, script.len() as int) =~= script);
            assert(r.take(0) + r.skip(script.len() as int) =~= html);
        }
    }
}

// ---------------------------------------------------------------------
// Serving a request for a static file
// ---------------------------------------------------------------------

/// A plain-text response (`text/plain; charset=utf-8`).
pub struct PlainResponse {
    pub status: u16,
    pub message: String,
}

/// How a static file is sent back.
pub enum StaticBody {
    /// `index.html` with the handshake injected.
    Html(String),
    /// Any other file, byte for byte.
    Bytes(Vec<u8>),
}

/// A static file response with status 200.
pub struct StaticAsset {
    pub content_type: &'static str,
    pub cache_control: &'static str,
    pub body: StaticBody,
}

/// Builds a plain-text response.
pub fn plain(status: u16, msg: &str) -> (r: PlainResponse)
    ensures
        r.status == status,
        r.message@ == msg@,
{
    PlainResponse { status, message: msg.to_owned() }
}

/// The file a request for `rel` first looks at: refused when the sidecar
/// has no web root (404) or the path leaves it (400); an empty path means
/// `index.html`.
pub fn static_target(webroot: Option<&str>, rel: &str) -> (r: Result<String, PlainResponse>)
    ensures
        webroot is None ==> (r matches Err(e) && e.status == 404
            && e.message@ == "sidecar 未配置 --webroot，静态站点不可用"@),
        webroot matches Some(root) ==> {
            let rel2 = if rel@.len() == 0 { "index.html"@ } else { rel@ };
            match spec_resolve_under(root@, rel2) {
                Some(p) => r matches Ok(t) && t@ == p,
                None => r matches Err(e) && e.status == 400 && e.message@ == "非法路径"@,
            }
        },
{
    match webroot {
        None => Err(plain(404, "sidecar 未配置 --webroot，静态站点不可用")),
        Some(root) => {
            let rel = if rel.is_empty() { "index.html" } else { rel };
            match resolve_under(root, rel) {
                Some(t) => Ok(t),
                None => Err(plain(400, "非法路径")),
            }
        }
    }
}

/// The file served for a directory: its `index.html`.
pub fn directory_index(target: &str) -> (r: String)
    ensures
        r@ == join_seg(target@, "index.html"@),
{
    push_path(target, "index.html")
}

/// Response when neither the requested file nor the root `index.html`
/// exists.
pub fn missing_index() -> (r: PlainResponse)
    ensures
        r.status == 404,
        r.message@ == "index.html 不存在"@,
{
    plain(404, "index.html 不存在")
}

/// Response when the chosen file cannot be read.
pub fn read_failed() -> (r: PlainResponse)
    ensures
        r.status == 500,
        r.message@ == "读取静态文件失败"@,
{
    plain(500, "读取静态文件失败")
}

/// The response for a file that was read: its content type by extension;
/// HTML is decoded, gets the handshake and must not be cached, anything
/// else is sent as it is and may be cached for a year.
pub fn render_static(target: &str, bytes: Vec<u8>, port: u16, token: &str) -> (r: StaticAsset)
    ensures
        r.content_type@ == spec_content_type(target@),
        ({
            let is_index = starts_with(spec_content_type(target@), "text/html"@);
            &&& is_index ==> r.cache_control@ == "no-store"@
            &&& is_index ==> (r.body matches StaticBody::Html(h)
                && h@ == spec_inject(spec_lossy_text(bytes@), spec_handshake_script(port, token@)))
            &&& !is_index ==> r.cache_control@ == "public, max-age=31536000, immutable"@
            &&& !is_index ==> (r.body matches StaticBody::Bytes(b) && b@ == bytes@)
        }),
{
    let ctype = content_type_for(target);
    let is_index = str_starts_with(ctype, "text/html");
    if is_index {
        let html = utf8_lossy(bytes.as_slice());
        let script = handshake_script(port, token);
        let body = inject_handshake(html.as_str(), script.as_str());
        StaticAsset { content_type: ctype, cache_control: "no-store", body: StaticBody::Html(body) }
    } else {
        StaticAsset {
            content_type: ctype,
            cache_control: "public, max-age=31536000, immutable",
            body: StaticBody::Bytes(bytes),
        }
    }
}


// ---------------------------------------------------------------------
// Choosing the file to serve
// ---------------------------------------------------------------------

/// `p` is `root` with a sequence of ordinary entry names pushed onto it.
pub open spec fn under_root(root: Seq<char>, p: Seq<char>) -> bool {
    exists|n: Seq<Seq<char>>| (forall|k: int| 0 <= k < n.len() ==> is_normal(#[trigger] n[k])) && p == join_each(root, n)
}

/// Where the choice of the file to serve stands, waiting for an answer
/// from the file system.
pub enum StaticState {
    /// Waiting to learn whether `target` is a directory.
    CheckDir { root: String, target: String },
    /// Waiting to learn whether `target` is a file.
    CheckFile { root: String, target: String },
    /// Waiting to learn whether the root's `index.html` (`index`) is a file.
    CheckIndex { root: String, index: String },
}

/// What to do next.
pub enum StaticAction {
    /// Ask whether the path is a directory.
    ProbeDir(String),
    /// Ask whether the path is a file.
    ProbeFile(String),
    /// Read the path and render it.
    Read(String),
    /// Answer with a plain-text response.
    Respond(PlainResponse),
}

/// The web root a state belongs to.
pub open spec fn state_root(st: StaticState) -> Seq<char> {
    match st {
        StaticState::CheckDir { root, .. } => root@,
        StaticState::CheckFile { root, .. } => root@,
        StaticState::CheckIndex { root, .. } => root@,
    }
}

/// Every path a state holds lies under its web root.
pub open spec fn static_state_wf(st: StaticState) -> bool {
    match st {
        StaticState::CheckDir { root, target } => under_root(root@, target@),
        StaticState::CheckFile { root, target } => under_root(root@, target@),
        StaticState::CheckIndex { root, index } => index@ == join_seg(root@, "index.html"@),
    }
}

/// The path an action probes or reads, if any.
pub open spec fn action_path(a: StaticAction) -> Option<Seq<char>> {
    match a {
        StaticAction::ProbeDir(p) => Some(p@),
        StaticAction::ProbeFile(p) => Some(p@),
        StaticAction::Read(p) => Some(p@),
        StaticAction::Respond(_) => None,
    }
}

proof fn lemma_index_name_normal()
    ensures
        is_normal("index.html"@),
        forall|root: Seq<char>| #[trigger] join_each(root, seq!["index.html"@]) == join_seg(root, "index.html"@),
{
    reveal_strlit("index.html");
    let s = "index.html"@;
    assert(s.len() == 10);
    assert forall|i: int| 0 <= i < s.len() implies #[trigger] s[i] != '/' by {
        assert(i == 0 || i == 1 || i == 2 || i == 3 || i == 4 || i == 5 || i == 6 || i == 7 || i == 8 || i == 9);
    }
    assert(s[0] != '.');
    assert forall|root: Seq<char>| #[trigger] join_each(root, seq!["index.html"@]) == join_seg(root, "index.html"@) by {
        let n = seq!["index.html"@];
        assert(n.drop_last() =~= Seq::<Seq<char>>::empty());
        assert(join_each(root, Seq::<Seq<char>>::empty()) == root);
        assert(n.last() == s);
    }
}

/// `root/index.html` lies under `root`.
proof fn lemma_root_index_under_root(root: Seq<char>)
    ensures
        under_root(root, join_seg(root, "index.html"@)),
{
    lemma_index_name_normal();
    let n = seq!["index.html"@];
    assert forall|k: int| 0 <= k < n.len() implies is_normal(#[trigger] n[k]) by {
        assert(k == 0);
    }
    assert(join_each(root, n) == join_seg(root, "index.html"@));
}

proof fn lemma_index_under_root(root: Seq<char>, p: Seq<char>)
    requires
        under_root(root, p),
    ensures
        under_root(root, join_seg(p, "index.html"@)),
{
    lemma_index_name_normal();
    let n = choose|n: Seq<Seq<char>>| (forall|k: int| 0 <= k < n.len() ==> is_normal(#[trigger] n[k])) && p == join_each(root, n);
    let m = n.push("index.html"@);
    assert(m.drop_last() =~= n);
    assert forall|k: int| 0 <= k < m.len() implies is_normal(#[trigger] m[k]) by {
        if k < n.len() {
            assert(m[k] == n[k]);
        }
    }
    assert(join_each(root, m) == join_seg(p, "index.html"@));
}

/// The first step of serving `rel`: refused without a web root (404) or
/// for a path that leaves it (400); otherwise ask whether the resolved
/// target is a directory.  Every path asked about lies under the web root.
pub fn static_start(webroot: Option<&str>, rel: &str) -> (r: (Option<StaticState>, StaticAction))
    ensures
        webroot is None ==> {
            &&& r.0 is None
            &&& (r.1 matches StaticAction::Respond(e) && e.status == 404
                && e.message@ == "sidecar 未配置 --webroot，静态站点不可用"@)
        },
        webroot matches Some(root) ==> {
            let rel2 = if rel@.len() == 0 { "index.html"@ } else { rel@ };
            match spec_resolve_under(root@, rel2) {
                Some(t) => {
                    &&& (r.0 matches Some(StaticState::CheckDir { root: rt, target }) && rt@ == root@ && target@ == t)
                    &&& (r.1 matches StaticAction::ProbeDir(p) && p@ == t)
                },
                None => {
                    &&& r.0 is None
                    &&& (r.1 matches StaticAction::Respond(e) && e.status == 400 && e.message@ == "非法路径"@)
                },
            }
        },
        r.0 matches Some(st) ==> static_state_wf(st),
        webroot matches Some(root) ==> (action_path(r.1) is Some ==> under_root(root@, action_path(r.1)->0)),
{
    match static_target(webroot, rel) {
        Err(e) => (None, StaticAction::Respond(e)),
        Ok(t) => {
            let root = match webroot {
                Some(w) => w,
                None => "",
            };
            proof {
                let rel2 = if rel@.len() == 0 { "index.html"@ } else { rel@ };
                lemma_resolved_path_stays_under_root(root@, rel2);
            }
            let probe = t.clone();
            (Some(StaticState::CheckDir { root: root.to_owned(), target: t }), StaticAction::ProbeDir(probe))
        },
    }
}

/// The next step once the file system has answered the state's question
/// (`yes`): a directory is served by its `index.html`; a missing file falls
/// back to the root's `index.html`; when that is missing too the answer is
/// 404.  Every path asked about or read lies under the web root.
pub fn static_step(st: StaticState, yes: bool) -> (r: (Option<StaticState>, StaticAction))
    requires
        static_state_wf(st),
    ensures
        st matches StaticState::CheckDir { root, target } ==> {
            let t2 = if yes { join_seg(target@, "index.html"@) } else { target@ };
            &&& r.0 matches Some(StaticState::CheckFile { root: rt, target: t }) && rt@ == root@ && t@ == t2
            &&& r.1 matches StaticAction::ProbeFile(p) && p@ == t2
        },
        st matches StaticState::CheckFile { root, target } ==> if yes {
            &&& r.0 is None
            &&& (r.1 matches StaticAction::Read(p) && p@ == target@)
        } else {
            &&& r.0 matches Some(StaticState::CheckIndex { root: rt, index }) && rt@ == root@
                && index@ == join_seg(root@, "index.html"@)
            &&& r.1 matches StaticAction::ProbeFile(p) && p@ == join_seg(root@, "index.html"@)
        },
        st matches StaticState::CheckIndex { index, .. } ==> if yes {
            &&& r.0 is None
            &&& (r.1 matches StaticAction::Read(p) && p@ == index@)
        } else {
            &&& r.0 is None
            &&& (r.1 matches StaticAction::Respond(e) && e.status == 404 && e.message@ == "index.html 不存在"@)
        },
        r.0 matches Some(next) ==> static_state_wf(next) && state_root(next) == state_root(st),
        action_path(r.1) is Some ==> under_root(state_root(st), action_path(r.1)->0),
{
    match st {
        StaticState::CheckDir { root, target } => {
            proof {
                lemma_index_under_root(root@, target@);
            }
            let t2 = if yes { directory_index(target.as_str()) } else { target };
            let probe = t2.clone();
            (Some(StaticState::CheckFile { root, target: t2 }), StaticAction::ProbeFile(probe))
        },
        StaticState::CheckFile { root, target } => {
            if yes {
                (None, StaticAction::Read(target))
            } else {
                let index = directory_index(root.as_str());
                proof {
                    lemma_root_index_under_root(root@);
                }
                let probe = index.clone();
                (Some(StaticState::CheckIndex { root, index }), StaticAction::ProbeFile(probe))
            }
        },
        StaticState::CheckIndex { root, index } => {
            proof {
                lemma_root_index_under_root(root@);
            }
            if yes {
                (None, StaticAction::Read(index))
            } else {
                (None, StaticAction::Respond(missing_index()))
            }
        },
    }
}

} // verus!
