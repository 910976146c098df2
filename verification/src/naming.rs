//! Parameter-name conversions between Rust's snake_case and the
//! lowerCamelCase keys that the front end sends.

use vstd::prelude::*;
use crate::text::{
    char_lowercase, char_uppercase, is_ascii_lower, is_ascii_upper, push_char, spec_char_lowercase,
    spec_char_uppercase,
};

verus! {

/// State of the lowerCamelCase conversion after reading `s` from the left:
/// the text produced so far and whether the next non-underscore character
/// starts a new word.  An underscore ends a word; the first character of a
/// word is lowercased when nothing has been produced yet and uppercased
/// otherwise; other characters are copied.
pub open spec fn camel_state(s: Seq<char>) -> (Seq<char>, bool)
    decreases s.len(),
{
    if s.len() == 0 {
        (Seq::empty(), true)
    } else {
        let (out, start) = camel_state(s.drop_last());
        let c = s.last();
        if c == '_' {
            (out, true)
        } else if start {
            if out.len() == 0 {
                (out + spec_char_lowercase(c), false)
            } else {
                (out + spec_char_uppercase(c), false)
            }
        } else {
            (out.push(c), false)
        }
    }
}

/// The lowerCamelCase form of `s`.
pub open spec fn spec_to_camel(s: Seq<char>) -> Seq<char> {
    camel_state(s).0
}

/// The lowerCamelCase form read word by word from the left: `_` ends a
/// word (empty words vanish), the first character of the first word goes
/// through the lowercase mapping, the first character of every later word
/// through the uppercase mapping, and every other character is copied.
/// Besides the text it gives whether the next character starts a word and
/// whether a word has been seen.
pub open spec fn camel_words(s: Seq<char>) -> (Seq<char>, bool, bool)
    decreases s.len(),
{
    if s.len() == 0 {
        (Seq::empty(), true, false)
    } else {
        let (out, start, seen) = camel_words(s.drop_last());
        let c = s.last();
        if c == '_' {
            (out, true, seen)
        } else if start {
            if !seen {
                (out + spec_char_lowercase(c), false, true)
            } else {
                (out + spec_char_uppercase(c), false, true)
            }
        } else {
            (out.push(c), false, seen)
        }
    }
}

/// snake_case -> lowerCamelCase: split on `_`, drop empty words, lowercase the
/// first character of the first word and uppercase the first character of
/// every later word.
pub fn to_camel(s: &str) -> (r: String)
    ensures
        r@ == spec_to_camel(s@),
        r@ == camel_words(s@).0,
{
    let mut out = String::new();
    let mut start = true;
    let ghost mut seen = false;
    for c in it: s.chars()
        invariant
            it.seq() == s@,
            (out@, start) == camel_state(s@.take(it.index() as int)),
            camel_words(s@.take(it.index() as int)) == (out@, start, seen),
            seen <==> out@.len() > 0,
            !start ==> seen,
    {
        proof {
            assert(s@.take(it.index() + 1).drop_last() =~= s@.take(it.index() as int));
        }
        if c == '_' {
            start = true;
        } else if start {
            let m = if out.as_str().is_empty() { char_lowercase(c) } else { char_uppercase(c) };
            out.append(m.as_str());
            start = false;
            proof {
                seen = true;
            }
        } else {
            push_char(&mut out, c);
        }
    }
    proof {
        assert(s@.take(s@.len() as int) =~= s@);
    }
    out
}


/// One character of the snake_case form: an ASCII uppercase letter becomes
/// `_` followed by its lowercase mapping; anything else is copied.
pub open spec fn snake_piece(c: char) -> Seq<char> {
    if is_ascii_upper(c) {
        seq!['_'] + spec_char_lowercase(c)
    } else {
        seq![c]
    }
}

/// The snake_case form of `s`, character by character.
pub open spec fn spec_to_snake(s: Seq<char>) -> Seq<char>
    decreases s.len(),
{
    if s.len() == 0 {
        Seq::empty()
    } else {
        spec_to_snake(s.drop_last()) + snake_piece(s.last())
    }
}

/// lowerCamelCase -> snake_case: every ASCII uppercase letter becomes `_`
/// and its lowercase; every other character is kept.
pub fn to_snake(s: &str) -> (r: String)
    ensures
        r@ == spec_to_snake(s@),
{
    let mut out = String::new();
    for ch in it: s.chars()
        invariant
            it.seq() == s@,
            out@ == spec_to_snake(s@.take(it.index() as int)),
    {
        proof {
            assert(s@.take(it.index() + 1).drop_last() =~= s@.take(it.index() as int));
        }
        if 'A' <= ch && ch <= 'Z' {
            push_char(&mut out, '_');
            let low = char_lowercase(ch);
            out.append(low.as_str());
            proof {
                assert(out@ =~= spec_to_snake(s@.take(it.index() as int)) + snake_piece(ch));
            }
        } else {
            push_char(&mut out, ch);
            proof {
                assert(out@ =~= spec_to_snake(s@.take(it.index() as int)) + snake_piece(ch));
            }
        }
    }
    proof {
        assert(s@.take(s@.len() as int) =~= s@);
    }
    out
}

/// ASCII character.
pub open spec fn is_ascii_char(c: char) -> bool {
    (c as u32) < 128
}

/// A parameter name written in snake_case: ASCII, no uppercase letter,
/// not starting with `_`, and every `_` followed by a lowercase letter
/// (so no doubled or trailing `_`).
pub open spec fn is_snake_name(s: Seq<char>) -> bool {
    &&& forall|i: int| 0 <= i < s.len() ==> is_ascii_char(#[trigger] s[i]) && !is_ascii_upper(s[i])
    &&& s.len() > 0 ==> s[0] != '_'
    &&& forall|i: int| 0 <= i < s.len() && #[trigger] s[i] == '_' ==> i + 1 < s.len() && is_ascii_lower(s[i + 1])
}

/// The prefix-closed part of `is_snake_name` (a trailing `_` allowed).
pub open spec fn snake_prefix(s: Seq<char>) -> bool {
    &&& forall|i: int| 0 <= i < s.len() ==> is_ascii_char(#[trigger] s[i]) && !is_ascii_upper(s[i])
    &&& s.len() > 0 ==> s[0] != '_'
    &&& forall|i: int| 0 <= i < s.len() - 1 && #[trigger] s[i] == '_' ==> is_ascii_lower(s[i + 1])
}

proof fn lemma_snake_of_push(out: Seq<char>, c: char)
    ensures
        spec_to_snake(out.push(c)) == spec_to_snake(out) + snake_piece(c),
{
    assert(out.push(c).drop_last() =~= out);
}

proof fn lemma_roundtrip_prefix(p: Seq<char>)
    requires
        snake_prefix(p),
    ensures
        camel_state(p).1 == (p.len() == 0 || p.last() == '_'),
        p.len() > 0 ==> camel_state(p).0.len() > 0,
        spec_to_snake(camel_state(p).0) == (if p.len() > 0 && p.last() == '_' { p.drop_last() } else { p }),
    decreases p.len(),
{
    if p.len() > 0 {
        let q = p.drop_last();
        let c = p.last();
        assert(snake_prefix(q)) by {
            assert forall|i: int| 0 <= i < q.len() - 1 && #[trigger] q[i] == '_' implies is_ascii_lower(q[i + 1]) by {
                assert(p[i] == '_');
            }
            assert forall|i: int| 0 <= i < q.len() implies is_ascii_char(#[trigger] q[i]) && !is_ascii_upper(q[i]) by {
                assert(p[i] == q[i]);
            }
        }
        lemma_roundtrip_prefix(q);
        let (out, start) = camel_state(q);
        assert(is_ascii_char(p[p.len() - 1]) && !is_ascii_upper(p[p.len() - 1]));
        if c == '_' {
            if q.len() > 0 {
                assert(q.last() == p[q.len() - 1]);
                if q.last() == '_' {
                    assert(p[q.len() - 1] == '_');
                }
            }
        } else if start {
            if q.len() == 0 {
                assert(out.len() == 0);
                assert(spec_char_lowercase(c) == seq![c]);
                assert(out + spec_char_lowercase(c) =~= out.push(c));
                lemma_snake_of_push(out, c);
                assert(p =~= seq![c]);
            } else {
                assert(q.last() == '_');
                assert(p[q.len() - 1] == '_');
                assert(is_ascii_lower(c));
                let u = ((c as u32) - 32) as char;
                assert(spec_char_uppercase(c) == seq![u]);
                assert(is_ascii_upper(u));
                assert(spec_char_lowercase(u) == seq![((u as u32) + 32) as char]);
                assert(((u as u32) + 32) as char == c);
                assert(out + spec_char_uppercase(c) =~= out.push(u));
                lemma_snake_of_push(out, u);
                assert(snake_piece(u) =~= seq!['_', c]);
                assert(q.drop_last().push('_') =~= q);
                assert(q.drop_last() + seq!['_', c] =~= p);
            }
        } else {
            lemma_snake_of_push(out, c);
            assert(q.push(c) =~= p);
        }
    }
}

/// Law: on a snake_case name, snake_case of its lowerCamelCase form is the
/// name again, so the snake_case fallback when reading an argument finds
/// the key written with Rust's own parameter name.
pub proof fn lemma_snake_of_camel(s: Seq<char>)
    requires
        is_snake_name(s),
    ensures
        spec_to_snake(spec_to_camel(s)) == s,
{
    assert(snake_prefix(s));
    lemma_roundtrip_prefix(s);
    if s.len() > 0 {
        if s.last() == '_' {
            assert(s[s.len() - 1] == '_');
        }
    }
}


/// Law: underscores in front of a name are dropped, so `_app` is read from
/// the key `app`.
pub proof fn lemma_camel_drops_leading_underscore(s: Seq<char>)
    ensures
        spec_to_camel(seq!['_'] + s) == spec_to_camel(s),
    decreases s.len(),
{
    lemma_camel_state_leading_underscore(s);
}

proof fn lemma_camel_state_leading_underscore(s: Seq<char>)
    ensures
        camel_state(seq!['_'] + s) == camel_state(s),
    decreases s.len(),
{
    let t = seq!['_'] + s;
    if s.len() == 0 {
        assert(t.drop_last() =~= Seq::<char>::empty());
        assert(s =~= Seq::<char>::empty());
        assert(camel_state(t.drop_last()) == (Seq::<char>::empty(), true));
        assert(t.last() == '_');
    } else {
        assert(t.drop_last() =~= seq!['_'] + s.drop_last());
        assert(t.last() == s.last());
        lemma_camel_state_leading_underscore(s.drop_last());
        assert(camel_state(t.drop_last()) == camel_state(s.drop_last()));
    }
}

/// A name already in lowerCamelCase: no `_`, and its first character is an
/// ASCII character that is not an uppercase letter.
pub open spec fn is_camel_name(s: Seq<char>) -> bool {
    &&& forall|i: int| 0 <= i < s.len() ==> #[trigger] s[i] != '_'
    &&& s.len() > 0 ==> is_ascii_char(s[0]) && !is_ascii_upper(s[0])
}

proof fn lemma_camel_state_identity(s: Seq<char>)
    requires
        is_camel_name(s),
    ensures
        camel_state(s) == (s, s.len() == 0),
    decreases s.len(),
{
    if s.len() > 0 {
        let q = s.drop_last();
        assert(is_camel_name(q)) by {
            assert forall|i: int| 0 <= i < q.len() implies #[trigger] q[i] != '_' by {
                assert(s[i] == q[i]);
            }
            if q.len() > 0 {
                assert(q[0] == s[0]);
            }
        }
        lemma_camel_state_identity(q);
        assert(s[s.len() - 1] != '_');
        if q.len() == 0 {
            assert(s =~= seq![s[0]]);
        } else {
            assert(q.push(s.last()) =~= s);
        }
    }
}

/// Law: a name already in lowerCamelCase converts to itself.
pub proof fn lemma_camel_identity(s: Seq<char>)
    requires
        is_camel_name(s),
    ensures
        spec_to_camel(s) == s,
{
    lemma_camel_state_identity(s);
}

proof fn lemma_camel_state_ascii(p: Seq<char>)
    requires
        forall|i: int| 0 <= i < p.len() ==> is_ascii_char(#[trigger] p[i]),
    ensures
        is_camel_name(camel_state(p).0),
        forall|i: int| 0 <= i < camel_state(p).0.len() ==> is_ascii_char(#[trigger] camel_state(p).0[i]),
    decreases p.len(),
{
    if p.len() > 0 {
        let q = p.drop_last();
        assert forall|i: int| 0 <= i < q.len() implies is_ascii_char(#[trigger] q[i]) by {
            assert(p[i] == q[i]);
        }
        lemma_camel_state_ascii(q);
        let (out, start) = camel_state(q);
        let c = p.last();
        assert(is_ascii_char(p[p.len() - 1]));
        if c != '_' {
            let m = if start { if out.len() == 0 { spec_char_lowercase(c) } else { spec_char_uppercase(c) } } else { seq![c] };
            let o2 = out + m;
            assert(m.len() == 1 && m[0] != '_' && is_ascii_char(m[0]));
            assert(start && out.len() == 0 ==> !is_ascii_upper(m[0]));
            assert forall|i: int| 0 <= i < o2.len() implies #[trigger] o2[i] != '_' && is_ascii_char(o2[i]) by {
                if i < out.len() {
                    assert(o2[i] == out[i]);
                } else {
                    assert(o2[i] == m[0]);
                }
            }
            if out.len() > 0 {
                assert(o2[0] == out[0]);
            }
            if start {
                if out.len() == 0 {
                    assert(camel_state(p).0 == o2);
                } else {
                    assert(camel_state(p).0 == o2);
                }
            } else {
                assert(out.push(c) =~= o2);
            }
        }
    }
}

/// Law: on ASCII names the conversion is idempotent.
pub proof fn lemma_camel_idempotent(s: Seq<char>)
    requires
        forall|i: int| 0 <= i < s.len() ==> is_ascii_char(#[trigger] s[i]),
    ensures
        spec_to_camel(spec_to_camel(s)) == spec_to_camel(s),
{
    lemma_camel_state_ascii(s);
    lemma_camel_identity(spec_to_camel(s));
}

} // verus!
