//! Command dispatch over `POST /rpc/{cmd}`: the command table, the token
//! check, argument lookup and the shape of every reply.

use vstd::prelude::*;
use crate::naming::{is_snake_name, lemma_snake_of_camel, spec_to_camel, spec_to_snake, to_snake};
use crate::text::{chars_of, str_eq};

verus! {

// ---------------------------------------------------------------------
// Lexicographic order of names (code point by code point)
// ---------------------------------------------------------------------

/// `a` sorts strictly before `b`, comparing characters by code point and a
/// proper prefix first (the order of `str`).
pub open spec fn lex_lt(a: Seq<char>, b: Seq<char>) -> bool
    decreases a.len(),
{
    if b.len() == 0 {
        false
    } else if a.len() == 0 {
        true
    } else if a[0] != b[0] {
        a[0] < b[0]
    } else {
        lex_lt(a.drop_first(), b.drop_first())
    }
}

proof fn lemma_lex_irreflexive(a: Seq<char>)
    ensures
        !lex_lt(a, a),
    decreases a.len(),
{
    if a.len() > 0 {
        lemma_lex_irreflexive(a.drop_first());
    }
}

proof fn lemma_lex_total(a: Seq<char>, b: Seq<char>)
    requires
        a != b,
    ensures
        lex_lt(a, b) || lex_lt(b, a),
        !(lex_lt(a, b) && lex_lt(b, a)),
    decreases a.len(),
{
    if a.len() == 0 {
        assert(b.len() > 0) by {
            if b.len() == 0 {
                assert(a =~= b);
            }
        }
    } else if b.len() == 0 {
    } else if a[0] != b[0] {
    } else {
        assert(a.drop_first() != b.drop_first()) by {
            if a.drop_first() == b.drop_first() {
                assert(a =~= seq![a[0]] + a.drop_first());
                assert(b =~= seq![b[0]] + b.drop_first());
            }
        }
        lemma_lex_total(a.drop_first(), b.drop_first());
    }
}

proof fn lemma_lex_transitive(a: Seq<char>, b: Seq<char>, c: Seq<char>)
    requires
        lex_lt(a, b),
        lex_lt(b, c),
    ensures
        lex_lt(a, c),
    decreases a.len(),
{
    if a.len() > 0 && b.len() > 0 && c.len() > 0 && a[0] == b[0] && b[0] == c[0] {
        lemma_lex_transitive(a.drop_first(), b.drop_first(), c.drop_first());
    }
}

/// Compares two names in the order of `str`.
pub fn lex_less(a: &Vec<char>, b: &Vec<char>) -> (r: bool)
    ensures
        r == lex_lt(a@, b@),
{
    let mut i: usize = 0;
    proof {
        assert(a@.skip(0) =~= a@);
        assert(b@.skip(0) =~= b@);
    }
    while i < a.len() && i < b.len()
        invariant
            i <= a@.len(),
            i <= b@.len(),
            lex_lt(a@, b@) == lex_lt(a@.skip(i as int), b@.skip(i as int)),
        decreases a@.len() - i,
    {
        let x = a[i];
        let y = b[i];
        proof {
            assert(a@.skip(i as int)[0] == x);
            assert(b@.skip(i as int)[0] == y);
            assert(a@.skip(i as int).drop_first() =~= a@.skip(i + 1));
            assert(b@.skip(i as int).drop_first() =~= b@.skip(i + 1));
        }
        if x != y {
            return x < y;
        }
        i = i + 1;
    }
    proof {
        if i == b@.len() {
            assert(b@.skip(i as int).len() == 0);
        } else {
            assert(a@.skip(i as int).len() == 0);
        }
    }
    i == a.len() && i < b.len()
}

/// Strictly increasing in `lex_lt`.
pub open spec fn sorted_names(s: Seq<Seq<char>>) -> bool {
    forall|i: int, j: int| 0 <= i < j < s.len() ==> lex_lt(#[trigger] s[i], #[trigger] s[j])
}

proof fn lemma_insert_sorted(s: Seq<Seq<char>>, p: int, x: Seq<char>)
    requires
        sorted_names(s),
        0 <= p <= s.len(),
        forall|m: int| 0 <= m < p ==> lex_lt(#[trigger] s[m], x),
        forall|m: int| p <= m < s.len() ==> lex_lt(x, #[trigger] s[m]),
    ensures
        sorted_names(s.insert(p, x)),
{
    let t = s.insert(p, x);
    assert forall|i: int, j: int| 0 <= i < j < t.len() implies lex_lt(#[trigger] t[i], #[trigger] t[j]) by {
        if j < p {
            assert(t[i] == s[i] && t[j] == s[j]);
        } else if j == p {
            assert(t[i] == s[i]);
        } else if i < p {
            assert(t[i] == s[i] && t[j] == s[j - 1]);
        } else if i == p {
            assert(t[j] == s[j - 1]);
        } else {
            assert(t[i] == s[i - 1] && t[j] == s[j - 1]);
        }
    }
}

// ---------------------------------------------------------------------
// The command table
// ---------------------------------------------------------------------

/// Map from names to handlers built by inserting `e` in order: a later
/// entry for a name replaces an earlier one.
pub open spec fn entries_map<H>(e: Seq<(String, H)>) -> Map<Seq<char>, H>
    decreases e.len(),
{
    if e.len() == 0 {
        Map::empty()
    } else {
        entries_map(e.drop_last()).insert(e.last().0@, e.last().1)
    }
}

/// Law: when a name is registered more than once, the table keeps the
/// handler of its last registration.
pub proof fn lemma_last_registration_wins<H>(pairs: Seq<(String, H)>, i: int)
    requires
        0 <= i < pairs.len(),
        forall|j: int| i < j < pairs.len() ==> (#[trigger] pairs[j]).0@ != pairs[i].0@,
    ensures
        entries_map(pairs).dom().contains(pairs[i].0@),
        entries_map(pairs)[pairs[i].0@] == pairs[i].1,
    decreases pairs.len(),
{
    if i < pairs.len() - 1 {
        let d = pairs.drop_last();
        assert forall|j: int| i < j < d.len() implies (#[trigger] d[j]).0@ != d[i].0@ by {
            assert(d[j] == pairs[j]);
        }
        lemma_last_registration_wins(d, i);
        assert(pairs.last() == pairs[pairs.len() - 1]);
    }
}

/// No name occurs twice.
pub open spec fn names_distinct<H>(e: Seq<(String, H)>) -> bool {
    forall|i: int, j: int| 0 <= i < j < e.len() ==> (#[trigger] e[i]).0@ != (#[trigger] e[j]).0@
}

proof fn lemma_entries_map<H>(e: Seq<(String, H)>)
    requires
        names_distinct(e),
    ensures
        forall|k: Seq<char>| #[trigger] entries_map(e).dom().contains(k) <==> exists|i: int| 0 <= i < e.len() && e[i].0@ == k,
        forall|i: int| 0 <= i < e.len() ==> entries_map(e)[(#[trigger] e[i]).0@] == e[i].1,
        entries_map(e).dom().finite(),
        entries_map(e).dom().len() == e.len(),
    decreases e.len(),
{
    if e.len() > 0 {
        let d = e.drop_last();
        assert(names_distinct(d)) by {
            assert forall|i: int, j: int| 0 <= i < j < d.len() implies (#[trigger] d[i]).0@ != (#[trigger] d[j]).0@ by {
                assert(d[i] == e[i] && d[j] == e[j]);
            }
        }
        lemma_entries_map(d);
        let x = e.last();
        assert(!entries_map(d).dom().contains(x.0@)) by {
            if entries_map(d).dom().contains(x.0@) {
                let i = choose|i: int| 0 <= i < d.len() && d[i].0@ == x.0@;
                assert(e[i] == d[i]);
                assert(e[e.len() - 1] == x);
            }
        }
        assert forall|k: Seq<char>| #[trigger] entries_map(e).dom().contains(k) <==> exists|i: int| 0 <= i < e.len() && e[i].0@ == k by {
            if entries_map(d).dom().contains(k) {
                let i = choose|i: int| 0 <= i < d.len() && d[i].0@ == k;
                assert(e[i] == d[i]);
            }
            if exists|i: int| 0 <= i < e.len() && e[i].0@ == k {
                let i = choose|i: int| 0 <= i < e.len() && e[i].0@ == k;
                if i < d.len() {
                    assert(e[i] == d[i]);
                }
            }
        }
        assert forall|i: int| 0 <= i < e.len() implies entries_map(e)[(#[trigger] e[i]).0@] == e[i].1 by {
            if i < d.len() {
                assert(e[i] == d[i]);
                assert(e[e.len() - 1] == x);
                assert(e[i].0@ != x.0@);
            }
        }
    }
}

/// The names of `e`, in order.
pub open spec fn key_seq<H>(e: Seq<(String, H)>) -> Seq<Seq<char>> {
    e.map_values(|p: (String, H)| p.0@)
}

proof fn lemma_key_seq_dom<H>(e: Seq<(String, H)>)
    requires
        names_distinct(e),
    ensures
        forall|k: Seq<char>| #[trigger] entries_map(e).dom().contains(k) <==> key_seq(e).contains(k),
        key_seq(e).len() == e.len(),
{
    lemma_entries_map(e);
    assert forall|k: Seq<char>| #[trigger] entries_map(e).dom().contains(k) <==> key_seq(e).contains(k) by {
        if key_seq(e).contains(k) {
            let i = choose|i: int| 0 <= i < key_seq(e).len() && key_seq(e)[i] == k;
            assert(e[i].0@ == k);
        }
        if entries_map(e).dom().contains(k) {
            let i = choose|i: int| 0 <= i < e.len() && e[i].0@ == k;
            assert(key_seq(e)[i] == k);
        }
    }
}

proof fn lemma_distinct_keys_fresh<H>(e: Seq<(String, H)>, i: int)
    requires
        names_distinct(e),
        0 <= i < e.len(),
    ensures
        !key_seq(e).take(i).to_set().contains(e[i].0@),
{
    if key_seq(e).take(i).to_set().contains(e[i].0@) {
        assert(key_seq(e).take(i).contains(e[i].0@));
        let j = choose|j: int| 0 <= j < i && key_seq(e).take(i)[j] == e[i].0@;
        assert(e[j].0@ == e[i].0@);
    }
}

proof fn lemma_insert_to_set(s: Seq<Seq<char>>, p: int, x: Seq<char>)
    requires
        0 <= p <= s.len(),
    ensures
        s.insert(p, x).to_set() == s.to_set().insert(x),
{
    let t = s.insert(p, x);
    assert forall|y: Seq<char>| #[trigger] t.to_set().contains(y) <==> s.to_set().insert(x).contains(y) by {
        assert(t.to_set().contains(y) == t.contains(y));
        assert(s.to_set().contains(y) == s.contains(y));
        if t.contains(y) {
            let j = choose|j: int| 0 <= j < t.len() && t[j] == y;
            if j < p {
                assert(s[j] == y);
            } else if j > p {
                assert(s[j - 1] == y);
            }
        }
        if s.contains(y) {
            let j = choose|j: int| 0 <= j < s.len() && s[j] == y;
            if j < p {
                assert(t[j] == y);
            } else {
                assert(t[j + 1] == y);
            }
        }
        if y == x {
            assert(t[p] == x);
        }
    }
    assert(t.to_set() =~= s.to_set().insert(x));
}

proof fn lemma_push_to_set(s: Seq<Seq<char>>, x: Seq<char>)
    ensures
        s.push(x).to_set() == s.to_set().insert(x),
{
    let t = s.push(x);
    assert forall|y: Seq<char>| #[trigger] t.to_set().contains(y) <==> s.to_set().insert(x).contains(y) by {
        assert(t.to_set().contains(y) == t.contains(y));
        assert(s.to_set().contains(y) == s.contains(y));
        if t.contains(y) {
            let j = choose|j: int| 0 <= j < t.len() && t[j] == y;
            if j < s.len() {
                assert(s[j] == y);
            }
        }
        if s.contains(y) {
            let j = choose|j: int| 0 <= j < s.len() && s[j] == y;
            assert(t[j] == y);
        }
        if y == x {
            assert(t[s.len() as int] == x);
        }
    }
    assert(t.to_set() =~= s.to_set().insert(x));
}

/// The text of each name.
pub open spec fn name_views(v: Seq<String>) -> Seq<Seq<char>> {
    v.map_values(|s: String| s@)
}

/// The names, in order, whose registration replaced a handler when the
/// entries `e` are added one by one to a table holding `start`.
pub open spec fn replaced_names<H>(start: Map<Seq<char>, H>, e: Seq<(String, H)>) -> Seq<Seq<char>>
    decreases e.len(),
{
    if e.len() == 0 {
        Seq::empty()
    } else {
        let prev = replaced_names(start, e.drop_last());
        if start.union_prefer_right(entries_map(e.drop_last())).dom().contains(e.last().0@) {
            prev.push(e.last().0@)
        } else {
            prev
        }
    }
}

proof fn lemma_replaced_distinct<H>(start: Map<Seq<char>, H>, e: Seq<(String, H)>)
    requires
        names_distinct(e),
    ensures
        replaced_names(start, e).no_duplicates(),
        forall|k: Seq<char>| #[trigger] replaced_names(start, e).contains(k)
            <==> (start.dom().contains(k) && exists|i: int| 0 <= i < e.len() && e[i].0@ == k),
    decreases e.len(),
{
    if e.len() > 0 {
        let d = e.drop_last();
        assert(names_distinct(d)) by {
            assert forall|a: int, b: int| 0 <= a < b < d.len() implies (#[trigger] d[a]).0@ != (#[trigger] d[b]).0@ by {
                assert(d[a] == e[a] && d[b] == e[b]);
            }
        }
        lemma_replaced_distinct(start, d);
        lemma_entries_map(d);
        let last = e.last().0@;
        let prev = replaced_names(start, d);
        assert(!(exists|i: int| 0 <= i < d.len() && d[i].0@ == last)) by {
            if exists|i: int| 0 <= i < d.len() && d[i].0@ == last {
                let i = choose|i: int| 0 <= i < d.len() && d[i].0@ == last;
                assert(e[i] == d[i]);
                assert(e[e.len() - 1].0@ == last);
            }
        }
        assert(!entries_map(d).dom().contains(last));
        assert forall|k: Seq<char>| #[trigger] replaced_names(start, e).contains(k)
            <==> (start.dom().contains(k) && exists|i: int| 0 <= i < e.len() && e[i].0@ == k) by {
            if exists|i: int| 0 <= i < e.len() && e[i].0@ == k {
                let i = choose|i: int| 0 <= i < e.len() && e[i].0@ == k;
                if i < d.len() {
                    assert(d[i] == e[i]);
                }
            }
            if exists|i: int| 0 <= i < d.len() && d[i].0@ == k {
                let i = choose|i: int| 0 <= i < d.len() && d[i].0@ == k;
                assert(d[i] == e[i]);
            }
            if start.union_prefer_right(entries_map(d)).dom().contains(last) {
                assert(prev.push(last).contains(k) <==> (prev.contains(k) || k == last)) by {
                    if prev.push(last).contains(k) {
                        let j = choose|j: int| 0 <= j < prev.push(last).len() && prev.push(last)[j] == k;
                        if j < prev.len() {
                            assert(prev[j] == k);
                        }
                    }
                    if prev.contains(k) {
                        let j = choose|j: int| 0 <= j < prev.len() && prev[j] == k;
                        assert(prev.push(last)[j] == k);
                    }
                    if k == last {
                        assert(prev.push(last)[prev.len() as int] == k);
                    }
                }
            }
        }
        if start.union_prefer_right(entries_map(d)).dom().contains(last) {
            assert(!prev.contains(last));
            let p2 = prev.push(last);
            assert forall|a: int, b: int| 0 <= a < p2.len() && 0 <= b < p2.len() && a != b implies p2[a] != p2[b] by {
                if a < prev.len() && b < prev.len() {
                    assert(p2[a] == prev[a] && p2[b] == prev[b]);
                } else if a < prev.len() {
                    assert(p2[a] == prev[a]);
                    assert(prev.contains(prev[a]));
                } else if b < prev.len() {
                    assert(p2[b] == prev[b]);
                    assert(prev.contains(prev[b]));
                }
            }
        }
    }
}

/// Position of the entry named `name`.
fn position_in<H>(e: &Vec<(String, H)>, name: &str) -> (r: Option<usize>)
    ensures
        match r {
            Some(i) => i < e@.len() && e@[i as int].0@ == name@,
            None => forall|i: int| 0 <= i < e@.len() ==> e@[i].0@ != name@,
        },
{
    let mut i: usize = 0;
    while i < e.len()
        invariant
            i <= e@.len(),
            forall|j: int| 0 <= j < i ==> e@[j].0@ != name@,
        decreases e@.len() - i,
    {
        if str_eq(e[i].0.as_str(), name) {
            return Some(i);
        }
        i = i + 1;
    }
    None
}

/// Registers `f` under `name` in entries with distinct names; an earlier
/// entry of that name is replaced.  Returns whether one was replaced.
fn insert_into<H>(e: &mut Vec<(String, H)>, name: String, f: H) -> (replaced: bool)
    requires
        names_distinct(old(e)@),
    ensures
        names_distinct(final(e)@),
        entries_map(final(e)@) == entries_map(old(e)@).insert(name@, f),
        replaced == entries_map(old(e)@).dom().contains(name@),
{
    proof {
        lemma_entries_map(e@);
    }
    match position_in(e, name.as_str()) {
        Some(i) => {
            let ghost old_e = e@;
            let ghost k = name@;
            e.set(i, (name, f));
            proof {
                let e = e@;
                assert(names_distinct(e)) by {
                    assert forall|a: int, b: int| 0 <= a < b < e.len() implies (#[trigger] e[a]).0@ != (#[trigger] e[b]).0@ by {
                        if a != i as int {
                            assert(e[a] == old_e[a]);
                        }
                        if b != i as int {
                            assert(e[b] == old_e[b]);
                        }
                    }
                }
                lemma_entries_map(e);
                assert(entries_map(e) =~= entries_map(old_e).insert(k, f)) by {
                    assert forall|key: Seq<char>| #[trigger] entries_map(e).dom().contains(key) <==> entries_map(old_e).insert(k, f).dom().contains(key) by {
                        if exists|j: int| 0 <= j < e.len() && e[j].0@ == key {
                            let j = choose|j: int| 0 <= j < e.len() && e[j].0@ == key;
                            if j != i as int {
                                assert(e[j] == old_e[j]);
                            }
                        }
                        if exists|j: int| 0 <= j < old_e.len() && old_e[j].0@ == key {
                            let j = choose|j: int| 0 <= j < old_e.len() && old_e[j].0@ == key;
                            if j != i as int {
                                assert(e[j] == old_e[j]);
                            } else {
                                assert(e[j].0@ == k);
                            }
                        }
                    }
                    assert forall|key: Seq<char>| #[trigger] entries_map(e).dom().contains(key) implies entries_map(e)[key] == entries_map(old_e).insert(k, f)[key] by {
                        let j = choose|j: int| 0 <= j < e.len() && e[j].0@ == key;
                        if j != i as int {
                            assert(e[j] == old_e[j]);
                            assert(old_e[j].0@ != old_e[i as int].0@);
                        }
                    }
                }
            }
            true
        }
        None => {
            let ghost old_e = e@;
            e.push((name, f));
            proof {
                let e = e@;
                assert(e.drop_last() =~= old_e);
                assert(names_distinct(e)) by {
                    assert forall|a: int, b: int| 0 <= a < b < e.len() implies (#[trigger] e[a]).0@ != (#[trigger] e[b]).0@ by {
                        assert(e[a] == old_e[a] || a == e.len() - 1);
                        if b == e.len() - 1 {
                            assert(e[a] == old_e[a]);
                        } else {
                            assert(e[b] == old_e[b]);
                            assert(e[a] == old_e[a]);
                        }
                    }
                }
                if entries_map(old_e).dom().contains(name@) {
                    let j = choose|j: int| 0 <= j < old_e.len() && old_e[j].0@ == name@;
                }
            }
            false
        }
    }
}

/// The command table: each name maps to one handler.
pub struct Handlers<H> {
    entries: Vec<(String, H)>,
}

impl<H> Handlers<H> {
    /// Every name is registered once.
    #[verifier::type_invariant]
    closed spec fn wf(&self) -> bool {
        names_distinct(self.entries@)
    }
}

impl<H: Copy> Handlers<H> {
    /// The names and handlers registered.
    pub closed spec fn view(&self) -> Map<Seq<char>, H> {
        entries_map(self.entries@)
    }

    /// Registers `f` under `name`; an earlier handler of that name is
    /// replaced.  Returns whether one was replaced.
    fn insert(&mut self, name: String, f: H) -> (replaced: bool)
        ensures
            final(self)@ == old(self)@.insert(name@, f),
            replaced == old(self)@.dom().contains(name@),
    {
        proof {
            use_type_invariant(&*self);
        }
        let mut e: Vec<(String, H)> = Vec::new();
        std::mem::swap(&mut e, &mut self.entries);
        let replaced = insert_into(&mut e, name, f);
        self.entries = e;
        replaced
    }

    /// Builds the table from `(name, handler)` pairs; when a name occurs
    /// more than once the later handler wins.
    pub fn from_pairs(pairs: Vec<(String, H)>) -> (r: Self)
        ensures
            r@ == entries_map(pairs@),
    {
        let (h, _replaced) = Self::from_pairs_with_replaced(pairs);
        h
    }

    /// Builds the table from `(name, handler)` pairs, and lists, in order,
    /// the names whose registration replaced an earlier handler.
    pub fn from_pairs_with_replaced(pairs: Vec<(String, H)>) -> (r: (Self, Vec<String>))
        ensures
            r.0@ == entries_map(pairs@),
            r.1@.map_values(|s: String| s@) == replaced_names(Map::<Seq<char>, H>::empty(), pairs@),
    {
        let mut h = Handlers { entries: Vec::new() };
        let mut replaced: Vec<String> = Vec::new();
        proof {
            assert(h@ =~= Map::<Seq<char>, H>::empty().union_prefer_right(entries_map(pairs@.take(0))));
            assert(replaced@.map_values(|s: String| s@) =~= replaced_names(Map::<Seq<char>, H>::empty(), pairs@.take(0)));
        }
        let mut rest = pairs;
        let ghost all = rest@;
        let mut i: usize = 0;
        let n = rest.len();
        proof {
            assert(all.skip(0) =~= all);
        }
        while i < n
            invariant
                n == all.len(),
                i <= n,
                rest@ =~= all.skip(i as int),
                h@ == Map::<Seq<char>, H>::empty().union_prefer_right(entries_map(all.take(i as int))),
                replaced@.map_values(|s: String| s@) == replaced_names(Map::<Seq<char>, H>::empty(), all.take(i as int)),
            decreases n - i,
        {
            let ghost before = rest@;
            let ghost old_h = h@;
            let ghost old_r = replaced@;
            let (name, f) = rest.remove(0);
            proof {
                assert(before[0] == all[i as int]);
                assert(rest@ =~= all.skip(i + 1));
                assert(all.take(i + 1).drop_last() =~= all.take(i as int));
                assert(all.take(i + 1).last() == all[i as int]);
                assert(Map::<Seq<char>, H>::empty().union_prefer_right(entries_map(all.take(i as int))).insert(name@, f)
                    =~= Map::<Seq<char>, H>::empty().union_prefer_right(entries_map(all.take(i as int)).insert(name@, f)));
            }
            let noted = name.clone();
            if h.insert(name, f) {
                replaced.push(noted);
                proof {
                    assert(replaced@.map_values(|s: String| s@) =~= old_r.map_values(|s: String| s@).push(noted@));
                }
            }
            i = i + 1;
        }
        proof {
            assert(all.take(n as int) =~= all);
            assert(h@ =~= entries_map(all));
        }
        (h, replaced)
    }

    /// Adds every command of `other`; a name present in both gets the
    /// handler from `other`.
    pub fn extend(&mut self, other: Handlers<H>)
        ensures
            final(self)@ == old(self)@.union_prefer_right(other@),
    {
        let _replaced = self.extend_with_replaced(other);
    }

    /// Adds every command of `other`, and lists the names that replaced a
    /// handler already in the table: each name present in both tables,
    /// once.
    pub fn extend_with_replaced(&mut self, other: Handlers<H>) -> (replaced: Vec<String>)
        ensures
            final(self)@ == old(self)@.union_prefer_right(other@),
            name_views(replaced@).no_duplicates(),
            forall|k: Seq<char>| #[trigger] name_views(replaced@).contains(k)
                <==> (old(self)@.dom().contains(k) && other@.dom().contains(k)),
    {
        proof {
            use_type_invariant(&other);
        }
        let ghost start = self@;
        let ghost oe = other.entries@;
        let mut rest = other.entries;
        let n = rest.len();
        let mut i: usize = 0;
        let mut replaced: Vec<String> = Vec::new();
        proof {
            assert(oe.skip(0) =~= oe);
            assert(start.union_prefer_right(entries_map(oe.take(0))) =~= start);
            assert(replaced@.map_values(|s: String| s@) =~= replaced_names(start, oe.take(0)));
        }
        while i < n
            invariant
                n == oe.len(),
                i <= n,
                rest@ =~= oe.skip(i as int),
                self@ == start.union_prefer_right(entries_map(oe.take(i as int))),
                replaced@.map_values(|s: String| s@) == replaced_names(start, oe.take(i as int)),
            decreases n - i,
        {
            let ghost before = rest@;
            let ghost old_r = replaced@;
            let (name, f) = rest.remove(0);
            proof {
                assert(before[0] == oe[i as int]);
                assert(rest@ =~= oe.skip(i + 1));
                assert(oe.take(i + 1).drop_last() =~= oe.take(i as int));
                assert(oe.take(i + 1).last() == oe[i as int]);
                assert(start.union_prefer_right(entries_map(oe.take(i as int))).insert(name@, f)
                    =~= start.union_prefer_right(entries_map(oe.take(i as int)).insert(name@, f)));
            }
            let noted = name.clone();
            if self.insert(name, f) {
                replaced.push(noted);
                proof {
                    assert(replaced@.map_values(|s: String| s@) =~= old_r.map_values(|s: String| s@).push(noted@));
                }
            }
            i = i + 1;
        }
        proof {
            assert(oe.take(n as int) =~= oe);
            lemma_replaced_distinct(start, oe);
            lemma_entries_map(oe);
        }
        replaced
    }

    /// The handler registered under `name`.
    pub fn get(&self, name: &str) -> (r: Option<H>)
        ensures
            r == (if self@.dom().contains(name@) { Some(self@[name@]) } else { None::<H> }),
    {
        proof {
            use_type_invariant(self);
            lemma_entries_map(self.entries@);
        }
        match position_in(&self.entries, name) {
            Some(i) => {
                proof {
                    assert(self.entries@[i as int].0@ == name@);
                }
                Some(self.entries[i].1)
            }
            None => {
                proof {
                    if self@.dom().contains(name@) {
                        let j = choose|j: int| 0 <= j < self.entries@.len() && self.entries@[j].0@ == name@;
                    }
                }
                None
            }
        }
    }

    /// Number of registered commands.
    pub fn len(&self) -> (r: usize)
        ensures
            r == self@.dom().len(),
    {
        proof {
            use_type_invariant(self);
            lemma_entries_map(self.entries@);
        }
        self.entries.len()
    }

    /// Whether no command is registered.
    pub fn is_empty(&self) -> (r: bool)
        ensures
            r == (self@.dom().len() == 0),
    {
        proof {
            use_type_invariant(self);
            lemma_entries_map(self.entries@);
        }
        self.entries.len() == 0
    }

    /// The registered names in ascending order.
    pub fn names(&self) -> (r: Vec<String>)
        ensures
            sorted_names(r@.map_values(|s: String| s@)),
            r@.len() == self@.dom().len(),
            forall|k: Seq<char>| #[trigger] self@.dom().contains(k) <==> r@.map_values(|s: String| s@).contains(k),
    {
        proof {
            use_type_invariant(self);
            lemma_entries_map(self.entries@);
        }
        let mut out: Vec<String> = Vec::new();
        let mut keys: Vec<Vec<char>> = Vec::new();
        let mut i: usize = 0;
        let ghost ks = key_seq(self.entries@);
        while i < self.entries.len()
            invariant
                names_distinct(self.entries@),
                ks == key_seq(self.entries@),
                i <= self.entries@.len(),
                keys@.len() == i,
                out@.map_values(|s: String| s@) == keys@.map_values(|v: Vec<char>| v@),
                sorted_names(keys@.map_values(|v: Vec<char>| v@)),
                keys@.map_values(|v: Vec<char>| v@).to_set() == ks.take(i as int).to_set(),
            decreases self.entries@.len() - i,
        {
            let name = self.entries[i].0.clone();
            let nc = chars_of(name.as_str());
            let ghost kv = keys@.map_values(|v: Vec<char>| v@);
            proof {
                lemma_distinct_keys_fresh(self.entries@, i as int);
                assert forall|m: int| 0 <= m < kv.len() implies kv[m] != nc@ by {
                    assert(kv.to_set().contains(kv[m]));
                }
            }
            let mut p: usize = 0;
            while p < keys.len() && !lex_less(&nc, &keys[p])
                invariant
                    p <= keys@.len(),
                    kv == keys@.map_values(|v: Vec<char>| v@),
                    forall|m: int| 0 <= m < kv.len() ==> kv[m] != nc@,
                    forall|m: int| 0 <= m < p ==> lex_lt(#[trigger] kv[m], nc@),
                decreases keys@.len() - p,
            {
                proof {
                    assert(kv[p as int] == keys@[p as int]@);
                    lemma_lex_total(kv[p as int], nc@);
                }
                p = p + 1;
            }
            proof {
                assert forall|m: int| p <= m < kv.len() implies lex_lt(nc@, #[trigger] kv[m]) by {
                    assert(kv[p as int] == keys@[p as int]@);
                    if m > p {
                        assert(lex_lt(kv[p as int], kv[m]));
                        lemma_lex_transitive(nc@, kv[p as int], kv[m]);
                    }
                }
                lemma_insert_sorted(kv, p as int, nc@);
            }
            let ghost old_out = out@;
            let ghost old_keys = keys@;
            out.insert(p, name);
            keys.insert(p, nc);
            proof {
                assert(keys@.map_values(|v: Vec<char>| v@) =~= kv.insert(p as int, nc@));
                assert(out@.map_values(|s: String| s@) =~= old_out.map_values(|s: String| s@).insert(p as int, nc@));
                lemma_insert_to_set(kv, p as int, nc@);
                assert(ks.take(i + 1) =~= ks.take(i as int).push(nc@));
                lemma_push_to_set(ks.take(i as int), nc@);
            }
            i = i + 1;
        }
        proof {
            assert(ks.take(i as int) =~= ks);
            lemma_key_seq_dom(self.entries@);
            let ov = out@.map_values(|s: String| s@);
            assert forall|k: Seq<char>| #[trigger] self@.dom().contains(k) <==> ov.contains(k) by {
                assert(ov.to_set().contains(k) == ov.contains(k));
                assert(ks.to_set().contains(k) == ks.contains(k));
            }
        }
        out
    }

    /// The handler that runs for `name`, or the error for an unknown
    /// command.
    pub fn dispatch_target(&self, name: &str) -> (r: Result<H, String>)
        ensures
            self@.dom().contains(name@) ==> r == Ok::<H, String>(self@[name@]),
            !self@.dom().contains(name@) ==> (r matches Err(m) && m@ == "未知命令: "@ + name@),
    {
        match self.get(name) {
            Some(h) => Ok(h),
            None => {
                let mut m = String::new();
                m.append("未知命令: ");
                m.append(name);
                Err(m)
            }
        }
    }
}


// ---------------------------------------------------------------------
// The token check
// ---------------------------------------------------------------------

/// The request carries the sidecar's token in its `x-ccs-token` header.
pub open spec fn spec_authorized(token: Seq<char>, header: Option<Seq<char>>) -> bool {
    header == Some(token)
}

/// Whether the `x-ccs-token` header (when present and readable as text)
/// equals the token.
pub fn authorized(token: &str, header: Option<&str>) -> (r: bool)
    ensures
        r == spec_authorized(token@, match header { Some(h) => Some(h@), None => None }),
{
    match header {
        Some(h) => str_eq(h, token),
        None => false,
    }
}

/// For the event stream, which cannot send headers: the header or the
/// `?token=` query parameter must equal the token.
pub fn authorized_with_query(token: &str, header: Option<&str>, query: Option<&str>) -> (r: bool)
    ensures
        r == (spec_authorized(token@, match header { Some(h) => Some(h@), None => None })
            || spec_authorized(token@, match query { Some(q) => Some(q@), None => None })),
{
    if authorized(token, header) {
        return true;
    }
    authorized(token, query)
}

/// The `?token=..` query parameter of the event stream.
pub struct TokenQuery {
    pub token: Option<String>,
}

// ---------------------------------------------------------------------
// Replies of POST /rpc/{cmd}
// ---------------------------------------------------------------------

/// What `POST /rpc/{cmd}` answers.
pub enum RpcReply<V> {
    /// 401 `{"error": <message>}`: the token is missing or wrong.
    Unauthorized(String),
    /// 404 `{"ok": false, "error": <message>}`: no such command.
    UnknownCommand(String),
    /// 200 `{"ok": true, "data": <value>}`: the command succeeded.
    Success(V),
    /// 200 `{"ok": false, "error": <message>}`: the command returned an error.
    Failure(String),
}

impl<V> RpcReply<V> {
    /// HTTP status of the reply.
    pub open spec fn spec_status(&self) -> u16 {
        match self {
            RpcReply::Unauthorized(_) => 401,
            RpcReply::UnknownCommand(_) => 404,
            RpcReply::Success(_) => 200,
            RpcReply::Failure(_) => 200,
        }
    }

    /// HTTP status of the reply: a command error is a business error (200),
    /// not a transport error.
    pub fn status(&self) -> (r: u16)
        ensures
            r == self.spec_status(),
    {
        match self {
            RpcReply::Unauthorized(_) => 401,
            RpcReply::UnknownCommand(_) => 404,
            RpcReply::Success(_) => 200,
            RpcReply::Failure(_) => 200,
        }
    }
}

/// Message of a refused token.
pub fn unauthorized_message() -> (r: String)
    ensures
        r@ == "无效的 X-CCS-Token"@,
{
    "无效的 X-CCS-Token".to_owned()
}

/// Decides, before running anything, what a call of `cmd` does: refuse a
/// request without the token, answer 404 for an unregistered command, or
/// run its handler.
pub fn rpc_gate<H: Copy, V>(token: &str, header: Option<&str>, handlers: &Handlers<H>, cmd: &str) -> (r: Result<H, RpcReply<V>>)
    ensures
        !spec_authorized(token@, match header { Some(h) => Some(h@), None => None }) ==>
            (r matches Err(RpcReply::Unauthorized(m)) && m@ == "无效的 X-CCS-Token"@),
        spec_authorized(token@, match header { Some(h) => Some(h@), None => None }) && !handlers@.dom().contains(cmd@) ==>
            (r matches Err(RpcReply::UnknownCommand(m)) && m@ == "未知命令: "@ + cmd@),
        spec_authorized(token@, match header { Some(h) => Some(h@), None => None }) && handlers@.dom().contains(cmd@) ==>
            r == Ok::<H, RpcReply<V>>(handlers@[cmd@]),
{
    if !authorized(token, header) {
        return Err(RpcReply::Unauthorized(unauthorized_message()));
    }
    match handlers.dispatch_target(cmd) {
        Ok(h) => Ok(h),
        Err(m) => Err(RpcReply::UnknownCommand(m)),
    }
}

/// The reply for what a command returned.
pub fn rpc_finish<V>(outcome: Result<V, String>) -> (r: RpcReply<V>)
    ensures
        outcome matches Ok(v) ==> r == RpcReply::<V>::Success(v),
        outcome matches Err(m) ==> r == RpcReply::<V>::Failure(m),
{
    match outcome {
        Ok(v) => RpcReply::Success(v),
        Err(m) => RpcReply::Failure(m),
    }
}

/// `GET /rpc`: the number and sorted names of the commands, or `None`
/// (401) without the token.
pub fn command_listing<H: Copy>(token: &str, header: Option<&str>, handlers: &Handlers<H>) -> (r: Option<(usize, Vec<String>)>)
    ensures
        !spec_authorized(token@, match header { Some(h) => Some(h@), None => None }) ==> r is None,
        spec_authorized(token@, match header { Some(h) => Some(h@), None => None }) ==> (r matches Some((n, names))
            && n == handlers@.dom().len()
            && names@.len() == n
            && sorted_names(names@.map_values(|s: String| s@))
            && forall|k: Seq<char>| #[trigger] handlers@.dom().contains(k) <==> names@.map_values(|s: String| s@).contains(k)),
{
    if !authorized(token, header) {
        return None;
    }
    Some((handlers.len(), handlers.names()))
}

// ---------------------------------------------------------------------
// Arguments
// ---------------------------------------------------------------------

/// Position of the first key equal to `k`.
pub open spec fn key_position(keys: Seq<Seq<char>>, k: Seq<char>) -> Option<int>
    decreases keys.len(),
{
    if keys.len() == 0 {
        None
    } else {
        match key_position(keys.drop_last(), k) {
            Some(i) => Some(i),
            None => if keys.last() == k { Some(keys.len() - 1) } else { None },
        }
    }
}

/// Which key of the argument object a parameter is read from: the key
/// itself, else its snake_case form when that differs; `None` means the
/// parameter is absent (and reads as `null`).
pub open spec fn spec_arg_position(keys: Seq<Seq<char>>, key: Seq<char>) -> Option<int> {
    match key_position(keys, key) {
        Some(i) => Some(i),
        None => if spec_to_snake(key) == key { None } else { key_position(keys, spec_to_snake(key)) },
    }
}

fn find_key(keys: &Vec<String>, k: &str) -> (r: Option<usize>)
    ensures
        match r {
            Some(i) => key_position(keys@.map_values(|s: String| s@), k@) == Some(i as int),
            None => key_position(keys@.map_values(|s: String| s@), k@) is None,
        },
{
    let ghost kv = keys@.map_values(|s: String| s@);
    let mut i: usize = 0;
    while i < keys.len()
        invariant
            kv == keys@.map_values(|s: String| s@),
            i <= keys@.len(),
            key_position(kv.take(i as int), k@) is None,
        decreases keys@.len() - i,
    {
        proof {
            assert(kv.take(i + 1).drop_last() =~= kv.take(i as int));
            assert(kv.take(i + 1).last() == keys@[i as int]@);
        }
        if str_eq(keys[i].as_str(), k) {
            proof {
                lemma_key_position_prefix(kv, k@, i + 1);
            }
            return Some(i);
        }
        i = i + 1;
    }
    proof {
        assert(kv.take(i as int) =~= kv);
    }
    None
}

proof fn lemma_key_position_prefix(keys: Seq<Seq<char>>, k: Seq<char>, n: int)
    requires
        0 <= n <= keys.len(),
        key_position(keys.take(n), k) is Some,
    ensures
        key_position(keys, k) == key_position(keys.take(n), k),
    decreases keys.len() - n,
{
    if n < keys.len() {
        assert(keys.take(n + 1).drop_last() =~= keys.take(n));
        lemma_key_position_prefix(keys, k, n + 1);
    } else {
        assert(keys.take(n) =~= keys);
    }
}

/// Finds where a command parameter named `key` is read from in an argument
/// object with keys `keys` (in the object's order).
pub fn arg_position(keys: &Vec<String>, key: &str) -> (r: Option<usize>)
    ensures
        r matches Some(i) ==> spec_arg_position(keys@.map_values(|s: String| s@), key@) == Some(i as int),
        r is None ==> spec_arg_position(keys@.map_values(|s: String| s@), key@) is None,
{
    match find_key(keys, key) {
        Some(i) => Some(i),
        None => {
            let snake = to_snake(key);
            if str_eq(snake.as_str(), key) {
                None
            } else {
                find_key(keys, snake.as_str())
            }
        }
    }
}


/// Law: a parameter named in snake_case is read from its lowerCamelCase
/// key, and when the arguments lack that key, from the key spelled exactly
/// as the parameter is named.
pub proof fn lemma_param_read_under_own_name(keys: Seq<Seq<char>>, raw: Seq<char>)
    requires
        is_snake_name(raw),
    ensures
        spec_arg_position(keys, spec_to_camel(raw)) == match key_position(keys, spec_to_camel(raw)) {
            Some(i) => Some(i),
            None => key_position(keys, raw),
        },
{
    lemma_snake_of_camel(raw);
}


/// Law: the three kinds of refusal stay apart by status: a refused token
/// (401), an unknown command (404) and a command that ran and failed (200)
/// never share a status, and a failure shares its status with success.
pub proof fn lemma_reply_statuses_apart<V>(refused: String, unknown: String, failed: String, value: V)
    ensures
        RpcReply::<V>::Unauthorized(refused).spec_status() != RpcReply::<V>::UnknownCommand(unknown).spec_status(),
        RpcReply::<V>::Unauthorized(refused).spec_status() != RpcReply::<V>::Failure(failed).spec_status(),
        RpcReply::<V>::UnknownCommand(unknown).spec_status() != RpcReply::<V>::Failure(failed).spec_status(),
        RpcReply::<V>::Failure(failed).spec_status() == RpcReply::<V>::Success(value).spec_status(),
{
}


/// A command's error as the text the front end receives: its `Display`
/// form.
pub fn stringify_err<E: std::fmt::Display>(e: E) -> (r: String)
    ensures
        vstd::string::to_string_from_display_ensures::<E>(&e, r),
{
    e.to_string()
}


// ---------------------------------------------------------------------
// The event stream
// ---------------------------------------------------------------------

/// What a subscriber of the event broadcast received.
pub enum Received<E> {
    /// The next event.
    Event(E),
    /// The subscriber fell behind and this many events were dropped.
    Lagged(u64),
    /// The broadcast has ended.
    Closed,
}

/// What the event stream does with what it received.
pub enum StreamStep<E> {
    /// Send the event to the client.
    Send(E),
    /// Note the loss and keep receiving; the stream is not cut.
    Skip(u64),
    /// End the stream.
    Stop,
}

/// Events are sent, a lag is skipped over without ending the stream, and
/// the stream ends only when the broadcast does.
pub fn stream_step<E>(received: Received<E>) -> (r: StreamStep<E>)
    ensures
        received matches Received::Event(e) ==> r == StreamStep::Send(e),
        received matches Received::Lagged(n) ==> r == StreamStep::<E>::Skip(n),
        received is Closed ==> r is Stop,
{
    match received {
        Received::Event(e) => StreamStep::Send(e),
        Received::Lagged(n) => StreamStep::Skip(n),
        Received::Closed => StreamStep::Stop,
    }
}

} // verus!
