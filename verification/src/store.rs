//! The key-value store of the store plugin: a JSON object kept in memory,
//! loaded from the text of its file and written back as pretty JSON.

use vstd::prelude::*;

verus! {

/// A JSON object, as serde_json holds it.
#[verifier::external_type_specification]
#[verifier::external_body]
#[verifier::reject_recursive_types(K)]
#[verifier::reject_recursive_types(V)]
pub struct ExJsonMap<K, V>(serde_json::Map<K, V>);

/// The entries of a JSON object: each key's text and its value.
pub uninterp spec fn store_entries(m: serde_json::Map<String, serde_json::Value>) -> Map<Seq<char>, serde_json::Value>;

/// The entries of the JSON object that `text` holds, or `None` when the
/// text is not a JSON object.
pub uninterp spec fn json_object_of(text: Seq<char>) -> Option<Map<Seq<char>, serde_json::Value>>;

/// The pretty-printed JSON text of an object with these entries (serde_json
/// keeps an object's keys sorted, so the entries fix the text).
pub uninterp spec fn pretty_json_of(entries: Map<Seq<char>, serde_json::Value>) -> Seq<char>;

/// Calls `serde_json::from_str` for a `Map<String, Value>`.
/// Claimed: it succeeds exactly when the text holds a JSON object, and
/// then holds that object's entries.
#[verifier::external_body]
fn parse_json_object(text: &str) -> (r: Option<serde_json::Map<String, serde_json::Value>>)
    ensures
        r is Some == json_object_of(text@) is Some,
        r matches Some(m) ==> store_entries(m) == json_object_of(text@)->0,
{
    serde_json::from_str::<serde_json::Map<String, serde_json::Value>>(text).ok()
}

/// Calls `serde_json::Map::new`: an object without entries.
#[verifier::external_body]
fn empty_json_object() -> (r: serde_json::Map<String, serde_json::Value>)
    ensures
        store_entries(r).dom().is_empty(),
{
    serde_json::Map::new()
}

/// Calls `serde_json::Map::get`: the value under `key`, if any.
#[verifier::external_body]
fn json_get<'a>(m: &'a serde_json::Map<String, serde_json::Value>, key: &str) -> (r: Option<&'a serde_json::Value>)
    ensures
        r is Some == store_entries(*m).dom().contains(key@),
        r matches Some(v) ==> *v == store_entries(*m)[key@],
{
    m.get(key)
}

/// Calls `serde_json::Map::insert`: `key` now holds `value`; returns whether
/// the key held a value before.
#[verifier::external_body]
fn json_insert(m: &mut serde_json::Map<String, serde_json::Value>, key: String, value: serde_json::Value) -> (had: bool)
    ensures
        store_entries(*final(m)) == store_entries(*old(m)).insert(key@, value),
        had == store_entries(*old(m)).dom().contains(key@),
{
    m.insert(key, value).is_some()
}

/// Calls `serde_json::Map::remove`: `key` is gone; returns whether it held
/// a value.
#[verifier::external_body]
fn json_remove(m: &mut serde_json::Map<String, serde_json::Value>, key: &str) -> (had: bool)
    ensures
        store_entries(*final(m)) == store_entries(*old(m)).remove(key@),
        had == store_entries(*old(m)).dom().contains(key@),
{
    m.remove(key).is_some()
}

/// Calls `serde_json::to_string_pretty` on the object.
/// Claimed: it succeeds (it fails only for a failing `Serialize` impl or a
/// map key that is not a string, neither possible for an object of JSON
/// values), giving the named pretty form of the object.
#[verifier::external_body]
fn json_pretty(m: &serde_json::Map<String, serde_json::Value>) -> (r: Result<String, String>)
    ensures
        r is Ok,
        r matches Ok(t) ==> t@ == pretty_json_of(store_entries(*m)),
{
    match serde_json::to_string_pretty(m) {
        Ok(t) => Ok(t),
        Err(e) => Err(e.to_string()),
    }
}

/// The entries a store starts with for the text of its file (`None` when
/// the file could not be read): the file's object, else nothing.
pub open spec fn loaded_entries(text: Option<Seq<char>>) -> Map<Seq<char>, serde_json::Value> {
    match text {
        Some(t) => match json_object_of(t) {
            Some(m) => m,
            None => Map::empty(),
        },
        None => Map::empty(),
    }
}

/// The data of a store.
pub struct StoreData {
    entries: serde_json::Map<String, serde_json::Value>,
}

impl StoreData {
    /// The keys and values held.
    pub closed spec fn view(&self) -> Map<Seq<char>, serde_json::Value> {
        store_entries(self.entries)
    }

    /// Loads a store from the text of its file; a file that could not be
    /// read, or that holds no JSON object, gives an empty store.
    pub fn load(text: Option<String>) -> (r: Self)
        ensures
            r@ == loaded_entries(match text { Some(t) => Some(t@), None => None }),
    {
        let entries = match &text {
            Some(t) => match parse_json_object(t.as_str()) {
                Some(m) => m,
                None => empty_json_object(),
            },
            None => empty_json_object(),
        };
        proof {
            if loaded_entries(match text { Some(t) => Some(t@), None => None }) == Map::<Seq<char>, serde_json::Value>::empty() {
                assert(store_entries(entries) =~= Map::<Seq<char>, serde_json::Value>::empty());
            }
        }
        StoreData { entries }
    }

    /// The value stored under `key`.
    pub fn get(&self, key: &str) -> (r: Option<&serde_json::Value>)
        ensures
            r is Some == self@.dom().contains(key@),
            r matches Some(v) ==> *v == self@[key@],
    {
        json_get(&self.entries, key)
    }

    /// Stores `value` under `key`, replacing what was there.
    pub fn set(&mut self, key: String, value: serde_json::Value)
        ensures
            final(self)@ == old(self)@.insert(key@, value),
            final(self)@ == apply_writes(old(self)@, seq![(key@, Some(value))]),
    {
        let ghost k = key@;
        let ghost before = self@;
        let _had = json_insert(&mut self.entries, key, value);
        proof {
            lemma_one_write(before, k, Some(value));
        }
    }

    /// Removes `key`; returns whether it was stored.
    pub fn delete(&mut self, key: &str) -> (r: bool)
        ensures
            final(self)@ == old(self)@.remove(key@),
            final(self)@ == apply_writes(old(self)@, seq![(key@, None::<serde_json::Value>)]),
            r == old(self)@.dom().contains(key@),
    {
        proof {
            lemma_one_write(self@, key@, None);
        }
        json_remove(&mut self.entries, key)
    }

    /// The text written to the store's file: the object as pretty JSON.
    /// Serializing an object of JSON values never fails, so this is always
    /// `Ok`; the error form `序列化 Store 失败: <message>` is kept for the
    /// serializer's signature.
    pub fn file_text(&self) -> (r: Result<String, String>)
        ensures
            r matches Ok(t) && t@ == pretty_json_of(self@),
    {
        match json_pretty(&self.entries) {
            Ok(t) => Ok(t),
            Err(e) => {
                let mut m = String::new();
                m.append("序列化 Store 失败: ");
                m.append(e.as_str());
                Err(m)
            },
        }
    }
}

/// The entries after a sequence of writes, in order: `(key, Some(value))`
/// stores the value under the key, `(key, None)` deletes the key.
pub open spec fn apply_writes(
    m: Map<Seq<char>, serde_json::Value>,
    ops: Seq<(Seq<char>, Option<serde_json::Value>)>,
) -> Map<Seq<char>, serde_json::Value>
    decreases ops.len(),
{
    if ops.len() == 0 {
        m
    } else {
        let prev = apply_writes(m, ops.drop_last());
        match ops.last().1 {
            Some(v) => prev.insert(ops.last().0, v),
            None => prev.remove(ops.last().0),
        }
    }
}

proof fn lemma_one_write(m: Map<Seq<char>, serde_json::Value>, k: Seq<char>, o: Option<serde_json::Value>)
    ensures
        apply_writes(m, seq![(k, o)]) == match o {
            Some(v) => m.insert(k, v),
            None => m.remove(k),
        },
{
    let ops = seq![(k, o)];
    assert(ops.drop_last() =~= Seq::<(Seq<char>, Option<serde_json::Value>)>::empty());
    assert(apply_writes(m, ops.drop_last()) == m);
}

/// Law: a read gives back the last value written to its key, whatever
/// writes and deletes of other keys follow; a key whose last write is a
/// delete reads as absent.
pub proof fn lemma_store_read_after_write(
    start: Map<Seq<char>, serde_json::Value>,
    ops: Seq<(Seq<char>, Option<serde_json::Value>)>,
    i: int,
)
    requires
        0 <= i < ops.len(),
        forall|j: int| i < j < ops.len() ==> (#[trigger] ops[j]).0 != ops[i].0,
    ensures
        match ops[i].1 {
            Some(v) => apply_writes(start, ops).dom().contains(ops[i].0) && apply_writes(start, ops)[ops[i].0] == v,
            None => !apply_writes(start, ops).dom().contains(ops[i].0),
        },
    decreases ops.len(),
{
    if i < ops.len() - 1 {
        let d = ops.drop_last();
        assert forall|j: int| i < j < d.len() implies (#[trigger] d[j]).0 != d[i].0 by {
            assert(d[j] == ops[j]);
        }
        lemma_store_read_after_write(start, d, i);
        assert(d[i] == ops[i]);
        assert(ops.last() == ops[ops.len() - 1]);
    }
}

} // verus!
