//! The key/value configuration store.

use vstd::prelude::*;
use crate::text::same_text;

verus! {

/// A configuration value, in the shapes a JSON document can hold.
/// A number keeps its JSON text, so that no precision is lost.
#[derive(Debug, PartialEq)]
pub enum ConfigValue {
    Null,
    Bool(bool),
    Number(String),
    Text(String),
    List(Vec<ConfigValue>),
    Object(Vec<(String, ConfigValue)>),
}

/// The flat mapping from keys to values that the application reads and
/// writes. Each key occurs at most once.
pub struct ConfigStore {
    entries: Vec<(String, ConfigValue)>,
}

/// No key occurs twice among the entries.
pub open spec fn keys_distinct(s: Seq<(String, ConfigValue)>) -> bool {
    forall|i: int, j: int|
        0 <= i < s.len() && 0 <= j < s.len() && i != j ==> s[i].0@ != s[j].0@
}

/// Some entry has the key `k`.
pub open spec fn has_key(s: Seq<(String, ConfigValue)>, k: Seq<char>) -> bool {
    exists|i: int| 0 <= i < s.len() && s[i].0@ == k
}

/// A position of an entry with the key `k`.
pub open spec fn key_index(s: Seq<(String, ConfigValue)>, k: Seq<char>) -> int {
    choose|i: int| 0 <= i < s.len() && s[i].0@ == k
}

/// The mapping that a sequence of distinct-key entries stands for.
pub open spec fn entries_view(s: Seq<(String, ConfigValue)>) -> Map<Seq<char>, ConfigValue> {
    Map::new(|k: Seq<char>| has_key(s, k), |k: Seq<char>| s[key_index(s, k)].1)
}

/// The mapping described by a list of entries read in order: a key that
/// occurs more than once takes its last value.
pub open spec fn snapshot(s: Seq<(String, ConfigValue)>) -> Map<Seq<char>, ConfigValue>
    decreases s.len(),
{
    if s.len() == 0 {
        Map::empty()
    } else {
        snapshot(s.drop_last()).insert(s.last().0@, s.last().1)
    }
}

proof fn lemma_view_at(s: Seq<(String, ConfigValue)>, i: int)
    requires
        keys_distinct(s),
        0 <= i < s.len(),
    ensures
        entries_view(s).contains_key(s[i].0@),
        entries_view(s)[s[i].0@] == s[i].1,
{
    assert(has_key(s, s[i].0@));
    let j = key_index(s, s[i].0@);
    assert(j == i);
}

proof fn lemma_view_replace(e: Seq<(String, ConfigValue)>, e2: Seq<(String, ConfigValue)>, i: int)
    requires
        keys_distinct(e),
        keys_distinct(e2),
        0 <= i < e2.len(),
        e2.len() == e.len() || (e2.len() == e.len() + 1 && i == e.len()),
        forall|j: int| 0 <= j < e2.len() && j != i ==> e2[j] == e[j],
        i < e.len() ==> e[i].0@ == e2[i].0@,
    ensures
        entries_view(e2) =~= entries_view(e).insert(e2[i].0@, e2[i].1),
{
    let m = entries_view(e).insert(e2[i].0@, e2[i].1);
    assert forall|k: Seq<char>| has_key(e2, k) == m.contains_key(k) by {
        if has_key(e2, k) {
            let j = choose|j: int| 0 <= j < e2.len() && e2[j].0@ == k;
            if j != i {
                assert(e[j].0@ == k);
            }
        }
        if has_key(e, k) {
            let j = choose|j: int| 0 <= j < e.len() && e[j].0@ == k;
            assert(e2[j].0@ == k);
        }
        if k == e2[i].0@ {
            assert(e2[i].0@ == k);
        }
    }
    assert forall|k: Seq<char>| has_key(e2, k) implies entries_view(e2)[k] == m[k] by {
        let j = choose|j: int| 0 <= j < e2.len() && e2[j].0@ == k;
        lemma_view_at(e2, j);
        if j != i {
            lemma_view_at(e, j);
        }
    }
}

impl View for ConfigStore {
    type V = Map<Seq<char>, ConfigValue>;

    closed spec fn view(&self) -> Map<Seq<char>, ConfigValue> {
        entries_view(self.entries@)
    }
}

impl ConfigStore {
    /// The store's own invariant: every key occurs once.
    pub closed spec fn wf(&self) -> bool {
        keys_distinct(self.entries@)
    }

    /// A store with no keys.
    pub fn new() -> (r: Self)
        ensures
            r.wf(),
            r@ == Map::<Seq<char>, ConfigValue>::empty(),
    {
        let r = ConfigStore { entries: Vec::new() };
        assert(r@ =~= Map::<Seq<char>, ConfigValue>::empty());
        r
    }

    /// Whether the store holds no key at all.
    pub fn is_empty(&self) -> (r: bool)
        requires
            self.wf(),
        ensures
            r == (self@ == Map::<Seq<char>, ConfigValue>::empty()),
    {
        if self.entries.len() == 0 {
            assert(self@ =~= Map::<Seq<char>, ConfigValue>::empty());
            true
        } else {
            proof {
                lemma_view_at(self.entries@, 0);
            }
            assert(self@.contains_key(self.entries@[0].0@));
            false
        }
    }

    /// Every key of the store, each once.
    pub fn keys(&self) -> (r: Vec<String>)
        requires
            self.wf(),
        ensures
            forall|i: int| 0 <= i < r@.len() ==> self@.contains_key(#[trigger] r@[i]@),
            forall|k: Seq<char>|
                self@.contains_key(k) ==> exists|i: int| 0 <= i < r@.len() && r@[i]@ == k,
            forall|i: int, j: int| 0 <= i < r@.len() && 0 <= j < r@.len() && i != j ==> r@[i]@ != r@[j]@,
    {
        let mut r: Vec<String> = Vec::new();
        let mut i: usize = 0;
        while i < self.entries.len()
            invariant
                i <= self.entries@.len(),
                r@.len() == i,
                forall|j: int| 0 <= j < i ==> (#[trigger] r@[j])@ == self.entries@[j].0@,
            decreases self.entries@.len() - i,
        {
            r.push(self.entries[i].0.clone());
            i = i + 1;
        }
        assert forall|k: Seq<char>| self@.contains_key(k) implies exists|i: int|
            0 <= i < r@.len() && r@[i]@ == k by {
            let i = choose|i: int| 0 <= i < self.entries@.len() && self.entries@[i].0@ == k;
            assert(r@[i]@ == k);
        }
        assert forall|i: int| 0 <= i < r@.len() implies self@.contains_key(#[trigger] r@[i]@) by {
            assert(has_key(self.entries@, r@[i]@));
        }
        r
    }

    /// Position of `key` among the entries, if present.
    fn find(&self, key: &str) -> (r: Option<usize>)
        requires
            self.wf(),
        ensures
            match r {
                Some(i) => i < self.entries@.len() && self.entries@[i as int].0@ == key@,
                None => !has_key(self.entries@, key@),
            },
    {
        let mut i: usize = 0;
        while i < self.entries.len()
            invariant
                i <= self.entries@.len(),
                forall|j: int| 0 <= j < i ==> self.entries@[j].0@ != key@,
            decreases self.entries@.len() - i,
        {
            if same_text(self.entries[i].0.as_str(), key) {
                return Some(i);
            }
            i = i + 1;
        }
        None
    }

    /// Replaces the whole contents of the store by what `entries` describes,
    /// in one step: no state mixing old and new contents is ever visible.
    pub fn load(&mut self, entries: Vec<(String, ConfigValue)>)
        requires
            old(self).wf(),
        ensures
            final(self).wf(),
            final(self)@ == snapshot(entries@),
    {
        let ghost all = entries@;
        let mut rest = entries;
        let mut fresh = ConfigStore::new();
        assert(all.take(0) =~= Seq::<(String, ConfigValue)>::empty());
        assert(all.skip(0) =~= all);
        while rest.len() > 0
            invariant
                fresh.wf(),
                rest@.len() <= all.len(),
                rest@ == all.skip(all.len() - rest@.len()),
                fresh@ == snapshot(all.take(all.len() - rest@.len())),
            decreases rest@.len(),
        {
            let ghost done = all.len() - rest@.len();
            let entry = rest.remove(0);
            assert(entry == all[done]);
            set(&mut fresh, entry.0.as_str(), entry.1);
            assert(all.take(done + 1).drop_last() =~= all.take(done));
            assert(rest@ =~= all.skip(done + 1));
        }
        assert(all.take(all.len() as int) =~= all);
        *self = fresh;
    }
}

/// The value stored under `key`, if any. Reads memory only.
pub fn get<'a>(store: &'a ConfigStore, key: &str) -> (r: Option<&'a ConfigValue>)
    requires
        store.wf(),
    ensures
        r.is_some() == store@.contains_key(key@),
        r.is_some() ==> *r.unwrap() == store@[key@],
{
    match store.find(key) {
        Some(i) => {
            proof {
                lemma_view_at(store.entries@, i as int);
            }
            Some(&store.entries[i].1)
        },
        None => None,
    }
}

/// Stores `value` under `key`, replacing any earlier value of that key.
pub fn set(store: &mut ConfigStore, key: &str, value: ConfigValue)
    requires
        old(store).wf(),
    ensures
        final(store).wf(),
        final(store)@ == old(store)@.insert(key@, value),
{
    let ghost e = store.entries@;
    let owned = key.to_owned();
    match store.find(key) {
        Some(i) => {
            store.entries.set(i, (owned, value));
            proof {
                lemma_view_replace(e, store.entries@, i as int);
            }
        },
        None => {
            store.entries.push((owned, value));
            proof {
                lemma_view_replace(e, store.entries@, e.len() as int);
            }
        },
    }
}

/// Whether the application runs for the first time: the store has no key.
pub fn is_first_run(store: &ConfigStore) -> (r: bool)
    requires
        store.wf(),
    ensures
        r == (store@ == Map::<Seq<char>, ConfigValue>::empty()),
{
    store.is_empty()
}

/// A value stored under a key is the value read back under that key, and
/// storing it leaves every other key as it was.
pub proof fn lemma_set_then_get(store: ConfigStore, key: Seq<char>, value: ConfigValue)
    requires
        store.wf(),
    ensures
        store@.insert(key, value).contains_key(key),
        store@.insert(key, value)[key] == value,
        forall|k: Seq<char>| k != key ==> store@.insert(key, value).get(k) == store@.get(k),
{
}

/// A store on which anything has been set is never seen as a first run.
pub proof fn lemma_set_ends_first_run(store: ConfigStore, key: Seq<char>, value: ConfigValue)
    requires
        store.wf(),
    ensures
        store@.insert(key, value) != Map::<Seq<char>, ConfigValue>::empty(),
{
    assert(store@.insert(key, value).contains_key(key));
}

} // verus!
