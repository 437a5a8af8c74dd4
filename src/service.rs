//! Pruning of the recognition and translation service lists.

use vstd::prelude::*;
use crate::config::{get, ConfigStore, ConfigValue};
use crate::text::{base_name, has_plugin_prefix, is_plugin_name, same_text, split_base_name};

verus! {

/// The character sequences of a list of strings.
pub open spec fn texts(v: Seq<String>) -> Seq<Seq<char>> {
    v.map_values(|s: String| s@)
}

/// The character sequences of a list of string slices.
pub open spec fn strs(v: Seq<&str>) -> Seq<Seq<char>> {
    v.map_values(|s: &str| s@)
}

/// Whether a service identifier names a service that exists: a plugin
/// name must be a known plugin, any other name a builtin service.
pub open spec fn is_available(s: Seq<char>, builtin: Seq<Seq<char>>, plugin: Seq<Seq<char>>) -> bool {
    let n = base_name(s);
    if is_plugin_name(n) {
        plugin.contains(n)
    } else {
        builtin.contains(n)
    }
}

/// The entries of `list` that name an existing service, in their order.
pub open spec fn available_only(
    list: Seq<Seq<char>>,
    builtin: Seq<Seq<char>>,
    plugin: Seq<Seq<char>>,
) -> Seq<Seq<char>>
    decreases list.len(),
{
    if list.len() == 0 {
        list
    } else {
        let rest = available_only(list.drop_last(), builtin, plugin);
        if is_available(list.last(), builtin, plugin) {
            rest.push(list.last())
        } else {
            rest
        }
    }
}

/// The text held by a text value.
pub open spec fn text_of(v: ConfigValue) -> Seq<char> {
    match v {
        ConfigValue::Text(t) => t@,
        _ => Seq::empty(),
    }
}

/// The strings of a value that is a list of strings; `None` for any other
/// shape.
pub open spec fn list_texts(v: ConfigValue) -> Option<Seq<Seq<char>>> {
    match v {
        ConfigValue::List(items) => if forall|i: int|
            0 <= i < items@.len() ==> (#[trigger] items@[i]) is Text {
            Some(items@.map_values(|x: ConfigValue| text_of(x)))
        } else {
            None
        },
        _ => None,
    }
}

/// What one validation pass over the list under `key` does to the store:
/// a missing or malformed list is left alone; a list with unavailable
/// entries is replaced by its available entries; a clean list is not
/// written.
pub open spec fn validation_step(
    before: Map<Seq<char>, ConfigValue>,
    after: Map<Seq<char>, ConfigValue>,
    key: Seq<char>,
    builtin: Seq<Seq<char>>,
    plugin: Seq<Seq<char>>,
) -> bool {
    if before.contains_key(key) && list_texts(before[key]) is Some {
        let l = list_texts(before[key])->0;
        let kept = available_only(l, builtin, plugin);
        if kept.len() == l.len() {
            after == before
        } else {
            after == before.insert(key, after[key]) && list_texts(after[key]) == Some(kept)
        }
    } else {
        after == before
    }
}

/// The recognition services bundled with the application.
pub open spec fn builtin_recognize() -> Seq<Seq<char>> {
    seq!["system"@, "tesseract"@]
}

/// The translation services bundled with the application.
pub open spec fn builtin_translate() -> Seq<Seq<char>> {
    seq!["youdao"@, "google"@, "deepl"@]
}

/// A tracked list under this key could not be read as a list of strings.
#[derive(Debug)]
pub struct ParseError {
    pub key: String,
}

fn contains_str(v: &Vec<&str>, n: &str) -> (r: bool)
    ensures
        r == strs(v@).contains(n@),
{
    let mut i: usize = 0;
    while i < v.len()
        invariant
            i <= v@.len(),
            forall|j: int| 0 <= j < i ==> v@[j]@ != n@,
        decreases v@.len() - i,
    {
        if same_text(v[i], n) {
            assert(strs(v@)[i as int] == n@);
            return true;
        }
        i = i + 1;
    }
    false
}

fn contains_string(v: &Vec<String>, n: &str) -> (r: bool)
    ensures
        r == texts(v@).contains(n@),
{
    let mut i: usize = 0;
    while i < v.len()
        invariant
            i <= v@.len(),
            forall|j: int| 0 <= j < i ==> v@[j]@ != n@,
        decreases v@.len() - i,
    {
        if same_text(v[i].as_str(), n) {
            assert(texts(v@)[i as int] == n@);
            return true;
        }
        i = i + 1;
    }
    false
}

/// Whether one service identifier names an existing service.
pub fn service_available(service: &str, builtin: &Vec<&str>, plugin: &Vec<String>) -> (r: bool)
    ensures
        r == is_available(service@, strs(builtin@), texts(plugin@)),
{
    let name = split_base_name(service);
    if has_plugin_prefix(name) {
        contains_string(plugin, name)
    } else {
        contains_str(builtin, name)
    }
}

/// The entries of `list` that name an existing service, in their order.
pub fn filter_available(list: &Vec<String>, builtin: &Vec<&str>, plugin: &Vec<String>) -> (r: Vec<
    String,
>)
    ensures
        texts(r@) == available_only(texts(list@), strs(builtin@), texts(plugin@)),
{
    let ghost l = texts(list@);
    let ghost b = strs(builtin@);
    let ghost p = texts(plugin@);
    let mut kept: Vec<String> = Vec::new();
    let mut i: usize = 0;
    assert(l.take(0) =~= Seq::<Seq<char>>::empty());
    while i < list.len()
        invariant
            i <= list@.len(),
            l == texts(list@),
            b == strs(builtin@),
            p == texts(plugin@),
            texts(kept@) == available_only(l.take(i as int), b, p),
        decreases list@.len() - i,
    {
        assert(l.take(i + 1).drop_last() =~= l.take(i as int));
        assert(l.take(i + 1).last() == list@[i as int]@);
        if service_available(list[i].as_str(), builtin, plugin) {
            kept.push(list[i].clone());
            assert(texts(kept@) =~= available_only(l.take(i as int), b, p).push(list@[i as int]@));
        }
        i = i + 1;
    }
    assert(l.take(list@.len() as int) =~= l);
    kept
}

/// A list value holding the given strings, in order.
pub fn text_list_value(items: &Vec<String>) -> (r: ConfigValue)
    ensures
        list_texts(r) == Some(texts(items@)),
{
    let mut values: Vec<ConfigValue> = Vec::new();
    let mut i: usize = 0;
    while i < items.len()
        invariant
            i <= items@.len(),
            values@.len() == i,
            forall|j: int| 0 <= j < i ==> (#[trigger] values@[j]) is Text && text_of(values@[j]) == items@[j]@,
        decreases items@.len() - i,
    {
        values.push(ConfigValue::Text(items[i].clone()));
        i = i + 1;
    }
    let r = ConfigValue::List(values);
    assert(values@.map_values(|x: ConfigValue| text_of(x)) =~= texts(items@));
    r
}

/// Reads a value as a list of strings; `None` when it has another shape.
pub fn text_list(v: &ConfigValue) -> (r: Option<Vec<String>>)
    ensures
        match r {
            Some(l) => list_texts(*v) == Some(texts(l@)),
            None => list_texts(*v) is None,
        },
{
    match v {
        ConfigValue::List(items) => {
            let mut out: Vec<String> = Vec::new();
            let mut i: usize = 0;
            while i < items.len()
                invariant
                    *v == ConfigValue::List(*items),
                    i <= items@.len(),
                    out@.len() == i,
                    forall|j: int| 0 <= j < i ==> (#[trigger] items@[j]) is Text && out@[j]@ == text_of(items@[j]),
                decreases items@.len() - i,
            {
                match &items[i] {
                    ConfigValue::Text(t) => {
                        out.push(t.clone());
                    },
                    _ => {
                        assert(!(items@[i as int] is Text));
                        return None;
                    },
                }
                i = i + 1;
            }
            assert(items@.map_values(|x: ConfigValue| text_of(x)) =~= texts(out@));
            Some(out)
        },
        _ => None,
    }
}

/// Removes from `list`, stored under `key`, the entries that name no
/// existing service, and writes the pruned list back under `key` when
/// anything was removed. Returns whether it wrote.
pub fn check_available(
    store: &mut ConfigStore,
    list: Vec<String>,
    builtin: Vec<&str>,
    plugin: Vec<String>,
    key: &str,
) -> (wrote: bool)
    requires
        old(store).wf(),
    ensures
        final(store).wf(),
        ({
            let kept = available_only(texts(list@), strs(builtin@), texts(plugin@));
            &&& wrote == (kept.len() != list@.len())
            &&& wrote ==> final(store)@ == old(store)@.insert(key@, final(store)@[key@])
                && list_texts(final(store)@[key@]) == Some(kept)
            &&& !wrote ==> final(store)@ == old(store)@
        }),
{
    let origin_length = list.len();
    let kept = filter_available(&list, &builtin, &plugin);
    proof {
        assert(texts(list@).len() == list@.len());
    }
    if kept.len() != origin_length {
        let value = text_list_value(&kept);
        crate::config::set(store, key, value);
        true
    } else {
        false
    }
}

/// Runs the validation pass on the list under `key`, leaving a missing
/// list alone and reporting a malformed one.
fn validate_key(store: &mut ConfigStore, key: &str, builtin: Vec<&str>, plugin: Vec<String>) -> (r:
    Result<(), ParseError>)
    requires
        old(store).wf(),
    ensures
        final(store).wf(),
        validation_step(old(store)@, final(store)@, key@, strs(builtin@), texts(plugin@)),
        r is Err <==> (old(store)@.contains_key(key@) && list_texts(old(store)@[key@]) is None),
{
    let parsed = match get(store, key) {
        Some(v) => text_list(v),
        None => {
            return Ok(());
        },
    };
    match parsed {
        Some(list) => {
            check_available(store, list, builtin, plugin, key);
            Ok(())
        },
        None => Err(ParseError { key: key.to_owned() }),
    }
}

/// Prunes unavailable services from the recognition and the translation
/// service lists. Each list is validated on its own: a malformed one is
/// reported without keeping the other from being validated.
pub fn check_service_available(store: &mut ConfigStore) -> (r: Result<(), ParseError>)
    requires
        old(store).wf(),
    ensures
        final(store).wf(),
        exists|mid: Map<Seq<char>, ConfigValue>|
            validation_step(
                old(store)@,
                mid,
                "recognize_service_list"@,
                builtin_recognize(),
                Seq::empty(),
            ) && validation_step(
                mid,
                final(store)@,
                "translate_service_list"@,
                builtin_translate(),
                Seq::empty(),
            ),
        r is Err <==> ((old(store)@.contains_key("recognize_service_list"@) && list_texts(
            old(store)@["recognize_service_list"@],
        ) is None) || (old(store)@.contains_key("translate_service_list"@) && list_texts(
            old(store)@["translate_service_list"@],
        ) is None)),
{
    let builtin_recognize_list: Vec<&str> = vec!["system", "tesseract"];
    let builtin_translate_list: Vec<&str> = vec!["youdao", "google", "deepl"];
    let plugin_recognize_list: Vec<String> = Vec::new();
    let plugin_translate_list: Vec<String> = Vec::new();
    assert(strs(builtin_recognize_list@) =~= builtin_recognize());
    assert(strs(builtin_translate_list@) =~= builtin_translate());
    assert(texts(plugin_recognize_list@) =~= Seq::<Seq<char>>::empty());
    assert(texts(plugin_translate_list@) =~= Seq::<Seq<char>>::empty());
    let ghost before = store@;
    let first = validate_key(
        store,
        "recognize_service_list",
        builtin_recognize_list,
        plugin_recognize_list,
    );
    let ghost mid = store@;
    let second = validate_key(
        store,
        "translate_service_list",
        builtin_translate_list,
        plugin_translate_list,
    );
    assert(validation_step(before, mid, "recognize_service_list"@, builtin_recognize(), Seq::empty()));
    match first {
        Err(e) => Err(e),
        Ok(()) => second,
    }
}

/// Pruning a pruned list changes nothing.
pub proof fn lemma_available_only_idempotent(
    list: Seq<Seq<char>>,
    builtin: Seq<Seq<char>>,
    plugin: Seq<Seq<char>>,
)
    ensures
        available_only(available_only(list, builtin, plugin), builtin, plugin) == available_only(
            list,
            builtin,
            plugin,
        ),
    decreases list.len(),
{
    if list.len() > 0 {
        lemma_available_only_idempotent(list.drop_last(), builtin, plugin);
        let rest = available_only(list.drop_last(), builtin, plugin);
        if is_available(list.last(), builtin, plugin) {
            let k = rest.push(list.last());
            assert(k.drop_last() =~= rest);
        }
    }
}

/// The pruned list holds exactly the available entries of the list.
pub proof fn lemma_available_only_members(
    list: Seq<Seq<char>>,
    builtin: Seq<Seq<char>>,
    plugin: Seq<Seq<char>>,
)
    ensures
        forall|x: Seq<char>|
            available_only(list, builtin, plugin).contains(x) <==> (list.contains(x)
                && is_available(x, builtin, plugin)),
    decreases list.len(),
{
    if list.len() > 0 {
        let init = list.drop_last();
        lemma_available_only_members(init, builtin, plugin);
        let rest = available_only(init, builtin, plugin);
        assert(list =~= init.push(list.last()));
        assert forall|x: Seq<char>|
            available_only(list, builtin, plugin).contains(x) <==> (list.contains(x)
                && is_available(x, builtin, plugin)) by {
            if list.contains(x) && x != list.last() {
                let i = choose|i: int| 0 <= i < list.len() && list[i] == x;
                assert(init[i] == x);
            }
            if init.contains(x) {
                let i = choose|i: int| 0 <= i < init.len() && init[i] == x;
                assert(list[i] == x);
            }
            if is_available(list.last(), builtin, plugin) {
                let k = rest.push(list.last());
                assert(k[rest.len() as int] == list.last());
                if k.contains(x) && x != list.last() {
                    let i = choose|i: int| 0 <= i < k.len() && k[i] == x;
                    assert(rest[i] == x);
                }
                if rest.contains(x) {
                    let i = choose|i: int| 0 <= i < rest.len() && rest[i] == x;
                    assert(k[i] == x);
                }
            }
            assert(list[list.len() - 1] == list.last());
        }
    }
}

/// A second validation pass over the same key, with the same services
/// known, writes nothing.
pub proof fn lemma_second_pass_no_write(
    m0: Map<Seq<char>, ConfigValue>,
    m1: Map<Seq<char>, ConfigValue>,
    m2: Map<Seq<char>, ConfigValue>,
    key: Seq<char>,
    builtin: Seq<Seq<char>>,
    plugin: Seq<Seq<char>>,
)
    requires
        validation_step(m0, m1, key, builtin, plugin),
        validation_step(m1, m2, key, builtin, plugin),
    ensures
        m2 == m1,
{
    if m0.contains_key(key) && list_texts(m0[key]) is Some {
        let l = list_texts(m0[key])->0;
        let kept = available_only(l, builtin, plugin);
        if kept.len() != l.len() {
            lemma_available_only_idempotent(l, builtin, plugin);
        }
    }
}

} // verus!
