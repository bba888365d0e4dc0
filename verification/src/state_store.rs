//! State store configurations and the rules by which they are read from
//! key/value maps.

use vstd::prelude::*;
use crate::config_value::{ConfigValueView, config_string_from_json, read_config_string};
use crate::json::{
    EntryView, JsonValue, JsonView, entries_view, lemma_json_entries_view, obj_insert, obj_set,
    keys_unique, lemma_obj_get, lemma_obj_get_push, lemma_obj_set, obj_get, obj_has,
};
use crate::models::{ConfigValue, DecodeError, DecodeErrorView, Field, has_entry, str_value};
use crate::text::str_eq;

verus! {

/// State store configuration with kind discriminator.
#[derive(Debug, PartialEq)]
pub enum StateStoreConfig {
    /// A redb-backed state store in the file at `path`.
    Redb { path: ConfigValue<String> },
}

/// The mathematical form of a state store configuration.
pub enum StateStoreView {
    Redb { path: ConfigValueView<Seq<char>> },
}

impl View for StateStoreConfig {
    type V = StateStoreView;

    open spec fn view(&self) -> StateStoreView {
        match *self {
            StateStoreConfig::Redb { path } => StateStoreView::Redb { path: path@ },
        }
    }
}

/// The view of a reading result.
pub open spec fn store_result_view(r: Result<StateStoreConfig, DecodeError>) -> Result<StateStoreView, DecodeErrorView> {
    match r {
        Ok(c) => Ok(c@),
        Err(e) => Err(e@),
    }
}

/// The fields of a state store map read so far: its kind and the other entries.
pub struct StoreDecoderView {
    pub kind: Option<Seq<char>>,
    pub remaining: Seq<EntryView>,
}

/// One entry of a state store map: `kind` (once, a string) or a setting.
pub open spec fn store_step(d: StoreDecoderView, k: Seq<char>, v: JsonView) -> Result<StoreDecoderView, DecodeErrorView> {
    if k == "kind"@ {
        if d.kind is Some {
            Err(DecodeErrorView::DuplicateField(Field::Kind))
        } else {
            match v {
                JsonView::String(s) => Ok(StoreDecoderView { kind: Some(s), ..d }),
                _ => Err(DecodeErrorView::InvalidType(Field::Kind)),
            }
        }
    } else {
        Ok(StoreDecoderView { remaining: obj_set(d.remaining, k, v), ..d })
    }
}

/// The entries of a state store map read in order.
pub open spec fn store_fold(entries: Seq<EntryView>) -> Result<StoreDecoderView, DecodeErrorView>
    decreases entries.len(),
{
    if entries.len() == 0 {
        Ok(StoreDecoderView { kind: None, remaining: Seq::empty() })
    } else {
        match store_fold(entries.drop_last()) {
            Err(e) => Err(e),
            Ok(d) => store_step(d, entries.last().0, entries.last().1),
        }
    }
}

/// The settings of a redb store, read in order: only `path` is accepted, once,
/// and it is required.
pub open spec fn redb_settings(entries: Seq<EntryView>, found: Option<ConfigValueView<Seq<char>>>) -> Result<
    ConfigValueView<Seq<char>>,
    DecodeErrorView,
>
    decreases entries.len(),
{
    if entries.len() == 0 {
        match found {
            Some(p) => Ok(p),
            None => Err(DecodeErrorView::MissingField(Field::Path)),
        }
    } else if entries[0].0 == "path"@ {
        if found is Some {
            Err(DecodeErrorView::DuplicateField(Field::Path))
        } else {
            match config_string_from_json(entries[0].1, Field::Path) {
                Err(e) => Err(e),
                Ok(p) => redb_settings(entries.drop_first(), Some(p)),
            }
        }
    } else {
        Err(DecodeErrorView::UnknownField(entries[0].0))
    }
}

/// Reading a state store configuration from the entries of a JSON map:
/// `kind` is required and must be `redb`, whose settings are then read.
pub open spec fn state_store_from_entries_spec(entries: Seq<EntryView>) -> Result<StateStoreView, DecodeErrorView> {
    match store_fold(entries) {
        Err(e) => Err(e),
        Ok(d) => match d.kind {
            None => Err(DecodeErrorView::MissingField(Field::Kind)),
            Some(kind) => if kind == "redb"@ {
                match redb_settings(d.remaining, None) {
                    Err(e) => Err(DecodeErrorView::InRedbStateStore(Box::new(e))),
                    Ok(path) => Ok(StateStoreView::Redb { path }),
                }
            } else {
                Err(DecodeErrorView::UnknownStateStoreKind(kind))
            },
        },
    }
}

/// Once reading a prefix fails, reading all entries fails the same way.
proof fn lemma_store_fold_err(entries: Seq<EntryView>, i: int)
    requires
        0 <= i <= entries.len(),
        store_fold(entries.subrange(0, i)) is Err,
    ensures
        store_fold(entries) == store_fold(entries.subrange(0, i)),
    decreases entries.len() - i,
{
    if i < entries.len() {
        assert(entries.drop_last().subrange(0, i) =~= entries.subrange(0, i));
        lemma_store_fold_err(entries.drop_last(), i);
    } else {
        assert(entries.subrange(0, i) =~= entries);
    }
}

/// The entries of a state store map other than `kind`, in order.
pub open spec fn store_settings(e: Seq<EntryView>) -> Seq<EntryView>
    decreases e.len(),
{
    if e.len() == 0 {
        Seq::empty()
    } else if e.last().0 == "kind"@ {
        store_settings(e.drop_last())
    } else {
        store_settings(e.drop_last()).push(e.last())
    }
}

/// Reading a state store map with distinct keys and a string `kind`
/// wherever it occurs: the kind, and every other entry, in order.
proof fn lemma_clean_store_fold(e: Seq<EntryView>)
    requires
        keys_unique(e),
        forall|i: int| 0 <= i < e.len() && (#[trigger] e[i]).0 == "kind"@ ==> e[i].1 is String,
    ensures
        store_fold(e) == Ok::<_, DecodeErrorView>(
            StoreDecoderView { kind: str_value(obj_get(e, "kind"@)), remaining: store_settings(e) },
        ),
        forall|x: Seq<char>| obj_has(store_settings(e), x) ==> obj_has(e, x),
        forall|i: int| 0 <= i < store_settings(e).len() ==> (#[trigger] store_settings(e)[i]).0 != "kind"@,
        forall|x: Seq<char>| x != "kind"@ ==> (has_entry(e, x) <==> has_entry(store_settings(e), x)),
    decreases e.len(),
{
    if e.len() == 0 {
        assert forall|x: Seq<char>| obj_has(store_settings(e), x) implies obj_has(e, x) by {
            let i = choose|i: int| crate::json::key_at(store_settings(e), x, i);
        }
    } else {
        let q = e.drop_last();
        let n = e.len() - 1;
        let (k, v) = e.last();
        assert(e[n] == (k, v));
        assert forall|i: int| 0 <= i < q.len() implies #[trigger] q[i] == e[i] by {}
        assert forall|i: int| 0 <= i < q.len() && (#[trigger] q[i]).0 == "kind"@ implies q[i].1 is String by {
            assert(q[i] == e[i]);
        }
        lemma_clean_store_fold(q);
        assert(e =~= q.push((k, v)));
        assert(!obj_has(q, k)) by {
            if obj_has(q, k) {
                let j = choose|j: int| #[trigger] crate::json::key_at(q, k, j);
                assert(e[j].0 == e[n].0);
            }
        }
        lemma_obj_get(q, k);
        lemma_obj_get_push(q, k, v, "kind"@);
        let rq = store_settings(q);
        if k == "kind"@ {
            assert(v is String);
        } else {
            assert(!obj_has(rq, k));
            lemma_obj_set(rq, k, v);
        }
        assert forall|x: Seq<char>| obj_has(store_settings(e), x) implies obj_has(e, x) by {
            if obj_has(q, x) {
                let j = choose|j: int| #[trigger] crate::json::key_at(q, x, j);
                assert(crate::json::key_at(e, x, j));
            }
            if x == k {
                assert(crate::json::key_at(e, x, n));
            }
            if k != "kind"@ {
                lemma_obj_set(rq, k, v);
            }
        }
        assert forall|x: Seq<char>| x != "kind"@ implies (has_entry(e, x) <==> has_entry(store_settings(e), x)) by {
            let r = store_settings(e);
            if has_entry(e, x) {
                let i = choose|i: int| 0 <= i < e.len() && (#[trigger] e[i]).0 == x;
                if i < n {
                    assert(q[i].0 == x);
                    assert(has_entry(q, x));
                    assert(has_entry(rq, x));
                    let j = choose|j: int| 0 <= j < rq.len() && (#[trigger] rq[j]).0 == x;
                    if k != "kind"@ {
                        assert(r[j] == rq[j]);
                    }
                } else if k != "kind"@ {
                    assert(r[rq.len() as int].0 == x);
                }
            }
            if has_entry(r, x) {
                let j = choose|j: int| 0 <= j < r.len() && (#[trigger] r[j]).0 == x;
                if k != "kind"@ && j == rq.len() {
                    assert(e[n].0 == x);
                } else {
                    assert(rq[j].0 == x);
                    assert(has_entry(q, x));
                    let i = choose|i: int| 0 <= i < q.len() && (#[trigger] q[i]).0 == x;
                    assert(e[i].0 == x);
                }
            }
        }
    }
}

/// The settings of a redb store read as a single `path`.
proof fn lemma_redb_settings(r: Seq<EntryView>)
    ensures
        redb_settings(r, None) is Ok <==> (r.len() == 1 && r[0].0 == "path"@ && config_string_from_json(
            r[0].1,
            Field::Path,
        ) is Ok),
        redb_settings(r, None) is Ok ==> redb_settings(r, None) == config_string_from_json(r[0].1, Field::Path),
        r.len() == 0 ==> redb_settings(r, None) == Err::<ConfigValueView<Seq<char>>, _>(
            DecodeErrorView::MissingField(Field::Path),
        ),
        r.len() > 0 && r[0].0 != "path"@ ==> redb_settings(r, None) == Err::<ConfigValueView<Seq<char>>, _>(
            DecodeErrorView::UnknownField(r[0].0),
        ),
{
    if r.len() > 0 && r[0].0 == "path"@ {
        let rest = r.drop_first();
        if rest.len() > 0 {
            if let Ok(p) = config_string_from_json(r[0].1, Field::Path) {
                assert(redb_settings(rest, Some(p)) is Err);
            }
        } else {
            if let Ok(p) = config_string_from_json(r[0].1, Field::Path) {
                assert(redb_settings(rest, Some(p)) == Ok::<_, DecodeErrorView>(p));
            }
        }
    }
}

/// How a state store map with distinct keys reads: without `kind` it is
/// refused as missing it; a `kind` that is not a string, or a kind other
/// than `redb`, is refused; a `redb` map is accepted exactly when its only
/// other key is `path` holding a valid textual value, which becomes the
/// store's path, and otherwise refused within the redb store, an unknown
/// key as unknown and a missing `path` as missing.
pub proof fn law_state_store_decoding(e: Seq<EntryView>)
    requires
        keys_unique(e),
    ensures
        !has_entry(e, "kind"@) ==> state_store_from_entries_spec(e) == Err::<StateStoreView, _>(
            DecodeErrorView::MissingField(Field::Kind),
        ),
        (obj_get(e, "kind"@) matches Some(v) && !(v is String)) ==> state_store_from_entries_spec(e) == Err::<
            StateStoreView,
            _,
        >(DecodeErrorView::InvalidType(Field::Kind)),
        (str_value(obj_get(e, "kind"@)) matches Some(k) && k != "redb"@) ==> state_store_from_entries_spec(e) == Err::<
            StateStoreView,
            _,
        >(DecodeErrorView::UnknownStateStoreKind(str_value(obj_get(e, "kind"@))->Some_0)),
        str_value(obj_get(e, "kind"@)) == Some("redb"@) ==> {
            &&& (state_store_from_entries_spec(e) is Ok <==> (has_entry(e, "path"@) && (forall|i: int| 0 <= i < e.len()
                ==> (#[trigger] e[i]).0 == "kind"@ || e[i].0 == "path"@) && config_string_from_json(
                obj_get(e, "path"@)->Some_0,
                Field::Path,
            ) is Ok))
            &&& state_store_from_entries_spec(e) is Ok ==> state_store_from_entries_spec(e) == Ok::<_, DecodeErrorView>(
                StateStoreView::Redb { path: config_string_from_json(obj_get(e, "path"@)->Some_0, Field::Path)->Ok_0 },
            )
            &&& state_store_from_entries_spec(e) is Err ==> state_store_from_entries_spec(e)->Err_0 is InRedbStateStore
            &&& (exists|i: int| 0 <= i < e.len() && (#[trigger] e[i]).0 != "kind"@ && e[i].0 != "path"@)
                ==> state_store_from_entries_spec(e) is Err
        },
{
    reveal_strlit("kind");
    reveal_strlit("path");
    reveal_strlit("redb");
    assert("kind"@.len() == 4 && "path"@.len() == 4 && "kind"@[0] != "path"@[0]);
    lemma_obj_get(e, "kind"@);
    if has_entry(e, "kind"@) {
        let i = choose|i: int| 0 <= i < e.len() && (#[trigger] e[i]).0 == "kind"@;
        crate::json::lemma_obj_get_unique(e, "kind"@, i);
        if !(e[i].1 is String) {
            let pre = e.subrange(0, i + 1);
            assert forall|a: int| 0 <= a < i && (#[trigger] e.subrange(0, i)[a]).0 == "kind"@ implies e.subrange(0, i)[a].1 is String by {
                assert(e[a].0 == e[i].0);
            }
            assert(keys_unique(e.subrange(0, i)));
            lemma_clean_store_fold(e.subrange(0, i));
            assert(pre.drop_last() =~= e.subrange(0, i));
            assert(!obj_has(e.subrange(0, i), "kind"@)) by {
                if obj_has(e.subrange(0, i), "kind"@) {
                    let j = choose|j: int| #[trigger] crate::json::key_at(e.subrange(0, i), "kind"@, j);
                    assert(e[j].0 == e[i].0);
                }
            }
            lemma_obj_get(e.subrange(0, i), "kind"@);
            assert(store_fold(pre) is Err);
            lemma_store_fold_err(e, i + 1);
            return;
        }
    }
    assert forall|i: int| 0 <= i < e.len() && (#[trigger] e[i]).0 == "kind"@ implies e[i].1 is String by {
        crate::json::lemma_obj_get_unique(e, "kind"@, i);
    }
    lemma_clean_store_fold(e);
    let r = store_settings(e);
    lemma_redb_settings(r);
    if !has_entry(e, "kind"@) {
        assert(!obj_has(e, "kind"@)) by {
            if obj_has(e, "kind"@) {
                let j = choose|j: int| #[trigger] crate::json::key_at(e, "kind"@, j);
                assert(e[j].0 == "kind"@);
            }
        }
    }
    if str_value(obj_get(e, "kind"@)) == Some("redb"@) {
        if has_entry(e, "path"@) && (forall|i: int| 0 <= i < e.len() ==> (#[trigger] e[i]).0 == "kind"@ || e[i].0 == "path"@) {
            let pi = choose|i: int| 0 <= i < e.len() && (#[trigger] e[i]).0 == "path"@;
            crate::json::lemma_obj_get_unique(e, "path"@, pi);
            assert(has_entry(r, "path"@));
            let pj = choose|j: int| 0 <= j < r.len() && (#[trigger] r[j]).0 == "path"@;
            assert(r.len() == 1) by {
                if r.len() > 1 {
                    let other = if pj == 0 { 1int } else { 0int };
                    assert(r[other].0 != "kind"@);
                    assert(has_entry(r, r[other].0));
                    assert(has_entry(e, r[other].0));
                    let ei = choose|ei: int| 0 <= ei < e.len() && (#[trigger] e[ei]).0 == r[other].0;
                    assert(r[other].0 == "path"@);
                    assert(crate::json::key_at(r, "path"@, other) && crate::json::key_at(r, "path"@, pj));
                    assert(obj_has(r, "path"@));
                    // two entries of r share the key `path`, but r's keys come from e's distinct keys
                    assert(false) by {
                        lemma_store_settings_unique(e);
                    }
                }
            }
            assert(pj == 0);
            assert(obj_get(r, "path"@) == Some(r[0].1));
            lemma_store_settings_get(e, "path"@);
        }
        if state_store_from_entries_spec(e) is Ok {
            assert(r.len() == 1 && r[0].0 == "path"@);
            assert(has_entry(r, "path"@));
            assert(has_entry(e, "path"@));
            assert forall|i: int| 0 <= i < e.len() implies (#[trigger] e[i]).0 == "kind"@ || e[i].0 == "path"@ by {
                if e[i].0 != "kind"@ {
                    assert(has_entry(e, e[i].0));
                    assert(has_entry(r, e[i].0));
                }
            }
            lemma_store_settings_get(e, "path"@);
            assert(obj_get(r, "path"@) == Some(r[0].1));
        }
        if exists|i: int| 0 <= i < e.len() && (#[trigger] e[i]).0 != "kind"@ && e[i].0 != "path"@ {
            let i = choose|i: int| 0 <= i < e.len() && (#[trigger] e[i]).0 != "kind"@ && e[i].0 != "path"@;
            assert(has_entry(e, e[i].0));
            assert(has_entry(r, e[i].0));
            let j = choose|j: int| 0 <= j < r.len() && (#[trigger] r[j]).0 == e[i].0;
        }
    }
}

/// Store settings keep keys distinct.
proof fn lemma_store_settings_unique(e: Seq<EntryView>)
    requires
        keys_unique(e),
    ensures
        keys_unique(store_settings(e)),
    decreases e.len(),
{
    if e.len() > 0 {
        let q = e.drop_last();
        assert forall|a: int, b: int| 0 <= a < q.len() && 0 <= b < q.len() && a != b implies q[a].0 != q[b].0 by {
            assert(q[a] == e[a] && q[b] == e[b]);
        }
        lemma_store_settings_unique(q);
        lemma_store_settings_has(q);
        if e.last().0 != "kind"@ {
            let r = store_settings(e);
            let rq = store_settings(q);
            assert forall|a: int, b: int| 0 <= a < r.len() && 0 <= b < r.len() && a != b implies r[a].0 != r[b].0 by {
                if a == rq.len() || b == rq.len() {
                    let o = if a == rq.len() { b } else { a };
                    assert(has_entry(rq, rq[o].0));
                    assert(has_entry(q, rq[o].0));
                    let i = choose|i: int| 0 <= i < q.len() && (#[trigger] q[i]).0 == rq[o].0;
                    assert(e[i].0 == q[i].0);
                    assert(e[e.len() - 1].0 == e.last().0);
                }
            }
        }
    }
}

/// Every key of the store settings is a key of the map.
proof fn lemma_store_settings_has(e: Seq<EntryView>)
    ensures
        forall|x: Seq<char>| #[trigger] has_entry(store_settings(e), x) ==> has_entry(e, x),
    decreases e.len(),
{
    if e.len() > 0 {
        let q = e.drop_last();
        lemma_store_settings_has(q);
        assert forall|i: int| 0 <= i < q.len() implies #[trigger] q[i] == e[i] by {}
        assert forall|x: Seq<char>| has_entry(store_settings(e), x) implies has_entry(e, x) by {
            let r = store_settings(e);
            let j = choose|j: int| 0 <= j < r.len() && (#[trigger] r[j]).0 == x;
            if e.last().0 != "kind"@ && j == store_settings(q).len() {
                assert(e[e.len() - 1].0 == x);
            } else {
                if e.last().0 == "kind"@ {
                    assert(r == store_settings(q));
                } else {
                    assert(r == store_settings(q).push(e.last()));
                    assert(r[j] == store_settings(q)[j]);
                }
                assert(store_settings(q)[j].0 == x);
                assert(has_entry(store_settings(q), x));
                let i = choose|i: int| 0 <= i < q.len() && (#[trigger] q[i]).0 == x;
                assert(e[i].0 == x);
            }
        }
    }
}

/// Looking up a key other than `kind` in the store settings finds what the map holds.
proof fn lemma_store_settings_get(e: Seq<EntryView>, x: Seq<char>)
    requires
        x != "kind"@,
    ensures
        obj_get(store_settings(e), x) == obj_get(e, x),
    decreases e.len(),
{
    if e.len() > 0 {
        let q = e.drop_last();
        let (k, v) = e.last();
        lemma_store_settings_get(q, x);
        assert(e =~= q.push((k, v)));
        lemma_obj_get_push(q, k, v, x);
        if k != "kind"@ {
            lemma_obj_get_push(store_settings(q), k, v, x);
        }
    }
}

/// Reads the settings of a redb store.
fn read_redb_settings(entries: &Vec<(String, JsonValue)>) -> (r: Result<ConfigValue<String>, DecodeError>)
    ensures
        crate::config_value::cv_result_view(r) == redb_settings(entries_view(entries), None),
{
    let ghost ev = entries_view(entries);
    proof {
        lemma_json_entries_view(entries@);
    }
    let mut found: Option<ConfigValue<String>> = None;
    let mut i: usize = 0;
    assert(ev.subrange(0, ev.len() as int) =~= ev);
    while i < entries.len()
        invariant
            ev == entries_view(entries),
            ev.len() == entries.len(),
            forall|j: int| 0 <= j < entries.len() ==> #[trigger] ev[j] == (entries@[j].0@, entries@[j].1@),
            i <= entries.len(),
            redb_settings(ev, None) == redb_settings(
                ev.subrange(i as int, ev.len() as int),
                match found {
                    Some(c) => Some(c@),
                    None => None,
                },
            ),
        decreases entries.len() - i,
    {
        let ghost rest = ev.subrange(i as int, ev.len() as int);
        assert(rest[0] == ev[i as int]);
        assert(rest.drop_first() =~= ev.subrange(i + 1, ev.len() as int));
        if str_eq(entries[i].0.as_str(), "path") {
            if found.is_some() {
                return Err(DecodeError::DuplicateField(Field::Path));
            }
            match read_config_string(&entries[i].1, Field::Path) {
                Err(e) => {
                    return Err(e);
                },
                Ok(p) => {
                    found = Some(p);
                },
            }
        } else {
            return Err(DecodeError::UnknownField(entries[i].0.clone()));
        }
        i = i + 1;
    }
    assert(ev.subrange(i as int, ev.len() as int) =~= Seq::<EntryView>::empty());
    match found {
        Some(p) => Ok(p),
        None => Err(DecodeError::MissingField(Field::Path)),
    }
}

impl StateStoreConfig {
    /// Create a new REDB state store configuration
    pub fn redb(path: String) -> (r: StateStoreConfig)
        ensures
            r@ == (StateStoreView::Redb { path: ConfigValueView::Static(path@) }),
    {
        StateStoreConfig::Redb { path: ConfigValue::Static(path) }
    }

    /// Get a display name for this state store type
    pub fn kind(&self) -> (r: &str)
        ensures
            r@ == "redb"@,
    {
        match self {
            StateStoreConfig::Redb { .. } => "redb",
        }
    }

    /// Read a state store configuration from the entries of a JSON map.
    pub fn from_entries(entries: &Vec<(String, JsonValue)>) -> (r: Result<StateStoreConfig, DecodeError>)
        ensures
            store_result_view(r) == state_store_from_entries_spec(entries_view(entries)),
    {
        let ghost ev = entries_view(entries);
        proof {
            lemma_json_entries_view(entries@);
        }
        let mut kind: Option<String> = None;
        let mut remaining: Vec<(String, JsonValue)> = Vec::new();
        assert(entries_view(&remaining) =~= Seq::<EntryView>::empty());
        let mut i: usize = 0;
        while i < entries.len()
            invariant
                ev == entries_view(entries),
                ev.len() == entries.len(),
                forall|j: int| 0 <= j < entries.len() ==> #[trigger] ev[j] == (entries@[j].0@, entries@[j].1@),
                i <= entries.len(),
                store_fold(ev.subrange(0, i as int)) == Ok::<_, DecodeErrorView>(
                    StoreDecoderView {
                        kind: match kind {
                            Some(k) => Some(k@),
                            None => None,
                        },
                        remaining: entries_view(&remaining),
                    },
                ),
            decreases entries.len() - i,
        {
            assert(ev.subrange(0, i + 1).drop_last() =~= ev.subrange(0, i as int));
            assert(ev.subrange(0, i + 1).last() == ev[i as int]);
            if str_eq(entries[i].0.as_str(), "kind") {
                if kind.is_some() {
                    proof {
                        lemma_store_fold_err(ev, i + 1);
                    }
                    return Err(DecodeError::DuplicateField(Field::Kind));
                }
                match &entries[i].1 {
                    JsonValue::String(s) => {
                        kind = Some(s.clone());
                    },
                    _ => {
                        proof {
                            lemma_store_fold_err(ev, i + 1);
                        }
                        return Err(DecodeError::InvalidType(Field::Kind));
                    },
                }
            } else {
                obj_insert(&mut remaining, entries[i].0.clone(), entries[i].1.deep_clone());
            }
            i = i + 1;
        }
        assert(ev.subrange(0, i as int) =~= ev);
        match kind {
            None => Err(DecodeError::MissingField(Field::Kind)),
            Some(k) => {
                if str_eq(k.as_str(), "redb") {
                    match read_redb_settings(&remaining) {
                        Err(e) => Err(DecodeError::InRedbStateStore(Box::new(e))),
                        Ok(path) => Ok(StateStoreConfig::Redb { path }),
                    }
                } else {
                    Err(DecodeError::UnknownStateStoreKind(k))
                }
            },
        }
    }
}

} // verus!
