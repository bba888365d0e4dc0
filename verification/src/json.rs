//! JSON values held as plain data: the configuration payload of sources,
//! reactions, bootstrap providers and queries.

use vstd::prelude::*;
use crate::text::str_eq;

verus! {

/// A JSON value. Numbers are held in their textual form; object entries keep
/// the order in which they were inserted.
#[derive(Debug, PartialEq)]
pub enum JsonValue {
    Null,
    Bool(bool),
    Number(String),
    String(String),
    Array(Vec<JsonValue>),
    Object(Vec<(String, JsonValue)>),
}

/// The mathematical form of a JSON value.
pub enum JsonView {
    Null,
    Bool(bool),
    Number(Seq<char>),
    String(Seq<char>),
    Array(Seq<JsonView>),
    Object(Seq<(Seq<char>, JsonView)>),
}

/// An object entry in mathematical form.
pub type EntryView = (Seq<char>, JsonView);

pub open spec fn json_view(j: JsonValue) -> JsonView
    decreases j,
{
    match j {
        JsonValue::Null => JsonView::Null,
        JsonValue::Bool(b) => JsonView::Bool(b),
        JsonValue::Number(n) => JsonView::Number(n@),
        JsonValue::String(s) => JsonView::String(s@),
        JsonValue::Array(v) => JsonView::Array(json_seq_view(v@)),
        JsonValue::Object(e) => JsonView::Object(json_entries_view(e@)),
    }
}

pub open spec fn json_seq_view(s: Seq<JsonValue>) -> Seq<JsonView>
    decreases s,
{
    if s.len() == 0 {
        Seq::empty()
    } else {
        json_seq_view(s.drop_last()).push(json_view(s.last()))
    }
}

pub open spec fn json_entries_view(s: Seq<(String, JsonValue)>) -> Seq<EntryView>
    decreases s,
{
    if s.len() == 0 {
        Seq::empty()
    } else {
        json_entries_view(s.drop_last()).push((s.last().0@, json_view(s.last().1)))
    }
}

impl View for JsonValue {
    type V = JsonView;

    open spec fn view(&self) -> JsonView {
        json_view(*self)
    }
}

/// The element-wise form of `json_seq_view`.
pub proof fn lemma_json_seq_view(s: Seq<JsonValue>)
    ensures
        json_seq_view(s).len() == s.len(),
        forall|i: int| 0 <= i < s.len() ==> #[trigger] json_seq_view(s)[i] == json_view(s[i]),
    decreases s.len(),
{
    if s.len() > 0 {
        lemma_json_seq_view(s.drop_last());
    }
}

/// The element-wise form of `json_entries_view`.
pub proof fn lemma_json_entries_view(s: Seq<(String, JsonValue)>)
    ensures
        json_entries_view(s).len() == s.len(),
        forall|i: int|
            0 <= i < s.len() ==> #[trigger] json_entries_view(s)[i] == (s[i].0@, json_view(s[i].1)),
    decreases s.len(),
{
    if s.len() > 0 {
        lemma_json_entries_view(s.drop_last());
    }
}

/// Two sequences of values with element-wise equal views have equal views.
pub proof fn lemma_json_seq_view_eq(a: Seq<JsonValue>, b: Seq<JsonValue>)
    requires
        a.len() == b.len(),
        forall|i: int| 0 <= i < a.len() ==> json_view(a[i]) == json_view(b[i]),
    ensures
        json_seq_view(a) == json_seq_view(b),
{
    lemma_json_seq_view(a);
    lemma_json_seq_view(b);
    assert(json_seq_view(a) =~= json_seq_view(b));
}

/// Two entry sequences with element-wise equal views have equal views.
pub proof fn lemma_json_entries_view_eq(a: Seq<(String, JsonValue)>, b: Seq<(String, JsonValue)>)
    requires
        a.len() == b.len(),
        forall|i: int| 0 <= i < a.len() ==> a[i].0@ == b[i].0@ && json_view(a[i].1) == json_view(b[i].1),
    ensures
        json_entries_view(a) == json_entries_view(b),
{
    lemma_json_entries_view(a);
    lemma_json_entries_view(b);
    assert(json_entries_view(a) =~= json_entries_view(b));
}

/// Entry `i` has the key `k`.
pub open spec fn key_at(entries: Seq<EntryView>, k: Seq<char>, i: int) -> bool {
    0 <= i < entries.len() && entries[i].0 == k
}

/// Some entry has the key `k`.
pub open spec fn obj_has(entries: Seq<EntryView>, k: Seq<char>) -> bool {
    exists|i: int| key_at(entries, k, i)
}

/// No two entries share a key.
pub open spec fn keys_unique(entries: Seq<EntryView>) -> bool {
    forall|i: int, j: int|
        0 <= i < entries.len() && 0 <= j < entries.len() && i != j ==> entries[i].0 != entries[j].0
}

/// The value of the first entry with key `k`, if any.
pub open spec fn obj_get(entries: Seq<EntryView>, k: Seq<char>) -> Option<JsonView>
    decreases entries.len(),
{
    if entries.len() == 0 {
        None
    } else if entries[0].0 == k {
        Some(entries[0].1)
    } else {
        obj_get(entries.drop_first(), k)
    }
}

/// `obj_get` finds the first entry with the key, and nothing when none has it.
pub proof fn lemma_obj_get(entries: Seq<EntryView>, k: Seq<char>)
    ensures
        obj_get(entries, k) is None <==> !obj_has(entries, k),
        forall|i: int|
            key_at(entries, k, i) && (forall|j: int| 0 <= j < i ==> !key_at(entries, k, j))
                ==> obj_get(entries, k) == Some(entries[i].1),
    decreases entries.len(),
{
    if entries.len() > 0 {
        let rest = entries.drop_first();
        lemma_obj_get(rest, k);
        if entries[0].0 != k {
            assert(obj_has(entries, k) == obj_has(rest, k)) by {
                if obj_has(entries, k) {
                    let i = choose|i: int| key_at(entries, k, i);
                    assert(key_at(rest, k, i - 1));
                }
                if obj_has(rest, k) {
                    let i = choose|i: int| key_at(rest, k, i);
                    assert(key_at(entries, k, i + 1));
                }
            }
            assert forall|i: int|
                key_at(entries, k, i) && (forall|j: int| 0 <= j < i ==> !key_at(entries, k, j))
                    implies obj_get(entries, k) == Some(entries[i].1) by {
                assert(key_at(rest, k, i - 1));
                assert forall|j: int| 0 <= j < i - 1 implies !key_at(rest, k, j) by {
                    assert(!key_at(entries, k, j + 1));
                }
            }
        } else {
            assert(key_at(entries, k, 0));
        }
    }
}

/// The first entry holding a key is the one `obj_get` finds.
pub proof fn lemma_obj_get_first(entries: Seq<EntryView>, k: Seq<char>, i: int)
    requires
        key_at(entries, k, i),
        forall|j: int| 0 <= j < i ==> !key_at(entries, k, j),
    ensures
        obj_get(entries, k) == Some(entries[i].1),
{
    lemma_obj_get(entries, k);
}

/// Looking a key up after appending an entry: an earlier entry with the key
/// still wins.
pub proof fn lemma_obj_get_push(q: Seq<EntryView>, k: Seq<char>, v: JsonView, x: Seq<char>)
    ensures
        obj_get(q.push((k, v)), x) == match obj_get(q, x) {
            Some(w) => Some(w),
            None => if x == k { Some(v) } else { None },
        },
    decreases q.len(),
{
    let p = q.push((k, v));
    if q.len() == 0 {
        assert(p.drop_first() =~= Seq::<EntryView>::empty());
    } else {
        assert(p.drop_first() =~= q.drop_first().push((k, v)));
        lemma_obj_get_push(q.drop_first(), k, v, x);
    }
}

/// With unique keys, the entry holding a key is the one `obj_get` finds.
pub proof fn lemma_obj_get_unique(entries: Seq<EntryView>, k: Seq<char>, i: int)
    requires
        keys_unique(entries),
        key_at(entries, k, i),
    ensures
        obj_get(entries, k) == Some(entries[i].1),
{
    lemma_obj_get(entries, k);
    assert forall|j: int| 0 <= j < i implies !key_at(entries, k, j) by {}
}

/// Setting key `k` to `v`: the first entry with that key takes the new value in
/// place, otherwise `(k, v)` is appended.
pub open spec fn obj_set(entries: Seq<EntryView>, k: Seq<char>, v: JsonView) -> Seq<EntryView>
    decreases entries.len(),
{
    if entries.len() == 0 {
        seq![(k, v)]
    } else if entries[0].0 == k {
        entries.update(0, (k, v))
    } else {
        seq![entries[0]] + obj_set(entries.drop_first(), k, v)
    }
}

/// What setting a key does to lookups, to key membership and to key uniqueness.
pub proof fn lemma_obj_set(entries: Seq<EntryView>, k: Seq<char>, v: JsonView)
    ensures
        obj_get(obj_set(entries, k, v), k) == Some(v),
        forall|k2: Seq<char>| k2 != k ==> obj_get(obj_set(entries, k, v), k2) == obj_get(entries, k2),
        forall|k2: Seq<char>|
            obj_has(obj_set(entries, k, v), k2) <==> (k2 == k || obj_has(entries, k2)),
        keys_unique(entries) ==> keys_unique(obj_set(entries, k, v)),
        obj_has(entries, k) ==> obj_set(entries, k, v).len() == entries.len(),
        !obj_has(entries, k) ==> obj_set(entries, k, v) == entries.push((k, v)),
    decreases entries.len(),
{
    let r = obj_set(entries, k, v);
    if entries.len() == 0 {
        assert(key_at(r, k, 0));
        assert forall|k2: Seq<char>| k2 != k implies obj_get(r, k2) == obj_get(entries, k2) by {
            assert(r == seq![(k, v)]);
            assert(r[0].0 == k);
            assert(r.drop_first() =~= Seq::<EntryView>::empty());
            assert(obj_get(r.drop_first(), k2) is None);
        }
        assert forall|k2: Seq<char>| obj_has(r, k2) <==> (k2 == k || obj_has(entries, k2)) by {
            if obj_has(r, k2) {
                let j = choose|j: int| key_at(r, k2, j);
            }
        }
        assert(r =~= entries.push((k, v)));
    } else if entries[0].0 == k {
        assert(key_at(entries, k, 0));
        assert(r.drop_first() =~= entries.drop_first());
        assert forall|k2: Seq<char>| k2 != k implies obj_get(r, k2) == obj_get(entries, k2) by {
            assert(r[0].0 == k);
        }
        assert forall|k2: Seq<char>| obj_has(r, k2) <==> (k2 == k || obj_has(entries, k2)) by {
            if obj_has(r, k2) {
                let j = choose|j: int| key_at(r, k2, j);
                assert(key_at(entries, k2, j));
            }
            if obj_has(entries, k2) {
                let j = choose|j: int| key_at(entries, k2, j);
                assert(key_at(r, k2, j));
            }
        }
    } else {
        let rest = entries.drop_first();
        lemma_obj_set(rest, k, v);
        let rr = obj_set(rest, k, v);
        assert(r.drop_first() =~= rr);
        assert(r[0] == entries[0]);
        assert forall|k2: Seq<char>| k2 != k implies obj_get(r, k2) == obj_get(entries, k2) by {
            if entries[0].0 != k2 {
                assert(obj_get(r, k2) == obj_get(rr, k2));
                assert(obj_get(rr, k2) == obj_get(rest, k2));
                assert(obj_get(entries, k2) == obj_get(rest, k2));
            } else {
                assert(obj_get(r, k2) == Some(r[0].1));
                assert(obj_get(entries, k2) == Some(entries[0].1));
            }
        }
        assert(obj_get(r, k) == Some(v)) by {
            if entries[0].0 != k {
                assert(obj_get(r, k) == obj_get(rr, k));
            }
        }
        assert forall|k2: Seq<char>| obj_has(r, k2) <==> (k2 == k || obj_has(entries, k2)) by {
            if obj_has(r, k2) {
                let j = choose|j: int| key_at(r, k2, j);
                if j > 0 {
                    assert(key_at(rr, k2, j - 1));
                    if k2 != k {
                        assert(obj_has(rr, k2));
                        assert(obj_has(rest, k2));
                        let jj = choose|jj: int| key_at(rest, k2, jj);
                        assert(key_at(entries, k2, jj + 1));
                    }
                } else {
                    assert(key_at(entries, k2, 0));
                }
            }
            if obj_has(entries, k2) {
                let j = choose|j: int| key_at(entries, k2, j);
                if j > 0 {
                    assert(key_at(rest, k2, j - 1));
                    assert(obj_has(rest, k2));
                    assert(obj_has(rr, k2));
                    let jj = choose|jj: int| key_at(rr, k2, jj);
                    assert(key_at(r, k2, jj + 1));
                } else {
                    assert(key_at(r, k2, 0));
                }
            }
            if k2 == k {
                assert(obj_has(rr, k2));
                let jj = choose|jj: int| key_at(rr, k2, jj);
                assert(key_at(r, k2, jj + 1));
            }
        }
        if keys_unique(entries) {
            assert(keys_unique(rest));
            assert forall|a: int, b: int|
                0 <= a < r.len() && 0 <= b < r.len() && a != b implies r[a].0 != r[b].0 by {
                if a == 0 && b > 0 {
                    assert(r[b] == rr[b - 1]);
                    if r[b].0 == entries[0].0 {
                        assert(key_at(rr, entries[0].0, b - 1));
                        assert(obj_has(rest, entries[0].0));
                        let jj = choose|jj: int| key_at(rest, entries[0].0, jj);
                        assert(entries[jj + 1].0 == entries[0].0);
                    }
                } else if b == 0 && a > 0 {
                    assert(r[a] == rr[a - 1]);
                    if r[a].0 == entries[0].0 {
                        assert(key_at(rr, entries[0].0, a - 1));
                        assert(obj_has(rest, entries[0].0));
                        let jj = choose|jj: int| key_at(rest, entries[0].0, jj);
                        assert(entries[jj + 1].0 == entries[0].0);
                    }
                } else if a > 0 && b > 0 {
                    assert(r[a] == rr[a - 1]);
                    assert(r[b] == rr[b - 1]);
                }
            }
        }
        if obj_has(entries, k) {
            let j = choose|j: int| key_at(entries, k, j);
            assert(key_at(rest, k, j - 1));
        } else {
            assert(!obj_has(rest, k)) by {
                if obj_has(rest, k) {
                    let jj = choose|jj: int| key_at(rest, k, jj);
                    assert(key_at(entries, k, jj + 1));
                }
            }
            assert(r =~= entries.push((k, v)));
        }
    }
}

/// The view of an object's entries.
pub open spec fn entries_view(entries: &Vec<(String, JsonValue)>) -> Seq<EntryView> {
    json_entries_view(entries@)
}

/// Index of the first entry with key `k`.
pub fn obj_find(entries: &Vec<(String, JsonValue)>, k: &str) -> (r: Option<usize>)
    ensures
        r matches Some(i) ==> i < entries.len(),
        r matches Some(i) ==> key_at(entries_view(entries), k@, i as int) && forall|j: int|
            0 <= j < i ==> !key_at(entries_view(entries), k@, j),
        r is None ==> !obj_has(entries_view(entries), k@),
        r matches Some(i) ==> obj_get(entries_view(entries), k@) == Some(entries@[i as int].1@),
        r is None ==> obj_get(entries_view(entries), k@) is None,
{
    let ghost ev = entries_view(entries);
    proof {
        lemma_obj_get(ev, k@);
        lemma_json_entries_view(entries@);
    }
    let mut i: usize = 0;
    while i < entries.len()
        invariant
            ev == entries_view(entries),
            ev.len() == entries.len(),
            forall|j: int| 0 <= j < entries.len() ==> #[trigger] ev[j] == (entries@[j].0@, entries@[j].1@),
            i <= entries.len(),
            forall|j: int| 0 <= j < i ==> !key_at(ev, k@, j),
        decreases entries.len() - i,
    {
        if str_eq(entries[i].0.as_str(), k) {
            assert(ev[i as int] == (entries@[i as int].0@, entries@[i as int].1@));
            assert(key_at(ev, k@, i as int));
            proof {
                lemma_obj_get_first(ev, k@, i as int);
            }
            return Some(i);
        }
        assert(ev[i as int] == (entries@[i as int].0@, entries@[i as int].1@));
        i = i + 1;
    }
    None
}

/// Whether an object holds the key `k`.
pub fn obj_contains(entries: &Vec<(String, JsonValue)>, k: &str) -> (r: bool)
    ensures
        r == obj_has(entries_view(entries), k@),
{
    obj_find(entries, k).is_some()
}

/// A copy of the value of key `k`, if present.
pub fn obj_lookup(entries: &Vec<(String, JsonValue)>, k: &str) -> (r: Option<JsonValue>)
    ensures
        obj_get(entries_view(entries), k@) == match r {
            Some(v) => Some(v@),
            None => None::<JsonView>,
        },
{
    match obj_find(entries, k) {
        Some(i) => Some(entries[i].1.deep_clone()),
        None => None,
    }
}

/// Sets the value of key `k`: the first entry with that key is updated in place,
/// otherwise a new entry is appended.
pub fn obj_insert(entries: &mut Vec<(String, JsonValue)>, k: String, v: JsonValue)
    ensures
        entries_view(final(entries)) == obj_set(entries_view(old(entries)), k@, v@),
{
    let ghost pre = entries_view(entries);
    let ghost kv = k@;
    let ghost vv = v@;
    proof {
        lemma_json_entries_view(entries@);
    }
    match obj_find(entries, k.as_str()) {
        Some(i) => {
            let key = entries[i].0.clone();
            let ghost old_entries = entries@;
            entries.set(i, (key, v));
            proof {
                lemma_json_entries_view(entries@);
                lemma_obj_set_at(pre, kv, vv, i as int);
                assert(entries_view(entries) =~= pre.update(i as int, (kv, vv)));
            }
        },
        None => {
            let ghost old_entries = entries@;
            entries.push((k, v));
            proof {
                lemma_json_entries_view(entries@);
                lemma_obj_set(pre, kv, vv);
                assert(entries_view(entries) =~= pre.push((kv, vv)));
            }
        },
    }
}

/// Setting a key that first occurs at `i` replaces entry `i`.
pub proof fn lemma_obj_set_at(entries: Seq<EntryView>, k: Seq<char>, v: JsonView, i: int)
    requires
        key_at(entries, k, i),
        forall|j: int| 0 <= j < i ==> !key_at(entries, k, j),
    ensures
        obj_set(entries, k, v) == entries.update(i, (k, v)),
    decreases i,
{
    if i > 0 {
        assert(!key_at(entries, k, 0));
        let rest = entries.drop_first();
        assert forall|j: int| 0 <= j < i - 1 implies !key_at(rest, k, j) by {
            assert(!key_at(entries, k, j + 1));
        }
        lemma_obj_set_at(rest, k, v, i - 1);
        assert(obj_set(entries, k, v) =~= entries.update(i, (k, v)));
    }
}

impl JsonValue {
    /// A copy with the same view.
    pub fn deep_clone(&self) -> (r: JsonValue)
        ensures
            r@ == self@,
        decreases self,
    {
        match self {
            JsonValue::Null => JsonValue::Null,
            JsonValue::Bool(b) => JsonValue::Bool(*b),
            JsonValue::Number(n) => JsonValue::Number(n.clone()),
            JsonValue::String(s) => JsonValue::String(s.clone()),
            JsonValue::Array(items) => {
                let mut out: Vec<JsonValue> = Vec::new();
                let mut i: usize = 0;
                while i < items.len()
                    invariant
                        *self == JsonValue::Array(*items),
                        i <= items.len(),
                        out.len() == i,
                        forall|j: int| 0 <= j < i ==> out@[j]@ == items@[j]@,
                    decreases items.len() - i,
                {
                    proof {
                        assert(decreases_to!(self => self->Array_0));
                        assert(decreases_to!(self->Array_0 => self->Array_0@));
                    }
                    let c = items[i].deep_clone();
                    out.push(c);
                    i = i + 1;
                }
                proof {
                    lemma_json_seq_view_eq(out@, items@);
                }
                JsonValue::Array(out)
            },
            JsonValue::Object(entries) => {
                let mut out: Vec<(String, JsonValue)> = Vec::new();
                let mut i: usize = 0;
                while i < entries.len()
                    invariant
                        *self == JsonValue::Object(*entries),
                        i <= entries.len(),
                        out.len() == i,
                        forall|j: int| 0 <= j < i ==> out@[j].0@ == entries@[j].0@ && out@[j].1@ == entries@[j].1@,
                    decreases entries.len() - i,
                {
                    proof {
                        assert(decreases_to!(self => self->Object_0));
                        assert(decreases_to!(self->Object_0 => self->Object_0@));
                        assert(decreases_to!(self->Object_0@ => self->Object_0@[i as int]));
                    }
                    let c = entries[i].1.deep_clone();
                    let k = entries[i].0.clone();
                    out.push((k, c));
                    i = i + 1;
                }
                proof {
                    lemma_json_entries_view_eq(out@, entries@);
                }
                JsonValue::Object(out)
            },
        }
    }
}

/// A copy of a list of strings.
pub fn clone_strings(v: &Vec<String>) -> (r: Vec<String>)
    ensures
        r@ == v@,
{
    let mut out: Vec<String> = Vec::new();
    let mut i: usize = 0;
    while i < v.len()
        invariant
            i <= v.len(),
            out@ == v@.subrange(0, i as int),
        decreases v.len() - i,
    {
        out.push(v[i].clone());
        i = i + 1;
        assert(out@ =~= v@.subrange(0, i as int));
    }
    assert(out@ =~= v@);
    out
}


#[verifier::external_type_specification]
#[verifier::external_body]
pub struct ExParsedJson(serde_json::Value);

/// The JSON document that `serde_json` parses a text into, when it parses it.
pub uninterp spec fn json_document(text: Seq<char>) -> Option<JsonView>;

/// Parses JSON text with `serde_json::from_str::<serde_json::Value>` and
/// converts the parsed value, variant for variant, into a `JsonValue`.
/// The contract claims only that whether the text parses, and the document it
/// parses into, depend on the text alone (the document is named
/// `json_document`); which texts parse, and into what, is not stated here (the
/// entries of a parsed object come in the order `serde_json`'s map keeps them,
/// one per key: of a key repeated in the text the map keeps the last value).
/// An error carries the parser's message, of which nothing is stated.
#[verifier::external_body]
pub fn parse_json(text: &str) -> (r: Result<JsonValue, String>)
    ensures
        r is Ok <==> json_document(text@) is Some,
        r matches Ok(v) ==> json_document(text@) == Some(v@),
{
    match serde_json::from_str::<serde_json::Value>(text) {
        Ok(v) => Ok(json_from_parsed(&v)),
        Err(e) => Err(e.to_string()),
    }
}

/// The conversion that `parse_json` applies to what `serde_json` parsed:
/// numbers by their `Display` text, the rest variant for variant. Nothing is
/// stated of it beyond what `parse_json` states.
#[verifier::external_body]
fn json_from_parsed(v: &serde_json::Value) -> JsonValue {
    match v {
        serde_json::Value::Null => JsonValue::Null,
        serde_json::Value::Bool(b) => JsonValue::Bool(*b),
        serde_json::Value::Number(n) => JsonValue::Number(n.to_string()),
        serde_json::Value::String(s) => JsonValue::String(s.clone()),
        serde_json::Value::Array(items) => JsonValue::Array(items.iter().map(json_from_parsed).collect()),
        serde_json::Value::Object(m) => JsonValue::Object(
            m.iter().map(|(k, x)| (k.clone(), json_from_parsed(x))).collect(),
        ),
    }
}


/// The JSON text that `serde_json` writes for a document.
pub uninterp spec fn json_text(v: JsonView) -> Seq<char>;

/// Writes a document as JSON text with `serde_json::to_string`, after
/// converting it variant for variant into a `serde_json::Value` (a number by
/// parsing its text as a JSON number, kept as a string where that fails).
/// The contract claims that writing succeeds (the value handed to the writer
/// holds only nulls, booleans, numbers, strings, arrays and string-keyed
/// objects, on which `serde_json`'s serializer has no error path) and that
/// the text depends on the document alone (it is named `json_text`); its form
/// is not stated here.
#[verifier::external_body]
pub fn write_json(v: &JsonValue) -> (r: Result<String, String>)
    ensures
        r is Ok,
        r matches Ok(t) ==> t@ == json_text(v@),
{
    match serde_json::to_string(&parsed_from_value(v)) {
        Ok(t) => Ok(t),
        Err(e) => Err(e.to_string()),
    }
}

/// The conversion that `write_json` applies before writing. Nothing is
/// stated of it beyond what `write_json` states.
#[verifier::external_body]
fn parsed_from_value(v: &JsonValue) -> serde_json::Value {
    match v {
        JsonValue::Null => serde_json::Value::Null,
        JsonValue::Bool(b) => serde_json::Value::Bool(*b),
        JsonValue::Number(n) => match n.parse::<serde_json::Number>() {
            Ok(x) => serde_json::Value::Number(x),
            Err(_) => serde_json::Value::String(n.clone()),
        },
        JsonValue::String(s) => serde_json::Value::String(s.clone()),
        JsonValue::Array(items) => serde_json::Value::Array(items.iter().map(parsed_from_value).collect()),
        JsonValue::Object(e) => serde_json::Value::Object(
            e.iter().map(|(k, x)| (k.clone(), parsed_from_value(x))).collect(),
        ),
    }
}

} // verus!
