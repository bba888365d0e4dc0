//! Reaction configurations and the rules by which they are read from, and
//! written as, key/value maps.

use vstd::prelude::*;
use crate::json::{
    EntryView, JsonValue, JsonView, entries_view, json_seq_view, keys_unique,
    lemma_json_entries_view, lemma_json_seq_view, lemma_obj_set, obj_has, obj_insert, obj_set,
    lemma_obj_get, lemma_obj_get_push, lemma_obj_get_unique, obj_get,
};
use crate::models::{DecodeError, DecodeErrorView, Field, bool_value, has_entry, object_entries, push_object_entries, result_view, str_value};
use crate::text::{owned, str_eq};

verus! {

/// Reaction configuration with kind discriminator: the plugin kind, the
/// common fields, and the plugin-specific settings as a JSON value.
#[derive(Debug, PartialEq)]
pub struct ReactionConfig {
    pub kind: String,
    pub id: String,
    pub queries: Vec<String>,
    pub auto_start: bool,
    pub config: JsonValue,
}

/// The mathematical form of a reaction configuration.
pub struct ReactionView {
    pub kind: Seq<char>,
    pub id: Seq<char>,
    pub queries: Seq<Seq<char>>,
    pub auto_start: bool,
    pub config: JsonView,
}

/// The views of a list of strings.
pub open spec fn strings_view(v: Seq<String>) -> Seq<Seq<char>> {
    v.map_values(|s: String| s@)
}

impl View for ReactionConfig {
    type V = ReactionView;

    open spec fn view(&self) -> ReactionView {
        ReactionView {
            kind: self.kind@,
            id: self.id@,
            queries: strings_view(self.queries@),
            auto_start: self.auto_start,
            config: self.config@,
        }
    }
}

/// The strings of a JSON array that holds only strings.
pub open spec fn string_array(v: JsonView) -> Option<Seq<Seq<char>>> {
    match v {
        JsonView::Array(items) => if forall|i: int| 0 <= i < items.len() ==> (#[trigger] items[i]) is String {
            Some(items.map_values(|x: JsonView| x->String_0))
        } else {
            None
        },
        _ => None,
    }
}

/// The JSON array of the given strings.
pub open spec fn strings_json(s: Seq<Seq<char>>) -> JsonView {
    JsonView::Array(s.map_values(|x: Seq<char>| JsonView::String(x)))
}

/// The fields of a reaction map read so far.
pub struct ReactionDecoderView {
    pub kind: Option<Seq<char>>,
    pub id: Option<Seq<char>>,
    pub queries: Option<Seq<Seq<char>>>,
    pub auto_start: Option<bool>,
    pub remaining: Seq<EntryView>,
}

/// A reaction decoder that has read nothing.
pub open spec fn reaction_decoder_empty() -> ReactionDecoderView {
    ReactionDecoderView { kind: None, id: None, queries: None, auto_start: None, remaining: Seq::empty() }
}

/// One entry of a reaction map read into a decoder state: a repeated common
/// field and the snake_case spelling `auto_start` are errors; other keys are
/// plugin settings.
pub open spec fn reaction_step(d: ReactionDecoderView, k: Seq<char>, v: JsonView) -> Result<
    ReactionDecoderView,
    DecodeErrorView,
> {
    if k == "kind"@ {
        if d.kind is Some {
            Err(DecodeErrorView::DuplicateField(Field::Kind))
        } else {
            match v {
                JsonView::String(s) => Ok(ReactionDecoderView { kind: Some(s), ..d }),
                _ => Err(DecodeErrorView::InvalidType(Field::Kind)),
            }
        }
    } else if k == "id"@ {
        if d.id is Some {
            Err(DecodeErrorView::DuplicateField(Field::Id))
        } else {
            match v {
                JsonView::String(s) => Ok(ReactionDecoderView { id: Some(s), ..d }),
                _ => Err(DecodeErrorView::InvalidType(Field::Id)),
            }
        }
    } else if k == "queries"@ {
        if d.queries is Some {
            Err(DecodeErrorView::DuplicateField(Field::Queries))
        } else {
            match string_array(v) {
                Some(q) => Ok(ReactionDecoderView { queries: Some(q), ..d }),
                None => Err(DecodeErrorView::InvalidType(Field::Queries)),
            }
        }
    } else if k == "autoStart"@ {
        if d.auto_start is Some {
            Err(DecodeErrorView::DuplicateField(Field::AutoStart))
        } else {
            match v {
                JsonView::Bool(b) => Ok(ReactionDecoderView { auto_start: Some(b), ..d }),
                _ => Err(DecodeErrorView::InvalidType(Field::AutoStart)),
            }
        }
    } else if k == "auto_start"@ {
        Err(DecodeErrorView::MisspelledField(Field::AutoStart))
    } else {
        Ok(ReactionDecoderView { remaining: obj_set(d.remaining, k, v), ..d })
    }
}

/// The entries of a reaction map read in order.
pub open spec fn reaction_fold(entries: Seq<EntryView>) -> Result<ReactionDecoderView, DecodeErrorView>
    decreases entries.len(),
{
    if entries.len() == 0 {
        Ok(reaction_decoder_empty())
    } else {
        match reaction_fold(entries.drop_last()) {
            Err(e) => Err(e),
            Ok(d) => reaction_step(d, entries.last().0, entries.last().1),
        }
    }
}

/// The reaction a complete decoder state yields: `kind`, `id` and `queries`
/// are required, `autoStart` defaults to true.
pub open spec fn reaction_finish(d: ReactionDecoderView) -> Result<ReactionView, DecodeErrorView> {
    match (d.kind, d.id, d.queries) {
        (None, _, _) => Err(DecodeErrorView::MissingField(Field::Kind)),
        (Some(_), None, _) => Err(DecodeErrorView::MissingField(Field::Id)),
        (Some(_), Some(_), None) => Err(DecodeErrorView::MissingField(Field::Queries)),
        (Some(kind), Some(id), Some(queries)) => Ok(
            ReactionView {
                kind,
                id,
                queries,
                auto_start: match d.auto_start {
                    Some(b) => b,
                    None => true,
                },
                config: JsonView::Object(d.remaining),
            },
        ),
    }
}

/// Reading a reaction configuration from the entries of a JSON map.
pub open spec fn reaction_from_entries_spec(entries: Seq<EntryView>) -> Result<ReactionView, DecodeErrorView> {
    match reaction_fold(entries) {
        Err(e) => Err(e),
        Ok(d) => reaction_finish(d),
    }
}

/// A reaction written as a map: `kind`, `id`, `queries`, `autoStart`, then
/// the plugin-specific settings.
pub open spec fn reaction_to_entries(r: ReactionView) -> Seq<EntryView> {
    seq![
        ("kind"@, JsonView::String(r.kind)),
        ("id"@, JsonView::String(r.id)),
        ("queries"@, strings_json(r.queries)),
        ("autoStart"@, JsonView::Bool(r.auto_start)),
    ] + object_entries(r.config)
}

/// The keys that a reaction map holds at most once.
pub open spec fn reaction_common(k: Seq<char>) -> bool {
    k == "kind"@ || k == "id"@ || k == "queries"@ || k == "autoStart"@
}

/// What reading any reaction map establishes when it succeeds: `auto_start`
/// does not occur, no common field occurs twice, `kind`, `id`, `queries` and
/// `autoStart` were found exactly when the map has them and hold the map's
/// values, and every other key of the map is kept among the settings and
/// nothing else is.
pub proof fn law_reaction_decoding(e: Seq<EntryView>)
    requires
        reaction_fold(e) is Ok,
    ensures
        ({
            let d = reaction_fold(e)->Ok_0;
            &&& forall|i: int| 0 <= i < e.len() ==> (#[trigger] e[i]).0 != "auto_start"@
            &&& forall|i: int, j: int| 0 <= i < j < e.len() && (#[trigger] e[i]).0 == (#[trigger] e[j]).0 ==> !reaction_common(e[i].0)
            &&& (d.kind is Some <==> has_entry(e, "kind"@))
            &&& (d.id is Some <==> has_entry(e, "id"@))
            &&& (d.queries is Some <==> has_entry(e, "queries"@))
            &&& (d.auto_start is Some <==> has_entry(e, "autoStart"@))
            &&& forall|i: int| 0 <= i < e.len() && (#[trigger] e[i]).0 == "kind"@ ==> (d.kind is Some && e[i].1 == JsonView::String(d.kind->Some_0))
            &&& forall|i: int| 0 <= i < e.len() && (#[trigger] e[i]).0 == "id"@ ==> (d.id is Some && e[i].1 == JsonView::String(d.id->Some_0))
            &&& forall|i: int| 0 <= i < e.len() && (#[trigger] e[i]).0 == "queries"@ ==> (d.queries is Some && string_array(e[i].1) == d.queries)
            &&& forall|i: int| 0 <= i < e.len() && (#[trigger] e[i]).0 == "autoStart"@ ==> (d.auto_start is Some && e[i].1 == JsonView::Bool(d.auto_start->Some_0))
            &&& forall|k: Seq<char>| !reaction_common(k) ==> (obj_has(d.remaining, k) <==> has_entry(e, k))
        }),
    decreases e.len(),
{
    reveal_strlit("kind");
    reveal_strlit("id");
    reveal_strlit("queries");
    reveal_strlit("autoStart");
    reveal_strlit("auto_start");
    assert("kind"@.len() == 4 && "id"@.len() == 2 && "queries"@.len() == 7 && "autoStart"@.len() == 9
        && "auto_start"@.len() == 10);
    if e.len() == 0 {
        let d = reaction_fold(e)->Ok_0;
        assert forall|k: Seq<char>| !reaction_common(k) implies (obj_has(d.remaining, k) <==> has_entry(e, k)) by {
            if obj_has(d.remaining, k) {
                let i = choose|i: int| crate::json::key_at(d.remaining, k, i);
            }
        }
    } else {
        let p = e.drop_last();
        law_reaction_decoding(p);
        let dp = reaction_fold(p)->Ok_0;
        let d = reaction_fold(e)->Ok_0;
        let (k, v) = e.last();
        let n = e.len() - 1;
        assert(e[n] == (k, v));
        assert forall|i: int| 0 <= i < n implies e[i] == #[trigger] p[i] by {}
        assert forall|x: Seq<char>| has_entry(e, x) <==> (has_entry(p, x) || x == k) by {
            if has_entry(e, x) {
                let i = choose|i: int| 0 <= i < e.len() && (#[trigger] e[i]).0 == x;
                if i < n {
                    assert(p[i].0 == x);
                }
            }
            if has_entry(p, x) {
                let i = choose|i: int| 0 <= i < p.len() && (#[trigger] p[i]).0 == x;
                assert(e[i].0 == x);
            }
            if x == k {
                assert(e[n].0 == x);
            }
        }
        assert(reaction_step(dp, k, v) == Ok::<_, DecodeErrorView>(d));
        assert(k != "auto_start"@);
        if k == "kind"@ {
            assert(dp.kind is None && v is String && d == ReactionDecoderView { kind: Some(v->String_0), ..dp });
        } else if k == "id"@ {
            assert(dp.id is None && v is String && d == ReactionDecoderView { id: Some(v->String_0), ..dp });
        } else if k == "queries"@ {
            assert(dp.queries is None && string_array(v) is Some && d == ReactionDecoderView { queries: string_array(v), ..dp });
        } else if k == "autoStart"@ {
            assert(dp.auto_start is None && v is Bool && d == ReactionDecoderView { auto_start: Some(v->Bool_0), ..dp });
        } else {
            assert(d == ReactionDecoderView { remaining: obj_set(dp.remaining, k, v), ..dp });
        }
        if reaction_common(k) {
            assert(!has_entry(p, k));
            assert(d.remaining == dp.remaining);
        } else {
            lemma_obj_set(dp.remaining, k, v);
        }
        assert forall|i: int, j: int| 0 <= i < j < e.len() && (#[trigger] e[i]).0 == (#[trigger] e[j]).0 implies !reaction_common(e[i].0) by {
            if j == n {
                if reaction_common(k) {
                    assert(p[i].0 == k);
                    assert(has_entry(p, k));
                }
            } else {
                assert(p[i] == e[i] && p[j] == e[j]);
            }
        }
        assert forall|i: int| 0 <= i < e.len() && (#[trigger] e[i]).0 == "kind"@ implies (d.kind is Some && e[i].1 == JsonView::String(d.kind->Some_0)) by {
            if i < n {
                assert(p[i].0 == "kind"@);
                assert(has_entry(p, "kind"@));
            }
        }
        assert forall|i: int| 0 <= i < e.len() && (#[trigger] e[i]).0 == "id"@ implies (d.id is Some && e[i].1 == JsonView::String(d.id->Some_0)) by {
            if i < n {
                assert(p[i].0 == "id"@);
                assert(has_entry(p, "id"@));
            }
        }
        assert forall|i: int| 0 <= i < e.len() && (#[trigger] e[i]).0 == "queries"@ implies (d.queries is Some && string_array(e[i].1) == d.queries) by {
            if i < n {
                assert(p[i].0 == "queries"@);
                assert(has_entry(p, "queries"@));
            }
        }
        assert forall|i: int| 0 <= i < e.len() && (#[trigger] e[i]).0 == "autoStart"@ implies (d.auto_start is Some && e[i].1 == JsonView::Bool(d.auto_start->Some_0)) by {
            if i < n {
                assert(p[i].0 == "autoStart"@);
                assert(has_entry(p, "autoStart"@));
            }
        }
        assert forall|i: int| 0 <= i < e.len() implies (#[trigger] e[i]).0 != "auto_start"@ by {
            if i < n {
                assert(p[i] == e[i]);
            }
        }
    }
}

/// The entries of a reaction map that are plugin settings, in order.
pub open spec fn reaction_settings(e: Seq<EntryView>) -> Seq<EntryView>
    decreases e.len(),
{
    if e.len() == 0 {
        Seq::empty()
    } else if reaction_common(e.last().0) {
        reaction_settings(e.drop_last())
    } else {
        reaction_settings(e.drop_last()).push(e.last())
    }
}

/// A reaction map without problems: distinct keys, no `auto_start`, a string
/// `kind` and `id`, a list of strings under `queries` and a boolean
/// `autoStart` wherever they occur.
pub open spec fn clean_reaction_entries(e: Seq<EntryView>) -> bool {
    &&& keys_unique(e)
    &&& forall|i: int| 0 <= i < e.len() ==> (#[trigger] e[i]).0 != "auto_start"@
    &&& forall|i: int| 0 <= i < e.len() && (#[trigger] e[i]).0 == "kind"@ ==> e[i].1 is String
    &&& forall|i: int| 0 <= i < e.len() && (#[trigger] e[i]).0 == "id"@ ==> e[i].1 is String
    &&& forall|i: int| 0 <= i < e.len() && (#[trigger] e[i]).0 == "queries"@ ==> string_array(e[i].1) is Some
    &&& forall|i: int| 0 <= i < e.len() && (#[trigger] e[i]).0 == "autoStart"@ ==> e[i].1 is Bool
}

/// The query names a looked-up value holds, if it is a list of strings.
pub open spec fn queries_value(o: Option<JsonView>) -> Option<Seq<Seq<char>>> {
    match o {
        Some(v) => string_array(v),
        None => None,
    }
}

/// Reading a clean reaction map collects its fields and, in order, its settings.
proof fn lemma_clean_reaction_fold(e: Seq<EntryView>)
    requires
        clean_reaction_entries(e),
    ensures
        reaction_fold(e) == Ok::<_, DecodeErrorView>(
            ReactionDecoderView {
                kind: str_value(obj_get(e, "kind"@)),
                id: str_value(obj_get(e, "id"@)),
                queries: queries_value(obj_get(e, "queries"@)),
                auto_start: bool_value(obj_get(e, "autoStart"@)),
                remaining: reaction_settings(e),
            },
        ),
        forall|x: Seq<char>| obj_has(reaction_settings(e), x) ==> obj_has(e, x),
    decreases e.len(),
{
    reveal_strlit("kind");
    reveal_strlit("id");
    reveal_strlit("queries");
    reveal_strlit("autoStart");
    reveal_strlit("auto_start");
    assert("kind"@.len() == 4 && "id"@.len() == 2 && "queries"@.len() == 7 && "autoStart"@.len() == 9
        && "auto_start"@.len() == 10);
    if e.len() == 0 {
        assert forall|x: Seq<char>| obj_has(reaction_settings(e), x) implies obj_has(e, x) by {
            let i = choose|i: int| crate::json::key_at(reaction_settings(e), x, i);
        }
    } else {
        let q = e.drop_last();
        let n = e.len() - 1;
        let (k, v) = e.last();
        assert(e[n] == (k, v));
        assert forall|i: int| 0 <= i < q.len() implies #[trigger] q[i] == e[i] by {}
        assert(clean_reaction_entries(q)) by {
            assert forall|i: int| 0 <= i < q.len() && (#[trigger] q[i]).0 == "kind"@ implies q[i].1 is String by {
                assert(q[i] == e[i]);
            }
            assert forall|i: int| 0 <= i < q.len() && (#[trigger] q[i]).0 == "id"@ implies q[i].1 is String by {
                assert(q[i] == e[i]);
            }
            assert forall|i: int| 0 <= i < q.len() && (#[trigger] q[i]).0 == "queries"@ implies string_array(q[i].1) is Some by {
                assert(q[i] == e[i]);
            }
            assert forall|i: int| 0 <= i < q.len() && (#[trigger] q[i]).0 == "autoStart"@ implies q[i].1 is Bool by {
                assert(q[i] == e[i]);
            }
            assert forall|i: int| 0 <= i < q.len() implies (#[trigger] q[i]).0 != "auto_start"@ by {
                assert(q[i] == e[i]);
            }
        }
        lemma_clean_reaction_fold(q);
        assert(e =~= q.push((k, v)));
        assert(!obj_has(q, k)) by {
            if obj_has(q, k) {
                let j = choose|j: int| #[trigger] crate::json::key_at(q, k, j);
                assert(e[j].0 == e[n].0);
            }
        }
        lemma_obj_get(q, k);
        lemma_obj_get_push(q, k, v, "kind"@);
        lemma_obj_get_push(q, k, v, "id"@);
        lemma_obj_get_push(q, k, v, "queries"@);
        lemma_obj_get_push(q, k, v, "autoStart"@);
        assert(k != "auto_start"@);
        let dq = reaction_fold(q)->Ok_0;
        if k == "kind"@ {
            assert(v is String);
        } else if k == "id"@ {
            assert(v is String);
        } else if k == "queries"@ {
            assert(string_array(v) is Some);
        } else if k == "autoStart"@ {
            assert(v is Bool);
        } else {
            lemma_obj_set(dq.remaining, k, v);
            assert(!obj_has(dq.remaining, k));
        }
        assert forall|x: Seq<char>| obj_has(reaction_settings(e), x) implies obj_has(e, x) by {
            if obj_has(q, x) {
                let j = choose|j: int| #[trigger] crate::json::key_at(q, x, j);
                assert(crate::json::key_at(e, x, j));
            }
            if x == k {
                assert(crate::json::key_at(e, x, n));
            }
            if !reaction_common(k) {
                lemma_obj_set(dq.remaining, k, v);
            }
        }
    }
}

/// A clean reaction map with a `kind`, an `id` and `queries` always reads
/// as a reaction: those fields, `autoStart` as given or else true, and every
/// other entry, in order, among the settings.
pub proof fn law_reaction_success(e: Seq<EntryView>)
    requires
        clean_reaction_entries(e),
        has_entry(e, "kind"@),
        has_entry(e, "id"@),
        has_entry(e, "queries"@),
    ensures
        str_value(obj_get(e, "kind"@)) is Some,
        str_value(obj_get(e, "id"@)) is Some,
        queries_value(obj_get(e, "queries"@)) is Some,
        reaction_from_entries_spec(e) == Ok::<_, DecodeErrorView>(
            ReactionView {
                kind: str_value(obj_get(e, "kind"@))->Some_0,
                id: str_value(obj_get(e, "id"@))->Some_0,
                queries: queries_value(obj_get(e, "queries"@))->Some_0,
                auto_start: match bool_value(obj_get(e, "autoStart"@)) {
                    Some(b) => b,
                    None => true,
                },
                config: JsonView::Object(reaction_settings(e)),
            },
        ),
{
    lemma_clean_reaction_fold(e);
    let i = choose|i: int| 0 <= i < e.len() && (#[trigger] e[i]).0 == "kind"@;
    lemma_obj_get_unique(e, "kind"@, i);
    let j = choose|j: int| 0 <= j < e.len() && (#[trigger] e[j]).0 == "id"@;
    lemma_obj_get_unique(e, "id"@, j);
    let l = choose|l: int| 0 <= l < e.len() && (#[trigger] e[l]).0 == "queries"@;
    lemma_obj_get_unique(e, "queries"@, l);
}

/// A reaction map is refused when it lacks `kind`, `id` or `queries`,
/// repeats one of `kind`, `id`, `queries` and `autoStart`, or holds
/// `auto_start`; a map that is otherwise readable and lacks one of the
/// three is refused as missing the first one it lacks.
pub proof fn law_reaction_errors(e: Seq<EntryView>)
    ensures
        !has_entry(e, "kind"@) ==> reaction_from_entries_spec(e) is Err,
        !has_entry(e, "id"@) ==> reaction_from_entries_spec(e) is Err,
        !has_entry(e, "queries"@) ==> reaction_from_entries_spec(e) is Err,
        (exists|i: int, j: int| 0 <= i < j < e.len() && (#[trigger] e[i]).0 == (#[trigger] e[j]).0 && reaction_common(e[i].0))
            ==> reaction_from_entries_spec(e) is Err,
        has_entry(e, "auto_start"@) ==> reaction_from_entries_spec(e) is Err,
        reaction_fold(e) is Ok && !has_entry(e, "kind"@) ==> reaction_from_entries_spec(e) == Err::<ReactionView, _>(
            DecodeErrorView::MissingField(Field::Kind),
        ),
        reaction_fold(e) is Ok && has_entry(e, "kind"@) && !has_entry(e, "id"@) ==> reaction_from_entries_spec(e)
            == Err::<ReactionView, _>(DecodeErrorView::MissingField(Field::Id)),
        reaction_fold(e) is Ok && has_entry(e, "kind"@) && has_entry(e, "id"@) && !has_entry(e, "queries"@)
            ==> reaction_from_entries_spec(e) == Err::<ReactionView, _>(DecodeErrorView::MissingField(Field::Queries)),
{
    if reaction_fold(e) is Ok {
        law_reaction_decoding(e);
        if has_entry(e, "auto_start"@) {
            let i = choose|i: int| 0 <= i < e.len() && (#[trigger] e[i]).0 == "auto_start"@;
        }
    }
}

/// A reaction map that reads as a reaction has a `kind`, an `id` and `queries`.
pub proof fn law_reaction_requires_fields(e: Seq<EntryView>)
    requires
        reaction_from_entries_spec(e) is Ok,
    ensures
        has_entry(e, "kind"@),
        has_entry(e, "id"@),
        has_entry(e, "queries"@),
{
    law_reaction_decoding(e);
}

/// Once reading a prefix fails, reading all entries fails the same way.
proof fn lemma_reaction_fold_err(entries: Seq<EntryView>, i: int)
    requires
        0 <= i <= entries.len(),
        reaction_fold(entries.subrange(0, i)) is Err,
    ensures
        reaction_fold(entries) == reaction_fold(entries.subrange(0, i)),
    decreases entries.len() - i,
{
    if i < entries.len() {
        assert(entries.drop_last().subrange(0, i) =~= entries.subrange(0, i));
        lemma_reaction_fold_err(entries.drop_last(), i);
    } else {
        assert(entries.subrange(0, i) =~= entries);
    }
}

/// The strings of a JSON array holding only strings.
fn read_string_array(v: &JsonValue) -> (r: Option<Vec<String>>)
    ensures
        match r {
            Some(q) => string_array(v@) == Some(strings_view(q@)),
            None => string_array(v@) is None,
        },
{
    match v {
        JsonValue::Array(items) => {
            proof {
                lemma_json_seq_view(items@);
            }
            let ghost iv = json_seq_view(items@);
            let mut out: Vec<String> = Vec::new();
            let mut i: usize = 0;
            while i < items.len()
                invariant
                    iv == json_seq_view(items@),
                    v@ == JsonView::Array(iv),
                    iv.len() == items.len(),
                    forall|j: int| 0 <= j < items.len() ==> #[trigger] iv[j] == items@[j]@,
                    i <= items.len(),
                    out@.len() == i,
                    forall|j: int| 0 <= j < i ==> (#[trigger] iv[j]) is String && iv[j]->String_0 == out@[j]@,
                decreases items.len() - i,
            {
                match &items[i] {
                    JsonValue::String(s) => {
                        out.push(s.clone());
                    },
                    _ => {
                        assert(!(iv[i as int] is String));
                        assert(v@ == JsonView::Array(iv));
                        assert(string_array(v@) is None);
                        return None;
                    },
                }
                i = i + 1;
            }
            assert(iv.map_values(|x: JsonView| x->String_0) =~= strings_view(out@));
            assert(v@ == JsonView::Array(iv));
            Some(out)
        },
        _ => None,
    }
}

/// The fields of a reaction map read so far.
struct ReactionDecoder {
    kind: Option<String>,
    id: Option<String>,
    queries: Option<Vec<String>>,
    auto_start: Option<bool>,
    remaining: Vec<(String, JsonValue)>,
}

impl View for ReactionDecoder {
    type V = ReactionDecoderView;

    closed spec fn view(&self) -> ReactionDecoderView {
        ReactionDecoderView {
            kind: match self.kind {
                Some(s) => Some(s@),
                None => None,
            },
            id: match self.id {
                Some(s) => Some(s@),
                None => None,
            },
            queries: match self.queries {
                Some(q) => Some(strings_view(q@)),
                None => None,
            },
            auto_start: self.auto_start,
            remaining: entries_view(&self.remaining),
        }
    }
}

impl ReactionDecoder {
    /// One entry of a JSON map.
    fn step(&mut self, key: &String, v: &JsonValue) -> (r: Result<(), DecodeError>)
        ensures
            match r {
                Ok(()) => reaction_step(old(self)@, key@, v@) == Ok::<_, DecodeErrorView>(final(self)@),
                Err(e) => reaction_step(old(self)@, key@, v@) == Err::<ReactionDecoderView, _>(e@),
            },
    {
        let k = key.as_str();
        if str_eq(k, "kind") {
            if self.kind.is_some() {
                return Err(DecodeError::DuplicateField(Field::Kind));
            }
            match v {
                JsonValue::String(s) => {
                    self.kind = Some(s.clone());
                    Ok(())
                },
                _ => Err(DecodeError::InvalidType(Field::Kind)),
            }
        } else if str_eq(k, "id") {
            if self.id.is_some() {
                return Err(DecodeError::DuplicateField(Field::Id));
            }
            match v {
                JsonValue::String(s) => {
                    self.id = Some(s.clone());
                    Ok(())
                },
                _ => Err(DecodeError::InvalidType(Field::Id)),
            }
        } else if str_eq(k, "queries") {
            if self.queries.is_some() {
                return Err(DecodeError::DuplicateField(Field::Queries));
            }
            match read_string_array(v) {
                Some(q) => {
                    self.queries = Some(q);
                    Ok(())
                },
                None => Err(DecodeError::InvalidType(Field::Queries)),
            }
        } else if str_eq(k, "autoStart") {
            if self.auto_start.is_some() {
                return Err(DecodeError::DuplicateField(Field::AutoStart));
            }
            match v {
                JsonValue::Bool(b) => {
                    self.auto_start = Some(*b);
                    Ok(())
                },
                _ => Err(DecodeError::InvalidType(Field::AutoStart)),
            }
        } else if str_eq(k, "auto_start") {
            Err(DecodeError::MisspelledField(Field::AutoStart))
        } else {
            obj_insert(&mut self.remaining, key.clone(), v.deep_clone());
            Ok(())
        }
    }
}

impl ReactionConfig {
    /// Get the reaction ID
    pub fn id(&self) -> (r: &str)
        ensures
            r@ == self.id@,
    {
        self.id.as_str()
    }

    /// Get the query IDs this reaction subscribes to
    pub fn queries(&self) -> (r: &[String])
        ensures
            r@ == self.queries@,
    {
        self.queries.as_slice()
    }

    /// Check if auto_start is enabled
    pub fn auto_start(&self) -> (r: bool)
        ensures
            r == self.auto_start,
    {
        self.auto_start
    }

    /// Get the reaction kind
    pub fn kind(&self) -> (r: &str)
        ensures
            r@ == self.kind@,
    {
        self.kind.as_str()
    }

    /// Read a reaction configuration from the entries of a JSON map.
    pub fn from_entries(entries: &Vec<(String, JsonValue)>) -> (r: Result<ReactionConfig, DecodeError>)
        ensures
            result_view(r) == reaction_from_entries_spec(entries_view(entries)),
    {
        let ghost ev = entries_view(entries);
        proof {
            lemma_json_entries_view(entries@);
        }
        let mut d = ReactionDecoder { kind: None, id: None, queries: None, auto_start: None, remaining: Vec::new() };
        assert(d@ == reaction_decoder_empty()) by {
            assert(entries_view(&d.remaining) =~= Seq::<EntryView>::empty());
        }
        let mut i: usize = 0;
        while i < entries.len()
            invariant
                ev == entries_view(entries),
                ev.len() == entries.len(),
                forall|j: int| 0 <= j < entries.len() ==> #[trigger] ev[j] == (entries@[j].0@, entries@[j].1@),
                i <= entries.len(),
                reaction_fold(ev.subrange(0, i as int)) == Ok::<_, DecodeErrorView>(d@),
            decreases entries.len() - i,
        {
            assert(ev.subrange(0, i + 1).drop_last() =~= ev.subrange(0, i as int));
            assert(ev.subrange(0, i + 1).last() == ev[i as int]);
            match d.step(&entries[i].0, &entries[i].1) {
                Ok(()) => {},
                Err(e) => {
                    proof {
                        lemma_reaction_fold_err(ev, i + 1);
                    }
                    return Err(e);
                },
            }
            i = i + 1;
        }
        assert(ev.subrange(0, i as int) =~= ev);
        let kind = match d.kind {
            Some(k) => k,
            None => {
                return Err(DecodeError::MissingField(Field::Kind));
            },
        };
        let id = match d.id {
            Some(x) => x,
            None => {
                return Err(DecodeError::MissingField(Field::Id));
            },
        };
        let queries = match d.queries {
            Some(q) => q,
            None => {
                return Err(DecodeError::MissingField(Field::Queries));
            },
        };
        let auto_start = match d.auto_start {
            Some(b) => b,
            None => true,
        };
        Ok(ReactionConfig { kind, id, queries, auto_start, config: JsonValue::Object(d.remaining) })
    }
}

/// A JSON array of copies of the given strings.
fn strings_to_json(v: &Vec<String>) -> (r: JsonValue)
    ensures
        r@ == strings_json(strings_view(v@)),
{
    let mut out: Vec<JsonValue> = Vec::new();
    let mut i: usize = 0;
    while i < v.len()
        invariant
            i <= v.len(),
            out@.len() == i,
            forall|j: int| 0 <= j < i ==> (#[trigger] out@[j])@ == JsonView::String(v@[j]@),
        decreases v.len() - i,
    {
        out.push(JsonValue::String(v[i].clone()));
        i = i + 1;
    }
    proof {
        lemma_json_seq_view(out@);
        assert(json_seq_view(out@) =~= strings_view(v@).map_values(|x: Seq<char>| JsonView::String(x)));
    }
    JsonValue::Array(out)
}

impl ReactionConfig {
    /// This reaction written as a map: `kind`, `id`, `queries`, `autoStart`,
    /// then the plugin-specific settings.
    pub fn to_entries(&self) -> (r: Vec<(String, JsonValue)>)
        ensures
            entries_view(&r) == reaction_to_entries(self@),
    {
        let mut out: Vec<(String, JsonValue)> = Vec::new();
        out.push((owned("kind"), JsonValue::String(self.kind.clone())));
        out.push((owned("id"), JsonValue::String(self.id.clone())));
        out.push((owned("queries"), strings_to_json(&self.queries)));
        out.push((owned("autoStart"), JsonValue::Bool(self.auto_start)));
        proof {
            lemma_json_entries_view(out@);
            assert(entries_view(&out) =~= seq![
                ("kind"@, JsonView::String(self.kind@)),
                ("id"@, JsonView::String(self.id@)),
                ("queries"@, strings_json(strings_view(self.queries@))),
                ("autoStart"@, JsonView::Bool(self.auto_start)),
            ]);
        }
        push_object_entries(&mut out, &self.config);
        out
    }

    /// A copy of this reaction configuration.
    pub fn copy(&self) -> (r: ReactionConfig)
        ensures
            r@ == self@,
    {
        let queries = crate::json::clone_strings(&self.queries);
        ReactionConfig {
            kind: self.kind.clone(),
            id: self.id.clone(),
            queries,
            auto_start: self.auto_start,
            config: self.config.deep_clone(),
        }
    }
}

/// The keys a reaction map reads itself, which plugin settings cannot use.
pub open spec fn reaction_reserved(k: Seq<char>) -> bool {
    k == "kind"@ || k == "id"@ || k == "queries"@ || k == "autoStart"@ || k == "auto_start"@
}

/// Reading the settings entries after the common fields collects them in order.
proof fn lemma_reaction_fold_settings(head: Seq<EntryView>, d: ReactionDecoderView, es: Seq<EntryView>, n: int)
    requires
        reaction_fold(head) == Ok::<_, DecodeErrorView>(d),
        d.remaining == Seq::<EntryView>::empty(),
        keys_unique(es),
        forall|i: int| 0 <= i < es.len() ==> !reaction_reserved(#[trigger] es[i].0),
        0 <= n <= es.len(),
    ensures
        reaction_fold(head + es.take(n)) == Ok::<_, DecodeErrorView>(ReactionDecoderView { remaining: es.take(n), ..d }),
    decreases n,
{
    if n == 0 {
        assert(head + es.take(0) =~= head);
        assert(es.take(0) =~= Seq::<EntryView>::empty());
    } else {
        lemma_reaction_fold_settings(head, d, es, n - 1);
        let all = head + es.take(n);
        assert(all.drop_last() =~= head + es.take(n - 1));
        assert(all.last() == es[n - 1]);
        let k = es[n - 1].0;
        assert(!reaction_reserved(k));
        lemma_obj_set(es.take(n - 1), k, es[n - 1].1);
        assert(!obj_has(es.take(n - 1), k)) by {
            if obj_has(es.take(n - 1), k) {
                let j = choose|j: int| #[trigger] crate::json::key_at(es.take(n - 1), k, j);
                assert(es[j].0 == es[n - 1].0);
            }
        }
        assert(es.take(n - 1).push((k, es[n - 1].1)) =~= es.take(n));
    }
}

/// Writing a reaction as a map and reading it back gives the same reaction,
/// when its settings are a map with distinct keys none of which is one of the
/// common fields.
pub proof fn law_reaction_roundtrip(r: ReactionView)
    requires
        r.config is Object,
        keys_unique(r.config->Object_0),
        forall|i: int|
            0 <= i < r.config->Object_0.len() ==> !reaction_reserved(#[trigger] r.config->Object_0[i].0),
    ensures
        reaction_from_entries_spec(reaction_to_entries(r)) == Ok::<_, DecodeErrorView>(r),
{
    let es = r.config->Object_0;
    let head = seq![
        ("kind"@, JsonView::String(r.kind)),
        ("id"@, JsonView::String(r.id)),
        ("queries"@, strings_json(r.queries)),
        ("autoStart"@, JsonView::Bool(r.auto_start)),
    ];
    let items = r.queries.map_values(|x: Seq<char>| JsonView::String(x));
    assert(string_array(strings_json(r.queries)) == Some(r.queries)) by {
        assert(forall|i: int| 0 <= i < items.len() ==> (#[trigger] items[i]) is String);
        assert(items.map_values(|x: JsonView| x->String_0) =~= r.queries);
    }
    reveal_strlit("kind");
    reveal_strlit("id");
    reveal_strlit("queries");
    reveal_strlit("autoStart");
    reveal_strlit("auto_start");
    let h1 = seq![("kind"@, JsonView::String(r.kind))];
    let h2 = h1.push(("id"@, JsonView::String(r.id)));
    let h3 = h2.push(("queries"@, strings_json(r.queries)));
    assert(h1.drop_last() =~= Seq::<EntryView>::empty());
    assert(reaction_fold(Seq::<EntryView>::empty()) == Ok::<_, DecodeErrorView>(reaction_decoder_empty()));
    assert(h1.last() == ("kind"@, JsonView::String(r.kind)));
    assert(reaction_fold(h1) == Ok::<_, DecodeErrorView>(
        ReactionDecoderView { kind: Some(r.kind), ..reaction_decoder_empty() },
    ));
    assert(h2.drop_last() =~= h1);
    assert(h2.last() == ("id"@, JsonView::String(r.id)));
    assert("id"@ != "kind"@) by {
        assert("id"@.len() != "kind"@.len());
    }
    assert("queries"@ != "kind"@ && "queries"@ != "id"@) by {
        assert("queries"@.len() != "kind"@.len());
    }
    assert("autoStart"@ != "kind"@ && "autoStart"@ != "id"@ && "autoStart"@ != "queries"@) by {
        assert("autoStart"@.len() != "queries"@.len());
    }
    assert(reaction_fold(h2) == Ok::<_, DecodeErrorView>(
        ReactionDecoderView { kind: Some(r.kind), id: Some(r.id), ..reaction_decoder_empty() },
    ));
    assert(h3.drop_last() =~= h2);
    assert(reaction_fold(h3) == Ok::<_, DecodeErrorView>(
        ReactionDecoderView {
            kind: Some(r.kind),
            id: Some(r.id),
            queries: Some(r.queries),
            ..reaction_decoder_empty()
        },
    ));
    assert(head.drop_last() =~= h3);
    let d = ReactionDecoderView {
        kind: Some(r.kind),
        id: Some(r.id),
        queries: Some(r.queries),
        auto_start: Some(r.auto_start),
        remaining: Seq::empty(),
    };
    assert(reaction_fold(head) == Ok::<_, DecodeErrorView>(d));
    lemma_reaction_fold_settings(head, d, es, es.len() as int);
    assert(es.take(es.len() as int) =~= es);
    assert(reaction_to_entries(r) =~= head + es);
}

} // verus!
