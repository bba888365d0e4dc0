//! Reading a server configuration document: the YAML text, its template
//! checks, and the mapping of its keys onto the configuration, with the
//! defaults of absent settings, the refusal of unknown and repeated keys, and
//! the reading of each listed component.

use vstd::prelude::*;
use crate::config::{
    DrasiLibInstanceConfig, DrasiServerConfig, InstanceView, PluginDependency, QueryConfigDto, QueryView, TrustedIdentity,
    default_host, default_id, default_log_level, default_plugin_registry, default_port, is_hyphenated_uuid, opt_view,
    seq_views,
};
use crate::config_value::{ConfigValueView, config_string_from_json, opt_chars, read_config_string};
use crate::models::ConfigValue;
use crate::reaction::ReactionView;
use crate::models::SourceView;
use crate::resolve::{number_at_most, parse_number};
use crate::state_store::{StateStoreConfig, StateStoreView, state_store_from_entries_spec, store_result_view};
use crate::json::{
    EntryView, JsonValue, JsonView, entries_view, json_seq_view, lemma_json_entries_view, lemma_json_seq_view, obj_insert,
    obj_get, obj_lookup, obj_set,
};
use crate::text::{owned, str_eq};
use crate::validation::{ValidationError, joined_lines, validate_config, validate_config_spec};
use crate::yaml::{YamlValue, json_of_yaml, parse_yaml, yaml_document, yaml_to_json};
use crate::models::{DecodeError, DecodeErrorView, Field, SourceConfig, decode_message, result_view, source_from_entries_spec};
use crate::reaction::{ReactionConfig, reaction_from_entries_spec, strings_view};

verus! {

/// A configuration that is read from the entries of a map.
pub trait MapItem: Sized + View {
    /// What reading the entries gives.
    spec fn item_spec(e: Seq<EntryView>) -> Result<Self::V, DecodeErrorView>;

    /// Reads the entries, as `item_spec` describes it.
    fn read_item(e: &Vec<(String, JsonValue)>) -> (r: Result<Self, DecodeError>)
        ensures
            match r {
                Ok(x) => Self::item_spec(entries_view(e)) == Ok::<Self::V, DecodeErrorView>(x@),
                Err(x) => Self::item_spec(entries_view(e)) == Err::<Self::V, DecodeErrorView>(x@),
            },
    ;
}

/// The items of a list, each a map read as a `T`; the first item that is not
/// a map, or that cannot be read, fails the list with its position.
pub open spec fn list_items<T: MapItem>(items: Seq<JsonView>, f: Field) -> Result<Seq<T::V>, DecodeErrorView>
    decreases items.len(),
{
    if items.len() == 0 {
        Ok(Seq::empty())
    } else {
        match list_items::<T>(items.drop_last(), f) {
            Err(e) => Err(e),
            Ok(a) => match items.last() {
                JsonView::Object(e) => match T::item_spec(e) {
                    Ok(x) => Ok(a.push(x)),
                    Err(c) => Err(
                        DecodeErrorView::InItem { field: f, index: (items.len() - 1) as nat, cause: Box::new(c) },
                    ),
                },
                _ => Err(
                    DecodeErrorView::InItem {
                        field: f,
                        index: (items.len() - 1) as nat,
                        cause: Box::new(DecodeErrorView::NotAMap),
                    },
                ),
            },
        }
    }
}

/// The list under field `f`: an array read item by item; anything else is a
/// value of the wrong type.
pub open spec fn list_in<T: MapItem>(v: JsonView, f: Field) -> Result<Seq<T::V>, DecodeErrorView> {
    match v {
        JsonView::Array(items) => list_items::<T>(items, f),
        _ => Err(DecodeErrorView::InvalidType(f)),
    }
}

/// Once a prefix of a list fails, the whole list fails the same way.
proof fn lemma_list_err<T: MapItem>(items: Seq<JsonView>, f: Field, i: int)
    requires
        0 <= i <= items.len(),
        list_items::<T>(items.subrange(0, i), f) is Err,
    ensures
        list_items::<T>(items, f) == list_items::<T>(items.subrange(0, i), f),
    decreases items.len() - i,
{
    if i < items.len() {
        assert(items.drop_last().subrange(0, i) =~= items.subrange(0, i));
        lemma_list_err::<T>(items.drop_last(), f, i);
    } else {
        assert(items.subrange(0, i) =~= items);
    }
}

/// Reads the list under field `f`, as `list_in` describes it.
pub fn read_list<T: MapItem>(v: &JsonValue, f: Field) -> (r: Result<Vec<T>, DecodeError>)
    ensures
        match r {
            Ok(xs) => list_in::<T>(v@, f) == Ok::<Seq<T::V>, DecodeErrorView>(seq_views(xs@)),
            Err(x) => list_in::<T>(v@, f) == Err::<Seq<T::V>, DecodeErrorView>(x@),
        },
{
    match v {
        JsonValue::Array(items) => {
            let ghost jv = json_seq_view(items@);
            proof {
                lemma_json_seq_view(items@);
            }
            let mut out: Vec<T> = Vec::new();
            assert(jv.subrange(0, 0) =~= Seq::<JsonView>::empty());
            assert(seq_views(out@) =~= Seq::<T::V>::empty());
            let mut i: usize = 0;
            while i < items.len()
                invariant
                    *v == JsonValue::Array(*items),
                    jv == json_seq_view(items@),
                    jv.len() == items@.len(),
                    forall|j: int| 0 <= j < items@.len() ==> #[trigger] jv[j] == items@[j]@,
                    i <= items.len(),
                    list_items::<T>(jv.subrange(0, i as int), f) == Ok::<Seq<T::V>, DecodeErrorView>(
                        seq_views(out@),
                    ),
                decreases items.len() - i,
            {
                let ghost pre = jv.subrange(0, i + 1);
                assert(pre.drop_last() =~= jv.subrange(0, i as int));
                assert(pre.last() == jv[i as int]);
                match &items[i] {
                    JsonValue::Object(e) => match T::read_item(e) {
                        Ok(x) => {
                            let ghost before = out@;
                            out.push(x);
                            assert(seq_views(out@) =~= seq_views(before).push(x@));
                        },
                        Err(c) => {
                            proof {
                                lemma_list_err::<T>(jv, f, i + 1);
                            }
                            return Err(DecodeError::InItem { field: f, index: i, cause: Box::new(c) });
                        },
                    },
                    _ => {
                        proof {
                            assert(!(jv[i as int] is Object));
                            assert(list_items::<T>(pre, f) is Err);
                            lemma_list_err::<T>(jv, f, i + 1);
                        }
                        let cause = DecodeError::NotAMap;
                        assert(cause@ == DecodeErrorView::NotAMap);
                        return Err(DecodeError::InItem { field: f, index: i, cause: Box::new(cause) });
                    },
                }
                i = i + 1;
            }
            assert(jv.subrange(0, i as int) =~= jv);
            Ok(out)
        },
        _ => Err(DecodeError::InvalidType(f)),
    }
}

impl MapItem for SourceConfig {
    open spec fn item_spec(e: Seq<EntryView>) -> Result<Self::V, DecodeErrorView> {
        source_from_entries_spec(e)
    }

    fn read_item(e: &Vec<(String, JsonValue)>) -> (r: Result<SourceConfig, DecodeError>) {
        let r = SourceConfig::from_entries(e);
        assert(result_view(r) == source_from_entries_spec(entries_view(e)));
        r
    }
}

impl MapItem for ReactionConfig {
    open spec fn item_spec(e: Seq<EntryView>) -> Result<Self::V, DecodeErrorView> {
        reaction_from_entries_spec(e)
    }

    fn read_item(e: &Vec<(String, JsonValue)>) -> (r: Result<ReactionConfig, DecodeError>) {
        let r = ReactionConfig::from_entries(e);
        assert(result_view(r) == reaction_from_entries_spec(entries_view(e)));
        r
    }
}


// ---------------------------------------------------------------------------
// Queries, plugin dependencies and trusted identities
// ---------------------------------------------------------------------------

/// The settings a query map accepts besides `id`, in camelCase.
pub open spec fn is_query_setting(k: Seq<char>) -> bool {
    ||| k == "query"@
    ||| k == "queryLanguage"@
    ||| k == "middleware"@
    ||| k == "sources"@
    ||| k == "autoStart"@
    ||| k == "joins"@
    ||| k == "enableBootstrap"@
    ||| k == "bootstrapBufferSize"@
    ||| k == "priorityQueueCapacity"@
    ||| k == "dispatchBufferCapacity"@
    ||| k == "dispatchMode"@
    ||| k == "storageBackend"@
    ||| k == "recoveryPolicy"@
    ||| k == "outboxCapacity"@
    ||| k == "bootstrapTimeoutSecs"@
}

/// Whether `k` is a setting a query map accepts besides `id`.
fn query_setting(k: &str) -> (r: bool)
    ensures
        r == is_query_setting(k@),
{
    str_eq(k, "query") || str_eq(k, "queryLanguage") || str_eq(k, "middleware") || str_eq(k, "sources")
        || str_eq(k, "autoStart") || str_eq(k, "joins") || str_eq(k, "enableBootstrap")
        || str_eq(k, "bootstrapBufferSize") || str_eq(k, "priorityQueueCapacity")
        || str_eq(k, "dispatchBufferCapacity") || str_eq(k, "dispatchMode") || str_eq(k, "storageBackend")
        || str_eq(k, "recoveryPolicy") || str_eq(k, "outboxCapacity") || str_eq(k, "bootstrapTimeoutSecs")
}

/// One entry of a query map: `id` (once, a string), one of the accepted
/// settings, or a key that is refused.
pub open spec fn query_step(d: (Option<Seq<char>>, Seq<EntryView>), k: Seq<char>, v: JsonView) -> Result<
    (Option<Seq<char>>, Seq<EntryView>),
    DecodeErrorView,
> {
    if k == "id"@ {
        if d.0 is Some {
            Err(DecodeErrorView::DuplicateField(Field::Id))
        } else {
            match v {
                JsonView::String(s) => Ok((Some(s), d.1)),
                _ => Err(DecodeErrorView::InvalidType(Field::Id)),
            }
        }
    } else if is_query_setting(k) {
        Ok((d.0, obj_set(d.1, k, v)))
    } else {
        Err(DecodeErrorView::UnknownField(k))
    }
}

/// The entries of a query map read in order.
pub open spec fn query_fold(entries: Seq<EntryView>) -> Result<(Option<Seq<char>>, Seq<EntryView>), DecodeErrorView>
    decreases entries.len(),
{
    if entries.len() == 0 {
        Ok((None, Seq::empty()))
    } else {
        match query_fold(entries.drop_last()) {
            Err(e) => Err(e),
            Ok(d) => query_step(d, entries.last().0, entries.last().1),
        }
    }
}

/// A query read from a map: its `id` and its `query` text are required, and
/// the entries other than `id` are its settings.
pub open spec fn query_from_entries_spec(entries: Seq<EntryView>) -> Result<QueryView, DecodeErrorView> {
    match query_fold(entries) {
        Err(e) => Err(e),
        Ok((None, _)) => Err(DecodeErrorView::MissingField(Field::Id)),
        Ok((Some(id), rest)) => match obj_get(rest, "query"@) {
            Some(JsonView::String(_)) => Ok(QueryView { id, settings: JsonView::Object(rest) }),
            Some(_) => Err(DecodeErrorView::InvalidType(Field::Query)),
            None => Err(DecodeErrorView::MissingField(Field::Query)),
        },
    }
}

proof fn lemma_query_fold_err(entries: Seq<EntryView>, i: int)
    requires
        0 <= i <= entries.len(),
        query_fold(entries.subrange(0, i)) is Err,
    ensures
        query_fold(entries) == query_fold(entries.subrange(0, i)),
    decreases entries.len() - i,
{
    if i < entries.len() {
        assert(entries.drop_last().subrange(0, i) =~= entries.subrange(0, i));
        lemma_query_fold_err(entries.drop_last(), i);
    } else {
        assert(entries.subrange(0, i) =~= entries);
    }
}

impl MapItem for QueryConfigDto {
    open spec fn item_spec(e: Seq<EntryView>) -> Result<Self::V, DecodeErrorView> {
        query_from_entries_spec(e)
    }

    fn read_item(e: &Vec<(String, JsonValue)>) -> (r: Result<QueryConfigDto, DecodeError>) {
        let ghost ev = entries_view(e);
        proof {
            lemma_json_entries_view(e@);
        }
        let mut id: Option<String> = None;
        let mut rest: Vec<(String, JsonValue)> = Vec::new();
        assert(ev.subrange(0, 0) =~= Seq::<EntryView>::empty());
        assert(entries_view(&rest) =~= Seq::<EntryView>::empty());
        let mut i: usize = 0;
        while i < e.len()
            invariant
                ev == entries_view(e),
                ev.len() == e.len(),
                forall|j: int| 0 <= j < e.len() ==> #[trigger] ev[j] == (e@[j].0@, e@[j].1@),
                i <= e.len(),
                query_fold(ev.subrange(0, i as int)) == Ok::<_, DecodeErrorView>(
                    (opt_text(id), entries_view(&rest)),
                ),
            decreases e.len() - i,
        {
            assert(ev.subrange(0, i + 1).drop_last() =~= ev.subrange(0, i as int));
            assert(ev.subrange(0, i + 1).last() == ev[i as int]);
            if str_eq(e[i].0.as_str(), "id") {
                if id.is_some() {
                    proof {
                        lemma_query_fold_err(ev, i + 1);
                    }
                    return Err(DecodeError::DuplicateField(Field::Id));
                }
                match &e[i].1 {
                    JsonValue::String(s) => {
                        id = Some(s.clone());
                    },
                    _ => {
                        proof {
                            lemma_query_fold_err(ev, i + 1);
                        }
                        return Err(DecodeError::InvalidType(Field::Id));
                    },
                }
            } else if query_setting(e[i].0.as_str()) {
                obj_insert(&mut rest, e[i].0.clone(), e[i].1.deep_clone());
            } else {
                proof {
                    lemma_query_fold_err(ev, i + 1);
                }
                return Err(DecodeError::UnknownField(e[i].0.clone()));
            }
            i = i + 1;
        }
        assert(ev.subrange(0, i as int) =~= ev);
        match id {
            None => Err(DecodeError::MissingField(Field::Id)),
            Some(id) => {
                proof {
                    lemma_json_entries_view(rest@);
                }
                match obj_lookup(&rest, "query") {
                    Some(JsonValue::String(_)) => Ok(QueryConfigDto { id, settings: JsonValue::Object(rest) }),
                    Some(_) => Err(DecodeError::InvalidType(Field::Query)),
                    None => Err(DecodeError::MissingField(Field::Query)),
                }
            },
        }
    }
}

/// The view of an optional string.
pub open spec fn opt_text(o: Option<String>) -> Option<Seq<char>> {
    match o {
        Some(s) => Some(s@),
        None => None,
    }
}

impl View for PluginDependency {
    type V = Seq<char>;

    open spec fn view(&self) -> Seq<char> {
        self.reference@
    }
}

/// The mathematical form of a trusted identity.
pub struct IdentityView {
    pub issuer: Seq<char>,
    pub subject_pattern: Seq<char>,
}

impl View for TrustedIdentity {
    type V = IdentityView;

    open spec fn view(&self) -> IdentityView {
        IdentityView { issuer: self.issuer@, subject_pattern: self.subject_pattern@ }
    }
}

/// One entry of a map whose string field `name` is read (once); other entries
/// are ignored.
pub open spec fn text_step(d: Option<Seq<char>>, f: Field, k: Seq<char>, v: JsonView) -> Result<
    Option<Seq<char>>,
    DecodeErrorView,
> {
    if k == f.spec_name() {
        if d is Some {
            Err(DecodeErrorView::DuplicateField(f))
        } else {
            match v {
                JsonView::String(s) => Ok(Some(s)),
                _ => Err(DecodeErrorView::InvalidType(f)),
            }
        }
    } else {
        Ok(d)
    }
}

/// The string fields `f` and `g` of a map read in order, other entries
/// ignored.
pub open spec fn texts_fold(entries: Seq<EntryView>, f: Field, g: Field) -> Result<
    (Option<Seq<char>>, Option<Seq<char>>),
    DecodeErrorView,
>
    decreases entries.len(),
{
    if entries.len() == 0 {
        Ok((None, None))
    } else {
        match texts_fold(entries.drop_last(), f, g) {
            Err(e) => Err(e),
            Ok(d) => match text_step(d.0, f, entries.last().0, entries.last().1) {
                Err(e) => Err(e),
                Ok(a) => match text_step(d.1, g, entries.last().0, entries.last().1) {
                    Err(e) => Err(e),
                    Ok(b) => Ok((a, b)),
                },
            },
        }
    }
}

proof fn lemma_texts_fold_err(entries: Seq<EntryView>, f: Field, g: Field, i: int)
    requires
        0 <= i <= entries.len(),
        texts_fold(entries.subrange(0, i), f, g) is Err,
    ensures
        texts_fold(entries, f, g) == texts_fold(entries.subrange(0, i), f, g),
    decreases entries.len() - i,
{
    if i < entries.len() {
        assert(entries.drop_last().subrange(0, i) =~= entries.subrange(0, i));
        lemma_texts_fold_err(entries.drop_last(), f, g, i);
    } else {
        assert(entries.subrange(0, i) =~= entries);
    }
}

/// Reads the string fields `f` and `g` (both distinct names) of a map, as
/// `texts_fold` describes it.
fn read_texts(e: &Vec<(String, JsonValue)>, f: Field, g: Field) -> (r: Result<
    (Option<String>, Option<String>),
    DecodeError,
>)
    ensures
        match r {
            Ok((a, b)) => texts_fold(entries_view(e), f, g) == Ok::<_, DecodeErrorView>((opt_text(a), opt_text(b))),
            Err(x) => texts_fold(entries_view(e), f, g) == Err::<(Option<Seq<char>>, Option<Seq<char>>), _>(x@),
        },
{
    let ghost ev = entries_view(e);
    proof {
        lemma_json_entries_view(e@);
    }
    let mut a: Option<String> = None;
    let mut b: Option<String> = None;
    assert(ev.subrange(0, 0) =~= Seq::<EntryView>::empty());
    let mut i: usize = 0;
    while i < e.len()
        invariant
            ev == entries_view(e),
            ev.len() == e.len(),
            forall|j: int| 0 <= j < e.len() ==> #[trigger] ev[j] == (e@[j].0@, e@[j].1@),
            i <= e.len(),
            texts_fold(ev.subrange(0, i as int), f, g) == Ok::<_, DecodeErrorView>((opt_text(a), opt_text(b))),
        decreases e.len() - i,
    {
        assert(ev.subrange(0, i + 1).drop_last() =~= ev.subrange(0, i as int));
        assert(ev.subrange(0, i + 1).last() == ev[i as int]);
        let key = e[i].0.as_str();
        if str_eq(key, f.name()) {
            if a.is_some() {
                proof {
                    lemma_texts_fold_err(ev, f, g, i + 1);
                }
                return Err(DecodeError::DuplicateField(f));
            }
            match &e[i].1 {
                JsonValue::String(s) => {
                    a = Some(s.clone());
                },
                _ => {
                    proof {
                        lemma_texts_fold_err(ev, f, g, i + 1);
                    }
                    return Err(DecodeError::InvalidType(f));
                },
            }
        }
        if str_eq(key, g.name()) {
            if b.is_some() {
                proof {
                    lemma_texts_fold_err(ev, f, g, i + 1);
                }
                return Err(DecodeError::DuplicateField(g));
            }
            match &e[i].1 {
                JsonValue::String(s) => {
                    b = Some(s.clone());
                },
                _ => {
                    proof {
                        lemma_texts_fold_err(ev, f, g, i + 1);
                    }
                    return Err(DecodeError::InvalidType(g));
                },
            }
        }
        i = i + 1;
    }
    assert(ev.subrange(0, i as int) =~= ev);
    Ok((a, b))
}

/// A plugin dependency read from a map: its `ref` is required; other entries
/// are ignored.
pub open spec fn plugin_from_entries_spec(entries: Seq<EntryView>) -> Result<Seq<char>, DecodeErrorView> {
    match texts_fold(entries, Field::Ref, Field::Ref) {
        Err(e) => Err(e),
        Ok((None, _)) => Err(DecodeErrorView::MissingField(Field::Ref)),
        Ok((Some(r), _)) => Ok(r),
    }
}

impl MapItem for PluginDependency {
    open spec fn item_spec(e: Seq<EntryView>) -> Result<Self::V, DecodeErrorView> {
        plugin_from_entries_spec(e)
    }

    fn read_item(e: &Vec<(String, JsonValue)>) -> (r: Result<PluginDependency, DecodeError>) {
        match read_texts(e, Field::Ref, Field::Ref) {
            Err(x) => Err(x),
            Ok((None, _)) => Err(DecodeError::MissingField(Field::Ref)),
            Ok((Some(reference), _)) => Ok(PluginDependency { reference }),
        }
    }
}

/// A trusted identity read from a map: `issuer` and `subjectPattern` are
/// required; other entries are ignored.
pub open spec fn identity_from_entries_spec(entries: Seq<EntryView>) -> Result<IdentityView, DecodeErrorView> {
    match texts_fold(entries, Field::Issuer, Field::SubjectPattern) {
        Err(e) => Err(e),
        Ok((None, _)) => Err(DecodeErrorView::MissingField(Field::Issuer)),
        Ok((_, None)) => Err(DecodeErrorView::MissingField(Field::SubjectPattern)),
        Ok((Some(issuer), Some(subject_pattern))) => Ok(IdentityView { issuer, subject_pattern }),
    }
}

impl MapItem for TrustedIdentity {
    open spec fn item_spec(e: Seq<EntryView>) -> Result<Self::V, DecodeErrorView> {
        identity_from_entries_spec(e)
    }

    fn read_item(e: &Vec<(String, JsonValue)>) -> (r: Result<TrustedIdentity, DecodeError>) {
        match read_texts(e, Field::Issuer, Field::SubjectPattern) {
            Err(x) => Err(x),
            Ok((None, _)) => Err(DecodeError::MissingField(Field::Issuer)),
            Ok((_, None)) => Err(DecodeError::MissingField(Field::SubjectPattern)),
            Ok((Some(issuer), Some(subject_pattern))) => Ok(TrustedIdentity { issuer, subject_pattern }),
        }
    }
}


// ---------------------------------------------------------------------------
// Single values
// ---------------------------------------------------------------------------

/// How a numeric configuration value is read: a JSON number that is a decimal
/// numeral no greater than `max` is a static value; a structured or `${..}`
/// reference is read as for text; anything else, a string that is no
/// reference among them, is a value of the wrong type for `f`.
pub open spec fn config_number_from_json(v: JsonView, f: Field, max: nat) -> Result<ConfigValueView<nat>, DecodeErrorView> {
    match v {
        JsonView::Number(t) => match number_at_most(t, max) {
            Some(n) => Ok(ConfigValueView::Static(n)),
            None => Err(DecodeErrorView::InvalidType(f)),
        },
        _ => match config_string_from_json(v, f) {
            Err(e) => Err(e),
            Ok(ConfigValueView::Static(_)) => Err(DecodeErrorView::InvalidType(f)),
            Ok(ConfigValueView::Secret { name }) => Ok(ConfigValueView::Secret { name }),
            Ok(ConfigValueView::EnvironmentVariable { name, default }) => Ok(
                ConfigValueView::EnvironmentVariable { name, default },
            ),
        },
    }
}

/// A numeric configuration value with its static value taken as a `u16`.
pub open spec fn as_port_value(c: ConfigValueView<nat>) -> ConfigValueView<u16> {
    match c {
        ConfigValueView::Secret { name } => ConfigValueView::Secret { name },
        ConfigValueView::EnvironmentVariable { name, default } => ConfigValueView::EnvironmentVariable { name, default },
        ConfigValueView::Static(n) => ConfigValueView::Static(n as u16),
    }
}

/// A numeric configuration value with its static value taken as a `usize`.
pub open spec fn as_size_value(c: ConfigValueView<nat>) -> ConfigValueView<usize> {
    match c {
        ConfigValueView::Secret { name } => ConfigValueView::Secret { name },
        ConfigValueView::EnvironmentVariable { name, default } => ConfigValueView::EnvironmentVariable { name, default },
        ConfigValueView::Static(n) => ConfigValueView::Static(n as usize),
    }
}

/// A numeric configuration value with its static value taken as a number.
pub open spec fn as_nat_value(c: ConfigValueView<u64>) -> ConfigValueView<nat> {
    match c {
        ConfigValueView::Secret { name } => ConfigValueView::Secret { name },
        ConfigValueView::EnvironmentVariable { name, default } => ConfigValueView::EnvironmentVariable { name, default },
        ConfigValueView::Static(n) => ConfigValueView::Static(n as nat),
    }
}

/// The server port: a numeric value of at most 65535.
pub open spec fn port_from_json(v: JsonView) -> Result<ConfigValueView<u16>, DecodeErrorView> {
    match config_number_from_json(v, Field::Port, 65535) {
        Ok(c) => Ok(as_port_value(c)),
        Err(e) => Err(e),
    }
}

/// An optional capacity: null is none, otherwise a numeric value that fits
/// in a `usize`.
pub open spec fn capacity_from_json(v: JsonView, f: Field) -> Result<Option<ConfigValueView<usize>>, DecodeErrorView> {
    match v {
        JsonView::Null => Ok(None),
        _ => match config_number_from_json(v, f, usize::MAX as nat) {
            Ok(c) => Ok(Some(as_size_value(c))),
            Err(e) => Err(e),
        },
    }
}

/// An optional string: null is none.
pub open spec fn opt_text_from_json(v: JsonView, f: Field) -> Result<Option<Seq<char>>, DecodeErrorView> {
    match v {
        JsonView::Null => Ok(None),
        JsonView::String(s) => Ok(Some(s)),
        _ => Err(DecodeErrorView::InvalidType(f)),
    }
}

/// A flag.
pub open spec fn bool_from_json(v: JsonView, f: Field) -> Result<bool, DecodeErrorView> {
    match v {
        JsonView::Bool(b) => Ok(b),
        _ => Err(DecodeErrorView::InvalidType(f)),
    }
}

/// An optional state store: null is none, a map is read as a state store.
pub open spec fn store_from_json(v: JsonView) -> Result<Option<StateStoreView>, DecodeErrorView> {
    match v {
        JsonView::Null => Ok(None),
        JsonView::Object(e) => match state_store_from_entries_spec(e) {
            Ok(s) => Ok(Some(s)),
            Err(x) => Err(x),
        },
        _ => Err(DecodeErrorView::InvalidType(Field::StateStore)),
    }
}

/// Reads a numeric configuration value, as `config_number_from_json` describes it.
fn read_config_number(v: &JsonValue, f: Field, max: u64) -> (r: Result<ConfigValue<u64>, DecodeError>)
    ensures
        match r {
            Ok(c) => config_number_from_json(v@, f, max as nat) == Ok::<_, DecodeErrorView>(as_nat_value(c@))
                && (c matches ConfigValue::Static(n) ==> n <= max),
            Err(x) => config_number_from_json(v@, f, max as nat) == Err::<ConfigValueView<nat>, _>(x@),
        },
{
    match v {
        JsonValue::Number(t) => match parse_number(t.as_str(), max) {
            Some(n) => Ok(ConfigValue::Static(n)),
            None => Err(DecodeError::InvalidType(f)),
        },
        _ => match read_config_string(v, f) {
            Err(e) => Err(e),
            Ok(ConfigValue::Static(_)) => Err(DecodeError::InvalidType(f)),
            Ok(ConfigValue::Secret { name }) => Ok(ConfigValue::Secret { name }),
            Ok(ConfigValue::EnvironmentVariable { name, default }) => Ok(
                ConfigValue::EnvironmentVariable { name, default },
            ),
        },
    }
}

/// Reads the server port, as `port_from_json` describes it.
pub fn read_port(v: &JsonValue) -> (r: Result<ConfigValue<u16>, DecodeError>)
    ensures
        match r {
            Ok(c) => port_from_json(v@) == Ok::<_, DecodeErrorView>(c@),
            Err(x) => port_from_json(v@) == Err::<ConfigValueView<u16>, _>(x@),
        },
{
    match read_config_number(v, Field::Port, 65535) {
        Err(e) => Err(e),
        Ok(ConfigValue::Static(n)) => Ok(ConfigValue::Static(n as u16)),
        Ok(ConfigValue::Secret { name }) => Ok(ConfigValue::Secret { name }),
        Ok(ConfigValue::EnvironmentVariable { name, default }) => Ok(ConfigValue::EnvironmentVariable { name, default }),
    }
}

/// Reads an optional capacity, as `capacity_from_json` describes it.
fn read_capacity(v: &JsonValue, f: Field) -> (r: Result<Option<ConfigValue<usize>>, DecodeError>)
    ensures
        match r {
            Ok(c) => capacity_from_json(v@, f) == Ok::<_, DecodeErrorView>(opt_view(c)),
            Err(x) => capacity_from_json(v@, f) == Err::<Option<ConfigValueView<usize>>, _>(x@),
        },
{
    match v {
        JsonValue::Null => Ok(None),
        _ => match read_config_number(v, f, usize::MAX as u64) {
            Err(e) => Err(e),
            Ok(ConfigValue::Static(n)) => Ok(Some(ConfigValue::Static(n as usize))),
            Ok(ConfigValue::Secret { name }) => Ok(Some(ConfigValue::Secret { name })),
            Ok(ConfigValue::EnvironmentVariable { name, default }) => Ok(
                Some(ConfigValue::EnvironmentVariable { name, default }),
            ),
        },
    }
}

/// Reads an optional string, as `opt_text_from_json` describes it.
fn read_opt_text(v: &JsonValue, f: Field) -> (r: Result<Option<String>, DecodeError>)
    ensures
        match r {
            Ok(s) => opt_text_from_json(v@, f) == Ok::<_, DecodeErrorView>(opt_chars(s)),
            Err(x) => opt_text_from_json(v@, f) == Err::<Option<Seq<char>>, _>(x@),
        },
{
    match v {
        JsonValue::Null => Ok(None),
        JsonValue::String(s) => Ok(Some(s.clone())),
        _ => Err(DecodeError::InvalidType(f)),
    }
}

/// Reads a flag, as `bool_from_json` describes it.
fn read_bool(v: &JsonValue, f: Field) -> (r: Result<bool, DecodeError>)
    ensures
        match r {
            Ok(b) => bool_from_json(v@, f) == Ok::<_, DecodeErrorView>(b),
            Err(x) => bool_from_json(v@, f) == Err::<bool, _>(x@),
        },
{
    match v {
        JsonValue::Bool(b) => Ok(*b),
        _ => Err(DecodeError::InvalidType(f)),
    }
}

/// Reads an optional state store, as `store_from_json` describes it.
fn read_store(v: &JsonValue) -> (r: Result<Option<StateStoreConfig>, DecodeError>)
    ensures
        match r {
            Ok(s) => store_from_json(v@) == Ok::<_, DecodeErrorView>(opt_view(s)),
            Err(x) => store_from_json(v@) == Err::<Option<StateStoreView>, _>(x@),
        },
{
    match v {
        JsonValue::Null => Ok(None),
        JsonValue::Object(e) => {
            let r = StateStoreConfig::from_entries(e);
            assert(store_result_view(r) == state_store_from_entries_spec(entries_view(e)));
            match r {
                Ok(s) => Ok(Some(s)),
                Err(x) => Err(x),
            }
        },
        _ => Err(DecodeError::InvalidType(Field::StateStore)),
    }
}


// ---------------------------------------------------------------------------
// Instance and server maps
// ---------------------------------------------------------------------------

/// The field a key of the server map names: the camelCase names of the
/// server settings.
pub open spec fn field_named(k: Seq<char>) -> Option<Field> {
    if k == "apiVersion"@ {
        Some(Field::ApiVersion)
    } else if k == "id"@ {
        Some(Field::Id)
    } else if k == "host"@ {
        Some(Field::Host)
    } else if k == "port"@ {
        Some(Field::Port)
    } else if k == "logLevel"@ {
        Some(Field::LogLevel)
    } else if k == "persistConfig"@ {
        Some(Field::PersistConfig)
    } else if k == "persistIndex"@ {
        Some(Field::PersistIndex)
    } else if k == "stateStore"@ {
        Some(Field::StateStore)
    } else if k == "defaultPriorityQueueCapacity"@ {
        Some(Field::DefaultPriorityQueueCapacity)
    } else if k == "defaultDispatchBufferCapacity"@ {
        Some(Field::DefaultDispatchBufferCapacity)
    } else if k == "sources"@ {
        Some(Field::Sources)
    } else if k == "queries"@ {
        Some(Field::Queries)
    } else if k == "reactions"@ {
        Some(Field::Reactions)
    } else if k == "instances"@ {
        Some(Field::Instances)
    } else if k == "pluginRegistry"@ {
        Some(Field::PluginRegistry)
    } else if k == "autoInstallPlugins"@ {
        Some(Field::AutoInstallPlugins)
    } else if k == "plugins"@ {
        Some(Field::Plugins)
    } else if k == "verifyPlugins"@ {
        Some(Field::VerifyPlugins)
    } else if k == "trustedIdentities"@ {
        Some(Field::TrustedIdentities)
    } else {
        None
    }
}

/// The field a key of the server map names, as `field_named` describes it.
fn field_of_key(k: &str) -> (r: Option<Field>)
    ensures
        r == field_named(k@),
{
    if str_eq(k, "apiVersion") {
        Some(Field::ApiVersion)
    } else if str_eq(k, "id") {
        Some(Field::Id)
    } else if str_eq(k, "host") {
        Some(Field::Host)
    } else if str_eq(k, "port") {
        Some(Field::Port)
    } else if str_eq(k, "logLevel") {
        Some(Field::LogLevel)
    } else if str_eq(k, "persistConfig") {
        Some(Field::PersistConfig)
    } else if str_eq(k, "persistIndex") {
        Some(Field::PersistIndex)
    } else if str_eq(k, "stateStore") {
        Some(Field::StateStore)
    } else if str_eq(k, "defaultPriorityQueueCapacity") {
        Some(Field::DefaultPriorityQueueCapacity)
    } else if str_eq(k, "defaultDispatchBufferCapacity") {
        Some(Field::DefaultDispatchBufferCapacity)
    } else if str_eq(k, "sources") {
        Some(Field::Sources)
    } else if str_eq(k, "queries") {
        Some(Field::Queries)
    } else if str_eq(k, "reactions") {
        Some(Field::Reactions)
    } else if str_eq(k, "instances") {
        Some(Field::Instances)
    } else if str_eq(k, "pluginRegistry") {
        Some(Field::PluginRegistry)
    } else if str_eq(k, "autoInstallPlugins") {
        Some(Field::AutoInstallPlugins)
    } else if str_eq(k, "plugins") {
        Some(Field::Plugins)
    } else if str_eq(k, "verifyPlugins") {
        Some(Field::VerifyPlugins)
    } else if str_eq(k, "trustedIdentities") {
        Some(Field::TrustedIdentities)
    } else {
        None
    }
}

/// Whether `f` is among the fields seen.
fn seen_has(seen: &Vec<Field>, f: Field) -> (r: bool)
    ensures
        r == seen@.contains(f),
{
    let mut i: usize = 0;
    while i < seen.len()
        invariant
            i <= seen.len(),
            forall|j: int| 0 <= j < i ==> seen@[j] != f,
        decreases seen.len() - i,
    {
        if seen[i] == f {
            assert(seen@[i as int] == f);
            return true;
        }
        i = i + 1;
    }
    false
}

/// The fields an instance map accepts; the server map accepts them too.
pub open spec fn is_instance_field(f: Field) -> bool {
    ||| f == Field::Id
    ||| f == Field::PersistIndex
    ||| f == Field::StateStore
    ||| f == Field::DefaultPriorityQueueCapacity
    ||| f == Field::DefaultDispatchBufferCapacity
    ||| f == Field::Sources
    ||| f == Field::Queries
    ||| f == Field::Reactions
}

/// The settings of an instance as read so far; an `id` that is not given is
/// none here, and a fresh one is made when the instance is built.
pub struct InstanceDraft {
    pub id: Option<ConfigValueView<Seq<char>>>,
    pub persist_index: bool,
    pub state_store: Option<StateStoreView>,
    pub default_priority_queue_capacity: Option<ConfigValueView<usize>>,
    pub default_dispatch_buffer_capacity: Option<ConfigValueView<usize>>,
    pub sources: Seq<SourceView>,
    pub queries: Seq<QueryView>,
    pub reactions: Seq<ReactionView>,
}

/// An instance with nothing given: index persistence off, no state store, no
/// capacities, no components.
pub open spec fn instance_default() -> InstanceDraft {
    InstanceDraft {
        id: None,
        persist_index: false,
        state_store: None,
        default_priority_queue_capacity: None,
        default_dispatch_buffer_capacity: None,
        sources: Seq::empty(),
        queries: Seq::empty(),
        reactions: Seq::empty(),
    }
}

/// An instance setting read from a value.
pub open spec fn instance_set(d: InstanceDraft, f: Field, v: JsonView) -> Result<InstanceDraft, DecodeErrorView> {
    match f {
        Field::Id => match config_string_from_json(v, Field::Id) {
            Ok(x) => Ok(InstanceDraft { id: Some(x), ..d }),
            Err(e) => Err(e),
        },
        Field::PersistIndex => match bool_from_json(v, f) {
            Ok(b) => Ok(InstanceDraft { persist_index: b, ..d }),
            Err(e) => Err(e),
        },
        Field::StateStore => match store_from_json(v) {
            Ok(x) => Ok(InstanceDraft { state_store: x, ..d }),
            Err(e) => Err(e),
        },
        Field::DefaultPriorityQueueCapacity => match capacity_from_json(v, f) {
            Ok(x) => Ok(InstanceDraft { default_priority_queue_capacity: x, ..d }),
            Err(e) => Err(e),
        },
        Field::DefaultDispatchBufferCapacity => match capacity_from_json(v, f) {
            Ok(x) => Ok(InstanceDraft { default_dispatch_buffer_capacity: x, ..d }),
            Err(e) => Err(e),
        },
        Field::Sources => match list_in::<SourceConfig>(v, f) {
            Ok(x) => Ok(InstanceDraft { sources: x, ..d }),
            Err(e) => Err(e),
        },
        Field::Queries => match list_in::<QueryConfigDto>(v, f) {
            Ok(x) => Ok(InstanceDraft { queries: x, ..d }),
            Err(e) => Err(e),
        },
        Field::Reactions => match list_in::<ReactionConfig>(v, f) {
            Ok(x) => Ok(InstanceDraft { reactions: x, ..d }),
            Err(e) => Err(e),
        },
        _ => Ok(d),
    }
}

/// One entry of an instance map: a key that names no instance field, or one
/// already seen, is refused; otherwise the field is read.
pub open spec fn instance_step(d: (Seq<Field>, InstanceDraft), k: Seq<char>, v: JsonView) -> Result<
    (Seq<Field>, InstanceDraft),
    DecodeErrorView,
> {
    match field_named(k) {
        Some(f) => if !is_instance_field(f) {
            Err(DecodeErrorView::UnknownField(k))
        } else if d.0.contains(f) {
            Err(DecodeErrorView::DuplicateField(f))
        } else {
            match instance_set(d.1, f, v) {
                Ok(x) => Ok((d.0.push(f), x)),
                Err(e) => Err(e),
            }
        },
        None => Err(DecodeErrorView::UnknownField(k)),
    }
}

/// The entries of an instance map read in order.
pub open spec fn instance_fold(entries: Seq<EntryView>) -> Result<(Seq<Field>, InstanceDraft), DecodeErrorView>
    decreases entries.len(),
{
    if entries.len() == 0 {
        Ok((Seq::empty(), instance_default()))
    } else {
        match instance_fold(entries.drop_last()) {
            Err(e) => Err(e),
            Ok(d) => instance_step(d, entries.last().0, entries.last().1),
        }
    }
}

/// An instance read from the entries of a map.
pub open spec fn instance_from_entries_spec(entries: Seq<EntryView>) -> Result<InstanceDraft, DecodeErrorView> {
    match instance_fold(entries) {
        Ok(d) => Ok(d.1),
        Err(e) => Err(e),
    }
}

proof fn lemma_instance_fold_err(entries: Seq<EntryView>, i: int)
    requires
        0 <= i <= entries.len(),
        instance_fold(entries.subrange(0, i)) is Err,
    ensures
        instance_fold(entries) == instance_fold(entries.subrange(0, i)),
    decreases entries.len() - i,
{
    if i < entries.len() {
        assert(entries.drop_last().subrange(0, i) =~= entries.subrange(0, i));
        lemma_instance_fold_err(entries.drop_last(), i);
    } else {
        assert(entries.subrange(0, i) =~= entries);
    }
}

/// The settings of an instance as they are read.
pub struct InstanceFields {
    id: Option<ConfigValue<String>>,
    persist_index: bool,
    state_store: Option<StateStoreConfig>,
    default_priority_queue_capacity: Option<ConfigValue<usize>>,
    default_dispatch_buffer_capacity: Option<ConfigValue<usize>>,
    sources: Vec<SourceConfig>,
    queries: Vec<QueryConfigDto>,
    reactions: Vec<ReactionConfig>,
}

impl View for InstanceFields {
    type V = InstanceDraft;

    closed spec fn view(&self) -> InstanceDraft {
        InstanceDraft {
            id: opt_view(self.id),
            persist_index: self.persist_index,
            state_store: opt_view(self.state_store),
            default_priority_queue_capacity: opt_view(self.default_priority_queue_capacity),
            default_dispatch_buffer_capacity: opt_view(self.default_dispatch_buffer_capacity),
            sources: seq_views(self.sources@),
            queries: seq_views(self.queries@),
            reactions: seq_views(self.reactions@),
        }
    }
}

/// An instance built from its draft: every setting as read, and the id as
/// given or, when none was, a fresh UUID.
pub open spec fn instance_fits(i: InstanceView, d: InstanceDraft) -> bool {
    &&& match d.id {
        Some(x) => i.id == x,
        None => i.id is Static && is_hyphenated_uuid(i.id->Static_0),
    }
    &&& i.persist_index == d.persist_index
    &&& i.state_store == d.state_store
    &&& i.default_priority_queue_capacity == d.default_priority_queue_capacity
    &&& i.default_dispatch_buffer_capacity == d.default_dispatch_buffer_capacity
    &&& i.sources == d.sources
    &&& i.queries == d.queries
    &&& i.reactions == d.reactions
}

impl InstanceFields {
    /// An instance with nothing given.
    fn new() -> (r: InstanceFields)
        ensures
            r@ == instance_default(),
    {
        let r = InstanceFields {
            id: None,
            persist_index: false,
            state_store: None,
            default_priority_queue_capacity: None,
            default_dispatch_buffer_capacity: None,
            sources: Vec::new(),
            queries: Vec::new(),
            reactions: Vec::new(),
        };
        assert(r@.sources =~= Seq::<SourceView>::empty());
        assert(r@.queries =~= Seq::<QueryView>::empty());
        assert(r@.reactions =~= Seq::<ReactionView>::empty());
        r
    }

    /// Reads the instance field `f` from `v`, as `instance_set` describes it.
    fn set(&mut self, f: Field, v: &JsonValue) -> (r: Result<(), DecodeError>)
        ensures
            match r {
                Ok(()) => instance_set(old(self)@, f, v@) == Ok::<_, DecodeErrorView>(final(self)@),
                Err(x) => instance_set(old(self)@, f, v@) == Err::<InstanceDraft, _>(x@),
            },
    {
        match f {
            Field::Id => {
                let c = read_config_string(v, Field::Id)?;
                self.id = Some(c);
            },
            Field::PersistIndex => {
                self.persist_index = read_bool(v, f)?;
            },
            Field::StateStore => {
                self.state_store = read_store(v)?;
            },
            Field::DefaultPriorityQueueCapacity => {
                self.default_priority_queue_capacity = read_capacity(v, f)?;
            },
            Field::DefaultDispatchBufferCapacity => {
                self.default_dispatch_buffer_capacity = read_capacity(v, f)?;
            },
            Field::Sources => {
                self.sources = read_list::<SourceConfig>(v, f)?;
            },
            Field::Queries => {
                self.queries = read_list::<QueryConfigDto>(v, f)?;
            },
            Field::Reactions => {
                self.reactions = read_list::<ReactionConfig>(v, f)?;
            },
            _ => {},
        }
        Ok(())
    }

    /// The instance configuration, with a fresh id when none was given.
    fn into_instance(self) -> (r: DrasiLibInstanceConfig)
        ensures
            instance_fits(r@, self@),
    {
        let id = match self.id {
            Some(x) => x,
            None => default_id(),
        };
        DrasiLibInstanceConfig {
            id,
            persist_index: self.persist_index,
            state_store: self.state_store,
            default_priority_queue_capacity: self.default_priority_queue_capacity,
            default_dispatch_buffer_capacity: self.default_dispatch_buffer_capacity,
            sources: self.sources,
            queries: self.queries,
            reactions: self.reactions,
        }
    }
}

impl MapItem for InstanceFields {
    open spec fn item_spec(e: Seq<EntryView>) -> Result<Self::V, DecodeErrorView> {
        instance_from_entries_spec(e)
    }

    fn read_item(e: &Vec<(String, JsonValue)>) -> (r: Result<InstanceFields, DecodeError>) {
        let ghost ev = entries_view(e);
        proof {
            lemma_json_entries_view(e@);
        }
        let mut seen: Vec<Field> = Vec::new();
        let mut d = InstanceFields::new();
        assert(ev.subrange(0, 0) =~= Seq::<EntryView>::empty());
        let mut i: usize = 0;
        while i < e.len()
            invariant
                ev == entries_view(e),
                ev.len() == e.len(),
                forall|j: int| 0 <= j < e.len() ==> #[trigger] ev[j] == (e@[j].0@, e@[j].1@),
                i <= e.len(),
                instance_fold(ev.subrange(0, i as int)) == Ok::<_, DecodeErrorView>((seen@, d@)),
            decreases e.len() - i,
        {
            assert(ev.subrange(0, i + 1).drop_last() =~= ev.subrange(0, i as int));
            assert(ev.subrange(0, i + 1).last() == ev[i as int]);
            let f = match field_of_key(e[i].0.as_str()) {
                Some(f) => f,
                None => {
                    proof {
                        lemma_instance_fold_err(ev, i + 1);
                    }
                    return Err(DecodeError::UnknownField(e[i].0.clone()));
                },
            };
            let accepted = match f {
                Field::Id | Field::PersistIndex | Field::StateStore | Field::DefaultPriorityQueueCapacity
                | Field::DefaultDispatchBufferCapacity | Field::Sources | Field::Queries | Field::Reactions => true,
                _ => false,
            };
            if !accepted {
                proof {
                    lemma_instance_fold_err(ev, i + 1);
                }
                return Err(DecodeError::UnknownField(e[i].0.clone()));
            }
            if seen_has(&seen, f) {
                proof {
                    lemma_instance_fold_err(ev, i + 1);
                }
                return Err(DecodeError::DuplicateField(f));
            }
            match d.set(f, &e[i].1) {
                Ok(()) => {},
                Err(x) => {
                    proof {
                        lemma_instance_fold_err(ev, i + 1);
                    }
                    return Err(x);
                },
            }
            seen.push(f);
            i = i + 1;
        }
        assert(ev.subrange(0, i as int) =~= ev);
        Ok(d)
    }
}


/// The server settings as read so far: the settings of the default instance,
/// and those of the server alone.
pub struct ServerDraft {
    pub common: InstanceDraft,
    pub api_version: Option<Seq<char>>,
    pub host: ConfigValueView<Seq<char>>,
    pub port: ConfigValueView<u16>,
    pub log_level: ConfigValueView<Seq<char>>,
    pub persist_config: bool,
    pub instances: Seq<InstanceDraft>,
    pub plugin_registry: Option<Seq<char>>,
    pub auto_install_plugins: bool,
    pub plugins: Seq<Seq<char>>,
    pub verify_plugins: bool,
    pub trusted_identities: Seq<IdentityView>,
}

/// A server with nothing given: host `0.0.0.0`, port 8080, log level `info`,
/// API changes persisted, the default plugin registry, and nothing else.
pub open spec fn server_default() -> ServerDraft {
    ServerDraft {
        common: instance_default(),
        api_version: None,
        host: ConfigValueView::Static("0.0.0.0"@),
        port: ConfigValueView::Static(8080),
        log_level: ConfigValueView::Static("info"@),
        persist_config: true,
        instances: Seq::empty(),
        plugin_registry: Some("ghcr.io/drasi-project"@),
        auto_install_plugins: false,
        plugins: Seq::empty(),
        verify_plugins: false,
        trusted_identities: Seq::empty(),
    }
}

/// A server setting read from a value.
#[verifier::opaque]
pub open spec fn server_set(d: ServerDraft, f: Field, v: JsonView) -> Result<ServerDraft, DecodeErrorView> {
    if is_instance_field(f) {
        match instance_set(d.common, f, v) {
            Ok(c) => Ok(ServerDraft { common: c, ..d }),
            Err(e) => Err(e),
        }
    } else {
        match f {
            Field::ApiVersion => match opt_text_from_json(v, f) {
                Ok(x) => Ok(ServerDraft { api_version: x, ..d }),
                Err(e) => Err(e),
            },
            Field::Host => match config_string_from_json(v, f) {
                Ok(x) => Ok(ServerDraft { host: x, ..d }),
                Err(e) => Err(e),
            },
            Field::Port => match port_from_json(v) {
                Ok(x) => Ok(ServerDraft { port: x, ..d }),
                Err(e) => Err(e),
            },
            Field::LogLevel => match config_string_from_json(v, f) {
                Ok(x) => Ok(ServerDraft { log_level: x, ..d }),
                Err(e) => Err(e),
            },
            Field::PersistConfig => match bool_from_json(v, f) {
                Ok(x) => Ok(ServerDraft { persist_config: x, ..d }),
                Err(e) => Err(e),
            },
            Field::Instances => match list_in::<InstanceFields>(v, f) {
                Ok(x) => Ok(ServerDraft { instances: x, ..d }),
                Err(e) => Err(e),
            },
            Field::PluginRegistry => match opt_text_from_json(v, f) {
                Ok(x) => Ok(ServerDraft { plugin_registry: x, ..d }),
                Err(e) => Err(e),
            },
            Field::AutoInstallPlugins => match bool_from_json(v, f) {
                Ok(x) => Ok(ServerDraft { auto_install_plugins: x, ..d }),
                Err(e) => Err(e),
            },
            Field::Plugins => match list_in::<PluginDependency>(v, f) {
                Ok(x) => Ok(ServerDraft { plugins: x, ..d }),
                Err(e) => Err(e),
            },
            Field::VerifyPlugins => match bool_from_json(v, f) {
                Ok(x) => Ok(ServerDraft { verify_plugins: x, ..d }),
                Err(e) => Err(e),
            },
            Field::TrustedIdentities => match list_in::<TrustedIdentity>(v, f) {
                Ok(x) => Ok(ServerDraft { trusted_identities: x, ..d }),
                Err(e) => Err(e),
            },
            _ => Ok(d),
        }
    }
}

/// One entry of the server map: a key that names no server setting, or one
/// already seen, is refused; otherwise the setting is read.
pub open spec fn server_step(d: (Seq<Field>, ServerDraft), k: Seq<char>, v: JsonView) -> Result<
    (Seq<Field>, ServerDraft),
    DecodeErrorView,
> {
    match field_named(k) {
        Some(f) => if d.0.contains(f) {
            Err(DecodeErrorView::DuplicateField(f))
        } else {
            match server_set(d.1, f, v) {
                Ok(x) => Ok((d.0.push(f), x)),
                Err(e) => Err(e),
            }
        },
        None => Err(DecodeErrorView::UnknownField(k)),
    }
}

/// The entries of the server map read in order.
pub open spec fn server_fold(entries: Seq<EntryView>) -> Result<(Seq<Field>, ServerDraft), DecodeErrorView>
    decreases entries.len(),
{
    if entries.len() == 0 {
        Ok((Seq::empty(), server_default()))
    } else {
        match server_fold(entries.drop_last()) {
            Err(e) => Err(e),
            Ok(d) => server_step(d, entries.last().0, entries.last().1),
        }
    }
}

/// The server settings a document gives: it must be a map, read entry by entry.
pub open spec fn server_from_json(v: JsonView) -> Result<ServerDraft, DecodeErrorView> {
    match v {
        JsonView::Object(e) => match server_fold(e) {
            Ok(d) => Ok(d.1),
            Err(x) => Err(x),
        },
        _ => Err(DecodeErrorView::NotAMap),
    }
}

proof fn lemma_server_fold_err(entries: Seq<EntryView>, i: int)
    requires
        0 <= i <= entries.len(),
        server_fold(entries.subrange(0, i)) is Err,
    ensures
        server_fold(entries) == server_fold(entries.subrange(0, i)),
    decreases entries.len() - i,
{
    if i < entries.len() {
        assert(entries.drop_last().subrange(0, i) =~= entries.subrange(0, i));
        lemma_server_fold_err(entries.drop_last(), i);
    } else {
        assert(entries.subrange(0, i) =~= entries);
    }
}

/// The settings of the default instance that a server configuration holds.
pub open spec fn top_instance(c: DrasiServerConfig) -> InstanceView {
    InstanceView {
        id: c.id@,
        persist_index: c.persist_index,
        state_store: opt_view(c.state_store),
        default_priority_queue_capacity: opt_view(c.default_priority_queue_capacity),
        default_dispatch_buffer_capacity: opt_view(c.default_dispatch_buffer_capacity),
        sources: seq_views(c.sources@),
        queries: seq_views(c.queries@),
        reactions: seq_views(c.reactions@),
    }
}

/// A server configuration built from its draft: every setting as read, and
/// fresh UUIDs for the ids that were not given.
pub open spec fn server_fits(c: DrasiServerConfig, d: ServerDraft) -> bool {
    &&& instance_fits(top_instance(c), d.common)
    &&& opt_chars(c.api_version) == d.api_version
    &&& c.host@ == d.host
    &&& c.port@ == d.port
    &&& c.log_level@ == d.log_level
    &&& c.persist_config == d.persist_config
    &&& c.instances@.len() == d.instances.len()
    &&& forall|i: int| 0 <= i < d.instances.len() ==> #[trigger] instance_fits(c.instances@[i]@, d.instances[i])
    &&& opt_chars(c.plugin_registry) == d.plugin_registry
    &&& c.auto_install_plugins == d.auto_install_plugins
    &&& seq_views(c.plugins@) == d.plugins
    &&& c.verify_plugins == d.verify_plugins
    &&& seq_views(c.trusted_identities@) == d.trusted_identities
}

/// The server settings as they are read.
struct ServerFields {
    common: InstanceFields,
    api_version: Option<String>,
    host: ConfigValue<String>,
    port: ConfigValue<u16>,
    log_level: ConfigValue<String>,
    persist_config: bool,
    instances: Vec<InstanceFields>,
    plugin_registry: Option<String>,
    auto_install_plugins: bool,
    plugins: Vec<PluginDependency>,
    verify_plugins: bool,
    trusted_identities: Vec<TrustedIdentity>,
}

impl View for ServerFields {
    type V = ServerDraft;

    closed spec fn view(&self) -> ServerDraft {
        ServerDraft {
            common: self.common@,
            api_version: opt_chars(self.api_version),
            host: self.host@,
            port: self.port@,
            log_level: self.log_level@,
            persist_config: self.persist_config,
            instances: seq_views(self.instances@),
            plugin_registry: opt_chars(self.plugin_registry),
            auto_install_plugins: self.auto_install_plugins,
            plugins: seq_views(self.plugins@),
            verify_plugins: self.verify_plugins,
            trusted_identities: seq_views(self.trusted_identities@),
        }
    }
}

impl ServerFields {
    /// A server with nothing given.
    fn new() -> (r: ServerFields)
        ensures
            r@ == server_default(),
    {
        let r = ServerFields {
            common: InstanceFields::new(),
            api_version: None,
            host: default_host(),
            port: default_port(),
            log_level: default_log_level(),
            persist_config: true,
            instances: Vec::new(),
            plugin_registry: default_plugin_registry(),
            auto_install_plugins: false,
            plugins: Vec::new(),
            verify_plugins: false,
            trusted_identities: Vec::new(),
        };
        assert(r@.instances =~= Seq::<InstanceDraft>::empty());
        assert(r@.plugins =~= Seq::<Seq<char>>::empty());
        assert(r@.trusted_identities =~= Seq::<IdentityView>::empty());
        r
    }

    /// Reads the server setting `f` from `v`, as `server_set` describes it.
    fn set(&mut self, f: Field, v: &JsonValue) -> (r: Result<(), DecodeError>)
        ensures
            match r {
                Ok(()) => server_set(old(self)@, f, v@) == Ok::<_, DecodeErrorView>(final(self)@),
                Err(x) => server_set(old(self)@, f, v@) == Err::<ServerDraft, _>(x@),
            },
    {
        reveal(server_set);
        match f {
            Field::Id | Field::PersistIndex | Field::StateStore | Field::DefaultPriorityQueueCapacity
            | Field::DefaultDispatchBufferCapacity | Field::Sources | Field::Queries | Field::Reactions => {
                self.common.set(f, v)?;
            },
            Field::ApiVersion => {
                self.api_version = read_opt_text(v, f)?;
            },
            Field::Host => {
                self.host = read_config_string(v, f)?;
            },
            Field::Port => {
                self.port = read_port(v)?;
            },
            Field::LogLevel => {
                self.log_level = read_config_string(v, f)?;
            },
            Field::PersistConfig => {
                self.persist_config = read_bool(v, f)?;
            },
            Field::Instances => {
                self.instances = read_list::<InstanceFields>(v, f)?;
            },
            Field::PluginRegistry => {
                self.plugin_registry = read_opt_text(v, f)?;
            },
            Field::AutoInstallPlugins => {
                self.auto_install_plugins = read_bool(v, f)?;
            },
            Field::Plugins => {
                self.plugins = read_list::<PluginDependency>(v, f)?;
            },
            Field::VerifyPlugins => {
                self.verify_plugins = read_bool(v, f)?;
            },
            Field::TrustedIdentities => {
                self.trusted_identities = read_list::<TrustedIdentity>(v, f)?;
            },
            _ => {},
        }
        Ok(())
    }

    /// Reads one entry of the server map, as `server_step` describes it.
    fn step(&mut self, seen: &mut Vec<Field>, k: &String, v: &JsonValue) -> (r: Result<(), DecodeError>)
        ensures
            match r {
                Ok(()) => server_step((old(seen)@, old(self)@), k@, v@) == Ok::<_, DecodeErrorView>(
                    (final(seen)@, final(self)@),
                ),
                Err(x) => server_step((old(seen)@, old(self)@), k@, v@) == Err::<(Seq<Field>, ServerDraft), _>(x@),
            },
    {
        let f = match field_of_key(k.as_str()) {
            Some(f) => f,
            None => {
                return Err(DecodeError::UnknownField(k.clone()));
            },
        };
        if seen_has(seen, f) {
            return Err(DecodeError::DuplicateField(f));
        }
        self.set(f, v)?;
        seen.push(f);
        Ok(())
    }

    /// The server configuration, with fresh ids where none were given.
    fn into_config(self) -> (r: DrasiServerConfig)
        ensures
            server_fits(r, self@),
    {
        let mut rest = self.instances;
        let ghost all = rest@;
        let mut instances: Vec<DrasiLibInstanceConfig> = Vec::new();
        while rest.len() > 0
            invariant
                instances@.len() + rest@.len() == all.len(),
                rest@ == all.subrange(instances@.len() as int, all.len() as int),
                forall|j: int| 0 <= j < instances@.len() ==> #[trigger] instance_fits(instances@[j]@, all[j]@),
            decreases rest.len(),
        {
            let ghost k = instances@.len();
            assert(rest@[0] == all[k as int]);
            let x = rest.remove(0);
            let inst = x.into_instance();
            instances.push(inst);
            assert(rest@ =~= all.subrange(instances@.len() as int, all.len() as int));
        }
        assert(seq_views(all).len() == all.len());
        let common = self.common.into_instance();
        DrasiServerConfig {
            api_version: self.api_version,
            id: common.id,
            host: self.host,
            port: self.port,
            log_level: self.log_level,
            persist_config: self.persist_config,
            persist_index: common.persist_index,
            state_store: common.state_store,
            default_priority_queue_capacity: common.default_priority_queue_capacity,
            default_dispatch_buffer_capacity: common.default_dispatch_buffer_capacity,
            sources: common.sources,
            queries: common.queries,
            reactions: common.reactions,
            instances,
            plugin_registry: self.plugin_registry,
            auto_install_plugins: self.auto_install_plugins,
            plugins: self.plugins,
            verify_plugins: self.verify_plugins,
            trusted_identities: self.trusted_identities,
        }
    }
}

impl DrasiServerConfig {
    /// Reads a server configuration from a JSON document, as
    /// `server_from_json` describes it: keys are the camelCase setting names,
    /// unknown or repeated keys are refused, absent settings take their
    /// defaults, and absent ids are fresh UUIDs.
    pub fn from_json(v: &JsonValue) -> (r: Result<DrasiServerConfig, DecodeError>)
        ensures
            match server_from_json(v@) {
                Ok(d) => r is Ok && server_fits(r->Ok_0, d),
                Err(e) => r is Err && r->Err_0@ == e,
            },
    {
        let e = match v {
            JsonValue::Object(e) => e,
            _ => {
                return Err(DecodeError::NotAMap);
            },
        };
        let ghost ev = entries_view(e);
        proof {
            lemma_json_entries_view(e@);
        }
        let mut seen: Vec<Field> = Vec::new();
        let mut d = ServerFields::new();
        assert(ev.subrange(0, 0) =~= Seq::<EntryView>::empty());
        assert(v@ == JsonView::Object(ev));
        let mut i: usize = 0;
        while i < e.len()
            invariant
                v@ == JsonView::Object(ev),
                ev == entries_view(e),
                ev.len() == e.len(),
                forall|j: int| 0 <= j < e.len() ==> #[trigger] ev[j] == (e@[j].0@, e@[j].1@),
                i <= e.len(),
                server_fold(ev.subrange(0, i as int)) == Ok::<_, DecodeErrorView>((seen@, d@)),
            decreases e.len() - i,
        {
            assert(ev.subrange(0, i + 1).drop_last() =~= ev.subrange(0, i as int));
            assert(ev.subrange(0, i + 1).last() == ev[i as int]);
            match d.step(&mut seen, &e[i].0, &e[i].1) {
                Ok(()) => {},
                Err(x) => {
                    proof {
                        lemma_server_fold_err(ev, i + 1);
                    }
                    return Err(x);
                },
            }
            i = i + 1;
        }
        assert(ev.subrange(0, i as int) =~= ev);
        Ok(d.into_config())
    }
}


// ---------------------------------------------------------------------------
// Documents
// ---------------------------------------------------------------------------

/// Why a configuration document could not be loaded.
#[derive(Debug)]
pub enum LoadError {
    /// The text is not YAML; the parser's message.
    Syntax(String),
    /// A reaction template does not compile.
    Template(ValidationError),
    /// The document does not describe a server configuration.
    Decode(DecodeError),
}

impl LoadError {
    /// The message this error reads as: the parser's message, the template
    /// error's text, or the decode error's message.
    pub fn message(&self) -> (r: String)
        ensures
            match self {
                LoadError::Syntax(m) => r@ == m@,
                LoadError::Template(ValidationError::TemplateSyntax(m)) => r@ == "Template syntax error: "@ + m@,
                LoadError::Template(ValidationError::Multiple(ms)) => r@ == "Multiple validation errors:\n"@
                    + joined_lines(strings_view(ms@)),
                LoadError::Decode(d) => r@ == decode_message(d@),
            },
    {
        match self {
            LoadError::Syntax(m) => owned(m.as_str()),
            LoadError::Template(t) => t.message(),
            LoadError::Decode(d) => d.message(),
        }
    }
}

/// Reads a server configuration from a parsed YAML document: its reaction
/// templates are checked first, then the document, in its JSON form, is read
/// as `server_from_json` describes it.
pub fn config_from_yaml(doc: &YamlValue) -> (r: Result<DrasiServerConfig, LoadError>)
    ensures
        match validate_config_spec(doc@) {
            Err(t) => r matches Err(LoadError::Template(x)) && x@ == t,
            Ok(()) => match json_of_yaml(doc@) {
                None => r matches Err(LoadError::Decode(x)) && x@ == DecodeErrorView::NotJson,
                Some(j) => match server_from_json(j) {
                    Ok(d) => r is Ok && server_fits(r->Ok_0, d),
                    Err(e) => r matches Err(LoadError::Decode(x)) && x@ == e,
                },
            },
        },
{
    match validate_config(doc) {
        Err(t) => {
            return Err(LoadError::Template(t));
        },
        Ok(()) => {},
    }
    match yaml_to_json(doc) {
        None => {
            let x = DecodeError::NotJson;
            assert(x@ == DecodeErrorView::NotJson);
            Err(LoadError::Decode(x))
        },
        Some(j) => match DrasiServerConfig::from_json(&j) {
            Ok(c) => Ok(c),
            Err(e) => Err(LoadError::Decode(e)),
        },
    }
}

/// Reads a server configuration from YAML text: the text is parsed, then read
/// as `config_from_yaml` describes it.
pub fn from_yaml_str(text: &str) -> (r: Result<DrasiServerConfig, LoadError>)
    ensures
        match yaml_document(text@) {
            None => r matches Err(LoadError::Syntax(_)),
            Some(y) => match validate_config_spec(y) {
                Err(t) => r matches Err(LoadError::Template(x)) && x@ == t,
                Ok(()) => match json_of_yaml(y) {
                    None => r matches Err(LoadError::Decode(x)) && x@ == DecodeErrorView::NotJson,
                    Some(j) => match server_from_json(j) {
                        Ok(d) => r is Ok && server_fits(r->Ok_0, d),
                        Err(e) => r matches Err(LoadError::Decode(x)) && x@ == e,
                    },
                },
            },
        },
{
    match parse_yaml(text) {
        Err(m) => Err(LoadError::Syntax(m)),
        Ok(doc) => config_from_yaml(&doc),
    }
}


/// A map read as a `T`; anything but a map is refused.
pub open spec fn map_in<T: MapItem>(v: JsonView) -> Result<T::V, DecodeErrorView> {
    match v {
        JsonView::Object(e) => T::item_spec(e),
        _ => Err(DecodeErrorView::NotAMap),
    }
}

/// Reads a JSON map as a `T`, as `map_in` describes it.
pub fn read_map<T: MapItem>(v: &JsonValue) -> (r: Result<T, DecodeError>)
    ensures
        match r {
            Ok(x) => map_in::<T>(v@) == Ok::<T::V, DecodeErrorView>(x@),
            Err(x) => map_in::<T>(v@) == Err::<T::V, DecodeErrorView>(x@),
        },
{
    match v {
        JsonValue::Object(e) => T::read_item(e),
        _ => Err(DecodeError::NotAMap),
    }
}

impl DrasiLibInstanceConfig {
    /// Reads an instance configuration from a JSON document: it must be a map
    /// of instance settings, read as `instance_from_entries_spec` describes;
    /// an absent id is a fresh UUID.
    pub fn from_json(v: &JsonValue) -> (r: Result<DrasiLibInstanceConfig, DecodeError>)
        ensures
            match map_in::<InstanceFields>(v@) {
                Ok(d) => r is Ok && instance_fits(r->Ok_0@, d),
                Err(e) => r is Err && r->Err_0@ == e,
            },
    {
        match read_map::<InstanceFields>(v) {
            Ok(x) => Ok(x.into_instance()),
            Err(e) => Err(e),
        }
    }
}


/// The fields seen while reading a server map are those its keys name, in
/// order.
proof fn lemma_server_seen(e: Seq<EntryView>)
    requires
        server_fold(e) is Ok,
    ensures
        server_fold(e)->Ok_0.0.len() == e.len(),
        forall|i: int|
            0 <= i < e.len() ==> field_named(#[trigger] e[i].0) == Some(server_fold(e)->Ok_0.0[i]),
    decreases e.len(),
{
    if e.len() > 0 {
        lemma_server_seen(e.drop_last());
        let seen = server_fold(e.drop_last())->Ok_0.0;
        assert forall|i: int| 0 <= i < e.len() implies field_named(#[trigger] e[i].0) == Some(
            server_fold(e)->Ok_0.0[i],
        ) by {
            if i < e.len() - 1 {
                assert(e.drop_last()[i] == e[i]);
            }
        }
    }
}

/// A server map is accepted only when each of its keys names a server
/// setting and no two of its keys name the same one.
pub proof fn law_server_keys_known(e: Seq<EntryView>)
    requires
        server_fold(e) is Ok,
    ensures
        forall|i: int| 0 <= i < e.len() ==> field_named(#[trigger] e[i].0) is Some,
        forall|i: int, j: int|
            0 <= i < j < e.len() ==> field_named(#[trigger] e[i].0) != field_named(#[trigger] e[j].0),
    decreases e.len(),
{
    lemma_server_seen(e);
    if e.len() > 0 {
        law_server_keys_known(e.drop_last());
        lemma_server_seen(e.drop_last());
        let seen = server_fold(e.drop_last())->Ok_0.0;
        let n = e.len() - 1;
        assert forall|i: int, j: int| 0 <= i < j < e.len() implies field_named(#[trigger] e[i].0) != field_named(
            #[trigger] e[j].0,
        ) by {
            if j < n {
                assert(e.drop_last()[i] == e[i]);
                assert(e.drop_last()[j] == e[j]);
            } else {
                assert(e.drop_last()[i] == e[i]);
                assert(field_named(e[i].0) == Some(seen[i]));
                assert(!seen.contains(field_named(e[n].0)->Some_0));
            }
        }
    }
}

} // verus!
