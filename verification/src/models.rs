//! Configuration models of sources, reactions, bootstrap providers and state
//! stores, and the rules by which they are read from key/value maps.

use vstd::prelude::*;
use crate::json::{
    EntryView, JsonValue, JsonView, entries_view, json_entries_view, lemma_json_entries_view, obj_find,
    obj_get, obj_has, obj_insert, obj_lookup, obj_set, obj_contains, lemma_obj_get, lemma_obj_set,
    keys_unique, lemma_obj_get_push, lemma_obj_get_unique,
};
use crate::text::{owned, str_eq};
use crate::validation::{decimal, decimal_text};

verus! {

/// A configuration value: a static value, a reference to an environment
/// variable (with an optional default), or a reference to a secret.
#[derive(Debug, Clone, PartialEq, Eq)]
pub enum ConfigValue<T> {
    Secret { name: String },
    EnvironmentVariable { name: String, default: Option<String> },
    Static(T),
}

/// A well-known field of a configuration map.
#[derive(Debug, Clone, Copy, PartialEq, Eq, Structural)]
pub enum Field {
    Kind,
    Id,
    AutoStart,
    BootstrapProvider,
    Queries,
    Path,
    Name,
    ApiVersion,
    Host,
    Port,
    LogLevel,
    PersistConfig,
    PersistIndex,
    StateStore,
    DefaultPriorityQueueCapacity,
    DefaultDispatchBufferCapacity,
    Sources,
    Reactions,
    Instances,
    PluginRegistry,
    AutoInstallPlugins,
    Plugins,
    VerifyPlugins,
    TrustedIdentities,
    Ref,
    Issuer,
    SubjectPattern,
    Query,
}

impl Field {
    /// The field's name as it is written in configuration files.
    pub open spec fn spec_name(self) -> Seq<char> {
        match self {
            Field::Kind => "kind"@,
            Field::Id => "id"@,
            Field::AutoStart => "autoStart"@,
            Field::BootstrapProvider => "bootstrapProvider"@,
            Field::Queries => "queries"@,
            Field::Path => "path"@,
            Field::Name => "name"@,
            Field::ApiVersion => "apiVersion"@,
            Field::Host => "host"@,
            Field::Port => "port"@,
            Field::LogLevel => "logLevel"@,
            Field::PersistConfig => "persistConfig"@,
            Field::PersistIndex => "persistIndex"@,
            Field::StateStore => "stateStore"@,
            Field::DefaultPriorityQueueCapacity => "defaultPriorityQueueCapacity"@,
            Field::DefaultDispatchBufferCapacity => "defaultDispatchBufferCapacity"@,
            Field::Sources => "sources"@,
            Field::Reactions => "reactions"@,
            Field::Instances => "instances"@,
            Field::PluginRegistry => "pluginRegistry"@,
            Field::AutoInstallPlugins => "autoInstallPlugins"@,
            Field::Plugins => "plugins"@,
            Field::VerifyPlugins => "verifyPlugins"@,
            Field::TrustedIdentities => "trustedIdentities"@,
            Field::Ref => "ref"@,
            Field::Issuer => "issuer"@,
            Field::SubjectPattern => "subjectPattern"@,
            Field::Query => "query"@,
        }
    }

    /// The field's name as it is written in configuration files.
    pub fn name(&self) -> (r: &'static str)
        ensures
            r@ == self.spec_name(),
    {
        match self {
            Field::Kind => "kind",
            Field::Id => "id",
            Field::AutoStart => "autoStart",
            Field::BootstrapProvider => "bootstrapProvider",
            Field::Queries => "queries",
            Field::Path => "path",
            Field::Name => "name",
            Field::ApiVersion => "apiVersion",
            Field::Host => "host",
            Field::Port => "port",
            Field::LogLevel => "logLevel",
            Field::PersistConfig => "persistConfig",
            Field::PersistIndex => "persistIndex",
            Field::StateStore => "stateStore",
            Field::DefaultPriorityQueueCapacity => "defaultPriorityQueueCapacity",
            Field::DefaultDispatchBufferCapacity => "defaultDispatchBufferCapacity",
            Field::Sources => "sources",
            Field::Reactions => "reactions",
            Field::Instances => "instances",
            Field::PluginRegistry => "pluginRegistry",
            Field::AutoInstallPlugins => "autoInstallPlugins",
            Field::Plugins => "plugins",
            Field::VerifyPlugins => "verifyPlugins",
            Field::TrustedIdentities => "trustedIdentities",
            Field::Ref => "ref",
            Field::Issuer => "issuer",
            Field::SubjectPattern => "subjectPattern",
            Field::Query => "query",
        }
    }
}

/// Why a configuration map could not be read.
#[derive(Debug, PartialEq, Eq)]
pub enum DecodeError {
    /// A field appeared twice.
    DuplicateField(Field),
    /// A required field is absent.
    MissingField(Field),
    /// A field holds a value of the wrong type.
    InvalidType(Field),
    /// The configuration is not a map.
    NotAMap,
    /// A snake_case spelling of a camelCase field (`auto_start`, `bootstrap_provider`).
    MisspelledField(Field),
    /// The bootstrap provider of the named source could not be read.
    InBootstrapProvider { source_id: String, cause: Box<DecodeError> },
    /// A state store of an unknown kind.
    UnknownStateStoreKind(String),
    /// The settings of a `redb` state store could not be read.
    InRedbStateStore(Box<DecodeError>),
    /// A key that the map does not accept.
    UnknownField(String),
    /// A configuration value reference of an unknown kind.
    UnknownValueKind(String),
    /// The item at `index` of the list under `field` could not be read.
    InItem { field: Field, index: usize, cause: Box<DecodeError> },
    /// The document holds a value that has no JSON form (a tagged value, or a
    /// mapping key that is not a string).
    NotJson,
}

/// The mathematical form of a decode error.
pub enum DecodeErrorView {
    DuplicateField(Field),
    MissingField(Field),
    InvalidType(Field),
    NotAMap,
    MisspelledField(Field),
    InBootstrapProvider { source_id: Seq<char>, cause: Box<DecodeErrorView> },
    UnknownStateStoreKind(Seq<char>),
    InRedbStateStore(Box<DecodeErrorView>),
    UnknownField(Seq<char>),
    UnknownValueKind(Seq<char>),
    InItem { field: Field, index: nat, cause: Box<DecodeErrorView> },
    NotJson,
}

pub open spec fn decode_error_view(e: DecodeError) -> DecodeErrorView
    decreases e,
{
    match e {
        DecodeError::DuplicateField(f) => DecodeErrorView::DuplicateField(f),
        DecodeError::MissingField(f) => DecodeErrorView::MissingField(f),
        DecodeError::InvalidType(f) => DecodeErrorView::InvalidType(f),
        DecodeError::NotAMap => DecodeErrorView::NotAMap,
        DecodeError::MisspelledField(f) => DecodeErrorView::MisspelledField(f),
        DecodeError::InBootstrapProvider { source_id, cause } => DecodeErrorView::InBootstrapProvider {
            source_id: source_id@,
            cause: Box::new(decode_error_view(*cause)),
        },
        DecodeError::UnknownStateStoreKind(k) => DecodeErrorView::UnknownStateStoreKind(k@),
        DecodeError::InRedbStateStore(cause) => DecodeErrorView::InRedbStateStore(
            Box::new(decode_error_view(*cause)),
        ),
        DecodeError::UnknownField(k) => DecodeErrorView::UnknownField(k@),
        DecodeError::UnknownValueKind(k) => DecodeErrorView::UnknownValueKind(k@),
        DecodeError::InItem { field, index, cause } => DecodeErrorView::InItem {
            field,
            index: index as nat,
            cause: Box::new(decode_error_view(*cause)),
        },
        DecodeError::NotJson => DecodeErrorView::NotJson,
    }
}

impl View for DecodeError {
    type V = DecodeErrorView;

    open spec fn view(&self) -> DecodeErrorView {
        decode_error_view(*self)
    }
}

/// The snake_case spelling that is refused in place of a camelCase field.
pub open spec fn misspelling(f: Field) -> Seq<char> {
    match f {
        Field::AutoStart => "auto_start"@,
        Field::BootstrapProvider => "bootstrap_provider"@,
        _ => f.spec_name(),
    }
}

/// The message a decode error reads as: the wording of serde's errors for
/// duplicate, missing and unknown fields and unknown variants, the
/// misspelling hint, and the context of a bootstrap provider, a `redb` state
/// store or a list item in front of the inner message.
pub open spec fn decode_message(e: DecodeErrorView) -> Seq<char>
    decreases e,
{
    match e {
        DecodeErrorView::DuplicateField(f) => "duplicate field `"@ + f.spec_name() + "`"@,
        DecodeErrorView::MissingField(f) => "missing field `"@ + f.spec_name() + "`"@,
        DecodeErrorView::InvalidType(f) => "invalid type for field `"@ + f.spec_name() + "`"@,
        DecodeErrorView::NotAMap => "invalid type: expected a map"@,
        DecodeErrorView::MisspelledField(f) => "unknown field `"@ + misspelling(f) + "`, did you mean `"@
            + f.spec_name() + "`?"@,
        DecodeErrorView::InBootstrapProvider { source_id, cause } => "in source '"@ + source_id
            + "' bootstrapProvider: "@ + decode_message(*cause),
        DecodeErrorView::UnknownStateStoreKind(k) => "unknown variant `"@ + k + "`, expected `redb`"@,
        DecodeErrorView::InRedbStateStore(cause) => "in stateStore (kind=redb): "@ + match *cause {
            DecodeErrorView::UnknownField(k) => "unknown field `"@ + k + "`, expected `path`"@,
            c => decode_message(c),
        },
        DecodeErrorView::UnknownField(k) => "unknown field `"@ + k + "`"@,
        DecodeErrorView::UnknownValueKind(k) => "Unknown kind: "@ + k,
        DecodeErrorView::InItem { field, index, cause } => field.spec_name() + "["@ + decimal_text(index) + "]: "@
            + decode_message(*cause),
        DecodeErrorView::NotJson => "the document holds a value that has no JSON form"@,
    }
}

impl DecodeError {
    /// The message this error reads as (see `decode_message`).
    pub fn message(&self) -> (r: String)
        ensures
            r@ == decode_message(self@),
        decreases self,
    {
        match self {
            DecodeError::DuplicateField(f) => {
                let mut m = owned("duplicate field `");
                m.append(f.name());
                m.append("`");
                m
            },
            DecodeError::MissingField(f) => {
                let mut m = owned("missing field `");
                m.append(f.name());
                m.append("`");
                m
            },
            DecodeError::InvalidType(f) => {
                let mut m = owned("invalid type for field `");
                m.append(f.name());
                m.append("`");
                m
            },
            DecodeError::NotAMap => owned("invalid type: expected a map"),
            DecodeError::MisspelledField(f) => {
                let mut m = owned("unknown field `");
                match f {
                    Field::AutoStart => m.append("auto_start"),
                    Field::BootstrapProvider => m.append("bootstrap_provider"),
                    _ => m.append(f.name()),
                }
                m.append("`, did you mean `");
                m.append(f.name());
                m.append("`?");
                m
            },
            DecodeError::InBootstrapProvider { source_id, cause } => {
                let inner = cause.message();
                let mut m = owned("in source '");
                m.append(source_id.as_str());
                m.append("' bootstrapProvider: ");
                m.append(inner.as_str());
                m
            },
            DecodeError::UnknownStateStoreKind(k) => {
                let mut m = owned("unknown variant `");
                m.append(k.as_str());
                m.append("`, expected `redb`");
                m
            },
            DecodeError::InRedbStateStore(cause) => {
                let mut m = owned("in stateStore (kind=redb): ");
                match &**cause {
                    DecodeError::UnknownField(k) => {
                        m.append("unknown field `");
                        m.append(k.as_str());
                        m.append("`, expected `path`");
                        assert(m@ =~= "in stateStore (kind=redb): "@ + ("unknown field `"@ + k@ + "`, expected `path`"@));
                        assert(decode_error_view(**cause) == DecodeErrorView::UnknownField(k@));
                    },
                    _ => {
                        let inner = cause.message();
                        m.append(inner.as_str());
                        assert(!(decode_error_view(**cause) is UnknownField));
                    },
                }
                m
            },
            DecodeError::UnknownField(k) => {
                let mut m = owned("unknown field `");
                m.append(k.as_str());
                m.append("`");
                m
            },
            DecodeError::UnknownValueKind(k) => {
                let mut m = owned("Unknown kind: ");
                m.append(k.as_str());
                m
            },
            DecodeError::InItem { field, index, cause } => {
                let inner = cause.message();
                let n = decimal(*index as u64);
                let mut m = owned(field.name());
                m.append("[");
                m.append(n.as_str());
                m.append("]: ");
                m.append(inner.as_str());
                m
            },
            DecodeError::NotJson => owned("the document holds a value that has no JSON form"),
        }
    }
}

/// The view of a decode result.
pub open spec fn result_view<T: View>(r: Result<T, DecodeError>) -> Result<T::V, DecodeErrorView> {
    match r {
        Ok(v) => Ok(v@),
        Err(e) => Err(e@),
    }
}

// ---------------------------------------------------------------------------
// Bootstrap providers
// ---------------------------------------------------------------------------

/// Configuration for bootstrap providers: the provider kind and its
/// plugin-specific settings.
#[derive(Debug, PartialEq)]
pub struct BootstrapProviderConfig {
    pub kind: String,
    pub config: JsonValue,
}

/// The mathematical form of a bootstrap provider configuration.
pub struct BootstrapView {
    pub kind: Seq<char>,
    pub config: JsonView,
}

impl View for BootstrapProviderConfig {
    type V = BootstrapView;

    open spec fn view(&self) -> BootstrapView {
        BootstrapView { kind: self.kind@, config: self.config@ }
    }
}

/// Reading the entries of a bootstrap provider map: the `kind` found so far and
/// the remaining settings, or the first error.
pub open spec fn bootstrap_fold(entries: Seq<EntryView>) -> Result<
    (Option<Seq<char>>, Seq<EntryView>),
    DecodeErrorView,
>
    decreases entries.len(),
{
    if entries.len() == 0 {
        Ok((None, Seq::empty()))
    } else {
        match bootstrap_fold(entries.drop_last()) {
            Err(e) => Err(e),
            Ok((kind, rest)) => {
                let (k, v) = entries.last();
                if k == "kind"@ {
                    if kind is Some {
                        Err(DecodeErrorView::DuplicateField(Field::Kind))
                    } else {
                        match v {
                            JsonView::String(s) => Ok((Some(s), rest)),
                            _ => Err(DecodeErrorView::InvalidType(Field::Kind)),
                        }
                    }
                } else {
                    Ok((kind, obj_set(rest, k, v)))
                }
            },
        }
    }
}

/// Once reading a prefix of the entries fails, reading all of them fails the same way.
pub proof fn lemma_bootstrap_fold_err(entries: Seq<EntryView>, i: int)
    requires
        0 <= i <= entries.len(),
        bootstrap_fold(entries.subrange(0, i)) is Err,
    ensures
        bootstrap_fold(entries) == bootstrap_fold(entries.subrange(0, i)),
    decreases entries.len() - i,
{
    if i < entries.len() {
        assert(entries.drop_last().subrange(0, i) =~= entries.subrange(0, i));
        lemma_bootstrap_fold_err(entries.drop_last(), i);
    } else {
        assert(entries.subrange(0, i) =~= entries);
    }
}

/// Reading a bootstrap provider configuration from a JSON value.
pub open spec fn bootstrap_from_json(v: JsonView) -> Result<BootstrapView, DecodeErrorView> {
    match v {
        JsonView::Object(entries) => match bootstrap_fold(entries) {
            Err(e) => Err(e),
            Ok((None, _)) => Err(DecodeErrorView::MissingField(Field::Kind)),
            Ok((Some(kind), rest)) => Ok(BootstrapView { kind, config: JsonView::Object(rest) }),
        },
        _ => Err(DecodeErrorView::NotAMap),
    }
}

impl BootstrapProviderConfig {
    /// Get the kind string for this bootstrap provider config.
    pub fn kind(&self) -> (r: &str)
        ensures
            r@ == self.kind@,
    {
        self.kind.as_str()
    }

    /// Read a bootstrap provider configuration from a JSON map: `kind` is
    /// required and must be a string; every other entry is a setting.
    pub fn from_json(v: JsonValue) -> (r: Result<BootstrapProviderConfig, DecodeError>)
        ensures
            result_view(r) == bootstrap_from_json(v@),
    {
        let ghost vv = v@;
        match v {
            JsonValue::Object(entries) => {
                let ghost ev = json_entries_view(entries@);
                assert(vv == JsonView::Object(ev));
                proof {
                    lemma_json_entries_view(entries@);
                }
                let mut kind: Option<String> = None;
                let mut rest: Vec<(String, JsonValue)> = Vec::new();
                let mut i: usize = 0;
                while i < entries.len()
                    invariant
                        vv == v@,
                        vv == JsonView::Object(ev),
                        ev == json_entries_view(entries@),
                        ev.len() == entries.len(),
                        forall|j: int| 0 <= j < entries.len() ==> #[trigger] ev[j] == (entries@[j].0@, entries@[j].1@),
                        i <= entries.len(),
                        bootstrap_fold(ev.subrange(0, i as int)) == Ok::<_, DecodeErrorView>((
                            match kind { Some(k) => Some(k@), None => None::<Seq<char>> },
                            entries_view(&rest),
                        )),
                    decreases entries.len() - i,
                {
                    let k = &entries[i].0;
                    let val = &entries[i].1;
                    assert(ev[i as int] == (k@, val@));
                    assert(ev.subrange(0, i + 1).drop_last() =~= ev.subrange(0, i as int));
                    assert(ev.subrange(0, i + 1).last() == ev[i as int]);
                    if str_eq(k.as_str(), "kind") {
                        if kind.is_some() {
                            proof {
                                lemma_bootstrap_fold_err(ev, i + 1);
                                assert(bootstrap_fold(ev) == Err::<(Option<Seq<char>>, Seq<EntryView>), _>(DecodeErrorView::DuplicateField(Field::Kind)));
                            }
                            return Err(DecodeError::DuplicateField(Field::Kind));
                        }
                        match val {
                            JsonValue::String(s) => {
                                kind = Some(s.clone());
                            },
                            _ => {
                                proof {
                                    lemma_bootstrap_fold_err(ev, i + 1);
                                }
                                return Err(DecodeError::InvalidType(Field::Kind));
                            },
                        }
                    } else {
                        obj_insert(&mut rest, k.clone(), val.deep_clone());
                    }
                    i = i + 1;
                }
                assert(ev.subrange(0, i as int) =~= ev);
                match kind {
                    None => Err(DecodeError::MissingField(Field::Kind)),
                    Some(k) => Ok(BootstrapProviderConfig { kind: k, config: JsonValue::Object(rest) }),
                }
            },
            _ => Err(DecodeError::NotAMap),
        }
    }
}


/// The source settings a bootstrap provider of the same kind inherits when it
/// does not set them itself; `None` for kinds that inherit nothing.
pub open spec fn allowed_fields_spec(kind: Seq<char>) -> Option<Seq<Seq<char>>> {
    if kind == "postgres"@ {
        Some(
            seq![
                "host"@,
                "port"@,
                "database"@,
                "user"@,
                "password"@,
                "tables"@,
                "slotName"@,
                "publicationName"@,
                "sslMode"@,
                "tableKeys"@,
            ],
        )
    } else if kind == "scriptfile"@ {
        Some(seq!["filePaths"@])
    } else if kind == "application"@ || kind == "noop"@ {
        Some(Seq::empty())
    } else {
        None
    }
}

/// The bootstrap settings after inheriting, in order, each listed field that
/// the bootstrap map lacks and the source map has.
pub open spec fn inherit_fields(
    bm: Seq<EntryView>,
    sm: Seq<EntryView>,
    fields: Seq<Seq<char>>,
) -> Seq<EntryView>
    decreases fields.len(),
{
    if fields.len() == 0 {
        bm
    } else {
        let prev = inherit_fields(bm, sm, fields.drop_last());
        let f = fields.last();
        if !obj_has(prev, f) && obj_get(sm, f) is Some {
            obj_set(prev, f, obj_get(sm, f).unwrap())
        } else {
            prev
        }
    }
}

/// Inheritance never overrides: after inheriting `fields` from the source
/// map, a setting that the bootstrap map has keeps its value, a listed
/// setting that it lacks takes the source's value (or stays absent when the
/// source lacks it too), and no other setting appears.
pub proof fn law_bootstrap_inheritance(bm: Seq<EntryView>, sm: Seq<EntryView>, fields: Seq<Seq<char>>, k: Seq<char>)
    ensures
        obj_get(inherit_fields(bm, sm, fields), k) == (if obj_get(bm, k) is Some {
            obj_get(bm, k)
        } else if fields.contains(k) {
            obj_get(sm, k)
        } else {
            None
        }),
    decreases fields.len(),
{
    if fields.len() > 0 {
        let rest = fields.drop_last();
        let prev = inherit_fields(bm, sm, rest);
        let f = fields.last();
        law_bootstrap_inheritance(bm, sm, rest, k);
        law_bootstrap_inheritance(bm, sm, rest, f);
        lemma_obj_get(prev, f);
        assert(fields.contains(f)) by {
            assert(fields[fields.len() - 1] == f);
        }
        assert(k != f ==> (fields.contains(k) <==> rest.contains(k))) by {
            if k != f && fields.contains(k) {
                let i = choose|i: int| 0 <= i < fields.len() && fields[i] == k;
                assert(rest[i] == k);
            }
            if rest.contains(k) {
                let i = choose|i: int| 0 <= i < rest.len() && rest[i] == k;
                assert(fields[i] == k);
            }
        }
        if !obj_has(prev, f) && obj_get(sm, f) is Some {
            lemma_obj_set(prev, f, obj_get(sm, f).unwrap());
        }
    }
}

/// Inheriting keeps keys distinct.
proof fn lemma_inherit_unique(bm: Seq<EntryView>, sm: Seq<EntryView>, fields: Seq<Seq<char>>)
    requires
        keys_unique(bm),
    ensures
        keys_unique(inherit_fields(bm, sm, fields)),
    decreases fields.len(),
{
    if fields.len() > 0 {
        lemma_inherit_unique(bm, sm, fields.drop_last());
        let prev = inherit_fields(bm, sm, fields.drop_last());
        let f = fields.last();
        if !obj_has(prev, f) && obj_get(sm, f) is Some {
            lemma_obj_set(prev, f, obj_get(sm, f).unwrap());
        }
    }
}

/// The entries of a bootstrap provider map other than `kind`, in order.
pub open spec fn bootstrap_settings(e: Seq<EntryView>) -> Seq<EntryView>
    decreases e.len(),
{
    if e.len() == 0 {
        Seq::empty()
    } else if e.last().0 == "kind"@ {
        bootstrap_settings(e.drop_last())
    } else {
        bootstrap_settings(e.drop_last()).push(e.last())
    }
}

/// Reading a bootstrap provider map with distinct keys and a string `kind`
/// wherever it occurs: the kind, and every other entry as a setting.
proof fn lemma_clean_bootstrap_fold(e: Seq<EntryView>)
    requires
        keys_unique(e),
        forall|i: int| 0 <= i < e.len() && (#[trigger] e[i]).0 == "kind"@ ==> e[i].1 is String,
    ensures
        bootstrap_fold(e) == Ok::<_, DecodeErrorView>((str_value(obj_get(e, "kind"@)), bootstrap_settings(e))),
        forall|x: Seq<char>| x != "kind"@ ==> #[trigger] obj_get(bootstrap_settings(e), x) == obj_get(e, x),
        forall|x: Seq<char>| obj_has(bootstrap_settings(e), x) ==> obj_has(e, x),
    decreases e.len(),
{
    if e.len() == 0 {
        assert forall|x: Seq<char>| obj_has(bootstrap_settings(e), x) implies obj_has(e, x) by {
            let i = choose|i: int| crate::json::key_at(bootstrap_settings(e), x, i);
        }
    } else {
        let q = e.drop_last();
        let n = e.len() - 1;
        let (k, v) = e.last();
        assert(e[n] == (k, v));
        assert forall|i: int| 0 <= i < q.len() implies #[trigger] q[i] == e[i] by {}
        assert forall|i: int| 0 <= i < q.len() && (#[trigger] q[i]).0 == "kind"@ implies q[i].1 is String by {
            assert(q[i] == e[i]);
        }
        lemma_clean_bootstrap_fold(q);
        assert(e =~= q.push((k, v)));
        assert(!obj_has(q, k)) by {
            if obj_has(q, k) {
                let j = choose|j: int| #[trigger] crate::json::key_at(q, k, j);
                assert(e[j].0 == e[n].0);
            }
        }
        lemma_obj_get(q, k);
        lemma_obj_get_push(q, k, v, "kind"@);
        let rq = bootstrap_settings(q);
        if k == "kind"@ {
            assert(v is String);
            assert(str_value(obj_get(q, "kind"@)) is None);
            assert forall|x: Seq<char>| x != "kind"@ implies #[trigger] obj_get(bootstrap_settings(e), x) == obj_get(e, x) by {
                lemma_obj_get_push(q, k, v, x);
            }
        } else {
            assert(!obj_has(rq, k));
            lemma_obj_set(rq, k, v);
            assert forall|x: Seq<char>| x != "kind"@ implies #[trigger] obj_get(bootstrap_settings(e), x) == obj_get(e, x) by {
                lemma_obj_get_push(q, k, v, x);
                lemma_obj_get_push(rq, k, v, x);
            }
        }
        assert forall|x: Seq<char>| obj_has(bootstrap_settings(e), x) implies obj_has(e, x) by {
            if obj_has(q, x) {
                let j = choose|j: int| #[trigger] crate::json::key_at(q, x, j);
                assert(crate::json::key_at(e, x, j));
            }
            if x == k {
                assert(crate::json::key_at(e, x, n));
            }
            if k != "kind"@ {
                lemma_obj_set(rq, k, v);
            }
        }
    }
}

/// The whole inheritance law of a source's bootstrap provider: a provider
/// map with distinct keys and a string `kind`, given to a source of kind
/// `kind` with settings `sm`, reads as a provider of its own kind whose
/// settings are its own, every one kept, plus, only when its kind is the
/// source's and that kind lists inheritable fields, each listed field it
/// lacks that the source has, with the source's value; nothing else.
pub proof fn law_bootstrap_provider_inherits(kind: Seq<char>, bm: Seq<EntryView>, sm: Seq<EntryView>, x: Seq<char>)
    requires
        keys_unique(bm),
        str_value(obj_get(bm, "kind"@)) is Some,
    ensures
        bootstrap_from_json(merge_spec(kind, JsonView::Object(bm), JsonView::Object(sm))) is Ok,
        ({
            let b = bootstrap_from_json(merge_spec(kind, JsonView::Object(bm), JsonView::Object(sm)))->Ok_0;
            let bk = str_value(obj_get(bm, "kind"@))->Some_0;
            &&& b.kind == bk
            &&& b.config is Object
            &&& x != "kind"@ ==> obj_get(b.config->Object_0, x) == (if obj_get(bm, x) is Some {
                obj_get(bm, x)
            } else if bk == kind && allowed_fields_spec(bk) is Some && allowed_fields_spec(bk)->Some_0.contains(x) {
                obj_get(sm, x)
            } else {
                None
            })
        }),
{
    let bk = str_value(obj_get(bm, "kind"@))->Some_0;
    let merged = merge_spec(kind, JsonView::Object(bm), JsonView::Object(sm));
    let mm = merged->Object_0;
    if bk == kind && allowed_fields_spec(bk) is Some {
        let fields = allowed_fields_spec(bk)->Some_0;
        lemma_inherit_unique(bm, sm, fields);
        law_bootstrap_inheritance(bm, sm, fields, "kind"@);
        law_bootstrap_inheritance(bm, sm, fields, x);
    }
    assert(keys_unique(mm));
    assert(obj_get(mm, "kind"@) == obj_get(bm, "kind"@));
    assert forall|i: int| 0 <= i < mm.len() && (#[trigger] mm[i]).0 == "kind"@ implies mm[i].1 is String by {
        lemma_obj_get_unique(mm, "kind"@, i);
    }
    lemma_clean_bootstrap_fold(mm);
}

/// A bootstrap provider map whose `kind` equals the source's kind inherits
/// the allowed connection settings of the source; any other value is kept.
pub open spec fn merge_spec(source_kind: Seq<char>, bv: JsonView, sc: JsonView) -> JsonView {
    match bv {
        JsonView::Object(bm) => match obj_get(bm, "kind"@) {
            Some(JsonView::String(bk)) => {
                if bk != source_kind {
                    bv
                } else {
                    match allowed_fields_spec(bk) {
                        None => bv,
                        Some(fields) => match sc {
                            JsonView::Object(sm) => JsonView::Object(inherit_fields(bm, sm, fields)),
                            _ => bv,
                        },
                    }
                }
            },
            _ => bv,
        },
        _ => bv,
    }
}

/// The source settings that a bootstrap provider of kind `kind` may inherit.
pub fn allowed_bootstrap_provider_fields(kind: &str) -> (r: Option<Vec<&'static str>>)
    ensures
        match r {
            None => allowed_fields_spec(kind@) is None,
            Some(v) => allowed_fields_spec(kind@) == Some(v@.map_values(|s: &str| s@)),
        },
{
    if str_eq(kind, "postgres") {
        let v = vec![
            "host",
            "port",
            "database",
            "user",
            "password",
            "tables",
            "slotName",
            "publicationName",
            "sslMode",
            "tableKeys",
        ];
        assert(v@.map_values(|s: &str| s@) =~= seq![
            "host"@,
            "port"@,
            "database"@,
            "user"@,
            "password"@,
            "tables"@,
            "slotName"@,
            "publicationName"@,
            "sslMode"@,
            "tableKeys"@,
        ]);
        Some(v)
    } else if str_eq(kind, "scriptfile") {
        let v = vec!["filePaths"];
        assert(v@.map_values(|s: &str| s@) =~= seq!["filePaths"@]);
        Some(v)
    } else if str_eq(kind, "application") || str_eq(kind, "noop") {
        let v: Vec<&'static str> = Vec::new();
        assert(v@.map_values(|s: &str| s@) =~= Seq::<Seq<char>>::empty());
        Some(v)
    } else {
        None
    }
}

/// Fill in a bootstrap provider's settings from its source: when the provider
/// map's `kind` is the source's kind, each allowed field that the provider
/// lacks is copied from the source settings.
pub fn merge_bootstrap_provider_with_source(
    source_kind: &str,
    bootstrap_value: JsonValue,
    source_config: &JsonValue,
) -> (r: JsonValue)
    ensures
        r@ == merge_spec(source_kind@, bootstrap_value@, source_config@),
{
    let ghost bv = bootstrap_value@;
    let mut bootstrap_map = match bootstrap_value {
        JsonValue::Object(map) => map,
        other => {
            return other;
        },
    };
    assert(bv == JsonView::Object(entries_view(&bootstrap_map)));
    let bootstrap_kind = match obj_find(&bootstrap_map, "kind") {
        Some(i) => match &bootstrap_map[i].1 {
            JsonValue::String(k) => k.clone(),
            _ => {
                return JsonValue::Object(bootstrap_map);
            },
        },
        None => {
            return JsonValue::Object(bootstrap_map);
        },
    };
    if !str_eq(bootstrap_kind.as_str(), source_kind) {
        return JsonValue::Object(bootstrap_map);
    }
    let allowed_fields = match allowed_bootstrap_provider_fields(bootstrap_kind.as_str()) {
        Some(f) => f,
        None => {
            return JsonValue::Object(bootstrap_map);
        },
    };
    let source_map = match source_config {
        JsonValue::Object(m) => m,
        _ => {
            return JsonValue::Object(bootstrap_map);
        },
    };
    let ghost bm = entries_view(&bootstrap_map);
    let ghost sm = entries_view(source_map);
    let ghost fields = allowed_fields@.map_values(|s: &str| s@);
    let mut i: usize = 0;
    while i < allowed_fields.len()
        invariant
            i <= allowed_fields.len(),
            fields == allowed_fields@.map_values(|s: &str| s@),
            sm == entries_view(source_map),
            entries_view(&bootstrap_map) == inherit_fields(bm, sm, fields.subrange(0, i as int)),
        decreases allowed_fields.len() - i,
    {
        let field = allowed_fields[i];
        assert(fields.subrange(0, i + 1).drop_last() =~= fields.subrange(0, i as int));
        assert(fields.subrange(0, i + 1).last() == field@);
        if !obj_contains(&bootstrap_map, field) {
            match obj_lookup(source_map, field) {
                Some(value) => {
                    obj_insert(&mut bootstrap_map, owned(field), value);
                },
                None => {},
            }
        }
        i = i + 1;
    }
    assert(fields.subrange(0, allowed_fields.len() as int) =~= fields);
    JsonValue::Object(bootstrap_map)
}

// ---------------------------------------------------------------------------
// Sources
// ---------------------------------------------------------------------------

/// Source configuration: the plugin kind, the common fields and the
/// plugin-specific settings.
#[derive(Debug, PartialEq)]
pub struct SourceConfig {
    pub kind: String,
    pub id: String,
    pub auto_start: bool,
    pub bootstrap_provider: Option<BootstrapProviderConfig>,
    pub config: JsonValue,
}

/// The mathematical form of a source configuration.
pub struct SourceView {
    pub kind: Seq<char>,
    pub id: Seq<char>,
    pub auto_start: bool,
    pub bootstrap_provider: Option<BootstrapView>,
    pub config: JsonView,
}

pub open spec fn opt_bootstrap_view(b: Option<BootstrapProviderConfig>) -> Option<BootstrapView> {
    match b {
        Some(b) => Some(b@),
        None => None,
    }
}

pub open spec fn opt_string_view(s: Option<String>) -> Option<Seq<char>> {
    match s {
        Some(s) => Some(s@),
        None => None,
    }
}

pub open spec fn opt_json_view(s: Option<JsonValue>) -> Option<JsonView> {
    match s {
        Some(s) => Some(s@),
        None => None,
    }
}

impl View for SourceConfig {
    type V = SourceView;

    open spec fn view(&self) -> SourceView {
        SourceView {
            kind: self.kind@,
            id: self.id@,
            auto_start: self.auto_start,
            bootstrap_provider: opt_bootstrap_view(self.bootstrap_provider),
            config: self.config@,
        }
    }
}

/// How a key of a source map is read.
#[derive(Debug, Clone, Copy, PartialEq, Eq, Structural)]
pub enum SourceKey {
    Kind,
    Id,
    AutoStart,
    BootstrapProvider,
    Other,
}

/// The fields of a source map read so far.
pub struct SourceDecoder {
    kind: Option<String>,
    id: Option<String>,
    auto_start: Option<bool>,
    bootstrap_provider: Option<JsonValue>,
    remaining: Vec<(String, JsonValue)>,
}

/// The mathematical form of a source decoder's state.
pub struct SourceDecoderView {
    pub kind: Option<Seq<char>>,
    pub id: Option<Seq<char>>,
    pub auto_start: Option<bool>,
    pub bootstrap_provider: Option<JsonView>,
    pub remaining: Seq<EntryView>,
}

impl View for SourceDecoder {
    type V = SourceDecoderView;

    closed spec fn view(&self) -> SourceDecoderView {
        SourceDecoderView {
            kind: opt_string_view(self.kind),
            id: opt_string_view(self.id),
            auto_start: self.auto_start,
            bootstrap_provider: opt_json_view(self.bootstrap_provider),
            remaining: entries_view(&self.remaining),
        }
    }
}

/// A decoder that has read nothing.
pub open spec fn source_decoder_empty() -> SourceDecoderView {
    SourceDecoderView {
        kind: None,
        id: None,
        auto_start: None,
        bootstrap_provider: None,
        remaining: Seq::empty(),
    }
}

/// How a key is read given the fields read so far: a repeated common field
/// and the snake_case spellings `auto_start` and `bootstrap_provider` are errors.
pub open spec fn source_key_spec(d: SourceDecoderView, key: Seq<char>) -> Result<SourceKey, DecodeErrorView> {
    if key == "kind"@ {
        if d.kind is Some { Err(DecodeErrorView::DuplicateField(Field::Kind)) } else { Ok(SourceKey::Kind) }
    } else if key == "id"@ {
        if d.id is Some { Err(DecodeErrorView::DuplicateField(Field::Id)) } else { Ok(SourceKey::Id) }
    } else if key == "autoStart"@ {
        if d.auto_start is Some { Err(DecodeErrorView::DuplicateField(Field::AutoStart)) } else { Ok(SourceKey::AutoStart) }
    } else if key == "bootstrapProvider"@ {
        if d.bootstrap_provider is Some {
            Err(DecodeErrorView::DuplicateField(Field::BootstrapProvider))
        } else {
            Ok(SourceKey::BootstrapProvider)
        }
    } else if key == "auto_start"@ {
        Err(DecodeErrorView::MisspelledField(Field::AutoStart))
    } else if key == "bootstrap_provider"@ {
        Err(DecodeErrorView::MisspelledField(Field::BootstrapProvider))
    } else {
        Ok(SourceKey::Other)
    }
}

/// The source configuration a complete decoder state yields: `kind` and `id`
/// are required, `autoStart` defaults to true, and a bootstrap provider is read
/// after inheriting settings from the source.
pub open spec fn source_finish_spec(d: SourceDecoderView) -> Result<SourceView, DecodeErrorView> {
    match d.kind {
        None => Err(DecodeErrorView::MissingField(Field::Kind)),
        Some(kind) => match d.id {
            None => Err(DecodeErrorView::MissingField(Field::Id)),
            Some(id) => {
                let auto_start = match d.auto_start { Some(b) => b, None => true };
                let config = JsonView::Object(d.remaining);
                match d.bootstrap_provider {
                    None => Ok(SourceView { kind, id, auto_start, bootstrap_provider: None, config }),
                    Some(bv) => match bootstrap_from_json(merge_spec(kind, bv, config)) {
                        Err(e) => Err(DecodeErrorView::InBootstrapProvider { source_id: id, cause: Box::new(e) }),
                        Ok(b) => Ok(SourceView { kind, id, auto_start, bootstrap_provider: Some(b), config }),
                    },
                }
            },
        },
    }
}

/// One entry of a JSON source map read into a decoder state.
pub open spec fn source_step(d: SourceDecoderView, k: Seq<char>, v: JsonView) -> Result<SourceDecoderView, DecodeErrorView> {
    match source_key_spec(d, k) {
        Err(e) => Err(e),
        Ok(SourceKey::Kind) => match v {
            JsonView::String(s) => Ok(SourceDecoderView { kind: Some(s), ..d }),
            _ => Err(DecodeErrorView::InvalidType(Field::Kind)),
        },
        Ok(SourceKey::Id) => match v {
            JsonView::String(s) => Ok(SourceDecoderView { id: Some(s), ..d }),
            _ => Err(DecodeErrorView::InvalidType(Field::Id)),
        },
        Ok(SourceKey::AutoStart) => match v {
            JsonView::Bool(b) => Ok(SourceDecoderView { auto_start: Some(b), ..d }),
            _ => Err(DecodeErrorView::InvalidType(Field::AutoStart)),
        },
        Ok(SourceKey::BootstrapProvider) => Ok(SourceDecoderView { bootstrap_provider: Some(v), ..d }),
        Ok(SourceKey::Other) => Ok(SourceDecoderView { remaining: obj_set(d.remaining, k, v), ..d }),
    }
}

/// The entries of a JSON source map read in order.
pub open spec fn source_fold(entries: Seq<EntryView>) -> Result<SourceDecoderView, DecodeErrorView>
    decreases entries.len(),
{
    if entries.len() == 0 {
        Ok(source_decoder_empty())
    } else {
        match source_fold(entries.drop_last()) {
            Err(e) => Err(e),
            Ok(d) => source_step(d, entries.last().0, entries.last().1),
        }
    }
}

/// Reading a source configuration from the entries of a JSON map.
pub open spec fn source_from_entries_spec(entries: Seq<EntryView>) -> Result<SourceView, DecodeErrorView> {
    match source_fold(entries) {
        Err(e) => Err(e),
        Ok(d) => source_finish_spec(d),
    }
}

/// Some entry of `e` has the key `k`.
pub open spec fn has_entry(e: Seq<EntryView>, k: Seq<char>) -> bool {
    exists|i: int| 0 <= i < e.len() && (#[trigger] e[i]).0 == k
}

/// The keys that a source map holds at most once.
pub open spec fn source_common(k: Seq<char>) -> bool {
    k == "kind"@ || k == "id"@ || k == "autoStart"@ || k == "bootstrapProvider"@
}

/// What reading any source map establishes when it succeeds: no
/// misspelled field occurs, no common field occurs twice, `kind` and `id`
/// were found exactly when the map has them and hold the map's string
/// values, `autoStart` and `bootstrapProvider` likewise, and every other key
/// of the map is kept among the settings and nothing else is.
pub proof fn law_source_decoding(e: Seq<EntryView>)
    requires
        source_fold(e) is Ok,
    ensures
        ({
            let d = source_fold(e)->Ok_0;
            &&& forall|i: int| 0 <= i < e.len() ==> (#[trigger] e[i]).0 != "auto_start"@ && e[i].0 != "bootstrap_provider"@
            &&& forall|i: int, j: int| 0 <= i < j < e.len() && (#[trigger] e[i]).0 == (#[trigger] e[j]).0 ==> !source_common(e[i].0)
            &&& (d.kind is Some <==> has_entry(e, "kind"@))
            &&& (d.id is Some <==> has_entry(e, "id"@))
            &&& (d.auto_start is Some <==> has_entry(e, "autoStart"@))
            &&& (d.bootstrap_provider is Some <==> has_entry(e, "bootstrapProvider"@))
            &&& forall|i: int| 0 <= i < e.len() && (#[trigger] e[i]).0 == "kind"@ ==> (d.kind is Some && e[i].1 == JsonView::String(d.kind->Some_0))
            &&& forall|i: int| 0 <= i < e.len() && (#[trigger] e[i]).0 == "id"@ ==> (d.id is Some && e[i].1 == JsonView::String(d.id->Some_0))
            &&& forall|i: int| 0 <= i < e.len() && (#[trigger] e[i]).0 == "autoStart"@ ==> (d.auto_start is Some && e[i].1 == JsonView::Bool(d.auto_start->Some_0))
            &&& forall|i: int| 0 <= i < e.len() && (#[trigger] e[i]).0 == "bootstrapProvider"@ ==> d.bootstrap_provider == Some(e[i].1)
            &&& forall|k: Seq<char>| !source_common(k) ==> (obj_has(d.remaining, k) <==> has_entry(e, k))
        }),
    decreases e.len(),
{
    reveal_strlit("kind");
    reveal_strlit("id");
    reveal_strlit("autoStart");
    reveal_strlit("bootstrapProvider");
    reveal_strlit("auto_start");
    reveal_strlit("bootstrap_provider");
    if e.len() == 0 {
        let d = source_fold(e)->Ok_0;
        assert forall|k: Seq<char>| !source_common(k) implies (obj_has(d.remaining, k) <==> has_entry(e, k)) by {
            if obj_has(d.remaining, k) {
                let i = choose|i: int| crate::json::key_at(d.remaining, k, i);
            }
        }
    } else {
        let p = e.drop_last();
        law_source_decoding(p);
        let dp = source_fold(p)->Ok_0;
        let d = source_fold(e)->Ok_0;
        let (k, v) = e.last();
        let n = e.len() - 1;
        assert(e[n] == (k, v));
        assert forall|i: int| 0 <= i < n implies e[i] == #[trigger] p[i] by {}
        assert forall|x: Seq<char>| has_entry(e, x) <==> (has_entry(p, x) || x == k) by {
            if has_entry(e, x) {
                let i = choose|i: int| 0 <= i < e.len() && (#[trigger] e[i]).0 == x;
                if i < n {
                    assert(p[i].0 == x);
                }
            }
            if has_entry(p, x) {
                let i = choose|i: int| 0 <= i < p.len() && (#[trigger] p[i]).0 == x;
                assert(e[i].0 == x);
            }
            if x == k {
                assert(e[n].0 == x);
            }
        }
        assert(source_step(dp, k, v) == Ok::<_, DecodeErrorView>(d));
        assert("kind"@.len() == 4 && "id"@.len() == 2 && "autoStart"@.len() == 9 && "bootstrapProvider"@.len() == 17
            && "auto_start"@.len() == 10 && "bootstrap_provider"@.len() == 18);
        assert("id"@ != "kind"@ && "autoStart"@ != "kind"@ && "autoStart"@ != "id"@);
        assert("bootstrapProvider"@ != "kind"@ && "bootstrapProvider"@ != "id"@ && "bootstrapProvider"@ != "autoStart"@);
        assert("auto_start"@ != "kind"@ && "auto_start"@ != "id"@ && "auto_start"@ != "autoStart"@ && "auto_start"@ != "bootstrapProvider"@);
        assert("bootstrap_provider"@ != "kind"@ && "bootstrap_provider"@ != "id"@ && "bootstrap_provider"@ != "autoStart"@
            && "bootstrap_provider"@ != "bootstrapProvider"@ && "bootstrap_provider"@ != "auto_start"@);
        assert(k != "auto_start"@ && k != "bootstrap_provider"@);
        if k == "kind"@ {
            assert(dp.kind is None && v is String && d == SourceDecoderView { kind: Some(v->String_0), ..dp });
        } else if k == "id"@ {
            assert(dp.id is None && v is String && d == SourceDecoderView { id: Some(v->String_0), ..dp });
        } else if k == "autoStart"@ {
            assert(dp.auto_start is None && v is Bool && d == SourceDecoderView { auto_start: Some(v->Bool_0), ..dp });
        } else if k == "bootstrapProvider"@ {
            assert(dp.bootstrap_provider is None && d == SourceDecoderView { bootstrap_provider: Some(v), ..dp });
        } else {
            assert(d == SourceDecoderView { remaining: obj_set(dp.remaining, k, v), ..dp });
        }
        if source_common(k) {
            assert(!has_entry(p, k));
            assert(d.remaining == dp.remaining);
        } else {
            lemma_obj_set(dp.remaining, k, v);
            assert(d.remaining == obj_set(dp.remaining, k, v));
        }
        assert forall|i: int, j: int| 0 <= i < j < e.len() && (#[trigger] e[i]).0 == (#[trigger] e[j]).0 implies !source_common(e[i].0) by {
            if j == n {
                if source_common(k) {
                    assert(p[i].0 == k);
                    assert(has_entry(p, k));
                }
            } else {
                assert(p[i] == e[i] && p[j] == e[j]);
            }
        }
        assert forall|i: int| 0 <= i < e.len() && (#[trigger] e[i]).0 == "kind"@ implies (d.kind is Some && e[i].1 == JsonView::String(d.kind->Some_0)) by {
            if i < n {
                assert(p[i].0 == "kind"@);
                assert(has_entry(p, "kind"@));
            }
        }
        assert forall|i: int| 0 <= i < e.len() && (#[trigger] e[i]).0 == "id"@ implies (d.id is Some && e[i].1 == JsonView::String(d.id->Some_0)) by {
            if i < n {
                assert(p[i].0 == "id"@);
                assert(has_entry(p, "id"@));
            }
        }
        assert forall|i: int| 0 <= i < e.len() && (#[trigger] e[i]).0 == "autoStart"@ implies (d.auto_start is Some && e[i].1 == JsonView::Bool(d.auto_start->Some_0)) by {
            if i < n {
                assert(p[i].0 == "autoStart"@);
                assert(has_entry(p, "autoStart"@));
            }
        }
        assert forall|i: int| 0 <= i < e.len() && (#[trigger] e[i]).0 == "bootstrapProvider"@ implies d.bootstrap_provider == Some(e[i].1) by {
            if i < n {
                assert(p[i].0 == "bootstrapProvider"@);
                assert(has_entry(p, "bootstrapProvider"@));
            }
        }
        assert forall|i: int| 0 <= i < e.len() implies (#[trigger] e[i]).0 != "auto_start"@ && e[i].0 != "bootstrap_provider"@ by {
            if i < n {
                assert(p[i] == e[i]);
            }
        }
    }
}

/// A source map that reads as a source has a `kind` and an `id`.
pub proof fn law_source_requires_kind_and_id(e: Seq<EntryView>)
    requires
        source_from_entries_spec(e) is Ok,
    ensures
        has_entry(e, "kind"@),
        has_entry(e, "id"@),
{
    law_source_decoding(e);
}

/// The text a looked-up value holds, if it is a string.
pub open spec fn str_value(o: Option<JsonView>) -> Option<Seq<char>> {
    match o {
        Some(JsonView::String(s)) => Some(s),
        _ => None,
    }
}

/// The flag a looked-up value holds, if it is a boolean.
pub open spec fn bool_value(o: Option<JsonView>) -> Option<bool> {
    match o {
        Some(JsonView::Bool(b)) => Some(b),
        _ => None,
    }
}

/// The entries of a source map that are plugin settings, in order.
pub open spec fn source_settings(e: Seq<EntryView>) -> Seq<EntryView>
    decreases e.len(),
{
    if e.len() == 0 {
        Seq::empty()
    } else if source_common(e.last().0) {
        source_settings(e.drop_last())
    } else {
        source_settings(e.drop_last()).push(e.last())
    }
}

/// A source map without problems: distinct keys, no bootstrap provider and
/// no misspelled field, a string `kind` and `id` and a boolean `autoStart`
/// wherever they occur.
pub open spec fn clean_source_entries(e: Seq<EntryView>) -> bool {
    &&& keys_unique(e)
    &&& forall|i: int| 0 <= i < e.len() ==> (#[trigger] e[i]).0 != "bootstrapProvider"@ && e[i].0 != "auto_start"@
        && e[i].0 != "bootstrap_provider"@
    &&& forall|i: int| 0 <= i < e.len() && (#[trigger] e[i]).0 == "kind"@ ==> e[i].1 is String
    &&& forall|i: int| 0 <= i < e.len() && (#[trigger] e[i]).0 == "id"@ ==> e[i].1 is String
    &&& forall|i: int| 0 <= i < e.len() && (#[trigger] e[i]).0 == "autoStart"@ ==> e[i].1 is Bool
}

/// Reading a clean source map collects its fields and, in order, its settings.
proof fn lemma_clean_source_fold(e: Seq<EntryView>)
    requires
        clean_source_entries(e),
    ensures
        source_fold(e) == Ok::<_, DecodeErrorView>(
            SourceDecoderView {
                kind: str_value(obj_get(e, "kind"@)),
                id: str_value(obj_get(e, "id"@)),
                auto_start: bool_value(obj_get(e, "autoStart"@)),
                bootstrap_provider: None,
                remaining: source_settings(e),
            },
        ),
        forall|x: Seq<char>| obj_has(source_settings(e), x) ==> obj_has(e, x),
    decreases e.len(),
{
    reveal_strlit("kind");
    reveal_strlit("id");
    reveal_strlit("autoStart");
    reveal_strlit("bootstrapProvider");
    reveal_strlit("auto_start");
    reveal_strlit("bootstrap_provider");
    assert("kind"@.len() == 4 && "id"@.len() == 2 && "autoStart"@.len() == 9 && "bootstrapProvider"@.len() == 17
        && "auto_start"@.len() == 10 && "bootstrap_provider"@.len() == 18);
    if e.len() == 0 {
        assert forall|x: Seq<char>| obj_has(source_settings(e), x) implies obj_has(e, x) by {
            let i = choose|i: int| crate::json::key_at(source_settings(e), x, i);
        }
    } else {
        let q = e.drop_last();
        let n = e.len() - 1;
        let (k, v) = e.last();
        assert(e[n] == (k, v));
        assert forall|i: int| 0 <= i < q.len() implies #[trigger] q[i] == e[i] by {}
        assert(clean_source_entries(q)) by {
            assert forall|i: int| 0 <= i < q.len() && (#[trigger] q[i]).0 == "kind"@ implies q[i].1 is String by {
                assert(q[i] == e[i]);
            }
            assert forall|i: int| 0 <= i < q.len() && (#[trigger] q[i]).0 == "id"@ implies q[i].1 is String by {
                assert(q[i] == e[i]);
            }
            assert forall|i: int| 0 <= i < q.len() && (#[trigger] q[i]).0 == "autoStart"@ implies q[i].1 is Bool by {
                assert(q[i] == e[i]);
            }
            assert forall|i: int| 0 <= i < q.len() implies (#[trigger] q[i]).0 != "bootstrapProvider"@ && q[i].0
                != "auto_start"@ && q[i].0 != "bootstrap_provider"@ by {
                assert(q[i] == e[i]);
            }
        }
        lemma_clean_source_fold(q);
        assert(e =~= q.push((k, v)));
        assert(!obj_has(q, k)) by {
            if obj_has(q, k) {
                let j = choose|j: int| #[trigger] crate::json::key_at(q, k, j);
                assert(e[j].0 == e[n].0);
            }
        }
        lemma_obj_get(q, k);
        lemma_obj_get_push(q, k, v, "kind"@);
        lemma_obj_get_push(q, k, v, "id"@);
        lemma_obj_get_push(q, k, v, "autoStart"@);
        assert(k != "bootstrapProvider"@ && k != "auto_start"@ && k != "bootstrap_provider"@);
        let dq = source_fold(q)->Ok_0;
        if k == "kind"@ {
            assert(v is String);
        } else if k == "id"@ {
            assert(v is String);
        } else if k == "autoStart"@ {
            assert(v is Bool);
        } else {
            lemma_obj_set(dq.remaining, k, v);
            assert(!obj_has(dq.remaining, k));
        }
        assert forall|x: Seq<char>| obj_has(source_settings(e), x) implies obj_has(e, x) by {
            if obj_has(q, x) {
                let j = choose|j: int| #[trigger] crate::json::key_at(q, x, j);
                assert(crate::json::key_at(e, x, j));
            }
            if x == k {
                assert(crate::json::key_at(e, x, n));
            }
            if !source_common(k) {
                lemma_obj_set(dq.remaining, k, v);
            }
        }
    }
}

/// A clean source map with a `kind` and an `id` always reads as a source:
/// its `kind` and `id`, `autoStart` as given or else true, no bootstrap
/// provider, and every other entry, in order, among the settings.
pub proof fn law_source_success(e: Seq<EntryView>)
    requires
        clean_source_entries(e),
        has_entry(e, "kind"@),
        has_entry(e, "id"@),
    ensures
        source_from_entries_spec(e) == Ok::<_, DecodeErrorView>(
            SourceView {
                kind: str_value(obj_get(e, "kind"@))->Some_0,
                id: str_value(obj_get(e, "id"@))->Some_0,
                auto_start: match bool_value(obj_get(e, "autoStart"@)) {
                    Some(b) => b,
                    None => true,
                },
                bootstrap_provider: None,
                config: JsonView::Object(source_settings(e)),
            },
        ),
        str_value(obj_get(e, "kind"@)) is Some,
        str_value(obj_get(e, "id"@)) is Some,
{
    lemma_clean_source_fold(e);
    let i = choose|i: int| 0 <= i < e.len() && (#[trigger] e[i]).0 == "kind"@;
    lemma_obj_get_unique(e, "kind"@, i);
    let j = choose|j: int| 0 <= j < e.len() && (#[trigger] e[j]).0 == "id"@;
    lemma_obj_get_unique(e, "id"@, j);
}

/// A source map is refused when it lacks `kind` or `id`, repeats one of
/// `kind`, `id`, `autoStart` and `bootstrapProvider`, or holds `auto_start`
/// or `bootstrap_provider`.
pub proof fn law_source_errors(e: Seq<EntryView>)
    ensures
        !has_entry(e, "kind"@) ==> source_from_entries_spec(e) is Err,
        !has_entry(e, "id"@) ==> source_from_entries_spec(e) is Err,
        (exists|i: int, j: int| 0 <= i < j < e.len() && (#[trigger] e[i]).0 == (#[trigger] e[j]).0 && source_common(e[i].0))
            ==> source_from_entries_spec(e) is Err,
        has_entry(e, "auto_start"@) ==> source_from_entries_spec(e) is Err,
        has_entry(e, "bootstrap_provider"@) ==> source_from_entries_spec(e) is Err,
        source_fold(e) is Ok && !has_entry(e, "kind"@) ==> source_from_entries_spec(e) == Err::<SourceView, _>(
            DecodeErrorView::MissingField(Field::Kind),
        ),
        source_fold(e) is Ok && has_entry(e, "kind"@) && !has_entry(e, "id"@) ==> source_from_entries_spec(e) == Err::<
            SourceView,
            _,
        >(DecodeErrorView::MissingField(Field::Id)),
{
    if source_fold(e) is Ok {
        law_source_decoding(e);
        if has_entry(e, "auto_start"@) {
            let i = choose|i: int| 0 <= i < e.len() && (#[trigger] e[i]).0 == "auto_start"@;
        }
        if has_entry(e, "bootstrap_provider"@) {
            let i = choose|i: int| 0 <= i < e.len() && (#[trigger] e[i]).0 == "bootstrap_provider"@;
        }
    }
}

/// Once reading a prefix fails, reading all entries fails the same way.
pub proof fn lemma_source_fold_err(entries: Seq<EntryView>, i: int)
    requires
        0 <= i <= entries.len(),
        source_fold(entries.subrange(0, i)) is Err,
    ensures
        source_fold(entries) == source_fold(entries.subrange(0, i)),
    decreases entries.len() - i,
{
    if i < entries.len() {
        assert(entries.drop_last().subrange(0, i) =~= entries.subrange(0, i));
        lemma_source_fold_err(entries.drop_last(), i);
    } else {
        assert(entries.subrange(0, i) =~= entries);
    }
}

impl SourceDecoder {
    /// A decoder that has read nothing.
    pub fn new() -> (r: SourceDecoder)
        ensures
            r@ == source_decoder_empty(),
    {
        SourceDecoder {
            kind: None,
            id: None,
            auto_start: None,
            bootstrap_provider: None,
            remaining: Vec::new(),
        }
    }

    /// How the value of `key` is to be read, or why the key is rejected.
    pub fn field_for(&self, key: &str) -> (r: Result<SourceKey, DecodeError>)
        ensures
            match r {
                Ok(k) => source_key_spec(self@, key@) == Ok::<SourceKey, DecodeErrorView>(k),
                Err(e) => source_key_spec(self@, key@) == Err::<SourceKey, DecodeErrorView>(e@),
            },
    {
        if str_eq(key, "kind") {
            if self.kind.is_some() { Err(DecodeError::DuplicateField(Field::Kind)) } else { Ok(SourceKey::Kind) }
        } else if str_eq(key, "id") {
            if self.id.is_some() { Err(DecodeError::DuplicateField(Field::Id)) } else { Ok(SourceKey::Id) }
        } else if str_eq(key, "autoStart") {
            if self.auto_start.is_some() {
                Err(DecodeError::DuplicateField(Field::AutoStart))
            } else {
                Ok(SourceKey::AutoStart)
            }
        } else if str_eq(key, "bootstrapProvider") {
            if self.bootstrap_provider.is_some() {
                Err(DecodeError::DuplicateField(Field::BootstrapProvider))
            } else {
                Ok(SourceKey::BootstrapProvider)
            }
        } else if str_eq(key, "auto_start") {
            Err(DecodeError::MisspelledField(Field::AutoStart))
        } else if str_eq(key, "bootstrap_provider") {
            Err(DecodeError::MisspelledField(Field::BootstrapProvider))
        } else {
            Ok(SourceKey::Other)
        }
    }

    /// Records the `kind`.
    pub fn set_kind(&mut self, v: String)
        ensures
            final(self)@ == (SourceDecoderView { kind: Some(v@), ..old(self)@ }),
    {
        self.kind = Some(v);
    }

    /// Records the `id`.
    pub fn set_id(&mut self, v: String)
        ensures
            final(self)@ == (SourceDecoderView { id: Some(v@), ..old(self)@ }),
    {
        self.id = Some(v);
    }

    /// Records `autoStart`.
    pub fn set_auto_start(&mut self, v: bool)
        ensures
            final(self)@ == (SourceDecoderView { auto_start: Some(v), ..old(self)@ }),
    {
        self.auto_start = Some(v);
    }

    /// Records the raw bootstrap provider value.
    pub fn set_bootstrap_provider(&mut self, v: JsonValue)
        ensures
            final(self)@ == (SourceDecoderView { bootstrap_provider: Some(v@), ..old(self)@ }),
    {
        self.bootstrap_provider = Some(v);
    }

    /// Records a plugin-specific setting (a later value for the same key replaces it).
    pub fn insert_other(&mut self, key: String, v: JsonValue)
        ensures
            final(self)@ == (SourceDecoderView { remaining: obj_set(old(self)@.remaining, key@, v@), ..old(self)@ }),
    {
        obj_insert(&mut self.remaining, key, v);
    }

    /// One entry of a JSON map.
    pub fn step(&mut self, key: &String, v: &JsonValue) -> (r: Result<(), DecodeError>)
        ensures
            match r {
                Ok(()) => source_step(old(self)@, key@, v@) == Ok::<_, DecodeErrorView>(final(self)@),
                Err(e) => source_step(old(self)@, key@, v@) == Err::<SourceDecoderView, _>(e@),
            },
    {
        match self.field_for(key.as_str()) {
            Err(e) => Err(e),
            Ok(SourceKey::Kind) => match v {
                JsonValue::String(s) => {
                    self.set_kind(s.clone());
                    Ok(())
                },
                _ => Err(DecodeError::InvalidType(Field::Kind)),
            },
            Ok(SourceKey::Id) => match v {
                JsonValue::String(s) => {
                    self.set_id(s.clone());
                    Ok(())
                },
                _ => Err(DecodeError::InvalidType(Field::Id)),
            },
            Ok(SourceKey::AutoStart) => match v {
                JsonValue::Bool(b) => {
                    self.set_auto_start(*b);
                    Ok(())
                },
                _ => Err(DecodeError::InvalidType(Field::AutoStart)),
            },
            Ok(SourceKey::BootstrapProvider) => {
                self.set_bootstrap_provider(v.deep_clone());
                Ok(())
            },
            Ok(SourceKey::Other) => {
                self.insert_other(key.clone(), v.deep_clone());
                Ok(())
            },
        }
    }

    /// The source configuration read: `kind` and `id` are required,
    /// `autoStart` defaults to true, and the bootstrap provider inherits from
    /// the source's settings before it is read.
    pub fn finish(self) -> (r: Result<SourceConfig, DecodeError>)
        ensures
            result_view(r) == source_finish_spec(self@),
    {
        let kind = match self.kind {
            Some(k) => k,
            None => {
                return Err(DecodeError::MissingField(Field::Kind));
            },
        };
        let id = match self.id {
            Some(i) => i,
            None => {
                return Err(DecodeError::MissingField(Field::Id));
            },
        };
        let auto_start = match self.auto_start {
            Some(b) => b,
            None => true,
        };
        let remaining_value = JsonValue::Object(self.remaining);
        let bootstrap_provider = match self.bootstrap_provider {
            None => None,
            Some(value) => {
                let merged = merge_bootstrap_provider_with_source(kind.as_str(), value, &remaining_value);
                match BootstrapProviderConfig::from_json(merged) {
                    Ok(b) => Some(b),
                    Err(e) => {
                        return Err(DecodeError::InBootstrapProvider { source_id: id, cause: Box::new(e) });
                    },
                }
            },
        };
        Ok(SourceConfig { kind, id, auto_start, bootstrap_provider, config: remaining_value })
    }
}

impl SourceConfig {
    /// Get the source ID
    pub fn id(&self) -> (r: &str)
        ensures
            r@ == self.id@,
    {
        self.id.as_str()
    }

    /// Check if auto_start is enabled
    pub fn auto_start(&self) -> (r: bool)
        ensures
            r == self.auto_start,
    {
        self.auto_start
    }

    /// Get the bootstrap provider configuration if any
    pub fn bootstrap_provider(&self) -> (r: Option<&BootstrapProviderConfig>)
        ensures
            match r {
                Some(b) => self.bootstrap_provider == Some(*b),
                None => self.bootstrap_provider is None,
            },
    {
        match &self.bootstrap_provider {
            Some(b) => Some(b),
            None => None,
        }
    }

    /// Get the source kind
    pub fn kind(&self) -> (r: &str)
        ensures
            r@ == self.kind@,
    {
        self.kind.as_str()
    }

    /// Read a source configuration from the entries of a JSON map.
    pub fn from_entries(entries: &Vec<(String, JsonValue)>) -> (r: Result<SourceConfig, DecodeError>)
        ensures
            result_view(r) == source_from_entries_spec(entries_view(entries)),
    {
        let ghost ev = entries_view(entries);
        proof {
            lemma_json_entries_view(entries@);
        }
        let mut d = SourceDecoder::new();
        let mut i: usize = 0;
        while i < entries.len()
            invariant
                ev == entries_view(entries),
                ev.len() == entries.len(),
                forall|j: int| 0 <= j < entries.len() ==> #[trigger] ev[j] == (entries@[j].0@, entries@[j].1@),
                i <= entries.len(),
                source_fold(ev.subrange(0, i as int)) == Ok::<_, DecodeErrorView>(d@),
            decreases entries.len() - i,
        {
            assert(ev.subrange(0, i + 1).drop_last() =~= ev.subrange(0, i as int));
            assert(ev.subrange(0, i + 1).last() == ev[i as int]);
            match d.step(&entries[i].0, &entries[i].1) {
                Ok(()) => {},
                Err(e) => {
                    proof {
                        lemma_source_fold_err(ev, i + 1);
                    }
                    return Err(e);
                },
            }
            i = i + 1;
        }
        assert(ev.subrange(0, i as int) =~= ev);
        d.finish()
    }
}

// ---------------------------------------------------------------------------
// Writing configurations as maps
// ---------------------------------------------------------------------------

/// The entries of an object value; other values contribute none.
pub open spec fn object_entries(v: JsonView) -> Seq<EntryView> {
    match v {
        JsonView::Object(e) => e,
        _ => Seq::empty(),
    }
}

/// A bootstrap provider written as a map: `kind`, then its settings.
pub open spec fn bootstrap_to_entries(b: BootstrapView) -> Seq<EntryView> {
    seq![("kind"@, JsonView::String(b.kind))] + object_entries(b.config)
}

/// A source written as a map: `kind`, `id`, `autoStart`, the bootstrap
/// provider when there is one, then the plugin-specific settings.
pub open spec fn source_to_entries(s: SourceView) -> Seq<EntryView> {
    seq![
        ("kind"@, JsonView::String(s.kind)),
        ("id"@, JsonView::String(s.id)),
        ("autoStart"@, JsonView::Bool(s.auto_start)),
    ] + match s.bootstrap_provider {
        Some(b) => seq![("bootstrapProvider"@, JsonView::Object(bootstrap_to_entries(b)))],
        None => Seq::empty(),
    } + object_entries(s.config)
}

/// Appends copies of an object's entries.
pub(crate) fn push_object_entries(out: &mut Vec<(String, JsonValue)>, v: &JsonValue)
    ensures
        entries_view(final(out)) == entries_view(old(out)) + object_entries(v@),
{
    proof {
        lemma_json_entries_view(out@);
    }
    match v {
        JsonValue::Object(entries) => {
            proof {
                lemma_json_entries_view(entries@);
            }
            let ghost start = out@;
            let mut i: usize = 0;
            while i < entries.len()
                invariant
                    i <= entries.len(),
                    out@.len() == start.len() + i,
                    forall|j: int| 0 <= j < start.len() ==> out@[j] == start[j],
                    forall|k: int| start.len() <= k < start.len() + i ==> #[trigger] out@[k].0@
                        == entries@[k - start.len()].0@ && out@[k].1@ == entries@[k - start.len()].1@,
                decreases entries.len() - i,
            {
                out.push((entries[i].0.clone(), entries[i].1.deep_clone()));
                i = i + 1;
            }
            proof {
                lemma_json_entries_view(out@);
                lemma_json_entries_view(start);
                let lhs = entries_view(out);
                let rhs = json_entries_view(start) + json_entries_view(entries@);
                assert forall|k: int| 0 <= k < lhs.len() implies lhs[k] == rhs[k] by {
                    if k < start.len() {
                        assert(out@[k] == start[k]);
                    } else {
                        assert(out@[k].0@ == entries@[k - start.len()].0@);
                    }
                }
                assert(lhs =~= rhs);
            }
        },
        _ => {
            assert(entries_view(out) =~= entries_view(out) + object_entries(v@));
        },
    }
}

impl BootstrapProviderConfig {
    /// This provider written as a map: `kind`, then its settings.
    pub fn to_entries(&self) -> (r: Vec<(String, JsonValue)>)
        ensures
            entries_view(&r) == bootstrap_to_entries(self@),
    {
        let mut out: Vec<(String, JsonValue)> = Vec::new();
        out.push((owned("kind"), JsonValue::String(self.kind.clone())));
        proof {
            lemma_json_entries_view(out@);
            assert(entries_view(&out) =~= seq![("kind"@, JsonView::String(self.kind@))]);
        }
        push_object_entries(&mut out, &self.config);
        out
    }
}

impl SourceConfig {
    /// This source written as a map: `kind`, `id`, `autoStart`, the bootstrap
    /// provider when there is one, then the plugin-specific settings.
    pub fn to_entries(&self) -> (r: Vec<(String, JsonValue)>)
        ensures
            entries_view(&r) == source_to_entries(self@),
    {
        let mut out: Vec<(String, JsonValue)> = Vec::new();
        out.push((owned("kind"), JsonValue::String(self.kind.clone())));
        out.push((owned("id"), JsonValue::String(self.id.clone())));
        out.push((owned("autoStart"), JsonValue::Bool(self.auto_start)));
        proof {
            lemma_json_entries_view(out@);
        }
        let ghost head = entries_view(&out);
        assert(head =~= seq![
            ("kind"@, JsonView::String(self.kind@)),
            ("id"@, JsonView::String(self.id@)),
            ("autoStart"@, JsonView::Bool(self.auto_start)),
        ]);
        match &self.bootstrap_provider {
            Some(bp) => {
                let b = bp.to_entries();
                let ghost bv = entries_view(&b);
                out.push((owned("bootstrapProvider"), JsonValue::Object(b)));
                proof {
                    lemma_json_entries_view(out@);
                    assert(entries_view(&out) =~= head + seq![("bootstrapProvider"@, JsonView::Object(bv))]);
                }
            },
            None => {},
        }
        push_object_entries(&mut out, &self.config);
        out
    }
}

impl BootstrapProviderConfig {
    /// A copy of this provider configuration.
    pub fn copy(&self) -> (r: BootstrapProviderConfig)
        ensures
            r@ == self@,
    {
        BootstrapProviderConfig { kind: self.kind.clone(), config: self.config.deep_clone() }
    }
}

impl SourceConfig {
    /// A copy of this source configuration.
    pub fn copy(&self) -> (r: SourceConfig)
        ensures
            r@ == self@,
    {
        let bootstrap_provider = match &self.bootstrap_provider {
            Some(b) => Some(b.copy()),
            None => None,
        };
        SourceConfig {
            kind: self.kind.clone(),
            id: self.id.clone(),
            auto_start: self.auto_start,
            bootstrap_provider,
            config: self.config.deep_clone(),
        }
    }
}

} // verus!
