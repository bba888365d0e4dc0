//! Writing a server configuration as a document: the settings in their
//! camelCase names and declaration order, absent optional settings and empty
//! plugin lists left out, configuration values as their plain value or as a
//! structured reference.

use vstd::prelude::*;
use crate::config::{
    DrasiLibInstanceConfig, DrasiServerConfig, InstanceView, PluginDependency, QueryConfigDto, QueryView,
    TrustedIdentity, seq_views,
};
use crate::config_value::{ConfigValueView, opt_chars};
use crate::json::{EntryView, JsonValue, JsonView, entries_view, json_seq_view, lemma_json_seq_view};
use crate::loader::{IdentityView, top_instance};
use crate::models::{
    ConfigValue, SourceConfig, SourceView, object_entries, push_object_entries, source_to_entries,
};
use crate::reaction::{ReactionConfig, ReactionView, reaction_to_entries};
use crate::state_store::{StateStoreConfig, StateStoreView};
use crate::text::owned;
use crate::validation::{decimal, decimal_text};
use crate::yaml::{write_yaml, yaml_text};

verus! {

// ---------------------------------------------------------------------------
// Values
// ---------------------------------------------------------------------------

/// A secret reference: `kind: Secret` and its `name`.
pub open spec fn secret_json(name: Seq<char>) -> JsonView {
    JsonView::Object(seq![("kind"@, JsonView::String("Secret"@)), ("name"@, JsonView::String(name))])
}

/// An environment reference: `kind: EnvironmentVariable`, its `name`, and its
/// `default` when it has one.
pub open spec fn env_json(name: Seq<char>, default: Option<Seq<char>>) -> JsonView {
    let e = seq![("kind"@, JsonView::String("EnvironmentVariable"@)), ("name"@, JsonView::String(name))];
    JsonView::Object(
        match default {
            Some(d) => e.push(("default"@, JsonView::String(d))),
            None => e,
        },
    )
}

/// A textual configuration value: a static value as its text, a reference
/// in its structured form.
pub open spec fn text_value_json(c: ConfigValueView<Seq<char>>) -> JsonView {
    match c {
        ConfigValueView::Secret { name } => secret_json(name),
        ConfigValueView::EnvironmentVariable { name, default } => env_json(name, default),
        ConfigValueView::Static(s) => JsonView::String(s),
    }
}

/// A port value: a static port as its decimal numeral.
pub open spec fn port_value_json(c: ConfigValueView<u16>) -> JsonView {
    match c {
        ConfigValueView::Secret { name } => secret_json(name),
        ConfigValueView::EnvironmentVariable { name, default } => env_json(name, default),
        ConfigValueView::Static(n) => JsonView::Number(decimal_text(n as nat)),
    }
}

/// A capacity value: a static capacity as its decimal numeral.
pub open spec fn size_value_json(c: ConfigValueView<usize>) -> JsonView {
    match c {
        ConfigValueView::Secret { name } => secret_json(name),
        ConfigValueView::EnvironmentVariable { name, default } => env_json(name, default),
        ConfigValueView::Static(n) => JsonView::Number(decimal_text(n as nat)),
    }
}

/// The entries of a reference.
fn reference_entries(name: &String, default: Option<&String>, secret: bool) -> (r: Vec<(String, JsonValue)>)
    ensures
        secret ==> JsonView::Object(entries_view(&r)) == secret_json(name@),
        !secret ==> JsonView::Object(entries_view(&r)) == env_json(
            name@,
            match default {
                Some(d) => Some(d@),
                None => None,
            },
        ),
{
    let mut out: Vec<(String, JsonValue)> = Vec::new();
    if secret {
        push_entry(&mut out, "kind", JsonValue::String(owned("Secret")));
        push_entry(&mut out, "name", JsonValue::String(name.clone()));
        assert(entries_view(&out) =~= seq![("kind"@, JsonView::String("Secret"@)), ("name"@, JsonView::String(name@))]);
    } else {
        push_entry(&mut out, "kind", JsonValue::String(owned("EnvironmentVariable")));
        push_entry(&mut out, "name", JsonValue::String(name.clone()));
        let ghost e = entries_view(&out);
        assert(e =~= seq![("kind"@, JsonView::String("EnvironmentVariable"@)), ("name"@, JsonView::String(name@))]);
        match default {
            Some(d) => {
                push_entry(&mut out, "default", JsonValue::String(d.clone()));
            },
            None => {},
        }
    }
    out
}

/// Appends one entry.
fn push_entry(out: &mut Vec<(String, JsonValue)>, k: &str, v: JsonValue)
    ensures
        entries_view(final(out)) == entries_view(old(out)).push((k@, v@)),
{
    let ghost before = out@;
    out.push((owned(k), v));
    assert(out@.drop_last() =~= before);
}

/// A textual configuration value written as JSON.
pub fn text_value_to_json(c: &ConfigValue<String>) -> (r: JsonValue)
    ensures
        r@ == text_value_json(c@),
{
    match c {
        ConfigValue::Secret { name } => JsonValue::Object(reference_entries(name, None, true)),
        ConfigValue::EnvironmentVariable { name, default } => JsonValue::Object(
            reference_entries(name, default.as_ref(), false),
        ),
        ConfigValue::Static(s) => JsonValue::String(s.clone()),
    }
}

/// A port value written as JSON.
pub fn port_value_to_json(c: &ConfigValue<u16>) -> (r: JsonValue)
    ensures
        r@ == port_value_json(c@),
{
    match c {
        ConfigValue::Secret { name } => JsonValue::Object(reference_entries(name, None, true)),
        ConfigValue::EnvironmentVariable { name, default } => JsonValue::Object(
            reference_entries(name, default.as_ref(), false),
        ),
        ConfigValue::Static(n) => JsonValue::Number(decimal(*n as u64)),
    }
}

/// A capacity value written as JSON.
pub fn size_value_to_json(c: &ConfigValue<usize>) -> (r: JsonValue)
    ensures
        r@ == size_value_json(c@),
{
    match c {
        ConfigValue::Secret { name } => JsonValue::Object(reference_entries(name, None, true)),
        ConfigValue::EnvironmentVariable { name, default } => JsonValue::Object(
            reference_entries(name, default.as_ref(), false),
        ),
        ConfigValue::Static(n) => JsonValue::Number(decimal(*n as u64)),
    }
}

// ---------------------------------------------------------------------------
// Components
// ---------------------------------------------------------------------------

/// A state store: its `kind`, then its `path`.
pub open spec fn store_json(s: StateStoreView) -> JsonView {
    match s {
        StateStoreView::Redb { path } => JsonView::Object(
            seq![("kind"@, JsonView::String("redb"@)), ("path"@, text_value_json(path))],
        ),
    }
}

/// A query: its `id`, then its settings.
pub open spec fn query_json(q: QueryView) -> JsonView {
    JsonView::Object(seq![("id"@, JsonView::String(q.id))] + object_entries(q.settings))
}

/// A plugin dependency: its `ref`.
pub open spec fn plugin_json(r: Seq<char>) -> JsonView {
    JsonView::Object(seq![("ref"@, JsonView::String(r))])
}

/// A trusted identity: its `issuer`, then its `subjectPattern`.
pub open spec fn identity_json(i: IdentityView) -> JsonView {
    JsonView::Object(
        seq![("issuer"@, JsonView::String(i.issuer)), ("subjectPattern"@, JsonView::String(i.subject_pattern))],
    )
}

/// A state store written as JSON.
pub fn store_to_json(s: &StateStoreConfig) -> (r: JsonValue)
    ensures
        r@ == store_json(s@),
{
    match s {
        StateStoreConfig::Redb { path } => {
            let mut out: Vec<(String, JsonValue)> = Vec::new();
            push_entry(&mut out, "kind", JsonValue::String(owned("redb")));
            push_entry(&mut out, "path", text_value_to_json(path));
            assert(entries_view(&out) =~= seq![("kind"@, JsonView::String("redb"@)), ("path"@, text_value_json(path@))]);
            JsonValue::Object(out)
        },
    }
}

/// A configuration that is written as a JSON value.
pub trait JsonItem: Sized + View {
    /// How a value is written.
    spec fn item_json(v: Self::V) -> JsonView;

    /// Writes the value, as `item_json` describes it.
    fn write_item(&self) -> (r: JsonValue)
        ensures
            r@ == Self::item_json(self@),
    ;
}

impl JsonItem for SourceConfig {
    open spec fn item_json(v: SourceView) -> JsonView {
        JsonView::Object(source_to_entries(v))
    }

    fn write_item(&self) -> (r: JsonValue) {
        JsonValue::Object(self.to_entries())
    }
}

impl JsonItem for ReactionConfig {
    open spec fn item_json(v: ReactionView) -> JsonView {
        JsonView::Object(reaction_to_entries(v))
    }

    fn write_item(&self) -> (r: JsonValue) {
        JsonValue::Object(self.to_entries())
    }
}

impl JsonItem for QueryConfigDto {
    open spec fn item_json(v: QueryView) -> JsonView {
        query_json(v)
    }

    fn write_item(&self) -> (r: JsonValue) {
        let mut out: Vec<(String, JsonValue)> = Vec::new();
        push_entry(&mut out, "id", JsonValue::String(self.id.clone()));
        let ghost e = entries_view(&out);
        push_object_entries(&mut out, &self.settings);
        assert(e =~= seq![("id"@, JsonView::String(self.id@))]);
        JsonValue::Object(out)
    }
}

impl JsonItem for PluginDependency {
    open spec fn item_json(v: Seq<char>) -> JsonView {
        plugin_json(v)
    }

    fn write_item(&self) -> (r: JsonValue) {
        let mut out: Vec<(String, JsonValue)> = Vec::new();
        push_entry(&mut out, "ref", JsonValue::String(self.reference.clone()));
        assert(entries_view(&out) =~= seq![("ref"@, JsonView::String(self.reference@))]);
        JsonValue::Object(out)
    }
}

impl JsonItem for TrustedIdentity {
    open spec fn item_json(v: IdentityView) -> JsonView {
        identity_json(v)
    }

    fn write_item(&self) -> (r: JsonValue) {
        let mut out: Vec<(String, JsonValue)> = Vec::new();
        push_entry(&mut out, "issuer", JsonValue::String(self.issuer.clone()));
        push_entry(&mut out, "subjectPattern", JsonValue::String(self.subject_pattern.clone()));
        assert(entries_view(&out) =~= seq![
            ("issuer"@, JsonView::String(self.issuer@)),
            ("subjectPattern"@, JsonView::String(self.subject_pattern@)),
        ]);
        JsonValue::Object(out)
    }
}

/// A list written item by item.
pub open spec fn list_json<T: JsonItem>(items: Seq<T::V>) -> JsonView {
    JsonView::Array(items.map_values(|x: T::V| T::item_json(x)))
}

/// Writes a list item by item, as `list_json` describes it.
pub fn write_list<T: JsonItem>(items: &Vec<T>) -> (r: JsonValue)
    ensures
        r@ == list_json::<T>(seq_views(items@)),
{
    let mut out: Vec<JsonValue> = Vec::new();
    let mut i: usize = 0;
    while i < items.len()
        invariant
            i <= items.len(),
            out@.len() == i,
            forall|j: int| 0 <= j < i ==> #[trigger] out@[j]@ == T::item_json(items@[j]@),
        decreases items.len() - i,
    {
        let x = items[i].write_item();
        out.push(x);
        i = i + 1;
    }
    proof {
        lemma_json_seq_view(out@);
        let lhs = json_seq_view(out@);
        let rhs = seq_views(items@).map_values(|x: T::V| T::item_json(x));
        assert(lhs.len() == rhs.len());
        assert forall|j: int| 0 <= j < lhs.len() implies lhs[j] == rhs[j] by {
            assert(lhs[j] == out@[j]@);
            assert(seq_views(items@)[j] == items@[j]@);
        }
        assert(lhs =~= rhs);
    }
    JsonValue::Array(out)
}

// ---------------------------------------------------------------------------
// Instances and the server
// ---------------------------------------------------------------------------

/// Appends an entry when the value is present.
pub open spec fn push_some(e: Seq<EntryView>, k: Seq<char>, v: Option<JsonView>) -> Seq<EntryView> {
    match v {
        Some(x) => e.push((k, x)),
        None => e,
    }
}

/// The optional state store written as JSON.
pub open spec fn opt_store_json(s: Option<StateStoreView>) -> Option<JsonView> {
    match s {
        Some(x) => Some(store_json(x)),
        None => None,
    }
}

/// The optional capacity written as JSON.
pub open spec fn opt_size_json(c: Option<ConfigValueView<usize>>) -> Option<JsonView> {
    match c {
        Some(x) => Some(size_value_json(x)),
        None => None,
    }
}

/// The entries an instance's settings are written as, after `e`: `id`,
/// `persistIndex`, the state store and capacities when present, then the
/// sources, queries and reactions.
pub open spec fn instance_entries(e: Seq<EntryView>, i: InstanceView) -> Seq<EntryView> {
    let e1 = e.push(("id"@, text_value_json(i.id))).push(("persistIndex"@, JsonView::Bool(i.persist_index)));
    let e2 = push_some(e1, "stateStore"@, opt_store_json(i.state_store));
    let e3 = push_some(e2, "defaultPriorityQueueCapacity"@, opt_size_json(i.default_priority_queue_capacity));
    let e4 = push_some(e3, "defaultDispatchBufferCapacity"@, opt_size_json(i.default_dispatch_buffer_capacity));
    e4.push(("sources"@, list_json::<SourceConfig>(i.sources))).push(
        ("queries"@, list_json::<QueryConfigDto>(i.queries)),
    ).push(("reactions"@, list_json::<ReactionConfig>(i.reactions)))
}

/// Appends an instance's settings to `out`, as `instance_entries` describes it.
fn push_instance_entries(
    out: &mut Vec<(String, JsonValue)>,
    id: &ConfigValue<String>,
    persist_index: bool,
    state_store: &Option<StateStoreConfig>,
    priority: &Option<ConfigValue<usize>>,
    dispatch: &Option<ConfigValue<usize>>,
    sources: &Vec<SourceConfig>,
    queries: &Vec<QueryConfigDto>,
    reactions: &Vec<ReactionConfig>,
)
    ensures
        entries_view(final(out)) == instance_entries(
            entries_view(old(out)),
            InstanceView {
                id: id@,
                persist_index,
                state_store: crate::config::opt_view(*state_store),
                default_priority_queue_capacity: crate::config::opt_view(*priority),
                default_dispatch_buffer_capacity: crate::config::opt_view(*dispatch),
                sources: seq_views(sources@),
                queries: seq_views(queries@),
                reactions: seq_views(reactions@),
            },
        ),
{
    push_entry(out, "id", text_value_to_json(id));
    push_entry(out, "persistIndex", JsonValue::Bool(persist_index));
    match state_store {
        Some(s) => push_entry(out, "stateStore", store_to_json(s)),
        None => {},
    }
    match priority {
        Some(c) => push_entry(out, "defaultPriorityQueueCapacity", size_value_to_json(c)),
        None => {},
    }
    match dispatch {
        Some(c) => push_entry(out, "defaultDispatchBufferCapacity", size_value_to_json(c)),
        None => {},
    }
    push_entry(out, "sources", write_list(sources));
    push_entry(out, "queries", write_list(queries));
    push_entry(out, "reactions", write_list(reactions));
}

impl JsonItem for DrasiLibInstanceConfig {
    open spec fn item_json(v: InstanceView) -> JsonView {
        JsonView::Object(instance_entries(Seq::empty(), v))
    }

    fn write_item(&self) -> (r: JsonValue) {
        let mut out: Vec<(String, JsonValue)> = Vec::new();
        assert(entries_view(&out) =~= Seq::<EntryView>::empty());
        push_instance_entries(
            &mut out,
            &self.id,
            self.persist_index,
            &self.state_store,
            &self.default_priority_queue_capacity,
            &self.default_dispatch_buffer_capacity,
            &self.sources,
            &self.queries,
            &self.reactions,
        );
        JsonValue::Object(out)
    }
}

/// The entries a server configuration is written as: `apiVersion` when
/// present; `id`, `host`, `port`, `logLevel`, `persistConfig`; the settings of
/// the default instance after its id; `instances`; `pluginRegistry` when
/// present; `autoInstallPlugins`; `plugins` when there are any;
/// `verifyPlugins`; `trustedIdentities` when there are any.
pub open spec fn server_entries(c: DrasiServerConfig) -> Seq<EntryView> {
    let top = top_instance(c);
    let e0 = push_some(
        Seq::empty(),
        "apiVersion"@,
        match opt_chars(c.api_version) {
            Some(s) => Some(JsonView::String(s)),
            None => None,
        },
    );
    let e1 = e0.push(("id"@, text_value_json(top.id))).push(("host"@, text_value_json(c.host@))).push(
        ("port"@, port_value_json(c.port@)),
    ).push(("logLevel"@, text_value_json(c.log_level@))).push(
        ("persistConfig"@, JsonView::Bool(c.persist_config)),
    ).push(("persistIndex"@, JsonView::Bool(top.persist_index)));
    let e2 = push_some(e1, "stateStore"@, opt_store_json(top.state_store));
    let e3 = push_some(e2, "defaultPriorityQueueCapacity"@, opt_size_json(top.default_priority_queue_capacity));
    let e4 = push_some(e3, "defaultDispatchBufferCapacity"@, opt_size_json(top.default_dispatch_buffer_capacity));
    let e5 = e4.push(("sources"@, list_json::<SourceConfig>(top.sources))).push(
        ("queries"@, list_json::<QueryConfigDto>(top.queries)),
    ).push(("reactions"@, list_json::<ReactionConfig>(top.reactions))).push(
        ("instances"@, list_json::<DrasiLibInstanceConfig>(seq_views(c.instances@))),
    );
    let e6 = push_some(
        e5,
        "pluginRegistry"@,
        match opt_chars(c.plugin_registry) {
            Some(s) => Some(JsonView::String(s)),
            None => None,
        },
    );
    let e7 = e6.push(("autoInstallPlugins"@, JsonView::Bool(c.auto_install_plugins)));
    let e8 = if c.plugins@.len() > 0 {
        e7.push(("plugins"@, list_json::<PluginDependency>(seq_views(c.plugins@))))
    } else {
        e7
    };
    let e9 = e8.push(("verifyPlugins"@, JsonView::Bool(c.verify_plugins)));
    if c.trusted_identities@.len() > 0 {
        e9.push(("trustedIdentities"@, list_json::<TrustedIdentity>(seq_views(c.trusted_identities@))))
    } else {
        e9
    }
}

impl DrasiServerConfig {
    /// This configuration written as a JSON document, as `server_entries`
    /// describes it.
    pub fn to_json(&self) -> (r: JsonValue)
        ensures
            r@ == JsonView::Object(server_entries(*self)),
    {
        let mut out: Vec<(String, JsonValue)> = Vec::new();
        assert(entries_view(&out) =~= Seq::<EntryView>::empty());
        match &self.api_version {
            Some(v) => push_entry(&mut out, "apiVersion", JsonValue::String(v.clone())),
            None => {},
        }
        push_entry(&mut out, "id", text_value_to_json(&self.id));
        push_entry(&mut out, "host", text_value_to_json(&self.host));
        push_entry(&mut out, "port", port_value_to_json(&self.port));
        push_entry(&mut out, "logLevel", text_value_to_json(&self.log_level));
        push_entry(&mut out, "persistConfig", JsonValue::Bool(self.persist_config));
        push_entry(&mut out, "persistIndex", JsonValue::Bool(self.persist_index));
        match &self.state_store {
            Some(s) => push_entry(&mut out, "stateStore", store_to_json(s)),
            None => {},
        }
        match &self.default_priority_queue_capacity {
            Some(c) => push_entry(&mut out, "defaultPriorityQueueCapacity", size_value_to_json(c)),
            None => {},
        }
        match &self.default_dispatch_buffer_capacity {
            Some(c) => push_entry(&mut out, "defaultDispatchBufferCapacity", size_value_to_json(c)),
            None => {},
        }
        push_entry(&mut out, "sources", write_list(&self.sources));
        push_entry(&mut out, "queries", write_list(&self.queries));
        push_entry(&mut out, "reactions", write_list(&self.reactions));
        push_entry(&mut out, "instances", write_list(&self.instances));
        match &self.plugin_registry {
            Some(v) => push_entry(&mut out, "pluginRegistry", JsonValue::String(v.clone())),
            None => {},
        }
        push_entry(&mut out, "autoInstallPlugins", JsonValue::Bool(self.auto_install_plugins));
        if self.plugins.len() > 0 {
            push_entry(&mut out, "plugins", write_list(&self.plugins));
        }
        push_entry(&mut out, "verifyPlugins", JsonValue::Bool(self.verify_plugins));
        if self.trusted_identities.len() > 0 {
            push_entry(&mut out, "trustedIdentities", write_list(&self.trusted_identities));
        }
        JsonValue::Object(out)
    }

    /// This configuration written as YAML text: its JSON document, as
    /// `to_json` describes it, written by `write_yaml`.
    pub fn to_yaml(&self) -> (r: Result<String, String>)
        ensures
            r is Ok,
            r matches Ok(t) ==> t@ == yaml_text(JsonView::Object(server_entries(*self))),
    {
        let doc = self.to_json();
        write_yaml(&doc)
    }
}

} // verus!
