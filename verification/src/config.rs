//! The server configuration: its DrasiLib instances in single- or
//! multi-instance layout, its defaults, and validation.

use vstd::prelude::*;
use crate::config_value::{ConfigValueView, opt_chars};
use crate::json::{JsonValue, JsonView};
use crate::models::{ConfigValue, SourceConfig, SourceView};
use crate::reaction::{ReactionConfig, ReactionView};
use crate::resolve::{
    Env, ResolveError, ResolveErrorView, resolve_message, resolve_number_spec, resolve_port, resolve_port_spec, resolve_string,
    resolve_string_spec, resolve_usize,
};
use crate::settings::{SettingsError, settings_error, validate_server_settings};
use crate::state_store::{StateStoreConfig, StateStoreView};
use crate::text::{owned, str_eq};

verus! {

/// The views of the elements of a sequence.
pub open spec fn seq_views<T: View>(s: Seq<T>) -> Seq<T::V> {
    s.map_values(|x: T| x@)
}

/// The view of an optional value.
pub open spec fn opt_view<T: View>(o: Option<T>) -> Option<T::V> {
    match o {
        Some(x) => Some(x@),
        None => None,
    }
}

/// A continuous query's configuration: its id and its other settings.
#[derive(Debug, PartialEq)]
pub struct QueryConfigDto {
    pub id: String,
    pub settings: JsonValue,
}

/// The mathematical form of a query configuration.
pub struct QueryView {
    pub id: Seq<char>,
    pub settings: JsonView,
}

impl View for QueryConfigDto {
    type V = QueryView;

    open spec fn view(&self) -> QueryView {
        QueryView { id: self.id@, settings: self.settings@ }
    }
}

impl QueryConfigDto {
    /// A copy of this query configuration.
    pub fn copy(&self) -> (r: QueryConfigDto)
        ensures
            r@ == self@,
    {
        QueryConfigDto { id: self.id.clone(), settings: self.settings.deep_clone() }
    }
}

/// A plugin dependency declared in the server configuration: an OCI image
/// reference such as `source/postgres:0.1.8`.
#[derive(Debug, PartialEq)]
pub struct PluginDependency {
    pub reference: String,
}

/// A trusted identity for plugin signature verification: an OIDC issuer
/// (matched exactly) and a glob pattern for the certificate subject.
#[derive(Debug, PartialEq)]
pub struct TrustedIdentity {
    pub issuer: String,
    pub subject_pattern: String,
}

/// Configuration for a single DrasiLib instance.
#[derive(Debug, PartialEq)]
pub struct DrasiLibInstanceConfig {
    pub id: ConfigValue<String>,
    pub persist_index: bool,
    pub state_store: Option<StateStoreConfig>,
    pub default_priority_queue_capacity: Option<ConfigValue<usize>>,
    pub default_dispatch_buffer_capacity: Option<ConfigValue<usize>>,
    pub sources: Vec<SourceConfig>,
    pub queries: Vec<QueryConfigDto>,
    pub reactions: Vec<ReactionConfig>,
}

/// The mathematical form of an instance configuration.
pub struct InstanceView {
    pub id: ConfigValueView<Seq<char>>,
    pub persist_index: bool,
    pub state_store: Option<StateStoreView>,
    pub default_priority_queue_capacity: Option<ConfigValueView<usize>>,
    pub default_dispatch_buffer_capacity: Option<ConfigValueView<usize>>,
    pub sources: Seq<SourceView>,
    pub queries: Seq<QueryView>,
    pub reactions: Seq<ReactionView>,
}

impl View for DrasiLibInstanceConfig {
    type V = InstanceView;

    open spec fn view(&self) -> InstanceView {
        InstanceView {
            id: self.id@,
            persist_index: self.persist_index,
            state_store: opt_view(self.state_store),
            default_priority_queue_capacity: opt_view(self.default_priority_queue_capacity),
            default_dispatch_buffer_capacity: opt_view(self.default_dispatch_buffer_capacity),
            sources: seq_views(self.sources@),
            queries: seq_views(self.queries@),
            reactions: seq_views(self.reactions@),
        }
    }
}

/// DrasiServer configuration: server settings, the components of the
/// default instance (single-instance layout) or a list of instances
/// (multi-instance layout), and plugin settings.
#[derive(Debug, PartialEq)]
pub struct DrasiServerConfig {
    pub api_version: Option<String>,
    pub id: ConfigValue<String>,
    pub host: ConfigValue<String>,
    pub port: ConfigValue<u16>,
    pub log_level: ConfigValue<String>,
    pub persist_config: bool,
    pub persist_index: bool,
    pub state_store: Option<StateStoreConfig>,
    pub default_priority_queue_capacity: Option<ConfigValue<usize>>,
    pub default_dispatch_buffer_capacity: Option<ConfigValue<usize>>,
    pub sources: Vec<SourceConfig>,
    pub queries: Vec<QueryConfigDto>,
    pub reactions: Vec<ReactionConfig>,
    pub instances: Vec<DrasiLibInstanceConfig>,
    pub plugin_registry: Option<String>,
    pub auto_install_plugins: bool,
    pub plugins: Vec<PluginDependency>,
    pub verify_plugins: bool,
    pub trusted_identities: Vec<TrustedIdentity>,
}

/// Resolved instance settings, with configuration values evaluated.
#[derive(Debug, PartialEq)]
pub struct ResolvedInstanceConfig {
    pub id: String,
    pub persist_index: bool,
    pub state_store: Option<StateStoreConfig>,
    pub default_priority_queue_capacity: Option<usize>,
    pub default_dispatch_buffer_capacity: Option<usize>,
    pub sources: Vec<SourceConfig>,
    pub queries: Vec<QueryConfigDto>,
    pub reactions: Vec<ReactionConfig>,
}

/// The mathematical form of a resolved instance.
pub struct ResolvedView {
    pub id: Seq<char>,
    pub persist_index: bool,
    pub state_store: Option<StateStoreView>,
    pub default_priority_queue_capacity: Option<nat>,
    pub default_dispatch_buffer_capacity: Option<nat>,
    pub sources: Seq<SourceView>,
    pub queries: Seq<QueryView>,
    pub reactions: Seq<ReactionView>,
}

/// The view of an optional resolved number.
pub open spec fn opt_nat(o: Option<usize>) -> Option<nat> {
    match o {
        Some(n) => Some(n as nat),
        None => None,
    }
}

impl View for ResolvedInstanceConfig {
    type V = ResolvedView;

    open spec fn view(&self) -> ResolvedView {
        ResolvedView {
            id: self.id@,
            persist_index: self.persist_index,
            state_store: opt_view(self.state_store),
            default_priority_queue_capacity: opt_nat(self.default_priority_queue_capacity),
            default_dispatch_buffer_capacity: opt_nat(self.default_dispatch_buffer_capacity),
            sources: seq_views(self.sources@),
            queries: seq_views(self.queries@),
            reactions: seq_views(self.reactions@),
        }
    }
}

/// Why a configuration was refused.
#[derive(Debug)]
pub enum ConfigError {
    /// A configuration value could not be resolved.
    Resolve(ResolveError),
    /// Two instances resolve to the same id.
    DuplicateInstance(String),
    /// No instance is configured.
    NoInstances,
    /// A server setting is invalid.
    Settings(SettingsError),
}

/// The mathematical form of a configuration error.
pub enum ConfigErrorView {
    Resolve(ResolveErrorView),
    DuplicateInstance(Seq<char>),
    NoInstances,
    InvalidHost(Seq<char>),
    InvalidPort,
    InvalidLogLevel(Seq<char>),
}

impl View for ConfigError {
    type V = ConfigErrorView;

    open spec fn view(&self) -> ConfigErrorView {
        match *self {
            ConfigError::Resolve(e) => ConfigErrorView::Resolve(e@),
            ConfigError::DuplicateInstance(id) => ConfigErrorView::DuplicateInstance(id@),
            ConfigError::NoInstances => ConfigErrorView::NoInstances,
            ConfigError::Settings(SettingsError::InvalidHost(h)) => ConfigErrorView::InvalidHost(h@),
            ConfigError::Settings(SettingsError::InvalidPort) => ConfigErrorView::InvalidPort,
            ConfigError::Settings(SettingsError::InvalidLogLevel(l)) => ConfigErrorView::InvalidLogLevel(l@),
        }
    }
}

/// The message a configuration error reads as.
pub open spec fn config_message(e: ConfigErrorView) -> Seq<char> {
    match e {
        ConfigErrorView::Resolve(r) => resolve_message(r),
        ConfigErrorView::DuplicateInstance(id) => "Duplicate DrasiLib instance id detected: '"@ + id + "'"@,
        ConfigErrorView::NoInstances => "At least one DrasiLib instance must be configured"@,
        ConfigErrorView::InvalidHost(h) => "Invalid host '"@ + h + "': must be a valid hostname or IP address"@,
        ConfigErrorView::InvalidPort => "Invalid port 0: port must be between 1 and 65535"@,
        ConfigErrorView::InvalidLogLevel(l) => "Invalid log level '"@ + l
            + "': must be one of trace, debug, info, warn, error"@,
    }
}

impl ConfigError {
    /// The message this error reads as (see `config_message`).
    pub fn message(&self) -> (r: String)
        ensures
            r@ == config_message(self@),
    {
        match self {
            ConfigError::Resolve(e) => e.message(),
            ConfigError::DuplicateInstance(id) => owned("Duplicate DrasiLib instance id detected: '").concat(
                id.as_str(),
            ).concat("'"),
            ConfigError::NoInstances => owned("At least one DrasiLib instance must be configured"),
            ConfigError::Settings(e) => e.message(),
        }
    }
}

// ---------------------------------------------------------------------------
// Defaults
// ---------------------------------------------------------------------------

/// A UUID written in hyphenated lowercase form: 36 characters, hyphens at
/// positions 8, 13, 18 and 23, lowercase hexadecimal digits elsewhere.
pub open spec fn is_hyphenated_uuid(s: Seq<char>) -> bool {
    &&& s.len() == 36
    &&& forall|i: int| 0 <= i < 36 ==> if i == 8 || i == 13 || i == 18 || i == 23 {
        #[trigger] s[i] == '-'
    } else {
        ('0' <= s[i] <= '9') || ('a' <= s[i] <= 'f')
    }
}

/// A version-4 UUID of the RFC 4122 variant, in hyphenated form: the
/// version digit (position 14) is `4`, and the variant digit (position 19)
/// is one of `8`, `9`, `a`, `b`.
pub open spec fn is_v4_uuid(s: Seq<char>) -> bool {
    &&& is_hyphenated_uuid(s)
    &&& s[14] == '4'
    &&& (s[19] == '8' || s[19] == '9' || s[19] == 'a' || s[19] == 'b')
}

/// `uuid::Uuid::new_v4` written with `to_string`: a random UUID whose
/// version and variant bits the crate sets (version 4, RFC 4122 variant),
/// written in hyphenated lowercase form. Which UUID comes back is left open:
/// its other bits are drawn from the operating system's random source.
#[verifier::external_body]
fn new_uuid_text() -> (r: String)
    ensures
        is_v4_uuid(r@),
{
    uuid::Uuid::new_v4().to_string()
}

/// A fresh instance id: a random UUID.
pub fn default_id() -> (r: ConfigValue<String>)
    ensures
        r@ is Static,
        is_v4_uuid(r@->Static_0),
{
    ConfigValue::Static(new_uuid_text())
}

/// The default server bind address.
pub fn default_host() -> (r: ConfigValue<String>)
    ensures
        r@ == ConfigValueView::<Seq<char>>::Static("0.0.0.0"@),
{
    ConfigValue::Static(owned("0.0.0.0"))
}

/// The default server port.
pub fn default_port() -> (r: ConfigValue<u16>)
    ensures
        r@ == ConfigValueView::<u16>::Static(8080),
{
    ConfigValue::Static(8080)
}

/// The default log level.
pub fn default_log_level() -> (r: ConfigValue<String>)
    ensures
        r@ == ConfigValueView::<Seq<char>>::Static("info"@),
{
    ConfigValue::Static(owned("info"))
}

/// API changes are persisted by default.
pub fn default_persist_config() -> (r: bool)
    ensures
        r,
{
    true
}

/// Indexes are kept in memory by default.
pub fn default_persist_index() -> (r: bool)
    ensures
        !r,
{
    false
}

/// The default OCI registry for short plugin names.
pub fn default_plugin_registry() -> (r: Option<String>)
    ensures
        opt_chars(r) == Some("ghcr.io/drasi-project"@),
{
    Some(owned("ghcr.io/drasi-project"))
}

// ---------------------------------------------------------------------------
// Copies
// ---------------------------------------------------------------------------

/// A copy of a textual configuration value.
pub fn copy_config_string(c: &ConfigValue<String>) -> (r: ConfigValue<String>)
    ensures
        r@ == c@,
{
    match c {
        ConfigValue::Secret { name } => ConfigValue::Secret { name: name.clone() },
        ConfigValue::EnvironmentVariable { name, default } => ConfigValue::EnvironmentVariable {
            name: name.clone(),
            default: match default {
                Some(d) => Some(d.clone()),
                None => None,
            },
        },
        ConfigValue::Static(s) => ConfigValue::Static(s.clone()),
    }
}

/// A copy of an optional numeric configuration value.
pub fn copy_opt_number(c: &Option<ConfigValue<usize>>) -> (r: Option<ConfigValue<usize>>)
    ensures
        opt_view(r) == opt_view(*c),
{
    match c {
        None => None,
        Some(ConfigValue::Secret { name }) => Some(ConfigValue::Secret { name: name.clone() }),
        Some(ConfigValue::EnvironmentVariable { name, default }) => Some(
            ConfigValue::EnvironmentVariable {
                name: name.clone(),
                default: match default {
                    Some(d) => Some(d.clone()),
                    None => None,
                },
            },
        ),
        Some(ConfigValue::Static(n)) => Some(ConfigValue::Static(*n)),
    }
}

/// A copy of an optional state store configuration.
pub fn copy_state_store(s: &Option<StateStoreConfig>) -> (r: Option<StateStoreConfig>)
    ensures
        opt_view(r) == opt_view(*s),
{
    match s {
        None => None,
        Some(StateStoreConfig::Redb { path }) => Some(StateStoreConfig::Redb { path: copy_config_string(path) }),
    }
}

/// Copies of source configurations.
pub fn copy_sources(v: &Vec<SourceConfig>) -> (r: Vec<SourceConfig>)
    ensures
        seq_views(r@) == seq_views(v@),
{
    let mut out: Vec<SourceConfig> = Vec::new();
    let mut i: usize = 0;
    while i < v.len()
        invariant
            i <= v.len(),
            out@.len() == i,
            forall|j: int| 0 <= j < i ==> (#[trigger] out@[j])@ == v@[j]@,
        decreases v.len() - i,
    {
        out.push(v[i].copy());
        i = i + 1;
    }
    assert(seq_views(out@) =~= seq_views(v@));
    out
}

/// Copies of reaction configurations.
pub fn copy_reactions(v: &Vec<ReactionConfig>) -> (r: Vec<ReactionConfig>)
    ensures
        seq_views(r@) == seq_views(v@),
{
    let mut out: Vec<ReactionConfig> = Vec::new();
    let mut i: usize = 0;
    while i < v.len()
        invariant
            i <= v.len(),
            out@.len() == i,
            forall|j: int| 0 <= j < i ==> (#[trigger] out@[j])@ == v@[j]@,
        decreases v.len() - i,
    {
        out.push(v[i].copy());
        i = i + 1;
    }
    assert(seq_views(out@) =~= seq_views(v@));
    out
}

/// Copies of query configurations.
pub fn copy_queries(v: &Vec<QueryConfigDto>) -> (r: Vec<QueryConfigDto>)
    ensures
        seq_views(r@) == seq_views(v@),
{
    let mut out: Vec<QueryConfigDto> = Vec::new();
    let mut i: usize = 0;
    while i < v.len()
        invariant
            i <= v.len(),
            out@.len() == i,
            forall|j: int| 0 <= j < i ==> (#[trigger] out@[j])@ == v@[j]@,
        decreases v.len() - i,
    {
        out.push(v[i].copy());
        i = i + 1;
    }
    assert(seq_views(out@) =~= seq_views(v@));
    out
}

impl DrasiLibInstanceConfig {
    /// A copy of this instance configuration.
    pub fn copy(&self) -> (r: DrasiLibInstanceConfig)
        ensures
            r@ == self@,
    {
        DrasiLibInstanceConfig {
            id: copy_config_string(&self.id),
            persist_index: self.persist_index,
            state_store: copy_state_store(&self.state_store),
            default_priority_queue_capacity: copy_opt_number(&self.default_priority_queue_capacity),
            default_dispatch_buffer_capacity: copy_opt_number(&self.default_dispatch_buffer_capacity),
            sources: copy_sources(&self.sources),
            queries: copy_queries(&self.queries),
            reactions: copy_reactions(&self.reactions),
        }
    }
}

// ---------------------------------------------------------------------------
// Instance layout
// ---------------------------------------------------------------------------

/// The instances a configuration describes: without an `instances` list, one
/// instance made of the top-level settings; otherwise the listed instances.
pub open spec fn raw_instances(c: DrasiServerConfig) -> Seq<InstanceView> {
    if c.instances@.len() == 0 {
        seq![
            InstanceView {
                id: c.id@,
                persist_index: c.persist_index,
                state_store: opt_view(c.state_store),
                default_priority_queue_capacity: opt_view(c.default_priority_queue_capacity),
                default_dispatch_buffer_capacity: opt_view(c.default_dispatch_buffer_capacity),
                sources: seq_views(c.sources@),
                queries: seq_views(c.queries@),
                reactions: seq_views(c.reactions@),
            },
        ]
    } else {
        seq_views(c.instances@)
    }
}

/// An optional capacity resolved.
pub open spec fn resolve_capacity(c: Option<ConfigValueView<usize>>, e: Seq<(Seq<char>, Seq<char>)>) -> Result<
    Option<nat>,
    ResolveErrorView,
> {
    match c {
        None => Ok(None),
        Some(v) => match resolve_number_spec(v, e, usize::MAX as nat) {
            Ok(n) => Ok(Some(n)),
            Err(x) => Err(x),
        },
    }
}

/// The instances resolved in order: each id is resolved and must differ from
/// the ids before it (`seen`), then its capacities are resolved.
pub open spec fn resolve_all(raw: Seq<InstanceView>, e: Seq<(Seq<char>, Seq<char>)>, seen: Seq<Seq<char>>) -> Result<
    Seq<ResolvedView>,
    ConfigErrorView,
>
    decreases raw.len(),
{
    if raw.len() == 0 {
        Ok(Seq::empty())
    } else {
        let inst = raw[0];
        match resolve_string_spec(inst.id, e) {
            Err(x) => Err(ConfigErrorView::Resolve(x)),
            Ok(id) => if seen.contains(id) {
                Err(ConfigErrorView::DuplicateInstance(id))
            } else {
                match resolve_capacity(inst.default_priority_queue_capacity, e) {
                    Err(x) => Err(ConfigErrorView::Resolve(x)),
                    Ok(pq) => match resolve_capacity(inst.default_dispatch_buffer_capacity, e) {
                        Err(x) => Err(ConfigErrorView::Resolve(x)),
                        Ok(db) => match resolve_all(raw.drop_first(), e, seen.push(id)) {
                            Err(x) => Err(x),
                            Ok(rest) => Ok(
                                seq![
                                    ResolvedView {
                                        id,
                                        persist_index: inst.persist_index,
                                        state_store: inst.state_store,
                                        default_priority_queue_capacity: pq,
                                        default_dispatch_buffer_capacity: db,
                                        sources: inst.sources,
                                        queries: inst.queries,
                                        reactions: inst.reactions,
                                    },
                                ] + rest,
                            ),
                        },
                    },
                }
            },
        }
    }
}

/// The resolved instances of a configuration, or the first error; a
/// configuration with no instance is refused.
pub open spec fn resolved_instances_spec(c: DrasiServerConfig, e: Seq<(Seq<char>, Seq<char>)>) -> Result<
    Seq<ResolvedView>,
    ConfigErrorView,
> {
    match resolve_all(raw_instances(c), e, Seq::empty()) {
        Err(x) => Err(x),
        Ok(rs) => if rs.len() == 0 {
            Err(ConfigErrorView::NoInstances)
        } else {
            Ok(rs)
        },
    }
}

/// `done` followed by the result of resolving the rest.
pub open spec fn after(done: Seq<ResolvedView>, r: Result<Seq<ResolvedView>, ConfigErrorView>) -> Result<
    Seq<ResolvedView>,
    ConfigErrorView,
> {
    match r {
        Ok(rest) => Ok(done + rest),
        Err(x) => Err(x),
    }
}

/// Resolve an optional capacity.
fn resolve_opt_capacity(c: &Option<ConfigValue<usize>>, env: &Env) -> (r: Result<Option<usize>, ResolveError>)
    ensures
        match r {
            Ok(o) => resolve_capacity(opt_view(*c), env@) == Ok::<_, ResolveErrorView>(opt_nat(o)),
            Err(x) => resolve_capacity(opt_view(*c), env@) == Err::<Option<nat>, _>(x@),
        },
{
    match c {
        None => Ok(None),
        Some(v) => match resolve_usize(v, env) {
            Ok(n) => Ok(Some(n)),
            Err(x) => Err(x),
        },
    }
}

/// Whether `id` is among the ids of `done`.
fn id_seen(done: &Vec<ResolvedInstanceConfig>, id: &str) -> (r: bool)
    ensures
        r == seq_views(done@).map_values(|v: ResolvedView| v.id).contains(id@),
{
    let ghost ids = seq_views(done@).map_values(|v: ResolvedView| v.id);
    let mut i: usize = 0;
    while i < done.len()
        invariant
            ids == seq_views(done@).map_values(|v: ResolvedView| v.id),
            ids.len() == done@.len(),
            i <= done.len(),
            forall|j: int| 0 <= j < i ==> ids[j] != id@,
        decreases done.len() - i,
    {
        assert(ids[i as int] == done@[i as int].id@);
        if str_eq(done[i].id.as_str(), id) {
            assert(ids[i as int] == id@);
            return true;
        }
        i = i + 1;
    }
    false
}

/// Resolve a list of instances.
fn resolve_list(raw: &Vec<DrasiLibInstanceConfig>, env: &Env) -> (r: Result<Vec<ResolvedInstanceConfig>, ConfigError>)
    ensures
        match r {
            Ok(v) => resolve_all(seq_views(raw@), env@, Seq::empty()) == Ok::<_, ConfigErrorView>(seq_views(v@)),
            Err(x) => resolve_all(seq_views(raw@), env@, Seq::empty()) == Err::<Seq<ResolvedView>, _>(x@),
        },
{
    let ghost rv = seq_views(raw@);
    let mut done: Vec<ResolvedInstanceConfig> = Vec::new();
    let mut i: usize = 0;
    proof {
        assert(rv.subrange(0, rv.len() as int) =~= rv);
        assert(seq_views(done@).map_values(|v: ResolvedView| v.id) =~= Seq::<Seq<char>>::empty());
        match resolve_all(rv, env@, Seq::empty()) {
            Ok(t) => {
                assert(seq_views(done@) + t =~= t);
            },
            Err(_) => {},
        }
    }
    while i < raw.len()
        invariant
            rv == seq_views(raw@),
            rv.len() == raw@.len(),
            i <= raw.len(),
            resolve_all(rv, env@, Seq::empty()) == after(
                seq_views(done@),
                resolve_all(rv.subrange(i as int, rv.len() as int), env@, seq_views(done@).map_values(|v: ResolvedView| v.id)),
            ),
        decreases raw.len() - i,
    {
        let ghost seen = seq_views(done@).map_values(|v: ResolvedView| v.id);
        let ghost rest = rv.subrange(i as int, rv.len() as int);
        assert(rest[0] == raw@[i as int]@);
        assert(rest.drop_first() =~= rv.subrange(i + 1, rv.len() as int));
        let inst = &raw[i];
        let id = match resolve_string(&inst.id, env) {
            Ok(id) => id,
            Err(x) => {
                return Err(ConfigError::Resolve(x));
            },
        };
        if id_seen(&done, id.as_str()) {
            return Err(ConfigError::DuplicateInstance(id));
        }
        let pq = match resolve_opt_capacity(&inst.default_priority_queue_capacity, env) {
            Ok(o) => o,
            Err(x) => {
                return Err(ConfigError::Resolve(x));
            },
        };
        let db = match resolve_opt_capacity(&inst.default_dispatch_buffer_capacity, env) {
            Ok(o) => o,
            Err(x) => {
                return Err(ConfigError::Resolve(x));
            },
        };
        let resolved = ResolvedInstanceConfig {
            id,
            persist_index: inst.persist_index,
            state_store: copy_state_store(&inst.state_store),
            default_priority_queue_capacity: pq,
            default_dispatch_buffer_capacity: db,
            sources: copy_sources(&inst.sources),
            queries: copy_queries(&inst.queries),
            reactions: copy_reactions(&inst.reactions),
        };
        let ghost rview = resolved@;
        let ghost before = seq_views(done@);
        done.push(resolved);
        proof {
            assert(seq_views(done@) =~= before.push(rview));
            assert(seq_views(done@).map_values(|v: ResolvedView| v.id) =~= seen.push(rview.id));
            let tail = resolve_all(rest.drop_first(), env@, seen.push(rview.id));
            match tail {
                Ok(t) => {
                    assert(before + (seq![rview] + t) =~= before.push(rview) + t);
                },
                Err(_) => {},
            }
        }
        i = i + 1;
    }
    proof {
        assert(rv.subrange(i as int, rv.len() as int) =~= Seq::<InstanceView>::empty());
        assert(seq_views(done@) + Seq::<ResolvedView>::empty() =~= seq_views(done@));
    }
    Ok(done)
}

/// What a successful resolution yields: one instance per raw instance, in
/// order, with ids that are distinct and not among `seen`.
proof fn lemma_resolve_all_ok(raw: Seq<InstanceView>, e: Seq<(Seq<char>, Seq<char>)>, seen: Seq<Seq<char>>)
    requires
        resolve_all(raw, e, seen) is Ok,
    ensures
        ({
            let rs = resolve_all(raw, e, seen)->Ok_0;
            &&& rs.len() == raw.len()
            &&& forall|i: int| 0 <= i < rs.len() ==> !seen.contains(#[trigger] rs[i].id)
            &&& forall|i: int, j: int| 0 <= i < rs.len() && 0 <= j < rs.len() && i != j ==> rs[i].id != rs[j].id
            &&& forall|i: int| 0 <= i < rs.len() ==> (#[trigger] rs[i]).sources == raw[i].sources
                && rs[i].queries == raw[i].queries && rs[i].reactions == raw[i].reactions
                && rs[i].persist_index == raw[i].persist_index
            &&& forall|i: int| 0 <= i < rs.len() ==> resolve_string_spec(raw[i].id, e) == Ok::<_, ResolveErrorView>(
                (#[trigger] rs[i]).id,
            ) && rs[i].state_store == raw[i].state_store
        }),
    decreases raw.len(),
{
    if raw.len() > 0 {
        let id = resolve_string_spec(raw[0].id, e)->Ok_0;
        lemma_resolve_all_ok(raw.drop_first(), e, seen.push(id));
        let rs = resolve_all(raw, e, seen)->Ok_0;
        let rest = resolve_all(raw.drop_first(), e, seen.push(id))->Ok_0;
        assert(rs[0].id == id);
        assert forall|i: int| 1 <= i < rs.len() implies rs[i] == rest[i - 1] by {}
        assert forall|i: int| 1 <= i < rs.len() implies raw[i] == raw.drop_first()[i - 1] by {}
        assert forall|i: int| 0 <= i < rs.len() implies !seen.contains(#[trigger] rs[i].id) by {
            if i > 0 {
                assert(rs[i] == rest[i - 1]);
                if seen.contains(rs[i].id) {
                    let k = choose|k: int| 0 <= k < seen.len() && seen[k] == rs[i].id;
                    assert(seen.push(id)[k] == rs[i].id);
                }
            }
        }
        assert forall|i: int, j: int| 0 <= i < rs.len() && 0 <= j < rs.len() && i != j implies rs[i].id
            != rs[j].id by {
            if i == 0 && j > 0 {
                assert(rs[j] == rest[j - 1]);
                assert(seen.push(id)[seen.len() as int] == id);
            } else if j == 0 && i > 0 {
                assert(rs[i] == rest[i - 1]);
                assert(seen.push(id)[seen.len() as int] == id);
            } else if i > 0 && j > 0 {
                assert(rs[i] == rest[i - 1] && rs[j] == rest[j - 1]);
            }
        }
    }
}

/// A configuration that resolves yields one instance per configured instance
/// (exactly one in the single-instance layout), in order, with distinct ids,
/// each keeping its sources, queries and reactions.
pub proof fn law_resolved_instances(c: DrasiServerConfig, e: Seq<(Seq<char>, Seq<char>)>)
    requires
        resolved_instances_spec(c, e) is Ok,
    ensures
        ({
            let rs = resolved_instances_spec(c, e)->Ok_0;
            let raw = raw_instances(c);
            &&& rs.len() == raw.len()
            &&& c.instances@.len() == 0 ==> rs.len() == 1 && resolve_string_spec(c.id@, e) == Ok::<
                _,
                ResolveErrorView,
            >(rs[0].id) && rs[0].sources == seq_views(c.sources@)
            &&& forall|i: int, j: int| 0 <= i < rs.len() && 0 <= j < rs.len() && i != j ==> rs[i].id != rs[j].id
            &&& forall|i: int| 0 <= i < rs.len() ==> (#[trigger] rs[i]).sources == raw[i].sources
                && rs[i].queries == raw[i].queries && rs[i].reactions == raw[i].reactions
        }),
{
    lemma_resolve_all_ok(raw_instances(c), e, Seq::empty());
}

/// The id an instance resolves to, when it resolves.
pub open spec fn resolved_id(i: InstanceView, e: Seq<(Seq<char>, Seq<char>)>) -> Seq<char> {
    resolve_string_spec(i.id, e)->Ok_0
}

/// Every instance of `raw` has an id and capacities that resolve.
pub open spec fn all_resolvable(raw: Seq<InstanceView>, e: Seq<(Seq<char>, Seq<char>)>) -> bool {
    forall|i: int| 0 <= i < raw.len() ==> {
        &&& resolve_string_spec((#[trigger] raw[i]).id, e) is Ok
        &&& resolve_capacity(raw[i].default_priority_queue_capacity, e) is Ok
        &&& resolve_capacity(raw[i].default_dispatch_buffer_capacity, e) is Ok
    }
}

/// Resolving succeeds when every id and capacity resolves and the ids are
/// new and distinct.
proof fn lemma_resolve_all_succeeds(raw: Seq<InstanceView>, e: Seq<(Seq<char>, Seq<char>)>, seen: Seq<Seq<char>>)
    requires
        all_resolvable(raw, e),
        forall|i: int| 0 <= i < raw.len() ==> !seen.contains(resolved_id(#[trigger] raw[i], e)),
        forall|i: int, j: int| 0 <= i < raw.len() && 0 <= j < raw.len() && i != j ==> resolved_id(#[trigger] raw[i], e)
            != resolved_id(#[trigger] raw[j], e),
    ensures
        resolve_all(raw, e, seen) is Ok,
    decreases raw.len(),
{
    if raw.len() > 0 {
        let rest = raw.drop_first();
        let id = resolved_id(raw[0], e);
        assert(resolve_string_spec(raw[0].id, e) is Ok);
        assert forall|i: int| 0 <= i < rest.len() implies {
            &&& resolve_string_spec((#[trigger] rest[i]).id, e) is Ok
            &&& resolve_capacity(rest[i].default_priority_queue_capacity, e) is Ok
            &&& resolve_capacity(rest[i].default_dispatch_buffer_capacity, e) is Ok
        } by {
            assert(rest[i] == raw[i + 1]);
        }
        assert forall|i: int| 0 <= i < rest.len() implies !seen.push(id).contains(resolved_id(#[trigger] rest[i], e)) by {
            assert(rest[i] == raw[i + 1]);
            assert(!seen.contains(resolved_id(raw[i + 1], e)));
            assert(resolved_id(raw[i + 1], e) != resolved_id(raw[0], e));
            if seen.push(id).contains(resolved_id(rest[i], e)) {
                let k = choose|k: int| 0 <= k < seen.push(id).len() && seen.push(id)[k] == resolved_id(rest[i], e);
                if k < seen.len() {
                    assert(seen[k] == resolved_id(rest[i], e));
                }
            }
        }
        assert forall|i: int, j: int| 0 <= i < rest.len() && 0 <= j < rest.len() && i != j implies resolved_id(
            #[trigger] rest[i],
            e,
        ) != resolved_id(#[trigger] rest[j], e) by {
            assert(rest[i] == raw[i + 1] && rest[j] == raw[j + 1]);
        }
        lemma_resolve_all_succeeds(rest, e, seen.push(id));
    }
}

/// A configuration resolves exactly when every instance's id and capacities
/// resolve and the resolved ids are distinct; then it yields one instance
/// per configured instance (at least one), with distinct ids.
pub proof fn law_resolution_succeeds(c: DrasiServerConfig, e: Seq<(Seq<char>, Seq<char>)>)
    ensures
        resolved_instances_spec(c, e) is Ok <==> (all_resolvable(raw_instances(c), e) && forall|i: int, j: int|
            0 <= i < raw_instances(c).len() && 0 <= j < raw_instances(c).len() && i != j ==> resolved_id(
                #[trigger] raw_instances(c)[i],
                e,
            ) != resolved_id(#[trigger] raw_instances(c)[j], e)),
        resolved_instances_spec(c, e) is Ok ==> resolved_instances_spec(c, e)->Ok_0.len() == raw_instances(c).len()
            && raw_instances(c).len() > 0,
{
    let raw = raw_instances(c);
    if all_resolvable(raw, e) && forall|i: int, j: int| 0 <= i < raw.len() && 0 <= j < raw.len() && i != j
        ==> resolved_id(#[trigger] raw[i], e) != resolved_id(#[trigger] raw[j], e) {
        lemma_resolve_all_succeeds(raw, e, Seq::empty());
        lemma_resolve_all_ok(raw, e, Seq::empty());
    }
    if resolved_instances_spec(c, e) is Ok {
        lemma_resolve_all_ok(raw, e, Seq::empty());
        lemma_resolve_all_resolvable(raw, e, Seq::empty());
        let rs = resolve_all(raw, e, Seq::empty())->Ok_0;
        assert forall|i: int, j: int| 0 <= i < raw.len() && 0 <= j < raw.len() && i != j implies resolved_id(
            #[trigger] raw[i],
            e,
        ) != resolved_id(#[trigger] raw[j], e) by {
            assert(resolved_id(raw[i], e) == rs[i].id);
            assert(resolved_id(raw[j], e) == rs[j].id);
        }
    }
    if c.instances@.len() > 0 {
        assert(raw.len() > 0);
    }
}

/// When resolving succeeds, every id and capacity resolved.
proof fn lemma_resolve_all_resolvable(raw: Seq<InstanceView>, e: Seq<(Seq<char>, Seq<char>)>, seen: Seq<Seq<char>>)
    requires
        resolve_all(raw, e, seen) is Ok,
    ensures
        all_resolvable(raw, e),
    decreases raw.len(),
{
    if raw.len() > 0 {
        let id = resolve_string_spec(raw[0].id, e)->Ok_0;
        lemma_resolve_all_resolvable(raw.drop_first(), e, seen.push(id));
        assert forall|i: int| 0 <= i < raw.len() implies {
            &&& resolve_string_spec((#[trigger] raw[i]).id, e) is Ok
            &&& resolve_capacity(raw[i].default_priority_queue_capacity, e) is Ok
            &&& resolve_capacity(raw[i].default_dispatch_buffer_capacity, e) is Ok
        } by {
            if i > 0 {
                assert(raw[i] == raw.drop_first()[i - 1]);
            }
        }
    }
}

/// In the single-instance layout (no `instances` list), a configuration that
/// resolves yields exactly one instance: the top-level id resolved, with the
/// top-level index setting, state store, sources, queries and reactions.
pub proof fn law_single_instance_resolution(c: DrasiServerConfig, e: Seq<(Seq<char>, Seq<char>)>)
    requires
        c.instances@.len() == 0,
        resolved_instances_spec(c, e) is Ok,
    ensures
        ({
            let rs = resolved_instances_spec(c, e)->Ok_0;
            &&& rs.len() == 1
            &&& resolve_string_spec(c.id@, e) == Ok::<_, ResolveErrorView>(rs[0].id)
            &&& rs[0].persist_index == c.persist_index
            &&& rs[0].state_store == opt_view(c.state_store)
            &&& rs[0].sources == seq_views(c.sources@)
            &&& rs[0].queries == seq_views(c.queries@)
            &&& rs[0].reactions == seq_views(c.reactions@)
        }),
{
    lemma_resolve_all_ok(raw_instances(c), e, Seq::empty());
}

/// In the multi-instance layout, a configuration that resolves yields one
/// instance per listed instance, in order: each listed id resolved, the ids
/// distinct, each instance keeping its own index setting, state store and
/// components.
pub proof fn law_multi_instance_resolution(c: DrasiServerConfig, e: Seq<(Seq<char>, Seq<char>)>)
    requires
        c.instances@.len() > 0,
        resolved_instances_spec(c, e) is Ok,
    ensures
        ({
            let rs = resolved_instances_spec(c, e)->Ok_0;
            let listed = seq_views(c.instances@);
            &&& rs.len() == listed.len()
            &&& forall|i: int| 0 <= i < rs.len() ==> resolve_string_spec(listed[i].id, e) == Ok::<
                _,
                ResolveErrorView,
            >((#[trigger] rs[i]).id) && rs[i].persist_index == listed[i].persist_index && rs[i].state_store
                == listed[i].state_store && rs[i].sources == listed[i].sources && rs[i].queries == listed[i].queries
                && rs[i].reactions == listed[i].reactions
            &&& forall|i: int, j: int| 0 <= i < rs.len() && 0 <= j < rs.len() && i != j ==> rs[i].id != rs[j].id
        }),
{
    lemma_resolve_all_ok(raw_instances(c), e, Seq::empty());
}

/// Two listed instances whose ids resolve to the same id make the
/// configuration refused.
pub proof fn law_duplicate_instance_refused(
    c: DrasiServerConfig,
    e: Seq<(Seq<char>, Seq<char>)>,
    i: int,
    j: int,
    id: Seq<char>,
)
    requires
        0 <= i < c.instances@.len(),
        0 <= j < c.instances@.len(),
        i != j,
        resolve_string_spec(c.instances@[i]@.id, e) == Ok::<_, ResolveErrorView>(id),
        resolve_string_spec(c.instances@[j]@.id, e) == Ok::<_, ResolveErrorView>(id),
    ensures
        resolved_instances_spec(c, e) is Err,
{
    if resolved_instances_spec(c, e) is Ok {
        lemma_resolve_all_ok(raw_instances(c), e, Seq::empty());
        let rs = resolved_instances_spec(c, e)->Ok_0;
        assert(raw_instances(c)[i] == c.instances@[i]@);
        assert(raw_instances(c)[j] == c.instances@[j]@);
        assert(resolve_string_spec(raw_instances(c)[i].id, e) == Ok::<_, ResolveErrorView>(rs[i].id));
        assert(resolve_string_spec(raw_instances(c)[j].id, e) == Ok::<_, ResolveErrorView>(rs[j].id));
    }
}

impl DrasiServerConfig {
    /// Resolve configured DrasiLib instances, supporting single-instance and
    /// multi-instance layout.
    pub fn resolved_instances(&self, env: &Env) -> (r: Result<Vec<ResolvedInstanceConfig>, ConfigError>)
        ensures
            match r {
                Ok(v) => resolved_instances_spec(*self, env@) == Ok::<_, ConfigErrorView>(seq_views(v@)),
                Err(x) => resolved_instances_spec(*self, env@) == Err::<Seq<ResolvedView>, _>(x@),
            },
    {
        let resolved = if self.instances.len() == 0 {
            let single = DrasiLibInstanceConfig {
                id: copy_config_string(&self.id),
                persist_index: self.persist_index,
                state_store: copy_state_store(&self.state_store),
                default_priority_queue_capacity: copy_opt_number(&self.default_priority_queue_capacity),
                default_dispatch_buffer_capacity: copy_opt_number(&self.default_dispatch_buffer_capacity),
                sources: copy_sources(&self.sources),
                queries: copy_queries(&self.queries),
                reactions: copy_reactions(&self.reactions),
            };
            let mut raw: Vec<DrasiLibInstanceConfig> = Vec::new();
            raw.push(single);
            assert(seq_views(raw@) =~= raw_instances(*self));
            resolve_list(&raw, env)
        } else {
            resolve_list(&self.instances, env)
        };
        match resolved {
            Err(x) => Err(x),
            Ok(v) => {
                if v.len() == 0 {
                    Err(ConfigError::NoInstances)
                } else {
                    Ok(v)
                }
            },
        }
    }
}

// ---------------------------------------------------------------------------
// Server settings and validation
// ---------------------------------------------------------------------------

/// Server settings with their configuration values resolved.
pub struct ResolvedSettings {
    pub id: String,
    pub host: String,
    pub port: u16,
    pub log_level: String,
}

/// The mathematical form of resolved server settings.
pub struct SettingsView {
    pub id: Seq<char>,
    pub host: Seq<char>,
    pub port: nat,
    pub log_level: Seq<char>,
}

impl View for ResolvedSettings {
    type V = SettingsView;

    open spec fn view(&self) -> SettingsView {
        SettingsView { id: self.id@, host: self.host@, port: self.port as nat, log_level: self.log_level@ }
    }
}

/// The server settings resolved in order: id, host, port, log level.
pub open spec fn server_settings_spec(c: DrasiServerConfig, e: Seq<(Seq<char>, Seq<char>)>) -> Result<
    SettingsView,
    ConfigErrorView,
> {
    match resolve_string_spec(c.id@, e) {
        Err(x) => Err(ConfigErrorView::Resolve(x)),
        Ok(id) => match resolve_string_spec(c.host@, e) {
            Err(x) => Err(ConfigErrorView::Resolve(x)),
            Ok(host) => match resolve_port_spec(c.port@, e) {
                Err(x) => Err(ConfigErrorView::Resolve(x)),
                Ok(port) => match resolve_string_spec(c.log_level@, e) {
                    Err(x) => Err(ConfigErrorView::Resolve(x)),
                    Ok(log_level) => Ok(SettingsView { id, host, port, log_level }),
                },
            },
        },
    }
}

/// The outcome of validating a configuration: its settings must resolve, its
/// instances must resolve, and then the host (`host_is_ip` tells whether the
/// resolved host parses as an IP address), port and log level must be valid.
pub open spec fn validate_spec(c: DrasiServerConfig, e: Seq<(Seq<char>, Seq<char>)>, host_is_ip: bool) -> Result<
    (),
    ConfigErrorView,
> {
    match server_settings_spec(c, e) {
        Err(x) => Err(x),
        Ok(s) => match resolved_instances_spec(c, e) {
            Err(x) => Err(x),
            Ok(_) => match settings_error(s.host, host_is_ip, s.port as u16, s.log_level) {
                None => Ok(()),
                Some(crate::settings::SettingsErrorKind::InvalidHost) => Err(ConfigErrorView::InvalidHost(s.host)),
                Some(crate::settings::SettingsErrorKind::InvalidPort) => Err(ConfigErrorView::InvalidPort),
                Some(crate::settings::SettingsErrorKind::InvalidLogLevel) => Err(
                    ConfigErrorView::InvalidLogLevel(s.log_level),
                ),
            },
        },
    }
}

impl DrasiServerConfig {
    /// Resolve the server settings: id, host, port and log level.
    pub fn resolve_settings(&self, env: &Env) -> (r: Result<ResolvedSettings, ConfigError>)
        ensures
            match r {
                Ok(s) => server_settings_spec(*self, env@) == Ok::<_, ConfigErrorView>(s@),
                Err(x) => server_settings_spec(*self, env@) == Err::<SettingsView, _>(x@),
            },
    {
        let id = match resolve_string(&self.id, env) {
            Ok(v) => v,
            Err(x) => {
                return Err(ConfigError::Resolve(x));
            },
        };
        let host = match resolve_string(&self.host, env) {
            Ok(v) => v,
            Err(x) => {
                return Err(ConfigError::Resolve(x));
            },
        };
        let port = match resolve_port(&self.port, env) {
            Ok(v) => v,
            Err(x) => {
                return Err(ConfigError::Resolve(x));
            },
        };
        let log_level = match resolve_string(&self.log_level, env) {
            Ok(v) => v,
            Err(x) => {
                return Err(ConfigError::Resolve(x));
            },
        };
        Ok(ResolvedSettings { id, host, port, log_level })
    }

    /// Validate the configuration. `host_is_ip` tells whether the resolved
    /// host parses as an IP address.
    pub fn validate(&self, env: &Env, host_is_ip: bool) -> (r: Result<(), ConfigError>)
        ensures
            match r {
                Ok(()) => validate_spec(*self, env@, host_is_ip) == Ok::<(), ConfigErrorView>(()),
                Err(x) => validate_spec(*self, env@, host_is_ip) == Err::<(), _>(x@),
            },
    {
        let settings = match self.resolve_settings(env) {
            Ok(s) => s,
            Err(x) => {
                return Err(x);
            },
        };
        match self.resolved_instances(env) {
            Ok(_) => {},
            Err(x) => {
                return Err(x);
            },
        }
        match validate_server_settings(settings.host.as_str(), host_is_ip, settings.port, settings.log_level.as_str()) {
            Ok(()) => Ok(()),
            Err(e) => Err(ConfigError::Settings(e)),
        }
    }
}

impl Default for DrasiServerConfig {
    /// A single-instance configuration with a fresh id, listening on
    /// `0.0.0.0:8080`, logging at `info`, persisting API changes, with
    /// in-memory indexes, no components and the default plugin registry.
    fn default() -> (r: DrasiServerConfig)
        ensures
            r.api_version is None,
            r.id@ is Static && is_v4_uuid(r.id@->Static_0),
            r.host@ == ConfigValueView::<Seq<char>>::Static("0.0.0.0"@),
            r.port@ == ConfigValueView::<u16>::Static(8080),
            r.log_level@ == ConfigValueView::<Seq<char>>::Static("info"@),
            r.persist_config,
            !r.persist_index,
            r.state_store is None,
            r.default_priority_queue_capacity is None,
            r.default_dispatch_buffer_capacity is None,
            r.sources@.len() == 0,
            r.queries@.len() == 0,
            r.reactions@.len() == 0,
            r.instances@.len() == 0,
            opt_chars(r.plugin_registry) == Some("ghcr.io/drasi-project"@),
            !r.auto_install_plugins,
            r.plugins@.len() == 0,
            !r.verify_plugins,
            r.trusted_identities@.len() == 0,
    {
        DrasiServerConfig {
            api_version: None,
            id: default_id(),
            host: default_host(),
            port: default_port(),
            log_level: default_log_level(),
            persist_config: true,
            persist_index: false,
            state_store: None,
            default_priority_queue_capacity: None,
            default_dispatch_buffer_capacity: None,
            sources: Vec::new(),
            queries: Vec::new(),
            reactions: Vec::new(),
            instances: Vec::new(),
            plugin_registry: default_plugin_registry(),
            auto_install_plugins: false,
            plugins: Vec::new(),
            verify_plugins: false,
            trusted_identities: Vec::new(),
        }
    }
}

} // verus!
