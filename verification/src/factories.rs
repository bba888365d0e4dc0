//! Choosing the plugin descriptor that creates a configured component, and
//! the path a state store is opened at.

use vstd::prelude::*;
use crate::keyed::value_of;
use crate::models::{BootstrapProviderConfig, SourceConfig};
use crate::plugin_registry::PluginRegistry;
use crate::reaction::{ReactionConfig, strings_view};
use crate::resolve::{Env, ResolveError, ResolveErrorView, resolve_string, resolve_string_spec};
use crate::state_store::StateStoreConfig;
use crate::text::owned;

verus! {

/// How `{:?}` writes a list of strings (`std::fmt::Debug` for `Vec<String>`).
pub uninterp spec fn debug_list(items: Seq<Seq<char>>) -> Seq<char>;

/// Writes a list of strings with `format!("{:?}", ..)`, as the standard
/// library's `Debug` for `Vec<String>` does: the contract names that text
/// (`debug_list`), a function of the strings alone.
#[verifier::external_body]
pub(crate) fn debug_text(items: &Vec<String>) -> (r: String)
    ensures
        r@ == debug_list(strings_view(items@)),
{
    format!("{:?}", items)
}

/// The message for a kind no registered plugin provides.
pub open spec fn unknown_kind_message(category: Seq<char>, kind: Seq<char>, available: Seq<Seq<char>>) -> Seq<char> {
    "Unknown "@ + category + " kind: '"@ + kind + "'. Available: "@ + debug_list(available)
}

/// `a b c d e` joined.
fn unknown_kind(category: &str, kind: &str, available: &Vec<String>) -> (r: String)
    ensures
        r@ == unknown_kind_message(category@, kind@, strings_view(available@)),
{
    let mut m = owned("Unknown ");
    m.append(category);
    m.append(" kind: '");
    m.append(kind);
    m.append("'. Available: ");
    m.append(debug_text(available).as_str());
    m
}

impl<S, R, B> PluginRegistry<S, R, B> {
    /// The descriptor that creates a source of the configured kind, or the
    /// message naming the kinds that are available.
    pub fn source_descriptor(&self, config: &SourceConfig) -> (r: Result<&S, String>)
        requires
            self.wf(),
        ensures
            match r {
                Ok(d) => value_of(self.sources(), config.kind@) matches Some(e) && e.descriptor == *d,
                Err(m) => value_of(self.sources(), config.kind@) is None && exists|ks: Seq<Seq<char>>|
                    crate::plugin_registry::strictly_sorted(ks) && (forall|y: Seq<char>| ks.contains(y) <==> crate::keyed::has_key(self.sources(), y))
                        && m@ == unknown_kind_message("source"@, config.kind@, ks),
            },
    {
        match self.get_source(config.kind.as_str()) {
            Some(d) => Ok(d),
            None => {
                let kinds = self.source_kinds();
                Err(unknown_kind("source", config.kind.as_str(), &kinds))
            },
        }
    }

    /// The descriptor that creates a reaction of the configured kind, or the
    /// message naming the kinds that are available.
    pub fn reaction_descriptor(&self, config: &ReactionConfig) -> (r: Result<&R, String>)
        requires
            self.wf(),
        ensures
            match r {
                Ok(d) => value_of(self.reactions(), config.kind@) matches Some(e) && e.descriptor == *d,
                Err(m) => value_of(self.reactions(), config.kind@) is None && exists|ks: Seq<Seq<char>>|
                    crate::plugin_registry::strictly_sorted(ks) && (forall|y: Seq<char>| ks.contains(y) <==> crate::keyed::has_key(self.reactions(), y))
                        && m@ == unknown_kind_message("reaction"@, config.kind@, ks),
            },
    {
        match self.get_reaction(config.kind.as_str()) {
            Some(d) => Ok(d),
            None => {
                let kinds = self.reaction_kinds();
                Err(unknown_kind("reaction", config.kind.as_str(), &kinds))
            },
        }
    }

    /// The descriptor that creates a bootstrap provider of the configured
    /// kind, or the message naming the kinds that are available.
    pub fn bootstrap_descriptor(&self, config: &BootstrapProviderConfig) -> (r: Result<&B, String>)
        requires
            self.wf(),
        ensures
            match r {
                Ok(d) => value_of(self.bootstrappers(), config.kind@) matches Some(e) && e.descriptor == *d,
                Err(m) => value_of(self.bootstrappers(), config.kind@) is None && exists|ks: Seq<Seq<char>>|
                    crate::plugin_registry::strictly_sorted(ks) && (forall|y: Seq<char>| ks.contains(y) <==> crate::keyed::has_key(self.bootstrappers(), y))
                        && m@ == unknown_kind_message("bootstrap"@, config.kind@, ks),
            },
    {
        match self.get_bootstrapper(config.kind.as_str()) {
            Some(d) => Ok(d),
            None => {
                let kinds = self.bootstrapper_kinds();
                Err(unknown_kind("bootstrap", config.kind.as_str(), &kinds))
            },
        }
    }
}

/// The file a state store is opened at: its configured path, resolved.
pub fn state_store_path(config: &StateStoreConfig, env: &Env) -> (r: Result<String, ResolveError>)
    ensures
        match config@ {
            crate::state_store::StateStoreView::Redb { path } => match r {
                Ok(p) => resolve_string_spec(path, env@) == Ok::<_, ResolveErrorView>(p@),
                Err(e) => resolve_string_spec(path, env@) == Err::<Seq<char>, _>(e@),
            },
        },
{
    match config {
        StateStoreConfig::Redb { path } => resolve_string(path, env),
    }
}

} // verus!
