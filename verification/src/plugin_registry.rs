//! The registry of plugin descriptors: sources, reactions and bootstrappers,
//! each keyed by its kind, listed in order of kind.

use vstd::prelude::*;
use crate::keyed::{KeyedStore, has_key, key_at, keys_distinct, put, value_of, lemma_put_get};
use crate::reaction::strings_view;
use crate::factories::{debug_list, debug_text};
use crate::text::{owned, str_less, str_lt, lemma_str_lt_transitive, lemma_str_lt_total};

verus! {

/// The strings are in strictly increasing order.
pub open spec fn strictly_sorted(s: Seq<Seq<char>>) -> bool {
    forall|i: int, j: int| 0 <= i < j < s.len() ==> str_lt(#[trigger] s[i], #[trigger] s[j])
}

/// Inserts `x` into a strictly increasing list that lacks it, keeping the
/// order.
fn insert_sorted(v: &mut Vec<String>, x: String)
    requires
        strictly_sorted(strings_view(old(v)@)),
        !strings_view(old(v)@).contains(x@),
    ensures
        strictly_sorted(strings_view(final(v)@)),
        forall|y: Seq<char>| strings_view(final(v)@).contains(y) <==> (y == x@ || strings_view(old(v)@).contains(y)),
        final(v)@.len() == old(v)@.len() + 1,
{
    let ghost s = strings_view(v@);
    let mut i: usize = 0;
    while i < v.len() && !str_less(x.as_str(), v[i].as_str())
        invariant
            s == strings_view(v@),
            strictly_sorted(s),
            !s.contains(x@),
            i <= v.len(),
            forall|j: int| 0 <= j < i ==> str_lt(#[trigger] s[j], x@),
        decreases v.len() - i,
    {
        proof {
            assert(s[i as int] == v@[i as int]@);
            if s[i as int] == x@ {
                assert(s.contains(x@));
            }
            lemma_str_lt_total(s[i as int], x@);
        }
        i = i + 1;
    }
    let ghost xv = x@;
    v.insert(i, x);
    proof {
        let t = strings_view(v@);
        assert(t =~= s.insert(i as int, xv));
        assert forall|a: int, b: int| 0 <= a < b < t.len() implies str_lt(#[trigger] t[a], #[trigger] t[b]) by {
            if a < i && b < i {
            } else if a < i && b == i {
            } else if a < i && b > i {
                assert(str_lt(s[a], s[b - 1]));
            } else if a == i {
                assert(str_lt(xv, s[i as int]));
                if b - 1 > i {
                    lemma_str_lt_transitive(xv, s[i as int], s[b - 1]);
                }
            } else {
                assert(str_lt(s[a - 1], s[b - 1]));
            }
        }
        assert forall|y: Seq<char>| t.contains(y) <==> (y == xv || s.contains(y)) by {
            if t.contains(y) {
                let k = choose|k: int| 0 <= k < t.len() && t[k] == y;
                if k < i {
                    assert(s[k] == y);
                } else if k > i {
                    assert(s[k - 1] == y);
                }
            }
            if s.contains(y) {
                let k = choose|k: int| 0 <= k < s.len() && s[k] == y;
                if k < i {
                    assert(t[k] == y);
                } else {
                    assert(t[k + 1] == y);
                }
            }
            if y == xv {
                assert(t[i as int] == y);
            }
        }
    }
}

/// The keys of a store in increasing order.
fn sorted_keys<V>(store: &KeyedStore<V>) -> (r: Vec<String>)
    requires
        store.wf(),
    ensures
        strictly_sorted(strings_view(r@)),
        forall|y: Seq<char>| strings_view(r@).contains(y) <==> has_key(store@, y),
        r@.len() == store@.len(),
{
    proof {
        store.lemma_wf_distinct();
    }
    let n = store.len();
    let mut out: Vec<String> = Vec::new();
    let mut i: usize = 0;
    while i < n
        invariant
            store.wf(),
            keys_distinct(store@),
            n == store@.len(),
            i <= n,
            out@.len() == i,
            strictly_sorted(strings_view(out@)),
            forall|y: Seq<char>| strings_view(out@).contains(y) <==> exists|j: int| 0 <= j < i && store@[j].0 == y,
        decreases n - i,
    {
        let k = store.key_at(i).clone();
        proof {
            if strings_view(out@).contains(k@) {
                let j = choose|j: int| 0 <= j < i && store@[j].0 == k@;
                assert(store@[j].0 == store@[i as int].0);
            }
        }
        let ghost pre = strings_view(out@);
        insert_sorted(&mut out, k);
        proof {
            assert forall|y: Seq<char>| strings_view(out@).contains(y) <==> exists|j: int| 0 <= j < i + 1 && store@[j].0 == y by {
                if y == store@[i as int].0 {
                    assert(exists|j: int| 0 <= j < i + 1 && store@[j].0 == y);
                }
                if exists|j: int| 0 <= j < i + 1 && store@[j].0 == y {
                    let j = choose|j: int| 0 <= j < i + 1 && store@[j].0 == y;
                    if j < i {
                        assert(pre.contains(y));
                    }
                }
            }
        }
        i = i + 1;
    }
    proof {
        assert forall|y: Seq<char>| strings_view(out@).contains(y) <==> has_key(store@, y) by {
            if has_key(store@, y) {
                let j = choose|j: int| key_at(store@, y, j);
                assert(0 <= j < n && store@[j].0 == y);
            }
            if exists|j: int| 0 <= j < n && store@[j].0 == y {
                let j = choose|j: int| 0 <= j < n && store@[j].0 == y;
                assert(key_at(store@, y, j));
            }
        }
    }
    out
}

/// Information about a registered plugin kind.
pub struct PluginKindInfo {
    /// The plugin kind identifier.
    pub kind: String,
    /// The semver version of the plugin's configuration DTO.
    pub config_version: String,
    /// The plugin's configuration schema as a JSON string.
    pub config_schema_json: String,
    /// The OpenAPI schema name for this plugin's config DTO.
    pub config_schema_name: String,
}

/// The mathematical form of plugin information.
pub struct PluginInfoView {
    pub kind: Seq<char>,
    pub config_version: Seq<char>,
    pub config_schema_json: Seq<char>,
    pub config_schema_name: Seq<char>,
}

impl View for PluginKindInfo {
    type V = PluginInfoView;

    open spec fn view(&self) -> PluginInfoView {
        PluginInfoView {
            kind: self.kind@,
            config_version: self.config_version@,
            config_schema_json: self.config_schema_json@,
            config_schema_name: self.config_schema_name@,
        }
    }
}

impl PluginKindInfo {
    /// A copy of this information.
    pub fn copy(&self) -> (r: PluginKindInfo)
        ensures
            r@ == self@,
    {
        PluginKindInfo {
            kind: self.kind.clone(),
            config_version: self.config_version.clone(),
            config_schema_json: self.config_schema_json.clone(),
            config_schema_name: self.config_schema_name.clone(),
        }
    }
}

/// A registered descriptor with the information it reports about itself.
pub struct Registered<D> {
    pub info: PluginKindInfo,
    pub descriptor: D,
}

/// Registry of all known plugin descriptors, keyed by kind: `S`, `R` and `B`
/// are the descriptor handles of sources, reactions and bootstrappers.
pub struct PluginRegistry<S, R, B> {
    sources: KeyedStore<Registered<S>>,
    reactions: KeyedStore<Registered<R>>,
    bootstrappers: KeyedStore<Registered<B>>,
}

/// The plugins of one category: each kind with the information its
/// descriptor reports.
pub open spec fn infos_of<D>(e: Seq<(Seq<char>, Registered<D>)>) -> Seq<(Seq<char>, PluginInfoView)> {
    e.map_values(|p: (Seq<char>, Registered<D>)| (p.0, p.1.info@))
}

/// `infos` lists, in increasing order of kind, the information of exactly
/// the registered kinds.
pub open spec fn infos_listed<D>(e: Seq<(Seq<char>, Registered<D>)>, infos: Seq<PluginInfoView>) -> bool {
    let kinds = infos.map_values(|i: PluginInfoView| i.kind);
    &&& strictly_sorted(kinds)
    &&& infos.len() == e.len()
    &&& forall|y: Seq<char>| kinds.contains(y) <==> has_key(e, y)
    &&& forall|i: int| 0 <= i < infos.len() ==> (value_of(e, #[trigger] infos[i].kind) matches Some(r) && r.info@ == infos[i])
}

/// Every registered descriptor reports the kind it is registered under.
pub open spec fn kinds_match<D>(e: Seq<(Seq<char>, Registered<D>)>) -> bool {
    forall|i: int| 0 <= i < e.len() ==> (#[trigger] e[i]).1.info.kind@ == e[i].0
}

/// Registers a descriptor under the kind it reports, replacing any
/// descriptor of that kind.
fn register_in<D>(store: &mut KeyedStore<Registered<D>>, info: PluginKindInfo, descriptor: D)
    requires
        old(store).wf(),
        kinds_match(old(store)@),
    ensures
        final(store).wf(),
        kinds_match(final(store)@),
        final(store)@ == put(old(store)@, info.kind@, Registered { info, descriptor }),
{
    let ghost pre = store@;
    let kind = info.kind.clone();
    let ghost entry = Registered { info, descriptor };
    store.insert(kind, Registered { info, descriptor });
    proof {
        let post = store@;
        assert forall|i: int| 0 <= i < post.len() implies (#[trigger] post[i]).1.info.kind@ == post[i].0 by {
            if has_key(pre, entry.info.kind@) {
                if i != crate::keyed::key_pos(pre, entry.info.kind@) {
                    assert(post[i] == pre[i]);
                }
            } else if i < pre.len() {
                assert(post[i] == pre[i]);
            }
        }
    }
}

/// The information of every registered descriptor, in increasing order of kind.
fn infos_in<D>(store: &KeyedStore<Registered<D>>) -> (r: Vec<PluginKindInfo>)
    requires
        store.wf(),
        kinds_match(store@),
    ensures
        infos_listed(store@, crate::config::seq_views(r@)),
{
    proof {
        store.lemma_wf_distinct();
    }
    let kinds = sorted_keys(store);
    let mut out: Vec<PluginKindInfo> = Vec::new();
    let mut i: usize = 0;
    while i < kinds.len()
        invariant
            store.wf(),
            kinds_match(store@),
            keys_distinct(store@),
            i <= kinds.len(),
            out@.len() == i,
            forall|y: Seq<char>| strings_view(kinds@).contains(y) <==> has_key(store@, y),
            forall|j: int| 0 <= j < i ==> (#[trigger] out@[j])@.kind == kinds@[j]@,
            forall|j: int| 0 <= j < i ==> (value_of(store@, (#[trigger] out@[j])@.kind) matches Some(r) && r.info@
                == out@[j]@),
        decreases kinds.len() - i,
    {
        assert(strings_view(kinds@)[i as int] == kinds@[i as int]@);
        assert(strings_view(kinds@).contains(kinds@[i as int]@));
        assert(has_key(store@, kinds@[i as int]@));
        proof {
            let p = crate::keyed::key_pos(store@, kinds@[i as int]@);
            crate::keyed::lemma_key_pos(store@, kinds@[i as int]@, p);
            assert(store@[p].1.info.kind@ == kinds@[i as int]@);
        }
        let entry = store.get(kinds[i].as_str()).unwrap();
        let info = PluginKindInfo {
            kind: kinds[i].clone(),
            config_version: entry.info.config_version.clone(),
            config_schema_json: entry.info.config_schema_json.clone(),
            config_schema_name: entry.info.config_schema_name.clone(),
        };
        out.push(info);
        i = i + 1;
    }
    proof {
        let views = crate::config::seq_views(out@);
        let ks = views.map_values(|x: PluginInfoView| x.kind);
        assert(ks =~= strings_view(kinds@));
    }
    out
}

/// The text a registry is described by, given its sorted kinds.
pub open spec fn registry_text(a: Seq<Seq<char>>, b: Seq<Seq<char>>, c: Seq<Seq<char>>) -> Seq<char> {
    "PluginRegistry { sources: "@ + debug_list(a) + ", reactions: "@ + debug_list(b) + ", bootstrappers: "@
        + debug_list(c) + " }"@
}

impl<S, R, B> PluginRegistry<S, R, B> {
    /// The stores agree with their indexes, and every descriptor is
    /// registered under the kind it reports.
    pub closed spec fn wf(&self) -> bool {
        &&& self.sources.wf()
        &&& self.reactions.wf()
        &&& self.bootstrappers.wf()
        &&& kinds_match(self.sources@)
        &&& kinds_match(self.reactions@)
        &&& kinds_match(self.bootstrappers@)
    }

    /// In a well-formed registry no kind is registered twice in a category,
    /// and every descriptor reports the kind it is registered under.
    pub proof fn lemma_kinds_distinct(&self)
        requires
            self.wf(),
        ensures
            keys_distinct(self.sources()),
            keys_distinct(self.reactions()),
            keys_distinct(self.bootstrappers()),
            kinds_match(self.sources()),
            kinds_match(self.reactions()),
            kinds_match(self.bootstrappers()),
    {
        self.sources.lemma_wf_distinct();
        self.reactions.lemma_wf_distinct();
        self.bootstrappers.lemma_wf_distinct();
    }

    /// The registered sources, by kind.
    pub closed spec fn sources(&self) -> Seq<(Seq<char>, Registered<S>)> {
        self.sources@
    }

    /// The registered reactions, by kind.
    pub closed spec fn reactions(&self) -> Seq<(Seq<char>, Registered<R>)> {
        self.reactions@
    }

    /// The registered bootstrappers, by kind.
    pub closed spec fn bootstrappers(&self) -> Seq<(Seq<char>, Registered<B>)> {
        self.bootstrappers@
    }

    /// Create a new empty registry.
    pub fn new() -> (r: PluginRegistry<S, R, B>)
        ensures
            r.wf(),
            r.sources().len() == 0,
            r.reactions().len() == 0,
            r.bootstrappers().len() == 0,
    {
        PluginRegistry { sources: KeyedStore::new(), reactions: KeyedStore::new(), bootstrappers: KeyedStore::new() }
    }

    /// Register a source plugin descriptor, with the information it reports.
    ///
    /// If a source with the same kind is already registered, it is replaced.
    pub fn register_source(&mut self, info: PluginKindInfo, descriptor: S)
        requires
            old(self).wf(),
        ensures
            final(self).wf(),
            final(self).sources() == put(old(self).sources(), info.kind@, Registered { info, descriptor }),
            final(self).reactions() == old(self).reactions(),
            final(self).bootstrappers() == old(self).bootstrappers(),
    {
        register_in(&mut self.sources, info, descriptor);
    }

    /// Register a reaction plugin descriptor, replacing one of the same kind.
    pub fn register_reaction(&mut self, info: PluginKindInfo, descriptor: R)
        requires
            old(self).wf(),
        ensures
            final(self).wf(),
            final(self).reactions() == put(old(self).reactions(), info.kind@, Registered { info, descriptor }),
            final(self).sources() == old(self).sources(),
            final(self).bootstrappers() == old(self).bootstrappers(),
    {
        register_in(&mut self.reactions, info, descriptor);
    }

    /// Register a bootstrap plugin descriptor, replacing one of the same kind.
    pub fn register_bootstrapper(&mut self, info: PluginKindInfo, descriptor: B)
        requires
            old(self).wf(),
        ensures
            final(self).wf(),
            final(self).bootstrappers() == put(old(self).bootstrappers(), info.kind@, Registered { info, descriptor }),
            final(self).sources() == old(self).sources(),
            final(self).reactions() == old(self).reactions(),
    {
        register_in(&mut self.bootstrappers, info, descriptor);
    }

    /// Look up a source plugin descriptor by kind.
    pub fn get_source(&self, kind: &str) -> (r: Option<&S>)
        requires
            self.wf(),
        ensures
            match r {
                Some(d) => value_of(self.sources(), kind@) matches Some(e) && e.descriptor == *d,
                None => value_of(self.sources(), kind@) is None,
            },
    {
        match self.sources.get(kind) {
            Some(e) => Some(&e.descriptor),
            None => None,
        }
    }

    /// Look up a reaction plugin descriptor by kind.
    pub fn get_reaction(&self, kind: &str) -> (r: Option<&R>)
        requires
            self.wf(),
        ensures
            match r {
                Some(d) => value_of(self.reactions(), kind@) matches Some(e) && e.descriptor == *d,
                None => value_of(self.reactions(), kind@) is None,
            },
    {
        match self.reactions.get(kind) {
            Some(e) => Some(&e.descriptor),
            None => None,
        }
    }

    /// Look up a bootstrap plugin descriptor by kind.
    pub fn get_bootstrapper(&self, kind: &str) -> (r: Option<&B>)
        requires
            self.wf(),
        ensures
            match r {
                Some(d) => value_of(self.bootstrappers(), kind@) matches Some(e) && e.descriptor == *d,
                None => value_of(self.bootstrappers(), kind@) is None,
            },
    {
        match self.bootstrappers.get(kind) {
            Some(e) => Some(&e.descriptor),
            None => None,
        }
    }

    /// List all registered source kinds, in increasing order.
    pub fn source_kinds(&self) -> (r: Vec<String>)
        requires
            self.wf(),
        ensures
            strictly_sorted(strings_view(r@)),
            forall|y: Seq<char>| strings_view(r@).contains(y) <==> has_key(self.sources(), y),
    {
        sorted_keys(&self.sources)
    }

    /// List all registered reaction kinds, in increasing order.
    pub fn reaction_kinds(&self) -> (r: Vec<String>)
        requires
            self.wf(),
        ensures
            strictly_sorted(strings_view(r@)),
            forall|y: Seq<char>| strings_view(r@).contains(y) <==> has_key(self.reactions(), y),
    {
        sorted_keys(&self.reactions)
    }

    /// List all registered bootstrapper kinds, in increasing order.
    pub fn bootstrapper_kinds(&self) -> (r: Vec<String>)
        requires
            self.wf(),
        ensures
            strictly_sorted(strings_view(r@)),
            forall|y: Seq<char>| strings_view(r@).contains(y) <==> has_key(self.bootstrappers(), y),
    {
        sorted_keys(&self.bootstrappers)
    }

    /// Information about all registered source plugins, in order of kind.
    pub fn source_plugin_infos(&self) -> (r: Vec<PluginKindInfo>)
        requires
            self.wf(),
        ensures
            infos_listed(self.sources(), crate::config::seq_views(r@)),
    {
        infos_in(&self.sources)
    }

    /// Information about all registered reaction plugins, in order of kind.
    pub fn reaction_plugin_infos(&self) -> (r: Vec<PluginKindInfo>)
        requires
            self.wf(),
        ensures
            infos_listed(self.reactions(), crate::config::seq_views(r@)),
    {
        infos_in(&self.reactions)
    }

    /// Information about all registered bootstrap plugins, in order of kind.
    pub fn bootstrapper_plugin_infos(&self) -> (r: Vec<PluginKindInfo>)
        requires
            self.wf(),
        ensures
            infos_listed(self.bootstrappers(), crate::config::seq_views(r@)),
    {
        infos_in(&self.bootstrappers)
    }

    /// Returns true if the registry contains no descriptors.
    pub fn is_empty(&self) -> (r: bool)
        requires
            self.wf(),
        ensures
            r == (self.sources().len() == 0 && self.reactions().len() == 0 && self.bootstrappers().len() == 0),
    {
        self.sources.len() == 0 && self.reactions.len() == 0 && self.bootstrappers.len() == 0
    }

    /// The registry described as its `Debug` form writes it: the sorted kinds
    /// of its sources, reactions and bootstrappers.
    pub fn describe(&self) -> (r: String)
        requires
            self.wf(),
        ensures
            exists|a: Seq<Seq<char>>, b: Seq<Seq<char>>, c: Seq<Seq<char>>|
                #![trigger registry_text(a, b, c)]
                {
                    &&& strictly_sorted(a) && strictly_sorted(b) && strictly_sorted(c)
                    &&& forall|y: Seq<char>| a.contains(y) <==> has_key(self.sources(), y)
                    &&& forall|y: Seq<char>| b.contains(y) <==> has_key(self.reactions(), y)
                    &&& forall|y: Seq<char>| c.contains(y) <==> has_key(self.bootstrappers(), y)
                    &&& r@ == registry_text(a, b, c)
                },
    {
        let a = self.source_kinds();
        let b = self.reaction_kinds();
        let c = self.bootstrapper_kinds();
        let mut m = owned("PluginRegistry { sources: ");
        m.append(debug_text(&a).as_str());
        m.append(", reactions: ");
        m.append(debug_text(&b).as_str());
        m.append(", bootstrappers: ");
        m.append(debug_text(&c).as_str());
        m.append(" }");
        assert(registry_text(strings_view(a@), strings_view(b@), strings_view(c@)) == m@);
        m
    }

    /// Returns the total number of registered descriptors.
    pub fn descriptor_count(&self) -> (r: usize)
        requires
            self.wf(),
            self.sources().len() + self.reactions().len() + self.bootstrappers().len() <= usize::MAX,
        ensures
            r == self.sources().len() + self.reactions().len() + self.bootstrappers().len(),
    {
        self.sources.len() + self.reactions.len() + self.bootstrappers.len()
    }
}

/// Registering a descriptor makes its kind listed and found with that
/// descriptor; other kinds keep theirs, and a kind registered twice is
/// counted once.
pub proof fn law_register_then_get<D>(
    before: Seq<(Seq<char>, Registered<D>)>,
    info: PluginKindInfo,
    descriptor: D,
    other: Seq<char>,
)
    requires
        keys_distinct(before),
    ensures
        value_of(put(before, info.kind@, Registered { info, descriptor }), info.kind@) == Some(
            Registered { info, descriptor },
        ),
        other != info.kind@ ==> value_of(put(before, info.kind@, Registered { info, descriptor }), other)
            == value_of(before, other),
        has_key(before, info.kind@) ==> put(before, info.kind@, Registered { info, descriptor }).len() == before.len(),
        !has_key(before, info.kind@) ==> put(before, info.kind@, Registered { info, descriptor }).len() == before.len()
            + 1,
{
    lemma_put_get(before, info.kind@, Registered { info, descriptor }, other);
}

} // verus!
