//! The server's start-up decisions: where an instance keeps its index, in
//! which mode the API runs, which instances run under which ids, and which
//! component configurations persistence starts from.

use vstd::prelude::*;
use crate::config::{DrasiServerConfig, QueryConfigDto, QueryView, ResolvedInstanceConfig, seq_views};
use crate::keyed::{KeyedStore, entries_view, has_key, key_pos, keys_distinct, lemma_entries_view_put, put};
use crate::models::{SourceConfig, SourceView};
use crate::persistence::{stores_view, stores_wf};
use crate::reaction::{ReactionConfig, ReactionView};
use crate::text::{chars_of, owned, string_of};

verus! {

// ---------------------------------------------------------------------------
// Index location
// ---------------------------------------------------------------------------

/// An instance id with path separators made harmless: every `/` and `\`
/// becomes `_`.
pub open spec fn separators_replaced(s: Seq<char>) -> Seq<char> {
    s.map_values(|c: char| if c == '/' || c == '\\' { '_' } else { c })
}

/// `s` with every `..` (taken left to right, without overlap) replaced by `_`.
pub open spec fn dots_replaced(s: Seq<char>) -> Seq<char>
    decreases s.len(),
{
    if s.len() < 2 {
        s
    } else if s[0] == '.' && s[1] == '.' {
        seq!['_'] + dots_replaced(s.subrange(2, s.len() as int))
    } else {
        seq![s[0]] + dots_replaced(s.drop_first())
    }
}

/// The directory name under which an instance keeps its persistent index.
pub open spec fn safe_id_spec(id: Seq<char>) -> Seq<char> {
    dots_replaced(separators_replaced(id))
}

/// `s` holds no path separator, `/` or `\`.
pub open spec fn no_separator(s: Seq<char>) -> bool {
    forall|i: int| 0 <= i < s.len() ==> #[trigger] s[i] != '/' && s[i] != '\\'
}

/// `s` holds no `..`.
pub open spec fn no_parent_step(s: Seq<char>) -> bool {
    forall|i: int| 0 <= i < s.len() - 1 ==> !(#[trigger] s[i] == '.' && s[i + 1] == '.')
}

/// The first character of a text with its `..` replaced.
proof fn lemma_dots_first(s: Seq<char>)
    requires
        s.len() > 0,
    ensures
        dots_replaced(s).len() > 0,
        dots_replaced(s)[0] == (if s.len() >= 2 && s[0] == '.' && s[1] == '.' { '_' } else { s[0] }),
{
}

/// Replacing `..` leaves no `..` behind and brings in no separator.
proof fn lemma_dots_clean(s: Seq<char>)
    ensures
        no_parent_step(dots_replaced(s)),
        no_separator(s) ==> no_separator(dots_replaced(s)),
    decreases s.len(),
{
    if s.len() < 2 {
    } else if s[0] == '.' && s[1] == '.' {
        let rest = s.subrange(2, s.len() as int);
        lemma_dots_clean(rest);
        let r = dots_replaced(rest);
        assert(dots_replaced(s) == seq!['_'] + r);
        assert forall|i: int| 0 <= i < dots_replaced(s).len() - 1 implies !(#[trigger] dots_replaced(s)[i] == '.'
            && dots_replaced(s)[i + 1] == '.') by {
            if i > 0 {
                assert(dots_replaced(s)[i] == r[i - 1]);
                assert(dots_replaced(s)[i + 1] == r[i]);
            }
        }
        if no_separator(s) {
            assert forall|i: int| 0 <= i < rest.len() implies #[trigger] rest[i] != '/' && rest[i] != '\\' by {
                assert(rest[i] == s[i + 2]);
            }
            assert forall|i: int| 0 <= i < dots_replaced(s).len() implies #[trigger] dots_replaced(s)[i] != '/'
                && dots_replaced(s)[i] != '\\' by {
                if i > 0 {
                    assert(dots_replaced(s)[i] == r[i - 1]);
                }
            }
        }
    } else {
        let rest = s.drop_first();
        lemma_dots_clean(rest);
        let r = dots_replaced(rest);
        assert(dots_replaced(s) == seq![s[0]] + r);
        lemma_dots_first(rest);
        assert forall|i: int| 0 <= i < dots_replaced(s).len() - 1 implies !(#[trigger] dots_replaced(s)[i] == '.'
            && dots_replaced(s)[i + 1] == '.') by {
            if i > 0 {
                assert(dots_replaced(s)[i] == r[i - 1]);
                assert(dots_replaced(s)[i + 1] == r[i]);
            } else {
                assert(dots_replaced(s)[1] == r[0]);
            }
        }
        if no_separator(s) {
            assert forall|i: int| 0 <= i < rest.len() implies #[trigger] rest[i] != '/' && rest[i] != '\\' by {
                assert(rest[i] == s[i + 1]);
            }
            assert forall|i: int| 0 <= i < dots_replaced(s).len() implies #[trigger] dots_replaced(s)[i] != '/'
                && dots_replaced(s)[i] != '\\' by {
                if i > 0 {
                    assert(dots_replaced(s)[i] == r[i - 1]);
                } else {
                    assert(s[0] != '/');
                }
            }
        }
    }
}

/// An instance's index directory stays inside `./data`: its name holds no
/// `/`, no `\` and no `..`, whatever the instance id.
pub proof fn law_safe_id_confined(id: Seq<char>)
    ensures
        no_separator(safe_id_spec(id)),
        no_parent_step(safe_id_spec(id)),
{
    let s = separators_replaced(id);
    assert forall|i: int| 0 <= i < s.len() implies #[trigger] s[i] != '/' && s[i] != '\\' by {}
    lemma_dots_clean(s);
}

/// `t[i..]` with every `..` replaced by `_`.
fn replace_dots_from(t: &Vec<char>, i: usize) -> (r: Vec<char>)
    requires
        i <= t@.len(),
    ensures
        r@ == dots_replaced(t@.subrange(i as int, t@.len() as int)),
    decreases t@.len() - i,
{
    let n = t.len();
    let ghost rest = t@.subrange(i as int, n as int);
    if n - i < 2 {
        let mut out: Vec<char> = Vec::new();
        if n - i == 1 {
            out.push(t[i]);
        }
        assert(out@ =~= rest);
        out
    } else if t[i] == '.' && t[i + 1] == '.' {
        let tail = replace_dots_from(t, i + 2);
        assert(rest.subrange(2, rest.len() as int) =~= t@.subrange(i + 2, n as int));
        let mut out: Vec<char> = Vec::new();
        out.push('_');
        let mut j: usize = 0;
        while j < tail.len()
            invariant
                j <= tail@.len(),
                out@ == seq!['_'] + tail@.subrange(0, j as int),
            decreases tail.len() - j,
        {
            out.push(tail[j]);
            j = j + 1;
            assert(out@ =~= seq!['_'] + tail@.subrange(0, j as int));
        }
        assert(tail@.subrange(0, tail@.len() as int) =~= tail@);
        out
    } else {
        let tail = replace_dots_from(t, i + 1);
        assert(rest.drop_first() =~= t@.subrange(i + 1, n as int));
        let mut out: Vec<char> = Vec::new();
        out.push(t[i]);
        let mut j: usize = 0;
        while j < tail.len()
            invariant
                j <= tail@.len(),
                out@ == seq![t@[i as int]] + tail@.subrange(0, j as int),
            decreases tail.len() - j,
        {
            out.push(tail[j]);
            j = j + 1;
            assert(out@ =~= seq![t@[i as int]] + tail@.subrange(0, j as int));
        }
        assert(tail@.subrange(0, tail@.len() as int) =~= tail@);
        out
    }
}

/// The directory name under which an instance keeps its persistent index.
pub fn safe_instance_id(id: &str) -> (r: String)
    ensures
        r@ == safe_id_spec(id@),
{
    let t = chars_of(id);
    let mut s: Vec<char> = Vec::new();
    let mut i: usize = 0;
    while i < t.len()
        invariant
            t@ == id@,
            i <= t@.len(),
            s@ == separators_replaced(t@.subrange(0, i as int)),
        decreases t.len() - i,
    {
        let c = t[i];
        if c == '/' || c == '\\' {
            s.push('_');
        } else {
            s.push(c);
        }
        i = i + 1;
        assert(s@ =~= separators_replaced(t@.subrange(0, i as int)));
    }
    assert(t@.subrange(0, t@.len() as int) =~= t@);
    let r = replace_dots_from(&s, 0);
    assert(s@.subrange(0, s@.len() as int) =~= s@);
    string_of(&r)
}

/// Where an instance keeps its persistent index: `./data/<safe id>/index`.
pub fn index_path(id: &str) -> (r: String)
    ensures
        r@ == "./data/"@ + safe_id_spec(id@) + "/index"@,
{
    let mut p = owned("./data/");
    p.append(safe_instance_id(id).as_str());
    p.append("/index");
    p
}

// ---------------------------------------------------------------------------
// API mode and persistence
// ---------------------------------------------------------------------------

/// How the API treats changes.
#[derive(Debug, Clone, Copy, PartialEq, Eq, Structural)]
pub enum ApiMode {
    /// The config file is not writable: components cannot be created or
    /// deleted through the API.
    ReadOnly,
    /// Changes are accepted but not saved (`persistConfig: false`).
    Unsaved,
    /// Changes are accepted and saved to the config file.
    Persisted,
}

/// The API's mode: read-only exactly when the config file is not writable;
/// otherwise changes are saved when persistence is configured.
pub fn api_mode(file_writable: bool, persist_config: bool) -> (r: ApiMode)
    ensures
        r == (if !file_writable {
            ApiMode::ReadOnly
        } else if !persist_config {
            ApiMode::Unsaved
        } else {
            ApiMode::Persisted
        }),
{
    if !file_writable {
        ApiMode::ReadOnly
    } else if !persist_config {
        ApiMode::Unsaved
    } else {
        ApiMode::Persisted
    }
}

/// Whether a running server saves API changes: only with a config file, not
/// read-only, and with persistence configured.
pub fn persistence_active(has_config_file: bool, read_only: bool, persist_config: bool) -> (r: bool)
    ensures
        r == (has_config_file && !read_only && persist_config),
{
    has_config_file && !read_only && persist_config
}

// ---------------------------------------------------------------------------
// Running instances
// ---------------------------------------------------------------------------

/// The instances that run, keyed by id (a later instance with the same id
/// takes the earlier one's place and handle), with their index settings.
pub open spec fn running_instances_spec<T>(ids: Seq<(Seq<char>, bool, T)>, n: int) -> Seq<(Seq<char>, (bool, T))>
    decreases n,
{
    if n <= 0 || n > ids.len() {
        Seq::empty()
    } else {
        put(running_instances_spec(ids, n - 1), ids[n - 1].0, (ids[n - 1].1, ids[n - 1].2))
    }
}

/// The running instances by id, or an error when there are none.
pub fn collect_instances<T>(prepared: Vec<(String, bool, T)>) -> (r: Result<KeyedStore<(bool, T)>, String>)
    ensures
        r is Err <==> prepared@.len() == 0,
        r matches Err(m) ==> m@ == "No DrasiLib instances configured for this server"@,
        r matches Ok(s) ==> s.wf() && s@ == running_instances_spec(
            prepared@.map_values(|p: (String, bool, T)| (p.0@, p.1, p.2)),
            prepared@.len() as int,
        ),
{
    let ghost items = prepared@.map_values(|p: (String, bool, T)| (p.0@, p.1, p.2));
    let n = prepared.len();
    if n == 0 {
        return Err(owned("No DrasiLib instances configured for this server"));
    }
    let mut store: KeyedStore<(bool, T)> = KeyedStore::new();
    let mut rest = prepared;
    let mut i: usize = 0;
    while i < n
        invariant
            n == items.len(),
            i <= n,
            store.wf(),
            rest@.len() == n - i,
            forall|k: int| i <= k < n ==> (rest@[k - i].0@, rest@[k - i].1, rest@[k - i].2) == #[trigger] items[k],
            store@ == running_instances_spec(items, i as int),
        decreases n - i,
    {
        assert(items[i as int] == (rest@[0].0@, rest@[0].1, rest@[0].2));
        let ghost before = rest@;
        let (id, persist_index, handle) = rest.remove(0);
        assert forall|k: int| i + 1 <= k < n implies (rest@[k - (i + 1)].0@, rest@[k - (i + 1)].1, rest@[k
            - (i + 1)].2) == #[trigger] items[k] by {
            assert(rest@[k - (i + 1)] == before[k - i]);
        }
        store.insert(id, (persist_index, handle));
        i = i + 1;
    }
    Ok(store)
}

// ---------------------------------------------------------------------------
// Initial component configurations for persistence
// ---------------------------------------------------------------------------

/// The components of a list keyed by id: a later one with the same id takes
/// the earlier one's place.
pub open spec fn by_id<A>(items: Seq<A>, id_of: spec_fn(A) -> Seq<char>, n: int) -> Seq<(Seq<char>, A)>
    decreases n,
{
    if n <= 0 || n > items.len() {
        Seq::empty()
    } else {
        put(by_id(items, id_of, n - 1), id_of(items[n - 1]), items[n - 1])
    }
}

/// The sources of a list, keyed by id.
fn sources_by_id(v: &Vec<SourceConfig>) -> (r: KeyedStore<SourceConfig>)
    ensures
        r.wf(),
        entries_view(r@) == by_id(seq_views(v@), |s: SourceView| s.id, v@.len() as int),
{
    let mut store: KeyedStore<SourceConfig> = KeyedStore::new();
    let mut i: usize = 0;
    while i < v.len()
        invariant
            i <= v.len(),
            store.wf(),
            entries_view(store@) == by_id(seq_views(v@), |s: SourceView| s.id, i as int),
        decreases v.len() - i,
    {
        let c = v[i].copy();
        let ghost pre = store@;
        proof {
            store.lemma_wf_distinct();
            lemma_entries_view_put(pre, c.id@, c);
        }
        store.insert(c.id.clone(), c);
        i = i + 1;
    }
    store
}

/// The reactions of a list, keyed by id.
fn reactions_by_id(v: &Vec<ReactionConfig>) -> (r: KeyedStore<ReactionConfig>)
    ensures
        r.wf(),
        entries_view(r@) == by_id(seq_views(v@), |s: ReactionView| s.id, v@.len() as int),
{
    let mut store: KeyedStore<ReactionConfig> = KeyedStore::new();
    let mut i: usize = 0;
    while i < v.len()
        invariant
            i <= v.len(),
            store.wf(),
            entries_view(store@) == by_id(seq_views(v@), |s: ReactionView| s.id, i as int),
        decreases v.len() - i,
    {
        let c = v[i].copy();
        let ghost pre = store@;
        proof {
            store.lemma_wf_distinct();
            lemma_entries_view_put(pre, c.id@, c);
        }
        store.insert(c.id.clone(), c);
        i = i + 1;
    }
    store
}

/// The queries of a list, keyed by id.
fn queries_by_id(v: &Vec<QueryConfigDto>) -> (r: KeyedStore<QueryConfigDto>)
    ensures
        r.wf(),
        entries_view(r@) == by_id(seq_views(v@), |s: QueryView| s.id, v@.len() as int),
{
    let mut store: KeyedStore<QueryConfigDto> = KeyedStore::new();
    let mut i: usize = 0;
    while i < v.len()
        invariant
            i <= v.len(),
            store.wf(),
            entries_view(store@) == by_id(seq_views(v@), |s: QueryView| s.id, i as int),
        decreases v.len() - i,
    {
        let c = v[i].copy();
        let ghost pre = store@;
        proof {
            store.lemma_wf_distinct();
            lemma_entries_view_put(pre, c.id@, c);
        }
        store.insert(c.id.clone(), c);
        i = i + 1;
    }
    store
}

/// Stores keyed by instance id: a later instance with the same id takes the
/// earlier one's place.
pub open spec fn keyed_by_instance<A>(ids: Seq<Seq<char>>, stores: Seq<Seq<(Seq<char>, A)>>, n: int) -> Seq<
    (Seq<char>, Seq<(Seq<char>, A)>),
>
    decreases n,
{
    if n <= 0 || n > ids.len() {
        Seq::empty()
    } else {
        put(keyed_by_instance(ids, stores, n - 1), ids[n - 1], stores[n - 1])
    }
}

/// The ids of resolved instances.
pub open spec fn resolved_ids(r: Seq<ResolvedInstanceConfig>) -> Seq<Seq<char>> {
    r.map_values(|x: ResolvedInstanceConfig| x.id@)
}

/// The query configurations persistence starts from for resolved instance
/// `i`: the top-level queries in the single-instance layout, otherwise the
/// queries of the `i`-th configured instance.
pub open spec fn initial_queries(c: DrasiServerConfig, i: int) -> Seq<QueryView> {
    if c.instances@.len() == 0 {
        seq_views(c.queries@)
    } else {
        seq_views(c.instances@[i].queries@)
    }
}

/// Storing a store under a key commutes with taking views.
proof fn lemma_stores_view_put<V: View>(s: Seq<(Seq<char>, KeyedStore<V>)>, k: Seq<char>, v: KeyedStore<V>)
    requires
        keys_distinct(s),
    ensures
        stores_view(put(s, k, v)) == put(stores_view(s), k, entries_view(v@)),
{
    let t = stores_view(s);
    crate::keyed::lemma_same_keys(s, t, k);
    assert(stores_view(put(s, k, v)) =~= put(t, k, entries_view(v@)));
}

/// Inserting into a store of stores keeps every inner store well formed.
proof fn lemma_stores_wf_put<V>(before: KeyedStore<KeyedStore<V>>, after: KeyedStore<KeyedStore<V>>, k: Seq<char>, v: KeyedStore<V>)
    requires
        stores_wf(before),
        after.wf(),
        v.wf(),
        after@ == put(before@, k, v),
    ensures
        stores_wf(after),
{
    before.lemma_wf_distinct();
    assert forall|i: int| 0 <= i < after@.len() implies (#[trigger] after@[i]).1.wf() by {
        if has_key(before@, k) {
            let p = key_pos(before@, k);
            if i != p {
                assert(after@[i] == before@[i]);
            }
        } else if i < before@.len() {
            assert(after@[i] == before@[i]);
        }
    }
}

/// The component configurations persistence starts from: for each resolved
/// instance, its sources and reactions keyed by id, and its queries (as
/// configured) keyed by id.
pub fn extract_component_configs(config: &DrasiServerConfig, resolved: &Vec<ResolvedInstanceConfig>) -> (r: (
    KeyedStore<KeyedStore<SourceConfig>>,
    KeyedStore<KeyedStore<ReactionConfig>>,
    KeyedStore<KeyedStore<QueryConfigDto>>,
))
    requires
        config.instances@.len() == 0 || resolved@.len() <= config.instances@.len(),
    ensures
        stores_wf(r.0),
        stores_wf(r.1),
        stores_wf(r.2),
        stores_view(r.0@) == keyed_by_instance(
            resolved_ids(resolved@),
            Seq::new(
                resolved@.len(),
                |i: int| by_id(seq_views(resolved@[i].sources@), |s: SourceView| s.id, resolved@[i].sources@.len() as int),
            ),
            resolved@.len() as int,
        ),
        stores_view(r.1@) == keyed_by_instance(
            resolved_ids(resolved@),
            Seq::new(
                resolved@.len(),
                |i: int|
                    by_id(seq_views(resolved@[i].reactions@), |s: ReactionView| s.id, resolved@[i].reactions@.len() as int),
            ),
            resolved@.len() as int,
        ),
        stores_view(r.2@) == keyed_by_instance(
            resolved_ids(resolved@),
            Seq::new(
                resolved@.len(),
                |i: int| by_id(initial_queries(*config, i), |s: QueryView| s.id, initial_queries(*config, i).len() as int),
            ),
            resolved@.len() as int,
        ),
{
    let ghost ids = resolved_ids(resolved@);
    let ghost src_stores = Seq::new(
        resolved@.len(),
        |i: int| by_id(seq_views(resolved@[i].sources@), |s: SourceView| s.id, resolved@[i].sources@.len() as int),
    );
    let ghost rea_stores = Seq::new(
        resolved@.len(),
        |i: int| by_id(seq_views(resolved@[i].reactions@), |s: ReactionView| s.id, resolved@[i].reactions@.len() as int),
    );
    let ghost qry_stores = Seq::new(
        resolved@.len(),
        |i: int| by_id(initial_queries(*config, i), |s: QueryView| s.id, initial_queries(*config, i).len() as int),
    );
    let mut sources: KeyedStore<KeyedStore<SourceConfig>> = KeyedStore::new();
    let mut reactions: KeyedStore<KeyedStore<ReactionConfig>> = KeyedStore::new();
    let mut queries: KeyedStore<KeyedStore<QueryConfigDto>> = KeyedStore::new();
    proof {
        assert(stores_view(sources@) =~= Seq::<(Seq<char>, Seq<(Seq<char>, SourceView)>)>::empty());
        assert(stores_view(reactions@) =~= Seq::<(Seq<char>, Seq<(Seq<char>, ReactionView)>)>::empty());
        assert(stores_view(queries@) =~= Seq::<(Seq<char>, Seq<(Seq<char>, QueryView)>)>::empty());
    }
    let mut i: usize = 0;
    while i < resolved.len()
        invariant
            config.instances@.len() == 0 || resolved@.len() <= config.instances@.len(),
            i <= resolved@.len(),
            ids == resolved_ids(resolved@),
            src_stores == Seq::new(
                resolved@.len(),
                |i: int| by_id(seq_views(resolved@[i].sources@), |s: SourceView| s.id, resolved@[i].sources@.len() as int),
            ),
            rea_stores == Seq::new(
                resolved@.len(),
                |i: int|
                    by_id(seq_views(resolved@[i].reactions@), |s: ReactionView| s.id, resolved@[i].reactions@.len() as int),
            ),
            qry_stores == Seq::new(
                resolved@.len(),
                |i: int| by_id(initial_queries(*config, i), |s: QueryView| s.id, initial_queries(*config, i).len() as int),
            ),
            stores_wf(sources),
            stores_wf(reactions),
            stores_wf(queries),
            stores_view(sources@) == keyed_by_instance(ids, src_stores, i as int),
            stores_view(reactions@) == keyed_by_instance(ids, rea_stores, i as int),
            stores_view(queries@) == keyed_by_instance(ids, qry_stores, i as int),
        decreases resolved.len() - i,
    {
        let inst = &resolved[i];
        let s = sources_by_id(&inst.sources);
        let r = reactions_by_id(&inst.reactions);
        let q = if config.instances.len() == 0 {
            queries_by_id(&config.queries)
        } else {
            queries_by_id(&config.instances[i].queries)
        };
        let ghost (s0, r0, q0) = (sources, reactions, queries);
        proof {
            sources.lemma_wf_distinct();
            reactions.lemma_wf_distinct();
            queries.lemma_wf_distinct();
            lemma_stores_view_put(s0@, inst.id@, s);
            lemma_stores_view_put(r0@, inst.id@, r);
            lemma_stores_view_put(q0@, inst.id@, q);
            assert(ids[i as int] == inst.id@);
        }
        sources.insert(inst.id.clone(), s);
        reactions.insert(inst.id.clone(), r);
        queries.insert(inst.id.clone(), q);
        proof {
            lemma_stores_wf_put(s0, sources, inst.id@, s);
            lemma_stores_wf_put(r0, reactions, inst.id@, r);
            lemma_stores_wf_put(q0, queries, inst.id@, q);
        }
        i = i + 1;
    }
    (sources, reactions, queries)
}

} // verus!
