//! Persistence of the server configuration: the component configurations
//! registered through the API, per instance, and the configuration that is
//! written back to the config file.

use vstd::prelude::*;
use crate::config::{
    ConfigError, ConfigErrorView, DrasiLibInstanceConfig, DrasiServerConfig, InstanceView, QueryConfigDto, QueryView,
    copy_state_store, default_plugin_registry, opt_view,
    seq_views, validate_spec,
};
use crate::config_value::{ConfigValueView, opt_chars};
use crate::keyed::{
    KeyedStore, entries_view, has_key, key_at, key_pos, keys_distinct, lemma_entries_view, lemma_entries_view_put, lemma_key_pos, lemma_put_get, lemma_swap_remove_get,
    lemma_same_keys, put, swap_remove_key, value_of, keys_of,
};
use crate::models::{ConfigValue, SourceConfig, SourceView};
use crate::reaction::{ReactionConfig, ReactionView};
use crate::resolve::Env;

verus! {

/// Component stores per instance: instance id, then component id.
pub open spec fn stores_wf<V>(s: KeyedStore<KeyedStore<V>>) -> bool {
    &&& s.wf()
    &&& forall|i: int| 0 <= i < s@.len() ==> (#[trigger] s@[i]).1.wf()
}

/// The components per instance, taken by view.
pub open spec fn stores_view<V: View>(s: Seq<(Seq<char>, KeyedStore<V>)>) -> Seq<(Seq<char>, Seq<(Seq<char>, V::V)>)> {
    s.map_values(|p: (Seq<char>, KeyedStore<V>)| (p.0, entries_view(p.1@)))
}

/// The components after storing `v` under `k` in instance `inst`: the
/// instance's store is created when it has none.
pub open spec fn nested_put<A>(o: Seq<(Seq<char>, Seq<(Seq<char>, A)>)>, inst: Seq<char>, k: Seq<char>, v: A) -> Seq<
    (Seq<char>, Seq<(Seq<char>, A)>),
> {
    if has_key(o, inst) {
        o.update(key_pos(o, inst), (inst, put(o[key_pos(o, inst)].1, k, v)))
    } else {
        o.push((inst, seq![(k, v)]))
    }
}

/// The components after removing `k` from instance `inst` (the instance's
/// last component takes its place).
pub open spec fn nested_remove<A>(o: Seq<(Seq<char>, Seq<(Seq<char>, A)>)>, inst: Seq<char>, k: Seq<char>) -> Seq<
    (Seq<char>, Seq<(Seq<char>, A)>),
> {
    if has_key(o, inst) {
        o.update(key_pos(o, inst), (inst, swap_remove_key(o[key_pos(o, inst)].1, k)))
    } else {
        o
    }
}

/// The component `k` of instance `inst`.
pub open spec fn nested_get<A>(o: Seq<(Seq<char>, Seq<(Seq<char>, A)>)>, inst: Seq<char>, k: Seq<char>) -> Option<A> {
    match value_of(o, inst) {
        Some(inner) => value_of(inner, k),
        None => None,
    }
}

/// The components of instance `inst`, in order.
pub open spec fn nested_values<A>(o: Seq<(Seq<char>, Seq<(Seq<char>, A)>)>, inst: Seq<char>) -> Seq<A> {
    match value_of(o, inst) {
        Some(inner) => inner.map_values(|p: (Seq<char>, A)| p.1),
        None => Seq::empty(),
    }
}

/// Keys and positions of the per-instance view are those of the store.
proof fn lemma_stores_view<V: View>(s: KeyedStore<KeyedStore<V>>, inst: Seq<char>)
    requires
        stores_wf(s),
    ensures
        keys_distinct(stores_view(s@)),
        has_key(stores_view(s@), inst) == has_key(s@, inst),
        has_key(s@, inst) ==> key_pos(stores_view(s@), inst) == key_pos(s@, inst) && key_at(s@, inst, key_pos(s@, inst)),
{
    s.lemma_wf_distinct();
    lemma_same_keys(s@, stores_view(s@), inst);
}

/// Stores `v` under `k` in instance `inst`.
fn nested_insert<V: View>(o: &mut KeyedStore<KeyedStore<V>>, inst: &str, k: String, v: V)
    requires
        stores_wf(*old(o)),
    ensures
        stores_wf(*final(o)),
        stores_view(final(o)@) == nested_put(stores_view(old(o)@), inst@, k@, v@),
{
    let ghost pre = o@;
    proof {
        lemma_stores_view(*o, inst@);
    }
    match o.position(inst) {
        Some(i) => {
            proof {
                o.lemma_wf_distinct();
                lemma_key_pos(pre, inst@, i as int);
            }
            let mut inner = o.replace_at(i, KeyedStore::new());
            let ghost inner_pre = inner@;
            proof {
                inner.lemma_wf_distinct();
                lemma_entries_view(inner_pre, k@);
                lemma_entries_view_put(inner_pre, k@, v);
            }
            inner.insert(k, v);
            o.replace_at(i, inner);
            proof {
                assert forall|j: int| 0 <= j < o@.len() implies (#[trigger] o@[j]).1.wf() by {
                    if j != i {
                        assert(o@[j] == pre[j]);
                    }
                }
                assert(stores_view(o@) =~= nested_put(stores_view(pre), inst@, k@, v@));
            }
        },
        None => {
            let mut inner: KeyedStore<V> = KeyedStore::new();
            let ghost empty = inner@;
            proof {
                inner.lemma_wf_distinct();
                lemma_entries_view(empty, k@);
                lemma_entries_view_put(empty, k@, v);
            }
            inner.insert(k, v);
            proof {
                assert(!has_key(empty, k@));
                assert(inner@ == empty.push((k@, v)));
                assert(entries_view(inner@) =~= seq![(k@, v@)]);
            }
            o.insert(inst.to_string(), inner);
            proof {
                assert(o@ == pre.push((inst@, inner)));
                assert forall|j: int| 0 <= j < o@.len() implies (#[trigger] o@[j]).1.wf() by {
                    if j < pre.len() {
                        assert(o@[j] == pre[j]);
                    }
                }
                assert(stores_view(o@) =~= nested_put(stores_view(pre), inst@, k@, v@));
            }
        },
    }
}

/// Removes `k` from instance `inst`, the instance's last component taking
/// its place.
fn nested_swap_remove<V: View>(o: &mut KeyedStore<KeyedStore<V>>, inst: &str, k: &str)
    requires
        stores_wf(*old(o)),
    ensures
        stores_wf(*final(o)),
        stores_view(final(o)@) == nested_remove(stores_view(old(o)@), inst@, k@),
{
    let ghost pre = o@;
    proof {
        lemma_stores_view(*o, inst@);
    }
    match o.position(inst) {
        Some(i) => {
            proof {
                o.lemma_wf_distinct();
                lemma_key_pos(pre, inst@, i as int);
            }
            let mut inner = o.replace_at(i, KeyedStore::new());
            let ghost inner_pre = inner@;
            proof {
                inner.lemma_wf_distinct();
                lemma_entries_view(inner_pre, k@);
            }
            inner.swap_remove(k);
            o.replace_at(i, inner);
            proof {
                assert forall|j: int| 0 <= j < o@.len() implies (#[trigger] o@[j]).1.wf() by {
                    if j != i {
                        assert(o@[j] == pre[j]);
                    }
                }
                assert(stores_view(o@) =~= nested_remove(stores_view(pre), inst@, k@));
            }
        },
        None => {
            assert(stores_view(o@) =~= nested_remove(stores_view(pre), inst@, k@));
        },
    }
}

/// The component `k` of instance `inst`.
fn nested_lookup<'a, V: View>(o: &'a KeyedStore<KeyedStore<V>>, inst: &str, k: &str) -> (r: Option<&'a V>)
    requires
        stores_wf(*o),
    ensures
        match r {
            Some(x) => nested_get(stores_view(o@), inst@, k@) == Some(x@),
            None => nested_get(stores_view(o@), inst@, k@) is None,
        },
{
    proof {
        lemma_stores_view(*o, inst@);
        o.lemma_wf_distinct();
    }
    match o.position(inst) {
        Some(i) => {
            proof {
                lemma_key_pos(o@, inst@, i as int);
                lemma_key_pos(stores_view(o@), inst@, i as int);
            }
            let inner = o.value_at(i);
            proof {
                inner.lemma_wf_distinct();
                lemma_entries_view(inner@, k@);
            }
            inner.get(k)
        },
        None => None,
    }
}

/// Every instance's components have distinct ids, and instance ids are distinct.
pub open spec fn nested_distinct<A>(o: Seq<(Seq<char>, Seq<(Seq<char>, A)>)>) -> bool {
    &&& keys_distinct(o)
    &&& forall|i: int| 0 <= i < o.len() ==> keys_distinct(#[trigger] o[i].1)
}

/// Well-formed stores have distinct ids at both levels.
proof fn lemma_stores_distinct<V: View>(s: KeyedStore<KeyedStore<V>>)
    requires
        stores_wf(s),
    ensures
        nested_distinct(stores_view(s@)),
{
    lemma_stores_view(s, Seq::empty());
    assert forall|i: int| 0 <= i < stores_view(s@).len() implies keys_distinct(#[trigger] stores_view(s@)[i].1) by {
        assert(s@[i].1.wf());
        s@[i].1.lemma_wf_distinct();
        lemma_entries_view(s@[i].1@, Seq::empty());
    }
}

/// A component stored under `(inst, k)` is found there afterwards, and every
/// other component is unchanged; distinctness is kept.
pub proof fn law_store_then_get<A>(
    o: Seq<(Seq<char>, Seq<(Seq<char>, A)>)>,
    inst: Seq<char>,
    k: Seq<char>,
    v: A,
    inst2: Seq<char>,
    k2: Seq<char>,
)
    requires
        nested_distinct(o),
    ensures
        nested_get(nested_put(o, inst, k, v), inst, k) == Some(v),
        (inst2, k2) != (inst, k) ==> nested_get(nested_put(o, inst, k, v), inst2, k2) == nested_get(o, inst2, k2),
        nested_distinct(nested_put(o, inst, k, v)),
{
    let o2 = nested_put(o, inst, k, v);
    if has_key(o, inst) {
        let p = key_pos(o, inst);
        lemma_key_pos(o, inst, p);
        lemma_same_keys(o, o2, inst);
        lemma_same_keys(o, o2, inst2);
        lemma_key_pos(o2, inst, p);
        lemma_put_get(o[p].1, k, v, k2);
        assert forall|i: int| 0 <= i < o2.len() implies keys_distinct(#[trigger] o2[i].1) by {
            if i != p {
                assert(o2[i] == o[i]);
            }
        }
        if inst2 != inst && has_key(o, inst2) {
            let q = key_pos(o, inst2);
            assert(q != p);
            lemma_key_pos(o2, inst2, q);
        }
    } else {
        let p = o.len() as int;
        assert(key_at(o2, inst, p));
        assert forall|a: int, b: int| 0 <= a < o2.len() && 0 <= b < o2.len() && a != b implies o2[a].0 != o2[b].0 by {
            if a < o.len() && b < o.len() {
            } else if a < o.len() {
                assert(!key_at(o, inst, a));
            } else {
                assert(!key_at(o, inst, b));
            }
        }
        lemma_key_pos(o2, inst, p);
        lemma_put_get(Seq::<(Seq<char>, A)>::empty(), k, v, k2);
        assert(seq![(k, v)] == put(Seq::<(Seq<char>, A)>::empty(), k, v));
        assert forall|i: int| 0 <= i < o2.len() implies keys_distinct(#[trigger] o2[i].1) by {
            if i < o.len() {
                assert(o2[i] == o[i]);
            }
        }
        if inst2 != inst && has_key(o, inst2) {
            let q = key_pos(o, inst2);
            lemma_key_pos(o, inst2, q);
            assert(key_at(o2, inst2, q));
            lemma_key_pos(o2, inst2, q);
        } else if inst2 != inst {
            if has_key(o2, inst2) {
                let q = choose|q: int| key_at(o2, inst2, q);
                assert(key_at(o, inst2, q));
            }
        }
    }
}

/// The components of instance `inst`, or none.
pub open spec fn inner_of<A>(o: Seq<(Seq<char>, Seq<(Seq<char>, A)>)>, inst: Seq<char>) -> Seq<(Seq<char>, A)> {
    match value_of(o, inst) {
        Some(inner) => inner,
        None => Seq::empty(),
    }
}

/// The components after storing each of `items`, in order, in instance `inst`.
pub open spec fn nested_puts<A>(o: Seq<(Seq<char>, Seq<(Seq<char>, A)>)>, inst: Seq<char>, items: Seq<(Seq<char>, A)>) -> Seq<
    (Seq<char>, Seq<(Seq<char>, A)>),
>
    decreases items.len(),
{
    if items.len() == 0 {
        o
    } else {
        nested_put(nested_puts(o, inst, items.drop_last()), inst, items.last().0, items.last().1)
    }
}

/// `ids` followed by each of `added` that is not already there, once, in the
/// order of first appearance.
pub open spec fn with_new_ids(ids: Seq<Seq<char>>, added: Seq<Seq<char>>) -> Seq<Seq<char>>
    decreases added.len(),
{
    if added.len() == 0 {
        ids
    } else {
        let prev = with_new_ids(ids, added.drop_last());
        if prev.contains(added.last()) {
            prev
        } else {
            prev.push(added.last())
        }
    }
}

/// What storing one component does to its instance's components.
proof fn lemma_nested_put_inner<A>(o: Seq<(Seq<char>, Seq<(Seq<char>, A)>)>, inst: Seq<char>, k: Seq<char>, v: A)
    requires
        nested_distinct(o),
    ensures
        inner_of(nested_put(o, inst, k, v), inst) == put(inner_of(o, inst), k, v),
        nested_distinct(nested_put(o, inst, k, v)),
{
    law_store_then_get(o, inst, k, v, inst, k);
    let o2 = nested_put(o, inst, k, v);
    if has_key(o, inst) {
        let p = key_pos(o, inst);
        lemma_key_pos(o, inst, p);
        lemma_same_keys(o, o2, inst);
        lemma_key_pos(o2, inst, p);
    } else {
        let p = o.len() as int;
        assert(key_at(o2, inst, p));
        lemma_key_pos(o2, inst, p);
        assert(!has_key(Seq::<(Seq<char>, A)>::empty(), k));
        assert(seq![(k, v)] =~= Seq::<(Seq<char>, A)>::empty().push((k, v)));
    }
}

/// The keys after one more `put`.
proof fn lemma_put_keys<A>(s: Seq<(Seq<char>, A)>, k: Seq<char>, v: A)
    requires
        keys_distinct(s),
    ensures
        keys_of(put(s, k, v)) == (if keys_of(s).contains(k) { keys_of(s) } else { keys_of(s).push(k) }),
{
    if has_key(s, k) {
        let p = key_pos(s, k);
        lemma_key_pos(s, k, p);
        assert(keys_of(s)[p] == k);
        assert(keys_of(put(s, k, v)) =~= keys_of(s));
    } else {
        if keys_of(s).contains(k) {
            let i = choose|i: int| 0 <= i < keys_of(s).len() && keys_of(s)[i] == k;
            assert(key_at(s, k, i));
        }
        assert(keys_of(put(s, k, v)) =~= keys_of(s).push(k));
    }
}

/// The value last registered under `k` among `items`, if any.
pub open spec fn last_registered<A>(items: Seq<(Seq<char>, A)>, k: Seq<char>) -> Option<A>
    decreases items.len(),
{
    if items.len() == 0 {
        None
    } else if items.last().0 == k {
        Some(items.last().1)
    } else {
        last_registered(items.drop_last(), k)
    }
}

/// Registrations compose: after the components `items` are registered, in
/// order, for instance `inst`, its components are the ones it had, each
/// once and in place, followed by each newly registered id once, in the
/// order of its first registration; a component holds what was registered
/// for it last, or what it had when it was never registered; ids stay
/// distinct. What `save` writes for the instance are these components (see
/// `saved_layout`).
pub proof fn law_registrations_compose<A>(
    o: Seq<(Seq<char>, Seq<(Seq<char>, A)>)>,
    inst: Seq<char>,
    items: Seq<(Seq<char>, A)>,
)
    requires
        nested_distinct(o),
    ensures
        nested_distinct(nested_puts(o, inst, items)),
        keys_of(inner_of(nested_puts(o, inst, items), inst)) == with_new_ids(keys_of(inner_of(o, inst)), keys_of(items)),
        forall|k: Seq<char>| #[trigger] value_of(inner_of(nested_puts(o, inst, items), inst), k) == match last_registered(items, k) {
            Some(v) => Some(v),
            None => value_of(inner_of(o, inst), k),
        },
    decreases items.len(),
{
    if items.len() > 0 {
        let rest = items.drop_last();
        law_registrations_compose(o, inst, rest);
        let prev = nested_puts(o, inst, rest);
        let (k, v) = items.last();
        lemma_nested_put_inner(prev, inst, k, v);
        let inner = inner_of(prev, inst);
        assert(keys_distinct(inner)) by {
            if has_key(prev, inst) {
                let p = key_pos(prev, inst);
                lemma_key_pos(prev, inst, p);
            }
        }
        lemma_put_keys(inner, k, v);
        assert(keys_of(rest) =~= keys_of(items).drop_last());
        assert(keys_of(items).last() == k);
        assert forall|k2: Seq<char>| #[trigger] value_of(inner_of(nested_puts(o, inst, items), inst), k2) == match last_registered(items, k2) {
            Some(v) => Some(v),
            None => value_of(inner_of(o, inst), k2),
        } by {
            lemma_put_get(inner, k, v, k2);
        }
    }
}

/// A removed component is no longer found, and every other component is
/// unchanged.
pub proof fn law_remove_then_get<A>(
    o: Seq<(Seq<char>, Seq<(Seq<char>, A)>)>,
    inst: Seq<char>,
    k: Seq<char>,
    inst2: Seq<char>,
    k2: Seq<char>,
)
    requires
        nested_distinct(o),
    ensures
        nested_get(nested_remove(o, inst, k), inst, k) is None,
        (inst2, k2) != (inst, k) ==> nested_get(nested_remove(o, inst, k), inst2, k2) == nested_get(o, inst2, k2),
        nested_distinct(nested_remove(o, inst, k)),
{
    let o2 = nested_remove(o, inst, k);
    if has_key(o, inst) {
        let p = key_pos(o, inst);
        lemma_key_pos(o, inst, p);
        lemma_same_keys(o, o2, inst);
        lemma_same_keys(o, o2, inst2);
        lemma_key_pos(o2, inst, p);
        lemma_swap_remove_get(o[p].1, k, k2);
        assert forall|i: int| 0 <= i < o2.len() implies keys_distinct(#[trigger] o2[i].1) by {
            if i != p {
                assert(o2[i] == o[i]);
            }
        }
        if inst2 != inst && has_key(o, inst2) {
            let q = key_pos(o, inst2);
            lemma_key_pos(o2, inst2, q);
        }
    } else {
        assert(o2 == o);
    }
}

/// The store of instance `inst`, if it has one.
fn nested_inner<'a, V: View>(o: &'a KeyedStore<KeyedStore<V>>, inst: &str) -> (r: Option<&'a KeyedStore<V>>)
    requires
        stores_wf(*o),
    ensures
        match r {
            Some(inner) => inner.wf() && value_of(stores_view(o@), inst@) == Some(entries_view(inner@)),
            None => value_of(stores_view(o@), inst@) is None,
        },
{
    proof {
        lemma_stores_view(*o, inst@);
        o.lemma_wf_distinct();
    }
    match o.position(inst) {
        Some(i) => {
            proof {
                lemma_key_pos(o@, inst@, i as int);
                lemma_key_pos(stores_view(o@), inst@, i as int);
            }
            Some(o.value_at(i))
        },
        None => None,
    }
}

/// Copies of the sources stored for instance `inst`, in order.
fn sources_of(o: &KeyedStore<KeyedStore<SourceConfig>>, inst: &str) -> (r: Vec<SourceConfig>)
    requires
        stores_wf(*o),
    ensures
        seq_views(r@) == nested_values(stores_view(o@), inst@),
{
    let mut out: Vec<SourceConfig> = Vec::new();
    match nested_inner(o, inst) {
        None => {
            assert(seq_views(out@) =~= Seq::<SourceView>::empty());
        },
        Some(inner) => {
            let n = inner.len();
            let mut i: usize = 0;
            while i < n
                invariant
                    inner.wf(),
                    n == inner@.len(),
                    i <= n,
                    out@.len() == i,
                    forall|j: int| 0 <= j < i ==> (#[trigger] out@[j])@ == inner@[j].1@,
                decreases n - i,
            {
                out.push(inner.value_at(i).copy());
                i = i + 1;
            }
            assert(seq_views(out@) =~= entries_view(inner@).map_values(|p: (Seq<char>, SourceView)| p.1));
        },
    }
    out
}

/// Copies of the reactions stored for instance `inst`, in order.
fn reactions_of(o: &KeyedStore<KeyedStore<ReactionConfig>>, inst: &str) -> (r: Vec<ReactionConfig>)
    requires
        stores_wf(*o),
    ensures
        seq_views(r@) == nested_values(stores_view(o@), inst@),
{
    let mut out: Vec<ReactionConfig> = Vec::new();
    match nested_inner(o, inst) {
        None => {
            assert(seq_views(out@) =~= Seq::<ReactionView>::empty());
        },
        Some(inner) => {
            let n = inner.len();
            let mut i: usize = 0;
            while i < n
                invariant
                    inner.wf(),
                    n == inner@.len(),
                    i <= n,
                    out@.len() == i,
                    forall|j: int| 0 <= j < i ==> (#[trigger] out@[j])@ == inner@[j].1@,
                decreases n - i,
            {
                out.push(inner.value_at(i).copy());
                i = i + 1;
            }
            assert(seq_views(out@) =~= entries_view(inner@).map_values(|p: (Seq<char>, ReactionView)| p.1));
        },
    }
    out
}

/// Copies of the queries stored for instance `inst`, in order.
fn queries_of(o: &KeyedStore<KeyedStore<QueryConfigDto>>, inst: &str) -> (r: Vec<QueryConfigDto>)
    requires
        stores_wf(*o),
    ensures
        seq_views(r@) == nested_values(stores_view(o@), inst@),
{
    let mut out: Vec<QueryConfigDto> = Vec::new();
    match nested_inner(o, inst) {
        None => {
            assert(seq_views(out@) =~= Seq::<QueryView>::empty());
        },
        Some(inner) => {
            let n = inner.len();
            let mut i: usize = 0;
            while i < n
                invariant
                    inner.wf(),
                    n == inner@.len(),
                    i <= n,
                    out@.len() == i,
                    forall|j: int| 0 <= j < i ==> (#[trigger] out@[j])@ == inner@[j].1@,
                decreases n - i,
            {
                out.push(inner.value_at(i).copy());
                i = i + 1;
            }
            assert(seq_views(out@) =~= entries_view(inner@).map_values(|p: (Seq<char>, QueryView)| p.1));
        },
    }
    out
}

/// What the running state of one DrasiLib instance contributes to the saved
/// configuration: its registry id, the id it reports, and its capacities.
pub struct LibSnapshot {
    pub registry_id: String,
    pub lib_id: String,
    pub priority_queue_capacity: Option<usize>,
    pub dispatch_buffer_capacity: Option<usize>,
}

/// The mathematical form of an instance snapshot.
pub struct SnapshotView {
    pub registry_id: Seq<char>,
    pub lib_id: Seq<char>,
    pub priority_queue_capacity: Option<usize>,
    pub dispatch_buffer_capacity: Option<usize>,
}

impl View for LibSnapshot {
    type V = SnapshotView;

    open spec fn view(&self) -> SnapshotView {
        SnapshotView {
            registry_id: self.registry_id@,
            lib_id: self.lib_id@,
            priority_queue_capacity: self.priority_queue_capacity,
            dispatch_buffer_capacity: self.dispatch_buffer_capacity,
        }
    }
}

/// A capacity written as a static configuration value.
pub open spec fn static_capacity(c: Option<usize>) -> Option<ConfigValueView<usize>> {
    match c {
        Some(n) => Some(ConfigValueView::Static(n)),
        None => None,
    }
}

/// The saved configuration of one running instance: its reported id and
/// capacities, the components stored for it; the persisted index setting
/// and the state store come from its stored configuration when it was
/// created through the API, otherwise from the server's settings (default:
/// no persistent index) with no state store.
pub open spec fn saved_instance(p: PersistenceView, s: SnapshotView) -> InstanceView {
    let id = s.registry_id;
    let base = InstanceView {
        id: ConfigValueView::Static(s.lib_id),
        persist_index: match value_of(p.persist_settings, id) {
            Some(b) => b,
            None => false,
        },
        state_store: None,
        default_priority_queue_capacity: static_capacity(s.priority_queue_capacity),
        default_dispatch_buffer_capacity: static_capacity(s.dispatch_buffer_capacity),
        sources: nested_values(p.sources, id),
        queries: nested_values(p.queries, id),
        reactions: nested_values(p.reactions, id),
    };
    match value_of(p.instances, id) {
        Some(dynamic) => InstanceView {
            persist_index: dynamic.persist_index,
            state_store: dynamic.state_store,
            ..base
        },
        None => base,
    }
}

/// The server-level settings every saved configuration carries: the
/// persistence's host, port, log level and persistence flag, the default
/// plugin registry, and no plugin settings.
pub open spec fn saved_server_settings(p: PersistenceView, c: DrasiServerConfig) -> bool {
    &&& c.api_version is None
    &&& c.host@ == ConfigValueView::<Seq<char>>::Static(p.host)
    &&& c.port@ == ConfigValueView::<u16>::Static(p.port)
    &&& c.log_level@ == ConfigValueView::<Seq<char>>::Static(p.log_level)
    &&& c.persist_config == p.persist_config
    &&& opt_chars(c.plugin_registry) == Some("ghcr.io/drasi-project"@)
    &&& !c.auto_install_plugins
    &&& c.plugins@.len() == 0
    &&& !c.verify_plugins
    &&& c.trusted_identities@.len() == 0
}

/// The saved configuration's layout: with exactly one instance, its settings
/// and components at the top level and no instance list; otherwise every
/// instance in the list, in registry order, and the first instance's id at
/// the top level (empty when there is none).
pub open spec fn saved_layout(p: PersistenceView, snaps: Seq<SnapshotView>, c: DrasiServerConfig) -> bool {
    if snaps.len() == 1 {
        let inst = saved_instance(p, snaps[0]);
        &&& c.id@ == inst.id
        &&& c.persist_index == inst.persist_index
        &&& opt_view(c.state_store) == inst.state_store
        &&& opt_view(c.default_priority_queue_capacity) == inst.default_priority_queue_capacity
        &&& opt_view(c.default_dispatch_buffer_capacity) == inst.default_dispatch_buffer_capacity
        &&& seq_views(c.sources@) == inst.sources
        &&& seq_views(c.queries@) == inst.queries
        &&& seq_views(c.reactions@) == inst.reactions
        &&& c.instances@.len() == 0
    } else {
        &&& c.id@ == ConfigValueView::<Seq<char>>::Static(
            if snaps.len() > 0 {
                snaps[0].lib_id
            } else {
                Seq::empty()
            },
        )
        &&& !c.persist_index
        &&& c.state_store is None
        &&& c.default_priority_queue_capacity is None
        &&& c.default_dispatch_buffer_capacity is None
        &&& c.sources@.len() == 0
        &&& c.queries@.len() == 0
        &&& c.reactions@.len() == 0
        &&& seq_views(c.instances@) == snaps.map_values(|s: SnapshotView| saved_instance(p, s))
    }
}

/// Persists the server configuration: server settings, and the component
/// configurations registered through the API, by instance.
pub struct ConfigPersistence {
    config_file_path: String,
    host: String,
    port: u16,
    log_level: String,
    persist_config: bool,
    persist_settings: KeyedStore<bool>,
    source_configs: KeyedStore<KeyedStore<SourceConfig>>,
    reaction_configs: KeyedStore<KeyedStore<ReactionConfig>>,
    query_configs: KeyedStore<KeyedStore<QueryConfigDto>>,
    instance_configs: KeyedStore<DrasiLibInstanceConfig>,
}

/// The mathematical form of the persistence state.
pub struct PersistenceView {
    pub config_file_path: Seq<char>,
    pub host: Seq<char>,
    pub port: u16,
    pub log_level: Seq<char>,
    pub persist_config: bool,
    pub persist_settings: Seq<(Seq<char>, bool)>,
    pub sources: Seq<(Seq<char>, Seq<(Seq<char>, SourceView)>)>,
    pub reactions: Seq<(Seq<char>, Seq<(Seq<char>, ReactionView)>)>,
    pub queries: Seq<(Seq<char>, Seq<(Seq<char>, QueryView)>)>,
    pub instances: Seq<(Seq<char>, InstanceView)>,
}

impl View for ConfigPersistence {
    type V = PersistenceView;

    closed spec fn view(&self) -> PersistenceView {
        PersistenceView {
            config_file_path: self.config_file_path@,
            host: self.host@,
            port: self.port,
            log_level: self.log_level@,
            persist_config: self.persist_config,
            persist_settings: self.persist_settings@,
            sources: stores_view(self.source_configs@),
            reactions: stores_view(self.reaction_configs@),
            queries: stores_view(self.query_configs@),
            instances: entries_view(self.instance_configs@),
        }
    }
}

/// The key under which an instance registered through the API is kept: a
/// static id as it is; an environment reference's value, else its default,
/// else the empty text; a secret's name.
pub open spec fn instance_key(c: ConfigValueView<Seq<char>>, e: Seq<(Seq<char>, Seq<char>)>) -> Seq<char> {
    match c {
        ConfigValueView::Static(s) => s,
        ConfigValueView::EnvironmentVariable { name, default } => match crate::resolve::env_lookup(e, name) {
            Some(v) => v,
            None => match default {
                Some(d) => d,
                None => Seq::empty(),
            },
        },
        ConfigValueView::Secret { name } => name,
    }
}

impl ConfigPersistence {
    /// The stores agree with their indexes.
    pub closed spec fn wf(&self) -> bool {
        &&& self.persist_settings.wf()
        &&& stores_wf(self.source_configs)
        &&& stores_wf(self.reaction_configs)
        &&& stores_wf(self.query_configs)
        &&& self.instance_configs.wf()
    }

    /// Ids are distinct at every level of every store.
    pub proof fn lemma_distinct(&self)
        requires
            self.wf(),
        ensures
            nested_distinct(self@.sources),
            nested_distinct(self@.reactions),
            nested_distinct(self@.queries),
            keys_distinct(self@.instances),
            keys_distinct(self@.persist_settings),
    {
        lemma_stores_distinct(self.source_configs);
        lemma_stores_distinct(self.reaction_configs);
        lemma_stores_distinct(self.query_configs);
        self.instance_configs.lemma_wf_distinct();
        lemma_entries_view(self.instance_configs@, Seq::empty());
        self.persist_settings.lemma_wf_distinct();
    }

    /// Create a new persistence handler with the initial component
    /// configurations of each instance.
    pub fn new(
        config_file_path: String,
        host: String,
        port: u16,
        log_level: String,
        persist_config: bool,
        persist_settings: KeyedStore<bool>,
        initial_source_configs: KeyedStore<KeyedStore<SourceConfig>>,
        initial_reaction_configs: KeyedStore<KeyedStore<ReactionConfig>>,
        initial_query_configs: KeyedStore<KeyedStore<QueryConfigDto>>,
    ) -> (r: ConfigPersistence)
        requires
            persist_settings.wf(),
            stores_wf(initial_source_configs),
            stores_wf(initial_reaction_configs),
            stores_wf(initial_query_configs),
        ensures
            r.wf(),
            r@ == (PersistenceView {
                config_file_path: config_file_path@,
                host: host@,
                port,
                log_level: log_level@,
                persist_config,
                persist_settings: persist_settings@,
                sources: stores_view(initial_source_configs@),
                reactions: stores_view(initial_reaction_configs@),
                queries: stores_view(initial_query_configs@),
                instances: Seq::empty(),
            }),
    {
        let instance_configs: KeyedStore<DrasiLibInstanceConfig> = KeyedStore::new();
        let r = ConfigPersistence {
            config_file_path,
            host,
            port,
            log_level,
            persist_config,
            persist_settings,
            source_configs: initial_source_configs,
            reaction_configs: initial_reaction_configs,
            query_configs: initial_query_configs,
            instance_configs,
        };
        assert(entries_view(r.instance_configs@) =~= Seq::<(Seq<char>, InstanceView)>::empty());
        r
    }

    /// The path of the config file.
    pub fn config_file_path(&self) -> (r: &str)
        ensures
            r@ == self@.config_file_path,
    {
        self.config_file_path.as_str()
    }

    /// Register a new instance config for persistence, under its id.
    pub fn register_instance(&mut self, config: DrasiLibInstanceConfig, env: &Env)
        requires
            old(self).wf(),
        ensures
            final(self).wf(),
            !old(self)@.persist_config ==> final(self)@ == old(self)@,
            old(self)@.persist_config ==> final(self)@ == (PersistenceView {
                instances: put(old(self)@.instances, instance_key(config.id@, env@), config@),
                ..old(self)@
            }),
    {
        if !self.persist_config {
            return;
        }
        let id = match &config.id {
            ConfigValue::Static(s) => s.clone(),
            ConfigValue::EnvironmentVariable { name, default } => match env.lookup(name.as_str()) {
                Some(v) => v,
                None => match default {
                    Some(d) => d.clone(),
                    None => String::new(),
                },
            },
            ConfigValue::Secret { name } => name.clone(),
        };
        let ghost pre = self.instance_configs@;
        proof {
            self.instance_configs.lemma_wf_distinct();
            lemma_entries_view_put(pre, id@, config);
        }
        self.instance_configs.insert(id, config);
    }

    /// Register a source config for persistence.
    pub fn register_source(&mut self, instance_id: &str, config: SourceConfig)
        requires
            old(self).wf(),
        ensures
            final(self).wf(),
            !old(self)@.persist_config ==> final(self)@ == old(self)@,
            old(self)@.persist_config ==> final(self)@ == (PersistenceView {
                sources: nested_put(old(self)@.sources, instance_id@, config.id@, config@),
                ..old(self)@
            }),
    {
        if !self.persist_config {
            return;
        }
        let id = config.id.clone();
        nested_insert(&mut self.source_configs, instance_id, id, config);
    }

    /// Unregister a source config (called on deletion).
    pub fn unregister_source(&mut self, instance_id: &str, source_id: &str)
        requires
            old(self).wf(),
        ensures
            final(self).wf(),
            !old(self)@.persist_config ==> final(self)@ == old(self)@,
            old(self)@.persist_config ==> final(self)@ == (PersistenceView {
                sources: nested_remove(old(self)@.sources, instance_id@, source_id@),
                ..old(self)@
            }),
    {
        if !self.persist_config {
            return;
        }
        nested_swap_remove(&mut self.source_configs, instance_id, source_id);
    }

    /// Register a reaction config for persistence.
    pub fn register_reaction(&mut self, instance_id: &str, config: ReactionConfig)
        requires
            old(self).wf(),
        ensures
            final(self).wf(),
            !old(self)@.persist_config ==> final(self)@ == old(self)@,
            old(self)@.persist_config ==> final(self)@ == (PersistenceView {
                reactions: nested_put(old(self)@.reactions, instance_id@, config.id@, config@),
                ..old(self)@
            }),
    {
        if !self.persist_config {
            return;
        }
        let id = config.id.clone();
        nested_insert(&mut self.reaction_configs, instance_id, id, config);
    }

    /// Unregister a reaction config (called on deletion).
    pub fn unregister_reaction(&mut self, instance_id: &str, reaction_id: &str)
        requires
            old(self).wf(),
        ensures
            final(self).wf(),
            !old(self)@.persist_config ==> final(self)@ == old(self)@,
            old(self)@.persist_config ==> final(self)@ == (PersistenceView {
                reactions: nested_remove(old(self)@.reactions, instance_id@, reaction_id@),
                ..old(self)@
            }),
    {
        if !self.persist_config {
            return;
        }
        nested_swap_remove(&mut self.reaction_configs, instance_id, reaction_id);
    }

    /// Register a query config for persistence.
    pub fn register_query(&mut self, instance_id: &str, config: QueryConfigDto)
        requires
            old(self).wf(),
        ensures
            final(self).wf(),
            !old(self)@.persist_config ==> final(self)@ == old(self)@,
            old(self)@.persist_config ==> final(self)@ == (PersistenceView {
                queries: nested_put(old(self)@.queries, instance_id@, config.id@, config@),
                ..old(self)@
            }),
    {
        if !self.persist_config {
            return;
        }
        let id = config.id.clone();
        nested_insert(&mut self.query_configs, instance_id, id, config);
    }

    /// Unregister a query config (called on deletion).
    pub fn unregister_query(&mut self, instance_id: &str, query_id: &str)
        requires
            old(self).wf(),
        ensures
            final(self).wf(),
            !old(self)@.persist_config ==> final(self)@ == old(self)@,
            old(self)@.persist_config ==> final(self)@ == (PersistenceView {
                queries: nested_remove(old(self)@.queries, instance_id@, query_id@),
                ..old(self)@
            }),
    {
        if !self.persist_config {
            return;
        }
        nested_swap_remove(&mut self.query_configs, instance_id, query_id);
    }

    /// One running instance's saved configuration.
    fn saved_instance_config(&self, s: &LibSnapshot) -> (r: DrasiLibInstanceConfig)
        requires
            self.wf(),
        ensures
            r@ == saved_instance(self@, s@),
    {
        let id = s.registry_id.as_str();
        let sources = sources_of(&self.source_configs, id);
        let reactions = reactions_of(&self.reaction_configs, id);
        let queries = queries_of(&self.query_configs, id);
        let pq = match s.priority_queue_capacity {
            Some(n) => Some(ConfigValue::Static(n)),
            None => None,
        };
        let db = match s.dispatch_buffer_capacity {
            Some(n) => Some(ConfigValue::Static(n)),
            None => None,
        };
        proof {
            self.instance_configs.lemma_wf_distinct();
            lemma_entries_view(self.instance_configs@, id@);
        }
        match self.instance_configs.get(id) {
            Some(dynamic) => DrasiLibInstanceConfig {
                id: ConfigValue::Static(s.lib_id.clone()),
                persist_index: dynamic.persist_index,
                state_store: copy_state_store(&dynamic.state_store),
                default_priority_queue_capacity: pq,
                default_dispatch_buffer_capacity: db,
                sources,
                queries,
                reactions,
            },
            None => {
                let persist_index = match self.persist_settings.get(id) {
                    Some(b) => *b,
                    None => false,
                };
                DrasiLibInstanceConfig {
                    id: ConfigValue::Static(s.lib_id.clone()),
                    persist_index,
                    state_store: None,
                    default_priority_queue_capacity: pq,
                    default_dispatch_buffer_capacity: db,
                    sources,
                    queries,
                    reactions,
                }
            },
        }
    }

    /// The configuration to write to the config file, built from the
    /// running instances (in registry order) and the stored components; it
    /// uses the single-instance layout when there is exactly one instance
    /// and the multi-instance layout otherwise. `None` when persistence is
    /// disabled.
    pub fn build_saved_config(&self, snapshots: &Vec<LibSnapshot>) -> (r: Option<DrasiServerConfig>)
        requires
            self.wf(),
        ensures
            r is None <==> !self@.persist_config,
            r matches Some(c) ==> saved_server_settings(self@, c) && saved_layout(self@, seq_views(snapshots@), c),
    {
        if !self.persist_config {
            return None;
        }
        let mut instance_configs: Vec<DrasiLibInstanceConfig> = Vec::new();
        let mut i: usize = 0;
        while i < snapshots.len()
            invariant
                self.wf(),
                i <= snapshots.len(),
                instance_configs@.len() == i,
                forall|j: int| 0 <= j < i ==> (#[trigger] instance_configs@[j])@ == saved_instance(self@, snapshots@[j]@),
            decreases snapshots.len() - i,
        {
            instance_configs.push(self.saved_instance_config(&snapshots[i]));
            i = i + 1;
        }
        let ghost snaps = seq_views(snapshots@);
        if instance_configs.len() == 1 {
            let instance = instance_configs.remove(0);
            Some(
                DrasiServerConfig {
                    api_version: None,
                    id: instance.id,
                    host: ConfigValue::Static(self.host.clone()),
                    port: ConfigValue::Static(self.port),
                    log_level: ConfigValue::Static(self.log_level.clone()),
                    persist_config: self.persist_config,
                    persist_index: instance.persist_index,
                    state_store: instance.state_store,
                    default_priority_queue_capacity: instance.default_priority_queue_capacity,
                    default_dispatch_buffer_capacity: instance.default_dispatch_buffer_capacity,
                    sources: instance.sources,
                    queries: instance.queries,
                    reactions: instance.reactions,
                    instances: Vec::new(),
                    plugin_registry: default_plugin_registry(),
                    auto_install_plugins: false,
                    plugins: Vec::new(),
                    verify_plugins: false,
                    trusted_identities: Vec::new(),
                },
            )
        } else {
            let first_id = if instance_configs.len() > 0 {
                match &instance_configs[0].id {
                    ConfigValue::Static(id) => id.clone(),
                    _ => String::new(),
                }
            } else {
                String::new()
            };
            proof {
                assert(seq_views(instance_configs@) =~= snaps.map_values(|s: SnapshotView| saved_instance(self@, s)));
            }
            Some(
                DrasiServerConfig {
                    api_version: None,
                    id: ConfigValue::Static(first_id),
                    host: ConfigValue::Static(self.host.clone()),
                    port: ConfigValue::Static(self.port),
                    log_level: ConfigValue::Static(self.log_level.clone()),
                    persist_config: self.persist_config,
                    persist_index: false,
                    state_store: None,
                    default_priority_queue_capacity: None,
                    default_dispatch_buffer_capacity: None,
                    sources: Vec::new(),
                    queries: Vec::new(),
                    reactions: Vec::new(),
                    instances: instance_configs,
                    plugin_registry: default_plugin_registry(),
                    auto_install_plugins: false,
                    plugins: Vec::new(),
                    verify_plugins: false,
                    trusted_identities: Vec::new(),
                },
            )
        }
    }

    /// The configuration to write to the config file, validated (see
    /// `build_saved_config`); `Ok(None)` when persistence is disabled.
    /// `host_is_ip` tells whether the persisted host parses as an IP address.
    pub fn save(&self, snapshots: &Vec<LibSnapshot>, env: &Env, host_is_ip: bool) -> (r: Result<
        Option<DrasiServerConfig>,
        ConfigError,
    >)
        requires
            self.wf(),
        ensures
            r == Ok::<Option<DrasiServerConfig>, ConfigError>(None) <==> !self@.persist_config,
            r matches Ok(Some(c)) ==> saved_server_settings(self@, c) && saved_layout(self@, seq_views(snapshots@), c)
                && validate_spec(c, env@, host_is_ip) is Ok,
            r matches Err(x) ==> self@.persist_config && exists|c: DrasiServerConfig|
                saved_server_settings(self@, c) && saved_layout(self@, seq_views(snapshots@), c) && validate_spec(
                    c,
                    env@,
                    host_is_ip,
                ) == Err::<(), ConfigErrorView>(x@),
    {
        match self.build_saved_config(snapshots) {
            None => Ok(None),
            Some(c) => match c.validate(env, host_is_ip) {
                Ok(()) => Ok(Some(c)),
                Err(x) => Err(x),
            },
        }
    }

    /// Get a stored source config, if available.
    pub fn get_source_config(&self, instance_id: &str, source_id: &str) -> (r: Option<SourceConfig>)
        requires
            self.wf(),
        ensures
            opt_view(r) == nested_get(self@.sources, instance_id@, source_id@),
    {
        match nested_lookup(&self.source_configs, instance_id, source_id) {
            Some(c) => Some(c.copy()),
            None => None,
        }
    }

    /// Get a stored reaction config, if available.
    pub fn get_reaction_config(&self, instance_id: &str, reaction_id: &str) -> (r: Option<ReactionConfig>)
        requires
            self.wf(),
        ensures
            opt_view(r) == nested_get(self@.reactions, instance_id@, reaction_id@),
    {
        match nested_lookup(&self.reaction_configs, instance_id, reaction_id) {
            Some(c) => Some(c.copy()),
            None => None,
        }
    }

    /// Get a stored query config, if available.
    pub fn get_query_config(&self, instance_id: &str, query_id: &str) -> (r: Option<QueryConfigDto>)
        requires
            self.wf(),
        ensures
            opt_view(r) == nested_get(self@.queries, instance_id@, query_id@),
    {
        match nested_lookup(&self.query_configs, instance_id, query_id) {
            Some(c) => Some(c.copy()),
            None => None,
        }
    }
}


/// What `save` writes for an instance after registrations: when the
/// sources `srcs`, reactions `rs` and queries `qs` are registered, in order,
/// for the snapshot's instance (each registration storing the component
/// under its id, as `register_source`, `register_reaction` and
/// `register_query` do when persistence is enabled), the saved instance
/// holds, for each kind of component, the components the instance had, each
/// once and in place, followed by each newly registered id once, in the
/// order of its first registration, each with the configuration registered
/// for it last.
pub proof fn law_save_collects_registrations(
    p: PersistenceView,
    snap: SnapshotView,
    srcs: Seq<(Seq<char>, SourceView)>,
    rs: Seq<(Seq<char>, ReactionView)>,
    qs: Seq<(Seq<char>, QueryView)>,
)
    requires
        nested_distinct(p.sources),
        nested_distinct(p.reactions),
        nested_distinct(p.queries),
    ensures
        ({
            let inst = snap.registry_id;
            let p2 = PersistenceView {
                sources: nested_puts(p.sources, inst, srcs),
                reactions: nested_puts(p.reactions, inst, rs),
                queries: nested_puts(p.queries, inst, qs),
                ..p
            };
            let saved = saved_instance(p2, snap);
            &&& saved.sources == inner_of(p2.sources, inst).map_values(|e: (Seq<char>, SourceView)| e.1)
            &&& saved.reactions == inner_of(p2.reactions, inst).map_values(|e: (Seq<char>, ReactionView)| e.1)
            &&& saved.queries == inner_of(p2.queries, inst).map_values(|e: (Seq<char>, QueryView)| e.1)
            &&& keys_of(inner_of(p2.sources, inst)) == with_new_ids(keys_of(inner_of(p.sources, inst)), keys_of(srcs))
            &&& keys_of(inner_of(p2.reactions, inst)) == with_new_ids(keys_of(inner_of(p.reactions, inst)), keys_of(rs))
            &&& keys_of(inner_of(p2.queries, inst)) == with_new_ids(keys_of(inner_of(p.queries, inst)), keys_of(qs))
            &&& forall|k: Seq<char>| #[trigger] value_of(inner_of(p2.sources, inst), k) == match last_registered(srcs, k) {
                Some(v) => Some(v),
                None => value_of(inner_of(p.sources, inst), k),
            }
            &&& forall|k: Seq<char>| #[trigger] value_of(inner_of(p2.reactions, inst), k) == match last_registered(rs, k) {
                Some(v) => Some(v),
                None => value_of(inner_of(p.reactions, inst), k),
            }
            &&& forall|k: Seq<char>| #[trigger] value_of(inner_of(p2.queries, inst), k) == match last_registered(qs, k) {
                Some(v) => Some(v),
                None => value_of(inner_of(p.queries, inst), k),
            }
        }),
{
    let inst = snap.registry_id;
    law_registrations_compose(p.sources, inst, srcs);
    law_registrations_compose(p.reactions, inst, rs);
    law_registrations_compose(p.queries, inst, qs);
    let p2 = PersistenceView {
        sources: nested_puts(p.sources, inst, srcs),
        reactions: nested_puts(p.reactions, inst, rs),
        queries: nested_puts(p.queries, inst, qs),
        ..p
    };
    assert(nested_values(p2.sources, inst) =~= inner_of(p2.sources, inst).map_values(|e: (Seq<char>, SourceView)| e.1));
    assert(nested_values(p2.reactions, inst) =~= inner_of(p2.reactions, inst).map_values(
        |e: (Seq<char>, ReactionView)| e.1,
    ));
    assert(nested_values(p2.queries, inst) =~= inner_of(p2.queries, inst).map_values(|e: (Seq<char>, QueryView)| e.1));
}


/// Saving keeps each instance's index setting: an instance that was not
/// created through the API is saved with the `persistIndex` value recorded
/// for it (false when none is recorded), and one created through the API
/// with the value it was created with; its id is the running library's id.
pub proof fn law_saved_persist_index(p: PersistenceView, s: SnapshotView)
    ensures
        value_of(p.instances, s.registry_id) is None ==> (value_of(p.persist_settings, s.registry_id) == Some(true)
            ==> saved_instance(p, s).persist_index),
        value_of(p.instances, s.registry_id) is None ==> (value_of(p.persist_settings, s.registry_id) == Some(false)
            ==> !saved_instance(p, s).persist_index),
        value_of(p.instances, s.registry_id) is None && value_of(p.persist_settings, s.registry_id) is None
            ==> !saved_instance(p, s).persist_index,
        value_of(p.instances, s.registry_id) matches Some(d) ==> saved_instance(p, s).persist_index == d.persist_index,
        saved_instance(p, s).id == ConfigValueView::<Seq<char>>::Static(s.lib_id),
{
}

} // verus!
