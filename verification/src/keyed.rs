//! An insertion-ordered store of values keyed by string ids, kept in an
//! `IndexMap` from ids to slots.

use vstd::prelude::*;
use indexmap::IndexMap;

verus! {

#[verifier::external_type_specification]
#[verifier::external_body]
#[verifier::reject_recursive_types(K)]
#[verifier::reject_recursive_types(V)]
#[verifier::reject_recursive_types(S)]
pub struct ExIndexMap<K, V, S>(IndexMap<K, V, S>);

/// The entries of an id index, in the map's order: each id with its slot.
pub uninterp spec fn index_entries(m: IndexMap<String, usize>) -> Seq<(Seq<char>, usize)>;

/// Entry `i` of `e` has the key `k`.
pub open spec fn key_at<V>(e: Seq<(Seq<char>, V)>, k: Seq<char>, i: int) -> bool {
    0 <= i < e.len() && e[i].0 == k
}

/// Some entry of `e` has the key `k`.
pub open spec fn has_key<V>(e: Seq<(Seq<char>, V)>, k: Seq<char>) -> bool {
    exists|i: int| key_at(e, k, i)
}

/// No key occurs twice in `e`.
pub open spec fn keys_distinct<V>(e: Seq<(Seq<char>, V)>) -> bool {
    forall|i: int, j: int| 0 <= i < e.len() && 0 <= j < e.len() && i != j ==> e[i].0 != e[j].0
}

/// The position of key `k` in `e`, when it occurs.
pub open spec fn key_pos<V>(e: Seq<(Seq<char>, V)>, k: Seq<char>) -> int {
    choose|i: int| key_at(e, k, i)
}

/// The value stored under `k`.
pub open spec fn value_of<V>(e: Seq<(Seq<char>, V)>, k: Seq<char>) -> Option<V> {
    if has_key(e, k) {
        Some(e[key_pos(e, k)].1)
    } else {
        None
    }
}

/// `e` after setting `k` to `v`: an existing entry keeps its place and takes
/// the new value; a new key is appended.
pub open spec fn put<V>(e: Seq<(Seq<char>, V)>, k: Seq<char>, v: V) -> Seq<(Seq<char>, V)> {
    if has_key(e, k) {
        e.update(key_pos(e, k), (k, v))
    } else {
        e.push((k, v))
    }
}

/// `e` without entry `i`, the last entry taking its place.
pub open spec fn swap_removed<V>(e: Seq<(Seq<char>, V)>, i: int) -> Seq<(Seq<char>, V)> {
    if i == e.len() - 1 {
        e.drop_last()
    } else {
        e.update(i, e.last()).drop_last()
    }
}

/// `e` without key `k`, by swapping the last entry into its place.
pub open spec fn swap_remove_key<V>(e: Seq<(Seq<char>, V)>, k: Seq<char>) -> Seq<(Seq<char>, V)> {
    if has_key(e, k) {
        swap_removed(e, key_pos(e, k))
    } else {
        e
    }
}

/// `e` without key `k`, the entries after it keeping their order.
pub open spec fn shift_remove_key<V>(e: Seq<(Seq<char>, V)>, k: Seq<char>) -> Seq<(Seq<char>, V)> {
    if has_key(e, k) {
        e.remove(key_pos(e, k))
    } else {
        e
    }
}

/// The keys of `e`, in order.
pub open spec fn keys_of<V>(e: Seq<(Seq<char>, V)>) -> Seq<Seq<char>> {
    e.map_values(|p: (Seq<char>, V)| p.0)
}

/// With distinct keys, the entry that holds `k` is the one `key_pos` picks.
pub proof fn lemma_key_pos<V>(e: Seq<(Seq<char>, V)>, k: Seq<char>, i: int)
    requires
        keys_distinct(e),
        key_at(e, k, i),
    ensures
        key_pos(e, k) == i,
        has_key(e, k),
        value_of(e, k) == Some(e[i].1),
{
    assert(has_key(e, k));
}

/// The entries with their values taken by view.
pub open spec fn entries_view<V: View>(s: Seq<(Seq<char>, V)>) -> Seq<(Seq<char>, V::V)> {
    s.map_values(|p: (Seq<char>, V)| (p.0, p.1@))
}

/// Taking values by view keeps keys and positions, so it commutes with
/// lookups and with removing keys.
pub proof fn lemma_entries_view<V: View>(s: Seq<(Seq<char>, V)>, k: Seq<char>)
    requires
        keys_distinct(s),
    ensures
        keys_distinct(entries_view(s)),
        has_key(entries_view(s), k) == has_key(s, k),
        value_of(entries_view(s), k) == match value_of(s, k) {
            Some(x) => Some(x@),
            None => None::<V::V>,
        },
        entries_view(swap_remove_key(s, k)) == swap_remove_key(entries_view(s), k),
        entries_view(shift_remove_key(s, k)) == shift_remove_key(entries_view(s), k),
{
    let t = entries_view(s);
    lemma_same_keys(s, t, k);
    if has_key(s, k) {
        let i = key_pos(s, k);
        lemma_key_pos(t, k, i);
        assert(entries_view(swap_remove_key(s, k)) =~= swap_remove_key(t, k));
        assert(entries_view(shift_remove_key(s, k)) =~= shift_remove_key(t, k));
    }
}

/// Taking values by view commutes with setting a key.
pub proof fn lemma_entries_view_put<V: View>(s: Seq<(Seq<char>, V)>, k: Seq<char>, v: V)
    requires
        keys_distinct(s),
    ensures
        entries_view(put(s, k, v)) == put(entries_view(s), k, v@),
{
    let t = entries_view(s);
    lemma_same_keys(s, t, k);
    assert(entries_view(put(s, k, v)) =~= put(t, k, v@));
}

/// Two entry sequences with the same keys at the same positions agree on
/// which keys they hold and where.
pub proof fn lemma_same_keys<A, B>(s: Seq<(Seq<char>, A)>, t: Seq<(Seq<char>, B)>, k: Seq<char>)
    requires
        t.len() == s.len(),
        forall|i: int| 0 <= i < s.len() ==> (#[trigger] t[i]).0 == s[i].0,
        keys_distinct(s),
    ensures
        keys_distinct(t),
        has_key(t, k) == has_key(s, k),
        has_key(s, k) ==> key_pos(t, k) == key_pos(s, k) && key_at(s, k, key_pos(s, k)),
{
    assert forall|i: int| 0 <= i < s.len() implies key_at(t, k, i) == key_at(s, k, i) by {
        assert(t[i].0 == s[i].0);
    }
    assert forall|a: int, b: int| 0 <= a < t.len() && 0 <= b < t.len() && a != b implies t[a].0 != t[b].0 by {
        assert(t[a].0 == s[a].0 && t[b].0 == s[b].0);
    }
    if has_key(s, k) {
        let i = choose|i: int| key_at(s, k, i);
        lemma_key_pos(s, k, i);
        assert(key_at(t, k, i));
        lemma_key_pos(t, k, i);
    } else {
        if has_key(t, k) {
            let i = choose|i: int| key_at(t, k, i);
            assert(key_at(s, k, i));
        }
    }
}

/// Setting a key makes it hold the new value and leaves every other key
/// alone; keys stay distinct.
pub proof fn lemma_put_get<V>(s: Seq<(Seq<char>, V)>, k: Seq<char>, v: V, k2: Seq<char>)
    requires
        keys_distinct(s),
    ensures
        value_of(put(s, k, v), k) == Some(v),
        k2 != k ==> value_of(put(s, k, v), k2) == value_of(s, k2),
        keys_distinct(put(s, k, v)),
        has_key(put(s, k, v), k2) == (k2 == k || has_key(s, k2)),
{
    let t = put(s, k, v);
    if has_key(s, k) {
        let p = key_pos(s, k);
        lemma_key_pos(s, k, p);
        assert forall|a: int, b: int| 0 <= a < t.len() && 0 <= b < t.len() && a != b implies t[a].0 != t[b].0 by {
            assert(t[a].0 == s[a].0 && t[b].0 == s[b].0);
        }
        lemma_key_pos(t, k, p);
        lemma_same_keys(s, t, k2);
        if k2 != k && has_key(s, k2) {
            let q = key_pos(s, k2);
            lemma_key_pos(s, k2, q);
            lemma_key_pos(t, k2, q);
        }
    } else {
        let p = s.len() as int;
        assert forall|a: int, b: int| 0 <= a < t.len() && 0 <= b < t.len() && a != b implies t[a].0 != t[b].0 by {
            if a < s.len() && b < s.len() {
            } else if a < s.len() {
                assert(!key_at(s, k, a));
            } else {
                assert(!key_at(s, k, b));
            }
        }
        assert(key_at(t, k, p));
        lemma_key_pos(t, k, p);
        if k2 != k {
            if has_key(s, k2) {
                let q = key_pos(s, k2);
                lemma_key_pos(s, k2, q);
                assert(key_at(t, k2, q));
                lemma_key_pos(t, k2, q);
            } else if has_key(t, k2) {
                let q = choose|q: int| key_at(t, k2, q);
                assert(key_at(s, k2, q));
            }
        }
    }
}

/// Removing a key (swapping the last entry into its place) makes it absent
/// and leaves every other key alone; keys stay distinct.
pub proof fn lemma_swap_remove_get<V>(s: Seq<(Seq<char>, V)>, k: Seq<char>, k2: Seq<char>)
    requires
        keys_distinct(s),
    ensures
        value_of(swap_remove_key(s, k), k) is None,
        k2 != k ==> value_of(swap_remove_key(s, k), k2) == value_of(s, k2),
        keys_distinct(swap_remove_key(s, k)),
{
    let t = swap_remove_key(s, k);
    if has_key(s, k) {
        let p = key_pos(s, k);
        lemma_key_pos(s, k, p);
        let n = s.len() - 1;
        // position j of t holds the entry of s at src(j)
        assert forall|j: int| 0 <= j < t.len() implies t[j] == s[if j == p { n } else { j }] by {}
        assert forall|a: int, b: int| 0 <= a < t.len() && 0 <= b < t.len() && a != b implies t[a].0 != t[b].0 by {
            let a2 = if a == p { n } else { a };
            let b2 = if b == p { n } else { b };
            assert(t[a] == s[a2] && t[b] == s[b2]);
        }
        if has_key(t, k) {
            let j = choose|j: int| key_at(t, k, j);
            let j2 = if j == p { n } else { j };
            assert(t[j] == s[j2]);
            assert(key_at(s, k, j2));
        }
        if k2 != k {
            if has_key(s, k2) {
                let q = key_pos(s, k2);
                lemma_key_pos(s, k2, q);
                let q2 = if q == n { p } else { q };
                assert(t[q2] == s[q]);
                assert(key_at(t, k2, q2));
                lemma_key_pos(t, k2, q2);
            } else if has_key(t, k2) {
                let j = choose|j: int| key_at(t, k2, j);
                let j2 = if j == p { n } else { j };
                assert(t[j] == s[j2]);
                assert(key_at(s, k2, j2));
            }
        }
    } else {
        assert(t == s);
    }
}

/// `IndexMap::new`: an empty index.
#[verifier::external_body]
fn index_new() -> (m: IndexMap<String, usize>)
    ensures
        index_entries(m) == Seq::<(Seq<char>, usize)>::empty(),
{
    IndexMap::new()
}

/// `IndexMap::len`: the number of entries.
#[verifier::external_body]
fn index_len(m: &IndexMap<String, usize>) -> (n: usize)
    ensures
        n == index_entries(*m).len(),
{
    m.len()
}

/// `IndexMap::get_index_of`: the position of the entry whose key equals `k`.
#[verifier::external_body]
fn index_position(m: &IndexMap<String, usize>, k: &str) -> (r: Option<usize>)
    requires
        keys_distinct(index_entries(*m)),
    ensures
        r matches Some(i) ==> key_at(index_entries(*m), k@, i as int),
        r is None ==> !has_key(index_entries(*m), k@),
{
    m.get_index_of(k)
}

/// `IndexMap::get_index`: the entry at position `i`.
#[verifier::external_body]
fn index_at(m: &IndexMap<String, usize>, i: usize) -> (r: Option<(&String, &usize)>)
    ensures
        r is Some <==> i < index_entries(*m).len(),
        r matches Some((k, s)) ==> k@ == index_entries(*m)[i as int].0 && *s == index_entries(*m)[i as int].1,
{
    m.get_index(i)
}

/// `IndexMap::insert`: an existing key keeps its place and takes the new
/// slot (the old one is returned); a new key is appended.
#[verifier::external_body]
fn index_insert(m: &mut IndexMap<String, usize>, k: String, s: usize) -> (r: Option<usize>)
    requires
        keys_distinct(index_entries(*old(m))),
    ensures
        index_entries(*final(m)) == put(index_entries(*old(m)), k@, s),
        r == value_of(index_entries(*old(m)), k@),
{
    m.insert(k, s)
}

/// `IndexMap::swap_remove`: removes the entry of `k`, moving the last entry
/// into its place; returns its slot.
#[verifier::external_body]
fn index_swap_remove(m: &mut IndexMap<String, usize>, k: &str) -> (r: Option<usize>)
    requires
        keys_distinct(index_entries(*old(m))),
    ensures
        index_entries(*final(m)) == swap_remove_key(index_entries(*old(m)), k@),
        r == value_of(index_entries(*old(m)), k@),
{
    m.swap_remove(k)
}

/// `IndexMap::shift_remove`: removes the entry of `k`, the entries after it
/// keeping their order; returns its slot.
#[verifier::external_body]
fn index_shift_remove(m: &mut IndexMap<String, usize>, k: &str) -> (r: Option<usize>)
    requires
        keys_distinct(index_entries(*old(m))),
    ensures
        index_entries(*final(m)) == shift_remove_key(index_entries(*old(m)), k@),
        r == value_of(index_entries(*old(m)), k@),
{
    m.shift_remove(k)
}

/// Values keyed by string ids, in the order in which the ids were first
/// inserted.
pub struct KeyedStore<V> {
    index: IndexMap<String, usize>,
    slots: Vec<Option<V>>,
}

impl<V> KeyedStore<V> {
    /// The index and the slots agree: ids are distinct, each refers to its
    /// own filled slot.
    pub closed spec fn wf(&self) -> bool {
        let e = index_entries(self.index);
        &&& keys_distinct(e)
        &&& forall|i: int| 0 <= i < e.len() ==> (#[trigger] e[i]).1 < self.slots@.len() && self.slots@[e[i].1 as int] is Some
        &&& forall|i: int, j: int| 0 <= i < e.len() && 0 <= j < e.len() && i != j ==> (#[trigger] e[i]).1 != (#[trigger] e[j]).1
    }
}

impl<V> View for KeyedStore<V> {
    type V = Seq<(Seq<char>, V)>;

    /// The ids with their values, in order.
    closed spec fn view(&self) -> Seq<(Seq<char>, V)> {
        let e = index_entries(self.index);
        Seq::new(e.len(), |i: int| (e[i].0, self.slots@[e[i].1 as int]->Some_0))
    }
}

impl<V> KeyedStore<V> {
    /// The view has the index's keys and length.
    proof fn lemma_view(&self)
        ensures
            self@.len() == index_entries(self.index).len(),
            forall|i: int| 0 <= i < self@.len() ==> #[trigger] self@[i].0 == index_entries(self.index)[i].0,
            self.wf() ==> keys_distinct(self@),
    {
    }

    /// Ids are never repeated in a well-formed store.
    pub proof fn lemma_wf_distinct(&self)
        requires
            self.wf(),
        ensures
            keys_distinct(self@),
    {
        self.lemma_view();
    }

    /// An empty store.
    pub fn new() -> (r: KeyedStore<V>)
        ensures
            r.wf(),
            r@ == Seq::<(Seq<char>, V)>::empty(),
    {
        let r = KeyedStore { index: index_new(), slots: Vec::new() };
        assert(r@ =~= Seq::<(Seq<char>, V)>::empty());
        r
    }

    /// The number of ids.
    pub fn len(&self) -> (n: usize)
        requires
            self.wf(),
        ensures
            n == self@.len(),
    {
        index_len(&self.index)
    }

    /// The position of `k`, when it is stored.
    pub fn position(&self, k: &str) -> (r: Option<usize>)
        requires
            self.wf(),
        ensures
            r matches Some(i) ==> key_at(self@, k@, i as int),
            r is None ==> !has_key(self@, k@),
    {
        proof {
            self.lemma_view();
        }
        let r = index_position(&self.index, k);
        proof {
            if r is None {
                if has_key(self@, k@) {
                    let i = choose|i: int| key_at(self@, k@, i);
                    assert(key_at(index_entries(self.index), k@, i));
                }
            }
        }
        r
    }

    /// Whether `k` is stored.
    pub fn contains(&self, k: &str) -> (r: bool)
        requires
            self.wf(),
        ensures
            r == has_key(self@, k@),
    {
        self.position(k).is_some()
    }

    /// The id at position `i`.
    pub fn key_at(&self, i: usize) -> (r: &String)
        requires
            self.wf(),
            i < self@.len(),
        ensures
            r@ == self@[i as int].0,
    {
        proof {
            self.lemma_view();
        }
        let (k, _) = index_at(&self.index, i).unwrap();
        k
    }

    /// The value at position `i`.
    pub fn value_at(&self, i: usize) -> (r: &V)
        requires
            self.wf(),
            i < self@.len(),
        ensures
            *r == self@[i as int].1,
    {
        proof {
            self.lemma_view();
        }
        let (_, s) = index_at(&self.index, i).unwrap();
        let ghost e = index_entries(self.index);
        assert(e[i as int].1 == *s);
        let s: usize = *s;
        assert(self.slots@[s as int] is Some);
        self.slots[s].as_ref().unwrap()
    }

    /// The value stored under `k`.
    pub fn get(&self, k: &str) -> (r: Option<&V>)
        requires
            self.wf(),
        ensures
            match r {
                Some(v) => value_of(self@, k@) == Some(*v),
                None => value_of(self@, k@) is None,
            },
    {
        match self.position(k) {
            Some(i) => {
                proof {
                    lemma_key_pos(self@, k@, i as int);
                }
                Some(self.value_at(i))
            },
            None => None,
        }
    }

    /// The slot of the entry at position `i`.
    fn slot_at(&self, i: usize) -> (s: usize)
        requires
            self.wf(),
            i < self@.len(),
        ensures
            s == index_entries(self.index)[i as int].1,
            s < self.slots@.len(),
            self.slots@[s as int] is Some,
    {
        proof {
            self.lemma_view();
        }
        let (_, s) = index_at(&self.index, i).unwrap();
        let ghost e = index_entries(self.index);
        assert(e[i as int].1 == *s);
        *s
    }

    /// Replaces the value at position `i`, keeping its id and place; returns
    /// the value it held.
    pub fn replace_at(&mut self, i: usize, v: V) -> (r: V)
        requires
            old(self).wf(),
            i < old(self)@.len(),
        ensures
            final(self).wf(),
            final(self)@ == old(self)@.update(i as int, (old(self)@[i as int].0, v)),
            r == old(self)@[i as int].1,
    {
        let ghost pre = self@;
        let ghost e = index_entries(self.index);
        let s = self.slot_at(i);
        let mut tmp = Some(v);
        std::mem::swap(&mut self.slots[s], &mut tmp);
        proof {
            assert(index_entries(self.index) == e);
            assert forall|j: int| 0 <= j < e.len() && j != i implies (#[trigger] e[j]).1 != s by {
                assert(e[i as int].1 == s);
            }
            assert(self@ =~= pre.update(i as int, (pre[i as int].0, v)));
        }
        tmp.unwrap()
    }

    /// Sets `k` to `v`: an existing id keeps its place and takes the new
    /// value (the old one is returned); a new id is appended.
    pub fn insert(&mut self, k: String, v: V) -> (r: Option<V>)
        requires
            old(self).wf(),
        ensures
            final(self).wf(),
            final(self)@ == put(old(self)@, k@, v),
            r == value_of(old(self)@, k@),
    {
        let ghost pre = self@;
        proof {
            self.lemma_view();
        }
        match self.position(k.as_str()) {
            Some(i) => {
                proof {
                    lemma_key_pos(pre, k@, i as int);
                }
                let old_v = self.replace_at(i, v);
                assert(self@ =~= put(pre, k@, v));
                Some(old_v)
            },
            None => {
                let ghost e = index_entries(self.index);
                let s = self.slots.len();
                self.slots.push(Some(v));
                index_insert(&mut self.index, k, s);
                proof {
                    assert(!has_key(e, k@)) by {
                        if has_key(e, k@) {
                            let j = choose|j: int| key_at(e, k@, j);
                            assert(key_at(pre, k@, j));
                        }
                    }
                    let e2 = index_entries(self.index);
                    assert(e2 == e.push((k@, s)));
                    assert forall|j: int| 0 <= j < e.len() implies (#[trigger] e[j]).1 < s by {}
                    assert forall|j: int| 0 <= j < e2.len() implies (#[trigger] e2[j]).1 < self.slots@.len()
                        && self.slots@[e2[j].1 as int] is Some by {
                        if j < e.len() {
                            assert(e2[j] == e[j]);
                        }
                    }
                    assert forall|a: int, b: int| 0 <= a < e2.len() && 0 <= b < e2.len() && a != b
                        implies (#[trigger] e2[a]).1 != (#[trigger] e2[b]).1 && e2[a].0 != e2[b].0 by {
                        if a < e.len() && b < e.len() {
                            assert(e2[a] == e[a] && e2[b] == e[b]);
                        } else if a < e.len() {
                            assert(e2[a] == e[a]);
                            assert(!key_at(e, k@, a));
                        } else {
                            assert(e2[b] == e[b]);
                            assert(!key_at(e, k@, b));
                        }
                    }
                    assert(self@ =~= pre.push((k@, v)));
                }
                None
            },
        }
    }

    /// Removes `k`, moving the last entry into its place; returns its value.
    pub fn swap_remove(&mut self, k: &str) -> (r: Option<V>)
        requires
            old(self).wf(),
        ensures
            final(self).wf(),
            final(self)@ == swap_remove_key(old(self)@, k@),
            r == value_of(old(self)@, k@),
    {
        let ghost pre = self@;
        proof {
            self.lemma_view();
        }
        match self.position(k) {
            Some(i) => {
                proof {
                    lemma_key_pos(pre, k@, i as int);
                }
                let ghost e = index_entries(self.index);
                let s = self.slot_at(i);
                index_swap_remove(&mut self.index, k);
                let mut tmp: Option<V> = None;
                std::mem::swap(&mut self.slots[s], &mut tmp);
                proof {
                    lemma_key_pos(e, k@, i as int);
                    let e2 = index_entries(self.index);
                    assert(e2 == swap_removed(e, i as int));
                    assert forall|j: int| 0 <= j < e2.len() implies (#[trigger] e2[j]).1 != s by {
                        if j == i {
                            assert(e2[j] == e.last());
                        } else {
                            assert(e2[j] == e[j]);
                        }
                    }
                    assert(self@ =~= swap_removed(pre, i as int));
                }
                tmp
            },
            None => None,
        }
    }

    /// Removes `k`, the entries after it keeping their order; returns its value.
    pub fn shift_remove(&mut self, k: &str) -> (r: Option<V>)
        requires
            old(self).wf(),
        ensures
            final(self).wf(),
            final(self)@ == shift_remove_key(old(self)@, k@),
            r == value_of(old(self)@, k@),
    {
        let ghost pre = self@;
        proof {
            self.lemma_view();
        }
        match self.position(k) {
            Some(i) => {
                proof {
                    lemma_key_pos(pre, k@, i as int);
                }
                let ghost e = index_entries(self.index);
                let s = self.slot_at(i);
                index_shift_remove(&mut self.index, k);
                let mut tmp: Option<V> = None;
                std::mem::swap(&mut self.slots[s], &mut tmp);
                proof {
                    lemma_key_pos(e, k@, i as int);
                    let e2 = index_entries(self.index);
                    assert(e2 == e.remove(i as int));
                    assert forall|j: int| 0 <= j < e2.len() implies (#[trigger] e2[j]).1 != s by {
                        if j < i {
                            assert(e2[j] == e[j]);
                        } else {
                            assert(e2[j] == e[j + 1]);
                        }
                    }
                    assert forall|a: int, b: int| 0 <= a < e2.len() && 0 <= b < e2.len() && a != b
                        implies (#[trigger] e2[a]).1 != (#[trigger] e2[b]).1 && e2[a].0 != e2[b].0 by {
                        let a2 = if a < i { a } else { a + 1 };
                        let b2 = if b < i { b } else { b + 1 };
                        assert(e2[a] == e[a2] && e2[b] == e[b2]);
                    }
                    assert forall|j: int| 0 <= j < e2.len() implies (#[trigger] e2[j]).1 < self.slots@.len()
                        && self.slots@[e2[j].1 as int] is Some by {
                        let j2 = if j < i { j } else { j + 1 };
                        assert(e2[j] == e[j2]);
                    }
                    assert(self@ =~= pre.remove(i as int));
                }
                tmp
            },
            None => None,
        }
    }
}

} // verus!
