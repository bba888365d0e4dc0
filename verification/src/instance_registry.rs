//! The registry of DrasiLib instances: instances keyed by id, in the order
//! in which they were added; the first is the default one.

use vstd::prelude::*;
use crate::keyed::{
    KeyedStore, has_key, key_at, key_pos, keys_distinct, keys_of, lemma_key_pos, shift_remove_key, value_of,
};

verus! {

/// Registry of instances keyed by id. `T` is the handle of one instance.
pub struct InstanceRegistry<T> {
    instances: KeyedStore<T>,
}

/// The message of a refused `add`: `Instance '<id>' already exists`.
pub open spec fn already_exists_message(id: Seq<char>) -> Seq<char> {
    "Instance '"@ + id + "' already exists"@
}

impl<T> View for InstanceRegistry<T> {
    type V = Seq<(Seq<char>, T)>;

    /// The instances with their ids, in the order in which they were added.
    closed spec fn view(&self) -> Seq<(Seq<char>, T)> {
        self.instances@
    }
}

impl<T> InstanceRegistry<T> {
    /// The registry's store is well formed.
    pub closed spec fn wf(&self) -> bool {
        self.instances.wf()
    }

    /// Create a new empty instance registry.
    pub fn new() -> (r: InstanceRegistry<T>)
        ensures
            r.wf(),
            r@ == Seq::<(Seq<char>, T)>::empty(),
    {
        InstanceRegistry { instances: KeyedStore::new() }
    }

    /// Create a registry from an existing instance map.
    pub fn from_map(instances: KeyedStore<T>) -> (r: InstanceRegistry<T>)
        requires
            instances.wf(),
        ensures
            r.wf(),
            r@ == instances@,
    {
        InstanceRegistry { instances }
    }

    /// Ids are never repeated.
    pub proof fn lemma_ids_distinct(&self)
        requires
            self.wf(),
        ensures
            keys_distinct(self@),
    {
        self.instances.lemma_wf_distinct();
    }

    /// Get an instance by ID.
    pub fn get(&self, id: &str) -> (r: Option<&T>)
        requires
            self.wf(),
        ensures
            match r {
                Some(t) => value_of(self@, id@) == Some(*t),
                None => value_of(self@, id@) is None,
            },
    {
        self.instances.get(id)
    }

    /// Get the first (default) instance.
    pub fn get_default(&self) -> (r: Option<(String, &T)>)
        requires
            self.wf(),
        ensures
            r is None <==> self@.len() == 0,
            r matches Some((id, t)) ==> id@ == self@[0].0 && *t == self@[0].1,
    {
        if self.instances.len() == 0 {
            None
        } else {
            Some((self.instances.key_at(0).clone(), self.instances.value_at(0)))
        }
    }

    /// List all instance IDs, in order.
    pub fn list_ids(&self) -> (r: Vec<String>)
        requires
            self.wf(),
        ensures
            r@.len() == self@.len(),
            forall|i: int| 0 <= i < self@.len() ==> #[trigger] r@[i]@ == self@[i].0,
    {
        let n = self.instances.len();
        let mut out: Vec<String> = Vec::new();
        let mut i: usize = 0;
        while i < n
            invariant
                self.wf(),
                n == self@.len(),
                i <= n,
                out@.len() == i,
                forall|j: int| 0 <= j < i ==> #[trigger] out@[j]@ == self@[j].0,
            decreases n - i,
        {
            out.push(self.instances.key_at(i).clone());
            i = i + 1;
        }
        out
    }

    /// List all instances as (id, instance) pairs, in order.
    pub fn list(&self) -> (r: Vec<(String, &T)>)
        requires
            self.wf(),
        ensures
            r@.len() == self@.len(),
            forall|i: int| 0 <= i < self@.len() ==> #[trigger] r@[i].0@ == self@[i].0 && *r@[i].1 == self@[i].1,
    {
        let n = self.instances.len();
        let mut out: Vec<(String, &T)> = Vec::new();
        let mut i: usize = 0;
        while i < n
            invariant
                self.wf(),
                n == self@.len(),
                i <= n,
                out@.len() == i,
                forall|j: int| 0 <= j < i ==> #[trigger] out@[j].0@ == self@[j].0 && *out@[j].1 == self@[j].1,
            decreases n - i,
        {
            out.push((self.instances.key_at(i).clone(), self.instances.value_at(i)));
            i = i + 1;
        }
        out
    }

    /// Check if an instance exists.
    pub fn contains(&self, id: &str) -> (r: bool)
        requires
            self.wf(),
        ensures
            r == has_key(self@, id@),
    {
        self.instances.contains(id)
    }

    /// Add a new instance to the registry.
    ///
    /// Returns an error if an instance with the same ID already exists; the
    /// registry is then unchanged.
    pub fn add(&mut self, id: String, instance: T) -> (r: Result<(), String>)
        requires
            old(self).wf(),
        ensures
            final(self).wf(),
            has_key(old(self)@, id@) ==> final(self)@ == old(self)@ && r is Err,
            r matches Err(msg) ==> msg@ == already_exists_message(id@),
            !has_key(old(self)@, id@) ==> final(self)@ == old(self)@.push((id@, instance)) && r is Ok,
    {
        if self.instances.contains(id.as_str()) {
            let mut msg = String::from_str("Instance '");
            msg.append(id.as_str());
            msg.append("' already exists");
            return Err(msg);
        }
        let ghost pre = self@;
        self.instances.insert(id, instance);
        Ok(())
    }

    /// Remove an instance from the registry, the others keeping their order.
    ///
    /// Returns the removed instance if it existed.
    pub fn remove(&mut self, id: &str) -> (r: Option<T>)
        requires
            old(self).wf(),
        ensures
            final(self).wf(),
            final(self)@ == shift_remove_key(old(self)@, id@),
            r == value_of(old(self)@, id@),
    {
        self.instances.shift_remove(id)
    }

    /// Get the number of instances.
    pub fn len(&self) -> (n: usize)
        requires
            self.wf(),
        ensures
            n == self@.len(),
    {
        self.instances.len()
    }

    /// Check if the registry is empty.
    pub fn is_empty(&self) -> (r: bool)
        requires
            self.wf(),
        ensures
            r == (self@.len() == 0),
    {
        self.instances.len() == 0
    }
}

/// An instance added under a new id is found under that id, and every other
/// id keeps the instance it had.
pub proof fn law_add_then_get<T>(before: Seq<(Seq<char>, T)>, id: Seq<char>, t: T, other: Seq<char>)
    requires
        keys_distinct(before),
        !has_key(before, id),
    ensures
        value_of(before.push((id, t)), id) == Some(t),
        other != id ==> value_of(before.push((id, t)), other) == value_of(before, other),
        keys_distinct(before.push((id, t))),
{
    let after = before.push((id, t));
    assert forall|a: int, b: int| 0 <= a < after.len() && 0 <= b < after.len() && a != b implies after[a].0
        != after[b].0 by {
        if a < before.len() && b < before.len() {
        } else if a < before.len() {
            assert(!key_at(before, id, a));
        } else {
            assert(!key_at(before, id, b));
        }
    }
    lemma_key_pos(after, id, before.len() as int);
    if other != id {
        if has_key(before, other) {
            let i = choose|i: int| key_at(before, other, i);
            lemma_key_pos(before, other, i);
            lemma_key_pos(after, other, i);
        } else {
            if has_key(after, other) {
                let i = choose|i: int| key_at(after, other, i);
                assert(key_at(before, other, i));
            }
        }
    }
}

/// A removed id is no longer found, every other id keeps its instance, and
/// the remaining ids keep their order.
pub proof fn law_remove_then_get<T>(before: Seq<(Seq<char>, T)>, id: Seq<char>, other: Seq<char>)
    requires
        keys_distinct(before),
    ensures
        value_of(shift_remove_key(before, id), id) is None,
        other != id ==> value_of(shift_remove_key(before, id), other) == value_of(before, other),
        has_key(before, id) ==> keys_of(shift_remove_key(before, id)) == keys_of(before).remove(
            key_pos(before, id),
        ),
{
    let after = shift_remove_key(before, id);
    if has_key(before, id) {
        let p = key_pos(before, id);
        assert(key_at(before, id, p));
        assert forall|i: int| 0 <= i < after.len() implies after[i] == before[if i < p { i } else { i + 1 }] by {}
        if has_key(after, id) {
            let i = choose|i: int| key_at(after, id, i);
            let i2 = if i < p { i } else { i + 1 };
            assert(key_at(before, id, i2));
        }
        if other != id {
            if has_key(before, other) {
                let j = choose|j: int| key_at(before, other, j);
                lemma_key_pos(before, other, j);
                let j2 = if j < p { j } else { j - 1 };
                assert(key_at(after, other, j2));
                assert forall|a: int, b: int| 0 <= a < after.len() && 0 <= b < after.len() && a != b implies after[a].0
                    != after[b].0 by {
                    let a2 = if a < p { a } else { a + 1 };
                    let b2 = if b < p { b } else { b + 1 };
                }
                lemma_key_pos(after, other, j2);
            } else if has_key(after, other) {
                let i = choose|i: int| key_at(after, other, i);
                let i2 = if i < p { i } else { i + 1 };
                assert(key_at(before, other, i2));
            }
        }
        assert(keys_of(after) =~= keys_of(before).remove(p));
    }
}

} // verus!
