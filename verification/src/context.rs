//! Shared application state: a map from names to values of any type,
//! read back by asking for the type that was stored.

use std::any::Any;
use std::sync::{Arc, RwLock};

use vstd::prelude::*;


verus! {

/// A value kept in a [`StateMap`]: a thread-safe value of any type, whose
/// type is known only at run time. Verus does not look inside it.
#[verifier::external_body]
#[derive(Debug)]
pub struct StateValue {
    inner: Box<dyn Any + Send + Sync>,
}

/// A type-erased map for shared application state: names and the values
/// stored under them, at the same positions.
#[derive(Debug)]
pub struct StateMap {
    names: Vec<String>,
    values: Vec<StateValue>,
}

/// The characters of each name.
pub open spec fn name_views(v: Seq<String>) -> Seq<Seq<char>> {
    v.map_values(|s: String| s@)
}

/// No name occurs twice.
pub open spec fn distinct_names(v: Seq<Seq<char>>) -> bool {
    forall|i: int, j: int| 0 <= i < v.len() && 0 <= j < v.len() && i != j ==> v[i] != v[j]
}

/// `downcast_ref` on the stored value: the value when it has type `T`.
/// Whether it has that type is a fact about Rust's type identities and is
/// left unsaid.
#[verifier::external_body]
fn downcast_ref<T: Any>(v: &StateValue) -> Option<&T> {
    v.inner.downcast_ref::<T>()
}

/// `downcast_mut` on the stored value: the value when it has type `T`.
/// Whether it has that type is left unsaid; it does not panic.
#[verifier::external_body]
fn downcast_mut<T: Any>(v: &mut StateValue) -> Option<&mut T>
    no_unwind
{
    v.inner.downcast_mut::<T>()
}

/// `Box::new(value)` as a type-erased value.
#[verifier::external_body]
fn erase<T: Any + Send + Sync>(value: T) -> StateValue {
    StateValue { inner: Box::new(value) }
}

impl StateMap {
    /// The names, in the order they were first stored.
    pub closed spec fn names(&self) -> Seq<Seq<char>> {
        name_views(self.names@)
    }

    /// Names are distinct and each has a value.
    #[verifier::type_invariant]
    closed spec fn wf(&self) -> bool {
        &&& distinct_names(self.names())
        &&& self.values@.len() == self.names@.len()
    }

    /// The names that have a value.
    pub closed spec fn keys(&self) -> Set<Seq<char>> {
        self.names().to_set()
    }

    /// An empty state map.
    pub fn new() -> (m: Self)
        ensures
            m.keys() == Set::<Seq<char>>::empty(),
    {
        let m = StateMap { names: Vec::new(), values: Vec::new() };
        assert(m.names() =~= Seq::<Seq<char>>::empty());
        assert(m.keys() =~= Set::<Seq<char>>::empty());
        m
    }

    fn position(&self, key: &str) -> (r: Option<usize>)
        ensures
            match r {
                Some(i) => i < self.names().len() && self.names()[i as int] == key@,
                None => !self.keys().contains(key@),
            },
    {
        let mut i: usize = 0;
        while i < self.names.len()
            invariant
                i <= self.names@.len(),
                forall|j: int| 0 <= j < i ==> self.names()[j] != key@,
            decreases self.names@.len() - i,
        {
            if crate::text::str_eq(self.names[i].as_str(), key) {
                return Some(i);
            }
            i = i + 1;
        }
        None
    }

    /// Stores `value` under `key`, replacing any earlier value.
    pub fn insert<T: Any + Send + Sync>(&mut self, key: &str, value: T)
        ensures
            final(self).keys() == old(self).keys().insert(key@),
    {
        proof {
            use_type_invariant(&*self);
        }
        let boxed = erase(value);
        let ghost old_n = self.names();
        let pos = self.position(key);
        let mut taken = StateMap::new();
        std::mem::swap(&mut taken, self);
        let StateMap { mut names, mut values } = taken;
        match pos {
            Some(i) => {
                values.set(i, boxed);
                assert(old_n[i as int] == key@);
            },
            None => {
                names.push(key.to_owned());
                values.push(boxed);
                let ghost nn = name_views(names@);
                assert(nn =~= old_n.push(key@));
                assert(distinct_names(nn)) by {
                    assert forall|a: int, b: int| 0 <= a < nn.len() && 0 <= b < nn.len() && a != b implies nn[a] != nn[b] by {
                        if a == old_n.len() && b < old_n.len() {
                            assert(old_n.contains(old_n[b]));
                        }
                        if b == old_n.len() && a < old_n.len() {
                            assert(old_n.contains(old_n[a]));
                        }
                    }
                }
            },
        }
        *self = StateMap { names, values };
        assert(self.keys() =~= old(self).keys().insert(key@)) by {
            let nn = self.names();
            assert forall|k: Seq<char>| nn.contains(k) <==> old_n.contains(k) || k == key@ by {
                if nn.contains(k) && k != key@ {
                    let j = choose|j: int| 0 <= j < nn.len() && nn[j] == k;
                    assert(old_n[j] == k);
                }
                if old_n.contains(k) {
                    let j = choose|j: int| 0 <= j < old_n.len() && old_n[j] == k;
                    assert(nn[j] == k);
                }
                if k == key@ {
                    match pos {
                        Some(i) => assert(nn[i as int] == k),
                        None => assert(nn[old_n.len() as int] == k),
                    }
                }
            }
        }
    }

    /// The value stored under `key`, when it has type `T`.
    pub fn get<T: Any + Send + Sync>(&self, key: &str) -> (r: Option<&T>)
        ensures
            !self.keys().contains(key@) ==> r is None,
    {
        proof {
            use_type_invariant(self);
        }
        match self.position(key) {
            Some(i) => downcast_ref::<T>(&self.values[i]),
            None => None,
        }
    }

    /// The value stored under `key`, for changing, when it has type `T`.
    pub fn get_mut<T: Any + Send + Sync>(&mut self, key: &str) -> (r: Option<&mut T>)
        ensures
            final(self).keys() == old(self).keys(),
            !old(self).keys().contains(key@) ==> r is None,
    {
        proof {
            use_type_invariant(&*self);
        }
        match self.position(key) {
            Some(i) => downcast_mut::<T>(&mut self.values[i]),
            None => None,
        }
    }

    /// Removes the value stored under `key`.
    pub fn remove(&mut self, key: &str)
        ensures
            final(self).keys() == old(self).keys().remove(key@),
    {
        proof {
            use_type_invariant(&*self);
        }
        let ghost old_n = self.names();
        match self.position(key) {
            Some(i) => {
                let mut taken = StateMap::new();
                std::mem::swap(&mut taken, self);
                let StateMap { mut names, mut values } = taken;
                let _ = names.remove(i);
                let _ = values.remove(i);
                let ghost nn = name_views(names@);
                assert(nn =~= old_n.remove(i as int));
                assert(distinct_names(nn)) by {
                    assert forall|a: int, b: int| 0 <= a < nn.len() && 0 <= b < nn.len() && a != b implies nn[a] != nn[b] by {
                        let a2 = if a < i { a } else { a + 1 };
                        let b2 = if b < i { b } else { b + 1 };
                        assert(nn[a] == old_n[a2]);
                        assert(nn[b] == old_n[b2]);
                    }
                }
                *self = StateMap { names, values };
                assert(self.keys() =~= old(self).keys().remove(key@)) by {
                    assert forall|k: Seq<char>| nn.contains(k) <==> old_n.contains(k) && k != key@ by {
                        if nn.contains(k) {
                            let j = choose|j: int| 0 <= j < nn.len() && nn[j] == k;
                            let j2 = if j < i { j } else { j + 1 };
                            assert(old_n[j2] == k);
                        }
                        if old_n.contains(k) && k != key@ {
                            let j = choose|j: int| 0 <= j < old_n.len() && old_n[j] == k;
                            let j2 = if j < i { j } else { j - 1 };
                            assert(nn[j2] == k);
                        }
                    }
                }
            },
            None => {
                assert(self.keys() =~= old(self).keys().remove(key@));
            },
        }
    }

    /// Whether `key` has a value.
    pub fn contains_key(&self, key: &str) -> (b: bool)
        ensures
            b == self.keys().contains(key@),
    {
        match self.position(key) {
            Some(i) => {
                assert(self.names()[i as int] == key@);
                true
            },
            None => false,
        }
    }
}

/// Thread-safe shared application state.
pub type SharedState = Arc<RwLock<StateMap>>;

#[verifier::external_type_specification]
#[verifier::external_body]
#[verifier::reject_recursive_types(T)]
pub struct ExRwLock<T: ?Sized>(RwLock<T>);

/// The names of the values a lock was made holding. What it holds later
/// (a lock is written through shared references) is not tracked here.
pub uninterp spec fn lock_made_with_keys(l: RwLock<StateMap>) -> Set<Seq<char>>;

/// `RwLock::new(value)`: a lock made holding the value.
#[verifier::external_body]
fn new_lock(value: StateMap) -> (r: RwLock<StateMap>)
    ensures
        lock_made_with_keys(r) == value.keys(),
{
    RwLock::new(value)
}

/// A new shared state, made holding nothing.
pub fn new_shared_state() -> (s: SharedState)
    ensures
        lock_made_with_keys(*s) == Set::<Seq<char>>::empty(),
{
    Arc::new(new_lock(StateMap::new()))
}

} // verus!

verus! {

/// A change of a state map's names: an `insert` or a `remove` of a key.
pub enum KeyOp {
    Insert(Seq<char>),
    Remove(Seq<char>),
}

/// The names a state map holds after the given changes, made in order on
/// a new one (as `new`, `insert` and `remove` state them).
pub open spec fn keys_after(ops: Seq<KeyOp>) -> Set<Seq<char>>
    decreases ops.len(),
{
    if ops.len() == 0 {
        Set::empty()
    } else {
        match ops.last() {
            KeyOp::Insert(k) => keys_after(ops.drop_last()).insert(k),
            KeyOp::Remove(k) => keys_after(ops.drop_last()).remove(k),
        }
    }
}

/// Whether the last change naming `k` was an insert (`None`: no change
/// named it).
pub open spec fn last_change_inserts(ops: Seq<KeyOp>, k: Seq<char>) -> Option<bool>
    decreases ops.len(),
{
    if ops.len() == 0 {
        None
    } else {
        match ops.last() {
            KeyOp::Insert(j) => if j == k {
                Some(true)
            } else {
                last_change_inserts(ops.drop_last(), k)
            },
            KeyOp::Remove(j) => if j == k {
                Some(false)
            } else {
                last_change_inserts(ops.drop_last(), k)
            },
        }
    }
}

/// A state map holds a key exactly when the last insert or remove naming
/// that key was an insert; a new map holds none.
pub proof fn law_holds_key_iff_last_inserted(ops: Seq<KeyOp>, k: Seq<char>)
    ensures
        keys_after(ops).contains(k) == (last_change_inserts(ops, k) == Some(true)),
    decreases ops.len(),
{
    if ops.len() > 0 {
        law_holds_key_iff_last_inserted(ops.drop_last(), k);
    }
}

} // verus!

verus! {

impl Default for StateMap {
    fn default() -> (m: Self)
        ensures
            m.keys() == Set::<Seq<char>>::empty(),
    {
        StateMap::new()
    }
}

} // verus!
