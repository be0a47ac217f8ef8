//! [`StateKeeper`]: a recursive tree of component states.
//!
//! Each node holds the state of one component (if any) and child nodes under
//! string keys, in creation order. Saving walks the whole tree; restoring
//! matches children by key, creating the ones that are missing.
//!
//! The contracts speak of [`KeeperTree`], the mathematical tree of a keeper or
//! snapshot: its own state and its keyed children.

use vstd::prelude::*;

verus! {

/// A value of any type, boxed as `dyn Any + Send`.
///
/// The verifier cannot represent a trait object of two traits, so the struct
/// is opaque to it: such a value is carried, never looked into, by verified
/// code; only its typed accessors look at its type.
#[verifier::external_body]
pub struct BoxedAny {
    value: Box<dyn std::any::Any + Send>,
}

impl BoxedAny {
    /// Take a boxed value (the box becomes a `Box<dyn Any + Send>`). No
    /// contract: the verifier does not see inside the value.
    #[verifier::external_body]
    fn from_box<T: Send + 'static>(value: Box<T>) -> BoxedAny {
        BoxedAny { value }
    }

    /// `<dyn Any>::downcast_ref`: the value if it is a `T`. No contract:
    /// which type the value has is not visible to the verifier.
    #[verifier::external_body]
    fn downcast_ref<T: 'static>(&self) -> Option<&T> {
        self.value.downcast_ref::<T>()
    }

    /// `<dyn Any>::downcast_mut`: the value if it is a `T`. No contract:
    /// which type the value has is not visible to the verifier.
    #[verifier::external_body]
    fn downcast_mut<T: 'static>(&mut self) -> Option<&mut T> {
        self.value.downcast_mut::<T>()
    }

    /// `Box<dyn Any>::downcast`: the value if it is a `T`, the box back
    /// otherwise. No contract: which type the value has is not visible to
    /// the verifier.
    #[verifier::external_body]
    fn downcast<T: 'static>(self) -> Result<Box<T>, BoxedAny> {
        match self.value.downcast::<T>() {
            Ok(b) => Ok(b),
            Err(value) => Err(BoxedAny { value }),
        }
    }
}

/// `<dyn Any>::downcast_ref` on serialized bytes: the bytes if `T` is
/// `Vec<u8>`. No contract: which type `T` is, is not visible to the verifier.
#[verifier::external_body]
fn bytes_downcast_ref<T: 'static>(bytes: &Vec<u8>) -> Option<&T> {
    (bytes as &dyn std::any::Any).downcast_ref::<T>()
}

/// `<dyn Any>::downcast_mut` on serialized bytes: the bytes if `T` is
/// `Vec<u8>`. No contract: which type `T` is, is not visible to the verifier.
#[verifier::external_body]
fn bytes_downcast_mut<T: 'static>(bytes: &mut Vec<u8>) -> Option<&mut T> {
    (bytes as &mut dyn std::any::Any).downcast_mut::<T>()
}

enum StateRepr {
    Bytes(Vec<u8>),
    Boxed(BoxedAny),
}

/// A component state of any type.
///
/// A state made from serialized bytes ([`AnyState::from_bytes`]) keeps them
/// where the verifier sees them ([`AnyState::known_bytes`]); a state of any
/// other value ([`AnyState::new`]) is boxed as `dyn Any + Send`. Either way
/// the typed accessors find the value by its type.
pub struct AnyState {
    repr: StateRepr,
}

impl AnyState {
    /// The bytes of a state made from serialized bytes; `None` for a state
    /// made from any other value.
    pub closed spec fn known_bytes(&self) -> Option<Seq<u8>> {
        match self.repr {
            StateRepr::Bytes(b) => Some(b@),
            StateRepr::Boxed(_) => None,
        }
    }

    /// Box `value` as a state of any type.
    pub fn new<T: Send + 'static>(value: T) -> (s: AnyState)
        ensures
            s.known_bytes() is None,
    {
        AnyState { repr: StateRepr::Boxed(BoxedAny::from_box(Box::new(value))) }
    }

    /// Box a value as a state of any type.
    pub(crate) fn from_box<T: Send + 'static>(value: Box<T>) -> (s: AnyState)
        ensures
            s.known_bytes() is None,
    {
        AnyState { repr: StateRepr::Boxed(BoxedAny::from_box(value)) }
    }

    /// A state holding serialized bytes.
    pub fn from_bytes(bytes: Vec<u8>) -> (s: AnyState)
        ensures
            s.known_bytes() == Some(bytes@),
    {
        AnyState { repr: StateRepr::Bytes(bytes) }
    }

    /// The value if it is a `T`.
    pub(crate) fn downcast_ref<T: 'static>(&self) -> Option<&T> {
        match &self.repr {
            StateRepr::Bytes(b) => bytes_downcast_ref::<T>(b),
            StateRepr::Boxed(x) => x.downcast_ref::<T>(),
        }
    }

    /// The value, mutably, if it is a `T`.
    pub(crate) fn downcast_mut<T: 'static>(&mut self) -> Option<&mut T> {
        match &mut self.repr {
            StateRepr::Bytes(b) => bytes_downcast_mut::<T>(b),
            StateRepr::Boxed(x) => x.downcast_mut::<T>(),
        }
    }

    /// A copy of a state made from serialized bytes; `None` for any other
    /// state (a value of any type cannot be copied).
    pub fn copy_bytes(&self) -> (r: Option<AnyState>)
        ensures
            match self.known_bytes() {
                Some(b) => r is Some && r->0.known_bytes() == Some(b),
                None => r is None,
            },
    {
        match &self.repr {
            StateRepr::Bytes(b) => Some(AnyState::from_bytes(b.clone())),
            StateRepr::Boxed(_) => None,
        }
    }

    /// The serialized bytes the state holds, if it is a `Vec<u8>`: for a
    /// state made from bytes, those bytes.
    pub fn into_bytes(self) -> (r: Option<Vec<u8>>)
        ensures
            self.known_bytes() is Some ==> r is Some && r->0@ == self.known_bytes()->0,
    {
        match self.repr {
            StateRepr::Bytes(b) => Some(b),
            StateRepr::Boxed(x) => match x.downcast::<Vec<u8>>() {
                Ok(b) => Some(*b),
                Err(_) => None,
            },
        }
    }
}

/// The mathematical tree of a keeper or of a snapshot.
#[verifier::ext_equal]
pub struct KeeperTree {
    /// The node's own state.
    pub own: Option<AnyState>,
    /// Keyed children, in order.
    pub kids: Seq<(Seq<char>, KeeperTree)>,
}

/// The tree with no state and no children.
pub open spec fn empty_tree() -> KeeperTree {
    KeeperTree { own: None, kids: Seq::empty() }
}

/// The keys of a sequence of children.
pub open spec fn keys_of(kids: Seq<(Seq<char>, KeeperTree)>) -> Seq<Seq<char>> {
    kids.map_values(|p: (Seq<char>, KeeperTree)| p.0)
}

/// Index of the first occurrence of `k` in `keys`, or `-1`.
pub open spec fn key_pos(keys: Seq<Seq<char>>, k: Seq<char>) -> int
    decreases keys.len(),
{
    if keys.len() == 0 {
        -1
    } else {
        let p = key_pos(keys.drop_last(), k);
        if p >= 0 {
            p
        } else if keys.last() == k {
            keys.len() - 1
        } else {
            -1
        }
    }
}

/// Restoring `s` into `t`: the own state is replaced by the snapshot's, and
/// each snapshot child, in order, is restored into the child with its key,
/// which is created (empty, at the end) when missing.
pub open spec fn restore_tree(t: KeeperTree, s: KeeperTree) -> KeeperTree
    decreases s, 0int,
{
    KeeperTree { own: s.own, kids: restore_kids(t.kids, s.kids, s.kids.len() as int) }
}

/// The children after restoring the first `n` snapshot children `skids` into `kids`.
pub open spec fn restore_kids(
    kids: Seq<(Seq<char>, KeeperTree)>,
    skids: Seq<(Seq<char>, KeeperTree)>,
    n: int,
) -> Seq<(Seq<char>, KeeperTree)>
    decreases skids, n,
{
    if n <= 0 || n > skids.len() {
        kids
    } else {
        let prev = restore_kids(kids, skids, n - 1);
        let k = skids[n - 1].0;
        let cs = skids[n - 1].1;
        let p = key_pos(keys_of(prev), k);
        if p >= 0 && p < prev.len() {
            prev.update(p, (k, restore_tree(prev[p].1, cs)))
        } else {
            prev.push((k, restore_tree(empty_tree(), cs)))
        }
    }
}

/// Recursive tree of component states.
pub struct StateKeeper {
    own_state: Option<AnyState>,
    children: Vec<(String, StateKeeper)>,
}

/// Snapshot of a whole state tree, made by [`StateKeeper::save`] or
/// [`StateKeeper::save_take`], read by [`StateKeeper::restore`] and
/// [`StateKeeper::restore_strict`].
pub struct StateKeeperSnapshot {
    /// The node's state, if any.
    pub own_state: Option<AnyState>,
    /// Child snapshots by key.
    pub children: Vec<(String, StateKeeperSnapshot)>,
}

impl StateKeeper {
    /// The mathematical tree of this keeper.
    pub closed spec fn tree(&self) -> KeeperTree
        decreases self, 0int,
    {
        KeeperTree { own: self.own_state, kids: keeper_kids(self.children@, self.children@.len() as int) }
    }
}

/// The trees of the first `n` children of a keeper.
pub closed spec fn keeper_kids(v: Seq<(String, StateKeeper)>, n: int) -> Seq<(Seq<char>, KeeperTree)>
    decreases v, n,
{
    if n <= 0 || n > v.len() {
        Seq::empty()
    } else {
        keeper_kids(v, n - 1).push((v[n - 1].0@, v[n - 1].1.tree()))
    }
}

impl StateKeeperSnapshot {
    /// The mathematical tree of this snapshot.
    pub open spec fn tree(&self) -> KeeperTree
        decreases self, 0int,
    {
        KeeperTree { own: self.own_state, kids: snapshot_kids(self.children@, self.children@.len() as int) }
    }
}

/// The trees of the first `n` children of a snapshot.
pub open spec fn snapshot_kids(v: Seq<(String, StateKeeperSnapshot)>, n: int) -> Seq<(Seq<char>, KeeperTree)>
    decreases v, n,
{
    if n <= 0 || n > v.len() {
        Seq::empty()
    } else {
        snapshot_kids(v, n - 1).push((v[n - 1].0@, v[n - 1].1.tree()))
    }
}


proof fn lemma_keeper_kids_len(v: Seq<(String, StateKeeper)>, n: int)
    requires
        0 <= n <= v.len(),
    ensures
        keeper_kids(v, n).len() == n,
        forall|i: int| 0 <= i < n ==> #[trigger] keeper_kids(v, n)[i] == (v[i].0@, v[i].1.tree()),
    decreases n,
{
    if n > 0 {
        lemma_keeper_kids_len(v, n - 1);
    }
}

impl StateKeeper {
    /// The children of this keeper as trees.
    pub closed spec fn kids(&self) -> Seq<(Seq<char>, KeeperTree)> {
        self.tree().kids
    }

    broadcast proof fn lemma_tree_kids(&self)
        ensures
            #![trigger self.tree()]
            self.tree().kids.len() == self.children@.len(),
            forall|i: int| 0 <= i < self.children@.len() ==> #[trigger] self.tree().kids[i] == (self.children@[i].0@, self.children@[i].1.tree()),
            self.tree().own == self.own_state,
    {
        lemma_keeper_kids_len(self.children@, self.children@.len() as int);
    }

    /// An empty keeper.
    pub fn new() -> (k: Self)
        ensures
            k.tree() == empty_tree(),
    {
        let k = StateKeeper { own_state: None, children: Vec::new() };
        proof {
            k.lemma_tree_kids();
            assert(k.tree().kids =~= Seq::<(Seq<char>, KeeperTree)>::empty());
        }
        k
    }

    /// A keeper holding `state` and no children.
    pub fn with_state<T: Send + 'static>(state: Box<T>) -> (k: Self)
        ensures
            k.tree().own is Some,
            k.tree().kids.len() == 0,
    {
        let k = StateKeeper { own_state: Some(AnyState::from_box(state)), children: Vec::new() };
        proof {
            k.lemma_tree_kids();
        }
        k
    }

    /// Set the own state (replacing any previous one); children are untouched.
    pub fn set_own_state<T: Send + 'static>(&mut self, state: Box<T>)
        ensures
            final(self).tree().own is Some,
            final(self).tree().kids == old(self).tree().kids,
    {
        self.set_own_any(AnyState::from_box(state));
    }

    /// Set the own state to an already boxed state.
    pub fn set_own_any(&mut self, state: AnyState)
        ensures
            final(self).tree() == (KeeperTree { own: Some(state), kids: old(self).tree().kids }),
    {
        proof {
            self.lemma_tree_kids();
        }
        self.own_state = Some(state);
        proof {
            self.lemma_tree_kids();
            assert(self.tree().kids =~= old(self).tree().kids);
        }
    }

    /// Take the own state out, leaving none.
    pub fn take_own_state(&mut self) -> (r: Option<AnyState>)
        ensures
            r == old(self).tree().own,
            final(self).tree() == (KeeperTree { own: None, kids: old(self).tree().kids }),
    {
        proof {
            self.lemma_tree_kids();
        }
        let r = self.own_state.take();
        proof {
            self.lemma_tree_kids();
            assert(self.tree().kids =~= old(self).tree().kids);
        }
        r
    }

    /// The own state if it is a `T`.
    pub fn own_state<T: 'static>(&self) -> (r: Option<&T>)
        ensures
            r is Some ==> self.tree().own is Some,
    {
        proof {
            self.lemma_tree_kids();
        }
        match &self.own_state {
            Some(s) => s.downcast_ref::<T>(),
            None => None,
        }
    }

    /// The own state, mutably, if it is a `T`.
    pub fn own_state_mut<T: 'static>(&mut self) -> (r: Option<&mut T>)
        ensures
            r is Some ==> old(self).tree().own is Some,
            final(self).tree().kids == old(self).tree().kids,
            old(self).tree().own is Some <==> final(self).tree().own is Some,
    {
        proof {
            self.lemma_tree_kids();
        }
        match &mut self.own_state {
            Some(s) => s.downcast_mut::<T>(),
            None => None,
        }
    }

    /// Whether the keeper holds an own state.
    pub fn has_own_state(&self) -> (r: bool)
        ensures
            r == self.tree().own is Some,
    {
        proof {
            self.lemma_tree_kids();
        }
        self.own_state.is_some()
    }

    /// Drop the own state.
    pub fn clear_own_state(&mut self)
        ensures
            final(self).tree() == (KeeperTree { own: None, kids: old(self).tree().kids }),
    {
        proof {
            self.lemma_tree_kids();
        }
        self.own_state = None;
        proof {
            self.lemma_tree_kids();
            assert(self.tree().kids =~= old(self).tree().kids);
        }
    }

    /// Drop all children.
    pub fn clear_children(&mut self)
        ensures
            final(self).tree() == (KeeperTree { own: old(self).tree().own, kids: Seq::empty() }),
    {
        proof {
            self.lemma_tree_kids();
        }
        self.children.clear();
        proof {
            self.lemma_tree_kids();
            assert(self.tree().kids =~= Seq::<(Seq<char>, KeeperTree)>::empty());
        }
    }

    /// Number of children.
    pub fn children_count(&self) -> (n: usize)
        ensures
            n == self.tree().kids.len(),
    {
        proof {
            self.lemma_tree_kids();
        }
        self.children.len()
    }

    /// Drop the own state and all children.
    pub fn clear(&mut self)
        ensures
            final(self).tree() == empty_tree(),
    {
        self.own_state = None;
        self.children.clear();
        proof {
            self.lemma_tree_kids();
            assert(self.tree().kids =~= Seq::<(Seq<char>, KeeperTree)>::empty());
        }
    }
}


impl Default for StateKeeper {
    fn default() -> (k: Self)
        ensures
            k.tree() == empty_tree(),
    {
        StateKeeper::new()
    }
}

/// Law: `key_pos` finds the first occurrence of `k`, or reports none.
pub proof fn lemma_key_pos(keys: Seq<Seq<char>>, k: Seq<char>)
    ensures
        -1 <= key_pos(keys, k) < keys.len(),
        key_pos(keys, k) >= 0 ==> keys[key_pos(keys, k)] == k,
        forall|j: int| 0 <= j < key_pos(keys, k) ==> keys[j] != k,
        key_pos(keys, k) < 0 ==> forall|j: int| 0 <= j < keys.len() ==> keys[j] != k,
    decreases keys.len(),
{
    if keys.len() > 0 {
        lemma_key_pos(keys.drop_last(), k);
        assert forall|j: int| 0 <= j < keys.len() - 1 implies keys.drop_last()[j] == keys[j] by {}
    }
}

/// First index of `key` among the children, if any.
fn find_child(children: &Vec<(String, StateKeeper)>, key: &String) -> (r: Option<usize>)
    ensures
        match r {
            Some(i) => i < children@.len() && children@[i as int].0@ == key@
                && forall|j: int| 0 <= j < i ==> children@[j].0@ != key@,
            None => forall|j: int| 0 <= j < children@.len() ==> children@[j].0@ != key@,
        },
{
    let n = children.len();
    let mut i: usize = 0;
    while i < n
        invariant
            n == children@.len(),
            i <= n,
            forall|j: int| 0 <= j < i ==> children@[j].0@ != key@,
        decreases n - i,
    {
        if children[i].0 == *key {
            return Some(i);
        }
        i = i + 1;
    }
    None
}

impl StateKeeper {
    /// The `i`-th child, mutably.
    fn child_at(&mut self, i: usize) -> (r: &mut StateKeeper)
        requires
            i < old(self).children@.len(),
        ensures
            *r == old(self).children@[i as int].1,
            final(self).children@ == old(self).children@.update(i as int, (old(self).children@[i as int].0, *final(r))),
            final(self).own_state == old(self).own_state,
            final(self).tree().own == old(self).tree().own,
            final(self).tree().kids =~= old(self).tree().kids.update(i as int, (old(self).children@[i as int].0@, final(r).tree())),
    {
        broadcast use StateKeeper::lemma_tree_kids;
        &mut self.children[i].1
    }

    /// The child with `key`, created empty at the end when missing.
    pub fn child(&mut self, key: &str) -> (r: &mut StateKeeper)
        ensures
            key_pos(keys_of(old(self).tree().kids), key@) >= 0 ==> r.tree() == old(self).tree().kids[key_pos(keys_of(old(self).tree().kids), key@)].1,
            key_pos(keys_of(old(self).tree().kids), key@) >= 0 ==> final(self).tree().kids
                =~= old(self).tree().kids.update(key_pos(keys_of(old(self).tree().kids), key@), (key@, final(r).tree())),
            key_pos(keys_of(old(self).tree().kids), key@) < 0 ==> r.tree() == empty_tree(),
            key_pos(keys_of(old(self).tree().kids), key@) < 0 ==> final(self).tree().kids
                =~= old(self).tree().kids.push((key@, final(r).tree())),
            final(self).tree().own == old(self).tree().own,
    {
        broadcast use StateKeeper::lemma_tree_kids;
        let key = key.to_owned();
        proof {
            self.lemma_tree_kids();
            lemma_key_pos(keys_of(self.tree().kids), key@);
        }
        match find_child(&self.children, &key) {
            Some(i) => {
                proof {
                    let p = key_pos(keys_of(self.tree().kids), key@);
                    assert(keys_of(self.tree().kids)[i as int] == key@);
                    if p != i {
                        assert(keys_of(self.tree().kids)[p] == key@);
                    }
                    assert(p == i);
                }
                self.child_at(i)
            },
            None => {
                let n = self.children.len();
                self.children.push((key, StateKeeper::new()));
                proof {
                    assert(self.tree().kids =~= old(self).tree().kids.push((key@, empty_tree())));
                }
                self.child_at(n)
            },
        }
    }
}



/// `kids` without the children under key `k`.
pub open spec fn without_key(kids: Seq<(Seq<char>, KeeperTree)>, k: Seq<char>) -> Seq<(Seq<char>, KeeperTree)>
    decreases kids.len(),
{
    if kids.len() == 0 {
        kids
    } else {
        let rest = without_key(kids.drop_last(), k);
        if kids.last().0 == k {
            rest
        } else {
            rest.push(kids.last())
        }
    }
}

/// The keeper children of `v` without those under key `k`.
closed spec fn children_without(v: Seq<(String, StateKeeper)>, k: Seq<char>) -> Seq<(String, StateKeeper)>
    decreases v.len(),
{
    if v.len() == 0 {
        v
    } else {
        let rest = children_without(v.drop_last(), k);
        if v.last().0@ == k {
            rest
        } else {
            rest.push(v.last())
        }
    }
}

proof fn lemma_keeper_kids_full(v: Seq<(String, StateKeeper)>)
    ensures
        keeper_kids(v, v.len() as int).len() == v.len(),
        forall|i: int| 0 <= i < v.len() ==> #[trigger] keeper_kids(v, v.len() as int)[i] == (v[i].0@, v[i].1.tree()),
{
    lemma_keeper_kids_len(v, v.len() as int);
}

proof fn lemma_children_without(v: Seq<(String, StateKeeper)>, k: Seq<char>)
    ensures
        keeper_kids(children_without(v, k), children_without(v, k).len() as int)
            == without_key(keeper_kids(v, v.len() as int), k),
    decreases v.len(),
{
    let w = children_without(v, k);
    lemma_keeper_kids_full(v);
    lemma_keeper_kids_full(w);
    if v.len() > 0 {
        lemma_children_without(v.drop_last(), k);
        let kv = keeper_kids(v, v.len() as int);
        lemma_keeper_kids_full(v.drop_last());
        assert(kv.drop_last() =~= keeper_kids(v.drop_last(), v.len() - 1));
        let r = children_without(v.drop_last(), k);
        lemma_keeper_kids_full(r);
        if v.last().0@ != k {
            assert(keeper_kids(w, w.len() as int) =~= keeper_kids(r, r.len() as int).push((v.last().0@, v.last().1.tree())));
        }
    } else {
        assert(keeper_kids(w, w.len() as int) =~= without_key(keeper_kids(v, v.len() as int), k));
    }
}

proof fn lemma_children_without_step(v: Seq<(String, StateKeeper)>, j: int, k: Seq<char>)
    requires
        0 <= j < v.len(),
    ensures
        children_without(v.take(j + 1), k) == if v[j].0@ == k {
            children_without(v.take(j), k)
        } else {
            children_without(v.take(j), k).push(v[j])
        },
{
    assert(v.take(j + 1).drop_last() =~= v.take(j));
}

impl StateKeeper {
    /// Whether a child with `key` exists.
    pub fn has_child(&self, key: &str) -> (r: bool)
        ensures
            r == keys_of(self.tree().kids).contains(key@),
    {
        broadcast use StateKeeper::lemma_tree_kids;
        let key = key.to_owned();
        let found = find_child(&self.children, &key);
        proof {
            let keys = keys_of(self.tree().kids);
            match found {
                Some(i) => {
                    assert(keys[i as int] == key@);
                },
                None => {
                    assert forall|j: int| 0 <= j < keys.len() implies keys[j] != key@ by {
                        assert(keys[j] == self.children@[j].0@);
                    }
                },
            }
        }
        found.is_some()
    }

    /// Remove every child with `key`.
    pub fn remove_child(&mut self, key: &str)
        ensures
            final(self).tree().own == old(self).tree().own,
            final(self).tree().kids == without_key(old(self).tree().kids, key@),
    {
        broadcast use StateKeeper::lemma_tree_kids;
        let key = key.to_owned();
        let ghost orig = self.children@;
        let mut i: usize = 0;
        let ghost mut j: int = 0;
        proof {
            assert(orig.take(0) =~= Seq::<(String, StateKeeper)>::empty());
            assert(self.children@ =~= children_without(orig.take(0), key@) + orig.skip(0));
        }
        while i < self.children.len()
            invariant
                0 <= j <= orig.len(),
                self.children@ == children_without(orig.take(j), key@) + orig.skip(j),
                i == children_without(orig.take(j), key@).len(),
                self.own_state == old(self).own_state,
            decreases orig.len() - j,
        {
            proof {
                if j >= orig.len() {
                    assert(orig.skip(j).len() == 0);
                }
                lemma_children_without_step(orig, j, key@);
            }
            if self.children[i].0 == key {
                self.children.remove(i);
                proof {
                    assert(self.children@ =~= children_without(orig.take(j + 1), key@) + orig.skip(j + 1));
                    j = j + 1;
                }
            } else {
                i = i + 1;
                proof {
                    assert(self.children@ =~= children_without(orig.take(j + 1), key@) + orig.skip(j + 1));
                    j = j + 1;
                }
            }
        }
        proof {
            assert(orig.take(j) =~= orig);
            assert(self.children@ =~= children_without(orig, key@));
            lemma_children_without(orig, key@);
            lemma_keeper_kids_full(orig);
            assert(old(self).tree().kids =~= keeper_kids(orig, orig.len() as int));
        }
    }
}


/// Every state of `b` made from serialized bytes is copied, bytes and all, at
/// the same place in `a`.
pub open spec fn bytes_kept(a: KeeperTree, b: KeeperTree) -> bool
    decreases b,
{
    &&& (b.own is Some && b.own->0.known_bytes() is Some) ==> (a.own is Some && a.own->0.known_bytes() == b.own->0.known_bytes())
    &&& forall|i: int| 0 <= i < b.kids.len() && i < a.kids.len() ==> bytes_kept(a.kids[i].1, (#[trigger] b.kids[i]).1)
}

/// `a` and `b` have the same shape: the same keys at every level and an own
/// state at the same nodes (the states themselves may differ).
pub open spec fn same_shape(a: KeeperTree, b: KeeperTree) -> bool
    decreases a,
{
    &&& (a.own is Some) == (b.own is Some)
    &&& a.kids.len() == b.kids.len()
    &&& forall|i: int| 0 <= i < a.kids.len() ==> {
        &&& (#[trigger] a.kids[i]).0 == b.kids[i].0
        &&& same_shape(a.kids[i].1, b.kids[i].1)
    }
}

/// `after` is `before` with every own state taken out: the same keys at every
/// level and no state anywhere.
pub open spec fn states_taken(after: KeeperTree, before: KeeperTree) -> bool
    decreases before,
{
    &&& after.own is None
    &&& after.kids.len() == before.kids.len()
    &&& forall|i: int| 0 <= i < before.kids.len() ==> {
        &&& (#[trigger] after.kids[i]).0 == before.kids[i].0
        &&& states_taken(after.kids[i].1, before.kids[i].1)
    }
}

proof fn lemma_snapshot_kids_len(v: Seq<(String, StateKeeperSnapshot)>, n: int)
    requires
        0 <= n <= v.len(),
    ensures
        snapshot_kids(v, n).len() == n,
        forall|i: int| 0 <= i < n ==> #[trigger] snapshot_kids(v, n)[i] == (v[i].0@, v[i].1.tree()),
    decreases n,
{
    if n > 0 {
        lemma_snapshot_kids_len(v, n - 1);
    }
}

impl StateKeeperSnapshot {
    /// The tree of a snapshot: its own state and its children's trees.
    pub broadcast proof fn lemma_snapshot_tree(&self)
        ensures
            #![trigger self.tree()]
            self.tree().kids.len() == self.children@.len(),
            forall|i: int| 0 <= i < self.children@.len() ==> #[trigger] self.tree().kids[i] == (self.children@[i].0@, self.children@[i].1.tree()),
            self.tree().own == self.own_state,
    {
        lemma_snapshot_kids_len(self.children@, self.children@.len() as int);
    }
}

impl StateKeeper {
    /// A snapshot of the tree's shape. The states are not copied (a state of
    /// any type cannot be cloned): each node that has a state gets a
    /// placeholder `()` in the snapshot.
    pub fn save(&self) -> (s: StateKeeperSnapshot)
        ensures
            same_shape(s.tree(), self.tree()),
            bytes_kept(s.tree(), self.tree()),
        decreases self,
    {
        broadcast use StateKeeper::lemma_tree_kids, StateKeeperSnapshot::lemma_snapshot_tree;
        let own_state = match &self.own_state {
            Some(st) => match st.copy_bytes() {
                Some(c) => Some(c),
                None => Some(AnyState::new(())),
            },
            None => None,
        };
        let mut children: Vec<(String, StateKeeperSnapshot)> = Vec::new();
        let n = self.children.len();
        let mut i: usize = 0;
        while i < n
            invariant
                n == self.children@.len(),
                i <= n,
                children@.len() == i,
                forall|j: int| 0 <= j < i ==> {
                    &&& (#[trigger] children@[j]).0@ == self.children@[j].0@
                    &&& same_shape(children@[j].1.tree(), self.children@[j].1.tree())
                    &&& bytes_kept(children@[j].1.tree(), self.children@[j].1.tree())
                },
            decreases n - i,
        {
            let key = self.children[i].0.clone();
            let snap = self.children[i].1.save();
            children.push((key, snap));
            i = i + 1;
        }
        let s = StateKeeperSnapshot { own_state, children };
        proof {
            let a = s.tree();
            let b = self.tree();
            assert forall|j: int| 0 <= j < a.kids.len() implies (#[trigger] a.kids[j]).0 == b.kids[j].0
                && same_shape(a.kids[j].1, b.kids[j].1) by {
                assert(a.kids[j] == (s.children@[j].0@, s.children@[j].1.tree()));
            }
            assert forall|j: int| 0 <= j < b.kids.len() && j < a.kids.len() implies bytes_kept(a.kids[j].1, (#[trigger] b.kids[j]).1) by {
                assert(a.kids[j] == (s.children@[j].0@, s.children@[j].1.tree()));
            }
        }
        s
    }

    /// Take every state out of the tree into a snapshot. The snapshot holds
    /// exactly the tree as it was; the keeper keeps its keys but no state.
    pub fn save_take(&mut self) -> (s: StateKeeperSnapshot)
        ensures
            s.tree() == old(self).tree(),
            states_taken(final(self).tree(), old(self).tree()),
        decreases *old(self),
    {
        broadcast use StateKeeper::lemma_tree_kids, StateKeeperSnapshot::lemma_snapshot_tree;
        let own_state = self.own_state.take();
        let mut children: Vec<(String, StateKeeperSnapshot)> = Vec::new();
        let n = self.children.len();
        let ghost orig = self.children@;
        let mut i: usize = 0;
        while i < n
            invariant
                n == orig.len(),
                self.children@.len() == n,
                i <= n,
                children@.len() == i,
                forall|j: int| i <= j < n ==> #[trigger] self.children@[j] == orig[j],
                forall|j: int| 0 <= j < i ==> {
                    &&& (#[trigger] children@[j]).0@ == orig[j].0@
                    &&& children@[j].1.tree() == orig[j].1.tree()
                    &&& self.children@[j].0 == orig[j].0
                    &&& states_taken(self.children@[j].1.tree(), orig[j].1.tree())
                },
                self.own_state is None,
                orig == old(self).children@,
            decreases n - i,
        {
            let key = self.children[i].0.clone();
            let snap = self.child_at(i).save_take();
            children.push((key, snap));
            i = i + 1;
        }
        let s = StateKeeperSnapshot { own_state, children };
        proof {
            assert(s.tree().kids =~= old(self).tree().kids);
            let a = self.tree();
            let b = old(self).tree();
            assert forall|j: int| 0 <= j < b.kids.len() implies (#[trigger] a.kids[j]).0 == b.kids[j].0
                && states_taken(a.kids[j].1, b.kids[j].1) by {
                assert(a.kids[j] == (self.children@[j].0@, self.children@[j].1.tree()));
            }
        }
        s
    }
}


impl StateKeeper {
    /// Restore the tree from a snapshot: the own state becomes the snapshot's;
    /// each snapshot child, in order, is restored into the child with the same
    /// key, created when missing. Children absent from the snapshot keep their
    /// state.
    pub fn restore(&mut self, snapshot: StateKeeperSnapshot)
        ensures
            final(self).tree() == restore_tree(old(self).tree(), snapshot.tree()),
        decreases snapshot,
    {
        broadcast use StateKeeper::lemma_tree_kids, StateKeeperSnapshot::lemma_snapshot_tree;
        let ghost st = snapshot.tree();
        let ghost okids = self.tree().kids;
        proof {
            snapshot.lemma_snapshot_tree();
        }
        let StateKeeperSnapshot { own_state, children } = snapshot;
        self.own_state = own_state;
        let ghost orig = children@;
        let mut kids = children;
        let ghost mut n: int = 0;
        proof {
            assert(kids@ =~= orig.skip(0));
            assert(self.tree().kids =~= okids);
        }
        while kids.len() > 0
            invariant
                0 <= n <= orig.len(),
                kids@ == orig.skip(n),
                orig == snapshot.children@,
                st.kids.len() == orig.len(),
                forall|i: int| 0 <= i < orig.len() ==> #[trigger] st.kids[i] == (orig[i].0@, orig[i].1.tree()),
                self.tree().own == st.own,
                self.tree().kids == restore_kids(okids, st.kids, n),
            decreases orig.len() - n,
        {
            proof {
                assert(orig.skip(n).len() == orig.len() - n);
            }
            let (key, cs) = kids.remove(0);
            proof {
                assert(key == orig[n].0 && cs == orig[n].1);
                assert(st.kids[n] == (orig[n].0@, orig[n].1.tree()));
                assert(decreases_to!(snapshot => snapshot.children));
                assert(decreases_to!(snapshot.children => snapshot.children@));
                assert(decreases_to!(snapshot.children@ => snapshot.children@[n]));
                assert(decreases_to!(snapshot.children@[n] => snapshot.children@[n].1));
            }
            let ghost prev = self.tree().kids;
            let ghost p = key_pos(keys_of(prev), key@);
            let ghost cst = cs.tree();
            proof {
                lemma_key_pos(keys_of(prev), key@);
                assert(keys_of(prev).len() == prev.len());
                assert(st.kids[n].0 == key@);
                assert(st.kids[n].1 == cst);
            }
            let r = self.child(key.as_str());
            r.restore(cs);
            proof {
                if p >= 0 {
                    assert(self.tree().kids =~= prev.update(p, (key@, restore_tree(prev[p].1, cst))));
                } else {
                    assert(self.tree().kids =~= prev.push((key@, restore_tree(empty_tree(), cst))));
                }
                assert(kids@ =~= orig.skip(n + 1));
                n = n + 1;
            }
        }
        proof {
            assert(orig.skip(n).len() == 0);
        }
    }
}


/// At every level of `t`, no two children share a key.
pub open spec fn keys_unique(t: KeeperTree) -> bool
    decreases t,
{
    &&& forall|i: int, j: int| 0 <= i < j < t.kids.len() ==> (#[trigger] t.kids[i]).0 != (#[trigger] t.kids[j]).0
    &&& forall|i: int| 0 <= i < t.kids.len() ==> keys_unique((#[trigger] t.kids[i]).1)
}

proof fn lemma_restore_kids_into_empty(t: KeeperTree, n: int)
    requires
        keys_unique(t),
        0 <= n <= t.kids.len(),
    ensures
        restore_kids(Seq::empty(), t.kids, n) == t.kids.take(n),
    decreases t, n,
{
    if n > 0 {
        lemma_restore_kids_into_empty(t, n - 1);
        let prev = t.kids.take(n - 1);
        let k = t.kids[n - 1].0;
        lemma_key_pos(keys_of(prev), k);
        if key_pos(keys_of(prev), k) >= 0 {
            let p = key_pos(keys_of(prev), k);
            assert(t.kids[p].0 == k);
        }
        assert(decreases_to!(t => t.kids));
        assert(decreases_to!(t.kids => t.kids[n - 1]));
        lemma_restore_into_empty(t.kids[n - 1].1);
        assert(t.kids.take(n) =~= prev.push(t.kids[n - 1]));
    } else {
        assert(t.kids.take(0) =~= Seq::<(Seq<char>, KeeperTree)>::empty());
    }
}

/// Law: restoring a snapshot into an empty keeper rebuilds it exactly, when
/// no level of the snapshot repeats a key.
pub proof fn lemma_restore_into_empty(t: KeeperTree)
    requires
        keys_unique(t),
    ensures
        restore_tree(empty_tree(), t) == t,
    decreases t, t.kids.len() + 1,
{
    lemma_restore_kids_into_empty(t, t.kids.len() as int);
    assert(t.kids.take(t.kids.len() as int) =~= t.kids);
}


proof fn lemma_restore_kids_unique(t: KeeperTree, s: KeeperTree, n: int)
    requires
        keys_unique(t),
        0 <= n <= s.kids.len(),
    ensures
        keys_unique(KeeperTree { own: s.own, kids: restore_kids(t.kids, s.kids, n) }),
    decreases s, n,
{
    let r = restore_kids(t.kids, s.kids, n);
    let rt = KeeperTree { own: s.own, kids: r };
    if n > 0 {
        lemma_restore_kids_unique(t, s, n - 1);
        let prev = restore_kids(t.kids, s.kids, n - 1);
        let pt = KeeperTree { own: s.own, kids: prev };
        assert(forall|i: int, j: int| 0 <= i < j < prev.len() ==> (#[trigger] pt.kids[i]).0 != (#[trigger] pt.kids[j]).0);
        assert(forall|i: int| 0 <= i < prev.len() ==> keys_unique((#[trigger] pt.kids[i]).1));
        let k = s.kids[n - 1].0;
        let cs = s.kids[n - 1].1;
        lemma_key_pos(keys_of(prev), k);
        let p = key_pos(keys_of(prev), k);
        assert(decreases_to!(s => s.kids));
        assert(decreases_to!(s.kids => s.kids[n - 1]));
        if p >= 0 {
            assert(keys_of(prev)[p] == prev[p].0);
            assert(pt.kids[p] == prev[p]);
            lemma_restore_keeps_keys_unique(prev[p].1, cs);
            assert forall|i: int, j: int| 0 <= i < j < r.len() implies (#[trigger] rt.kids[i]).0 != (#[trigger] rt.kids[j]).0 by {
                assert(pt.kids[i].0 != pt.kids[j].0);
            }
            assert forall|i: int| 0 <= i < r.len() implies keys_unique((#[trigger] rt.kids[i]).1) by {
                if i != p {
                    assert(keys_unique(pt.kids[i].1));
                }
            }
        } else {
            lemma_restore_keeps_keys_unique(empty_tree(), cs);
            assert forall|i: int, j: int| 0 <= i < j < r.len() implies (#[trigger] rt.kids[i]).0 != (#[trigger] rt.kids[j]).0 by {
                if j == prev.len() {
                    assert(keys_of(prev)[i] == prev[i].0);
                } else {
                    assert(pt.kids[i].0 != pt.kids[j].0);
                }
            }
            assert forall|i: int| 0 <= i < r.len() implies keys_unique((#[trigger] rt.kids[i]).1) by {
                if i < prev.len() {
                    assert(keys_unique(pt.kids[i].1));
                }
            }
        }
    } else {
        assert forall|i: int, j: int| 0 <= i < j < r.len() implies (#[trigger] rt.kids[i]).0 != (#[trigger] rt.kids[j]).0 by {
            assert(t.kids[i].0 != t.kids[j].0);
        }
        assert forall|i: int| 0 <= i < r.len() implies keys_unique((#[trigger] rt.kids[i]).1) by {
            assert(keys_unique(t.kids[i].1));
        }
    }
}

/// Law: restoring never makes two children share a key: a tree whose keys
/// are unique at every level keeps them unique, whatever the snapshot.
pub proof fn lemma_restore_keeps_keys_unique(t: KeeperTree, s: KeeperTree)
    requires
        keys_unique(t),
    ensures
        keys_unique(restore_tree(t, s)),
    decreases s, s.kids.len() + 1,
{
    lemma_restore_kids_unique(t, s, s.kids.len() as int);
}

/// Moving grandchildren: for each of the first `n` keys of `keys`, in order,
/// when `new` has no child with that key, the first child of `old` with it
/// (if any) leaves `old` and is appended to `new`.
pub open spec fn graft(old: KeeperTree, new: KeeperTree, keys: Seq<Seq<char>>, n: int) -> (KeeperTree, KeeperTree)
    decreases n,
{
    if n <= 0 || n > keys.len() {
        (old, new)
    } else {
        let prev = graft(old, new, keys, n - 1);
        let o = prev.0;
        let w = prev.1;
        let k = keys[n - 1];
        if keys_of(w.kids).contains(k) {
            (o, w)
        } else {
            let idx = key_pos(keys_of(o.kids), k);
            if idx >= 0 && idx < o.kids.len() {
                (
                    KeeperTree { own: o.own, kids: o.kids.remove(idx) },
                    KeeperTree { own: w.own, kids: w.kids.push((k, o.kids[idx].1)) },
                )
            } else {
                (o, w)
            }
        }
    }
}

/// Strict restore of the first `n` snapshot children `skids` against the
/// current children `okids`: each snapshot child becomes a fresh child
/// restored from it; when the current children have one with the same key,
/// that one's children whose keys the fresh child lacks move into the fresh
/// child. Returns the current children as left by the moves and the new children.
pub open spec fn strict_kids(
    okids: Seq<(Seq<char>, KeeperTree)>,
    skids: Seq<(Seq<char>, KeeperTree)>,
    n: int,
) -> (Seq<(Seq<char>, KeeperTree)>, Seq<(Seq<char>, KeeperTree)>)
    decreases n,
{
    if n <= 0 || n > skids.len() {
        (okids, Seq::empty())
    } else {
        let prev = strict_kids(okids, skids, n - 1);
        let ok = prev.0;
        let nk = prev.1;
        let k = skids[n - 1].0;
        let fresh = restore_tree(empty_tree(), skids[n - 1].1);
        let p = key_pos(keys_of(ok), k);
        if p >= 0 && p < ok.len() {
            let g = graft(ok[p].1, fresh, keys_of(ok[p].1.kids), ok[p].1.kids.len() as int);
            (ok.update(p, (ok[p].0, g.0)), nk.push((k, g.1)))
        } else {
            (ok, nk.push((k, fresh)))
        }
    }
}

/// Strict restore of `s` into `t`: the own state becomes the snapshot's and
/// the children are exactly the snapshot's, in its order (see [`strict_kids`]).
pub open spec fn restore_strict_tree(t: KeeperTree, s: KeeperTree) -> KeeperTree {
    KeeperTree { own: s.own, kids: strict_kids(t.kids, s.kids, s.kids.len() as int).1 }
}

proof fn lemma_keeper_kids_remove(v: Seq<(String, StateKeeper)>, i: int)
    requires
        0 <= i < v.len(),
    ensures
        keeper_kids(v.remove(i), v.len() - 1) == keeper_kids(v, v.len() as int).remove(i),
{
    lemma_keeper_kids_full(v);
    lemma_keeper_kids_full(v.remove(i));
    assert(keeper_kids(v.remove(i), v.len() - 1) =~= keeper_kids(v, v.len() as int).remove(i));
}

/// The `i`-th keeper of a child list, mutably.
fn kid_at(v: &mut Vec<(String, StateKeeper)>, i: usize) -> (r: &mut StateKeeper)
    requires
        i < old(v)@.len(),
    ensures
        *r == old(v)@[i as int].1,
        final(v)@ == old(v)@.update(i as int, (old(v)@[i as int].0, *final(r))),
{
    &mut v[i].1
}

impl StateKeeper {
    /// Move into `child` the children of `self` whose keys `child` lacks
    /// (see [`graft`]).
    fn graft_into(&mut self, child: &mut StateKeeper)
        ensures
            ({
                let g = graft(old(self).tree(), old(child).tree(), keys_of(old(self).tree().kids), old(self).tree().kids.len() as int);
                final(self).tree() == g.0 && final(child).tree() == g.1
            }),
    {
        broadcast use StateKeeper::lemma_tree_kids;
        let ghost t0 = self.tree();
        let ghost c0 = child.tree();
        let ghost keys = keys_of(t0.kids);
        let n = self.children.len();
        let mut old_keys: Vec<String> = Vec::new();
        let mut i: usize = 0;
        while i < n
            invariant
                n == self.children@.len(),
                i <= n,
                old_keys@.len() == i,
                forall|j: int| 0 <= j < i ==> (#[trigger] old_keys@[j])@ == self.children@[j].0@,
            decreases n - i,
        {
            old_keys.push(self.children[i].0.clone());
            i = i + 1;
        }
        proof {
            assert(keys.len() == n);
            assert forall|j: int| 0 <= j < n implies (#[trigger] old_keys@[j])@ == keys[j] by {
                assert(t0.kids[j] == (self.children@[j].0@, self.children@[j].1.tree()));
            }
            assert(self.tree() =~= graft(t0, c0, keys, 0).0);
            assert(child.tree() =~= graft(t0, c0, keys, 0).1);
        }
        let mut j: usize = 0;
        while j < n
            invariant
                n == old_keys@.len(),
                n == keys.len(),
                j <= n,
                forall|q: int| 0 <= q < n ==> (#[trigger] old_keys@[q])@ == keys[q],
                self.tree() == graft(t0, c0, keys, j as int).0,
                child.tree() == graft(t0, c0, keys, j as int).1,
            decreases n - j,
        {
            let old_key = &old_keys[j];
            let ghost o0 = self.tree();
            let ghost w0 = child.tree();
            proof {
                StateKeeper::lemma_tree_kids(&*self);
                assert(keys[j as int] == old_key@);
            }
            if !child.has_child(old_key.as_str()) {
                match find_child(&self.children, old_key) {
                    Some(idx) => {
                        let ghost o = self.tree();
                        proof {
                            StateKeeper::lemma_tree_kids(&*self);
                            lemma_key_pos(keys_of(o.kids), old_key@);
                            let p = key_pos(keys_of(o.kids), old_key@);
                            assert(o.kids[idx as int] == (self.children@[idx as int].0@, self.children@[idx as int].1.tree()));
                            assert(keys_of(o.kids).len() == o.kids.len());
                            assert(keys_of(o.kids)[idx as int] == old_key@);
                            if p >= 0 && p < idx {
                                assert(o.kids[p] == (self.children@[p].0@, self.children@[p].1.tree()));
                            }
                            if p != idx {
                                assert(keys_of(o.kids)[p] == old_key@);
                            }
                            assert(p == idx);
                        }
                        let ghost v0 = self.children@;
                        let ghost moved = o.kids[idx as int].1;
                        let (_, keeper) = self.children.remove(idx);
                        proof {
                            lemma_keeper_kids_remove(v0, idx as int);
                            assert(keeper.tree() == moved);
                            assert(self.tree() =~= (KeeperTree { own: o.own, kids: o.kids.remove(idx as int) }));
                        }
                        let ghost w = child.tree();
                        proof {
                            lemma_key_pos(keys_of(w.kids), old_key@);
                            if key_pos(keys_of(w.kids), old_key@) >= 0 {
                                let q = key_pos(keys_of(w.kids), old_key@);
                                assert(keys_of(w.kids)[q] == old_key@);
                                assert(keys_of(w.kids).contains(old_key@));
                            }
                        }
                        let r = child.child(old_key.as_str());
                        *r = keeper;
                        proof {
                            assert(child.tree() =~= (KeeperTree { own: w.own, kids: w.kids.push((old_key@, moved)) }));
                        }
                    },
                    None => {
                        proof {
                            let o = self.tree();
                            lemma_key_pos(keys_of(o.kids), old_key@);
                            assert(keys_of(o.kids).len() == o.kids.len());
                            if key_pos(keys_of(o.kids), old_key@) >= 0 {
                                let p = key_pos(keys_of(o.kids), old_key@);
                                assert(keys_of(o.kids)[p] == o.kids[p].0);
                                assert(o.kids[p] == (self.children@[p].0@, self.children@[p].1.tree()));
                                assert(false);
                            }
                        }
                    },
                }
            }
            proof {
                let g = graft(t0, c0, keys, j as int);
                assert(g.0 == o0 && g.1 == w0);
            }
            j = j + 1;
        }
    }
}


impl StateKeeper {
    /// Restore the tree from a snapshot, keeping only the snapshot's children:
    /// the own state becomes the snapshot's; the new children are exactly the
    /// snapshot children, in order, each restored into a fresh keeper; when the
    /// old tree had a child with the same key, that child's children whose
    /// keys the fresh child lacks are carried over into it (see [`strict_kids`]).
    pub fn restore_strict(&mut self, snapshot: StateKeeperSnapshot)
        ensures
            final(self).tree() == restore_strict_tree(old(self).tree(), snapshot.tree()),
    {
        broadcast use StateKeeper::lemma_tree_kids, StateKeeperSnapshot::lemma_snapshot_tree;
        let ghost st = snapshot.tree();
        let ghost okids = self.tree().kids;
        proof {
            snapshot.lemma_snapshot_tree();
        }
        let StateKeeperSnapshot { own_state, children } = snapshot;
        self.own_state = own_state;
        let ghost orig = children@;
        // Fresh children, each restored from its snapshot.
        let mut new_children: Vec<(String, StateKeeper)> = Vec::new();
        let mut kids = children;
        let ghost mut n: int = 0;
        proof {
            assert(kids@ =~= orig.skip(0));
        }
        while kids.len() > 0
            invariant
                0 <= n <= orig.len(),
                kids@ == orig.skip(n),
                st.kids.len() == orig.len(),
                forall|i: int| 0 <= i < orig.len() ==> #[trigger] st.kids[i] == (orig[i].0@, orig[i].1.tree()),
                new_children@.len() == n,
                forall|i: int| 0 <= i < n ==> {
                    &&& (#[trigger] new_children@[i]).0@ == st.kids[i].0
                    &&& new_children@[i].1.tree() == restore_tree(empty_tree(), st.kids[i].1)
                },
                self.tree().kids == okids,
                self.tree().own == st.own,
            decreases orig.len() - n,
        {
            proof {
                assert(orig.skip(n).len() == orig.len() - n);
            }
            let (key, cs) = kids.remove(0);
            let mut keeper = StateKeeper::new();
            keeper.restore(cs);
            new_children.push((key, keeper));
            proof {
                assert(kids@ =~= orig.skip(n + 1));
                n = n + 1;
            }
        }
        proof {
            assert(orig.skip(n).len() == orig.len() - n);
        }
        let m = new_children.len();
        let mut idx: usize = 0;
        while idx < m
            invariant
                m == new_children@.len(),
                m == st.kids.len(),
                idx <= m,
                forall|i: int| idx <= i < m ==> {
                    &&& (#[trigger] new_children@[i]).0@ == st.kids[i].0
                    &&& new_children@[i].1.tree() == restore_tree(empty_tree(), st.kids[i].1)
                },
                forall|i: int| 0 <= i < idx ==> (#[trigger] new_children@[i]).0@ == st.kids[i].0,
                forall|i: int| 0 <= i < idx ==> #[trigger] new_children@[i].1.tree() == strict_kids(okids, st.kids, idx as int).1[i].1,
                strict_kids(okids, st.kids, idx as int).1.len() == idx,
                self.tree().kids == strict_kids(okids, st.kids, idx as int).0,
                self.tree().own == st.own,
            decreases m - idx,
        {
            let key = new_children[idx].0.clone();
            let ghost ok = self.tree().kids;
            let ghost nk = strict_kids(okids, st.kids, idx as int).1;
            let ghost fresh = new_children@[idx as int].1.tree();
            proof {
                StateKeeper::lemma_tree_kids(&*self);
                lemma_key_pos(keys_of(ok), key@);
                assert(keys_of(ok).len() == ok.len());
            }
            match find_child(&self.children, &key) {
                Some(pos) => {
                    let ghost p = key_pos(keys_of(ok), key@);
                    proof {
                        assert(ok[pos as int] == (self.children@[pos as int].0@, self.children@[pos as int].1.tree()));
                        assert(keys_of(ok)[pos as int] == key@);
                        if p >= 0 && p < pos {
                            assert(ok[p] == (self.children@[p].0@, self.children@[p].1.tree()));
                        }
                        assert(p == pos);
                    }
                    let ghost oc = ok[p].1;
                    let ghost v0 = self.children@;
                    let ghost nv0 = new_children@;
                    let old_child = self.child_at(pos);
                    let new_child = kid_at(&mut new_children, idx);
                    old_child.graft_into(new_child);
                    proof {
                        let g = graft(oc, fresh, keys_of(oc.kids), oc.kids.len() as int);
                        assert(self.tree().kids =~= ok.update(p, (ok[p].0, g.0)));
                        assert(new_children@[idx as int].1.tree() == g.1);
                        assert(new_children@[idx as int].0 == nv0[idx as int].0);
                    }
                },
                None => {
                    proof {
                        if key_pos(keys_of(ok), key@) >= 0 {
                            let p = key_pos(keys_of(ok), key@);
                            assert(ok[p] == (self.children@[p].0@, self.children@[p].1.tree()));
                            assert(false);
                        }
                    }
                },
            }
            proof {
                let sk = strict_kids(okids, st.kids, idx + 1);
                assert(sk.1.len() == idx + 1);
                assert forall|i: int| 0 <= i < idx + 1 implies #[trigger] new_children@[i].1.tree() == sk.1[i].1 by {
                    if i < idx {
                        assert(sk.1[i] == nk[i]);
                    }
                }
            }
            idx = idx + 1;
        }
        self.children = new_children;
        proof {
            let sk = strict_kids(okids, st.kids, m as int);
            assert(self.tree().kids =~= sk.1) by {
                assert forall|i: int| 0 <= i < m implies #[trigger] self.tree().kids[i] == sk.1[i] by {
                    assert(self.tree().kids[i] == (self.children@[i].0@, self.children@[i].1.tree()));
                    assert(sk.1[i].0 == st.kids[i].0) by {
                        lemma_strict_kids_keys(okids, st.kids, m as int);
                    }
                }
            }
        }
    }
}

proof fn lemma_strict_kids_keys(okids: Seq<(Seq<char>, KeeperTree)>, skids: Seq<(Seq<char>, KeeperTree)>, n: int)
    requires
        0 <= n <= skids.len(),
    ensures
        strict_kids(okids, skids, n).1.len() == n,
        forall|i: int| 0 <= i < n ==> (#[trigger] strict_kids(okids, skids, n).1[i]).0 == skids[i].0,
    decreases n,
{
    if n > 0 {
        lemma_strict_kids_keys(okids, skids, n - 1);
    }
}


proof fn lemma_restore_kids_keeps_unlisted(
    kids: Seq<(Seq<char>, KeeperTree)>,
    skids: Seq<(Seq<char>, KeeperTree)>,
    n: int,
    i: int,
)
    requires
        0 <= i < kids.len(),
        0 <= n <= skids.len(),
        !keys_of(skids).contains(kids[i].0),
    ensures
        restore_kids(kids, skids, n).len() >= kids.len(),
        restore_kids(kids, skids, n)[i] == kids[i],
    decreases n,
{
    if n > 0 {
        lemma_restore_kids_keeps_unlisted(kids, skids, n - 1, i);
        let prev = restore_kids(kids, skids, n - 1);
        let k = skids[n - 1].0;
        lemma_key_pos(keys_of(prev), k);
        assert(keys_of(skids)[n - 1] == k);
        if k == kids[i].0 {
            assert(keys_of(skids).contains(kids[i].0));
        }
        let p = key_pos(keys_of(prev), k);
        if p == i {
            assert(keys_of(prev)[p] == prev[p].0);
        }
    }
}

/// Law: restoring leaves alone every child whose key the snapshot does not
/// list: it keeps its place and its whole subtree.
pub proof fn lemma_restore_keeps_unlisted(t: KeeperTree, s: KeeperTree, i: int)
    requires
        0 <= i < t.kids.len(),
        !keys_of(s.kids).contains(t.kids[i].0),
    ensures
        restore_tree(t, s).kids.len() >= t.kids.len(),
        restore_tree(t, s).kids[i] == t.kids[i],
{
    lemma_restore_kids_keeps_unlisted(t.kids, s.kids, s.kids.len() as int, i);
}

/// Law: after a strict restore the children are exactly the snapshot's
/// children, by key and in order.
pub proof fn lemma_restore_strict_keys(t: KeeperTree, s: KeeperTree)
    ensures
        keys_of(restore_strict_tree(t, s).kids) == keys_of(s.kids),
        restore_strict_tree(t, s).own == s.own,
{
    lemma_strict_kids_keys(t.kids, s.kids, s.kids.len() as int);
    assert(keys_of(restore_strict_tree(t, s).kids) =~= keys_of(s.kids));
}

/// The children after `child(k)` when the caller leaves the child as `c`: the
/// existing child with key `k` becomes `c`, or `(k, c)` is appended.
pub open spec fn with_child(kids: Seq<(Seq<char>, KeeperTree)>, k: Seq<char>, c: KeeperTree) -> Seq<(Seq<char>, KeeperTree)> {
    let p = key_pos(keys_of(kids), k);
    if p >= 0 {
        kids.update(p, (k, c))
    } else {
        kids.push((k, c))
    }
}

/// Law: asking twice for the same child does not create a second one: after
/// `child(k)`, the key `k` is present exactly where a second `child(k)` will
/// find it, and the number of children grew by at most one.
pub proof fn lemma_child_reuses_existing(kids: Seq<(Seq<char>, KeeperTree)>, k: Seq<char>, c: KeeperTree, c2: KeeperTree)
    ensures
        key_pos(keys_of(with_child(kids, k, c)), k) >= 0,
        with_child(kids, k, c).len() <= kids.len() + 1,
        with_child(with_child(kids, k, c), k, c2).len() == with_child(kids, k, c).len(),
{
    let w = with_child(kids, k, c);
    lemma_key_pos(keys_of(kids), k);
    lemma_key_pos(keys_of(w), k);
    assert(keys_of(w).len() == w.len());
    let p = key_pos(keys_of(kids), k);
    if p >= 0 {
        assert(keys_of(w)[p] == k);
    } else {
        assert(keys_of(w)[w.len() - 1] == k);
    }
}

/// Law: asking for a child keeps keys unique: the child found (or made) by
/// key takes the place of the one with that key, or is appended when there
/// is none.
pub proof fn lemma_child_keeps_keys_unique(t: KeeperTree, k: Seq<char>, c: KeeperTree)
    requires
        keys_unique(t),
        keys_unique(c),
    ensures
        keys_unique(KeeperTree { own: t.own, kids: with_child(t.kids, k, c) }),
{
    let w = with_child(t.kids, k, c);
    let wt = KeeperTree { own: t.own, kids: w };
    lemma_key_pos(keys_of(t.kids), k);
    let p = key_pos(keys_of(t.kids), k);
    if p >= 0 {
        assert(keys_of(t.kids)[p] == t.kids[p].0);
    }
    assert forall|i: int, j: int| 0 <= i < j < w.len() implies (#[trigger] wt.kids[i]).0 != (#[trigger] wt.kids[j]).0 by {
        if p < 0 && j == t.kids.len() {
            assert(keys_of(t.kids)[i] == t.kids[i].0);
        } else {
            assert(t.kids[i].0 != t.kids[j].0);
        }
    }
    assert forall|i: int| 0 <= i < w.len() implies keys_unique((#[trigger] wt.kids[i]).1) by {
        if i < t.kids.len() && i != p {
            assert(keys_unique(t.kids[i].1));
        }
    }
}

proof fn lemma_without_key_sub(kids: Seq<(Seq<char>, KeeperTree)>, k: Seq<char>)
    ensures
        forall|i: int| 0 <= i < without_key(kids, k).len() ==> exists|j: int| 0 <= j < kids.len() && #[trigger] without_key(kids, k)[i] == kids[j],
        forall|i: int, j: int| 0 <= i < j < without_key(kids, k).len() ==> exists|a: int, b: int| 0 <= a < b < kids.len()
            && #[trigger] without_key(kids, k)[i] == kids[a] && #[trigger] without_key(kids, k)[j] == kids[b],
    decreases kids.len(),
{
    if kids.len() > 0 {
        let d = kids.drop_last();
        lemma_without_key_sub(d, k);
        let rest = without_key(d, k);
        let w = without_key(kids, k);
        assert forall|i: int| 0 <= i < w.len() implies exists|j: int| 0 <= j < kids.len() && #[trigger] w[i] == kids[j] by {
            if i < rest.len() {
                let j = choose|j: int| 0 <= j < d.len() && rest[i] == d[j];
                assert(w[i] == kids[j]);
            } else {
                assert(w[i] == kids[kids.len() - 1]);
            }
        }
        assert forall|i: int, j: int| 0 <= i < j < w.len() implies exists|a: int, b: int| 0 <= a < b < kids.len()
            && #[trigger] w[i] == kids[a] && #[trigger] w[j] == kids[b] by {
            if j < rest.len() {
                let (a, b) = choose|a: int, b: int| 0 <= a < b < d.len() && rest[i] == d[a] && rest[j] == d[b];
                assert(w[i] == kids[a] && w[j] == kids[b]);
            } else {
                let a = choose|a: int| 0 <= a < d.len() && rest[i] == d[a];
                assert(w[i] == kids[a] && w[j] == kids[kids.len() - 1]);
            }
        }
    }
}

/// Law: removing a child keeps keys unique.
pub proof fn lemma_remove_keeps_keys_unique(t: KeeperTree, k: Seq<char>)
    requires
        keys_unique(t),
    ensures
        keys_unique(KeeperTree { own: t.own, kids: without_key(t.kids, k) }),
{
    let w = without_key(t.kids, k);
    let wt = KeeperTree { own: t.own, kids: w };
    lemma_without_key_sub(t.kids, k);
    assert forall|i: int, j: int| 0 <= i < j < w.len() implies (#[trigger] wt.kids[i]).0 != (#[trigger] wt.kids[j]).0 by {
        let (a, b) = choose|a: int, b: int| 0 <= a < b < t.kids.len() && w[i] == t.kids[a] && w[j] == t.kids[b];
        assert(t.kids[a].0 != t.kids[b].0);
    }
    assert forall|i: int| 0 <= i < w.len() implies keys_unique((#[trigger] wt.kids[i]).1) by {
        let a = choose|a: int| 0 <= a < t.kids.len() && w[i] == t.kids[a];
        assert(keys_unique(t.kids[a].1));
    }
}


/// No two of `kids` share a key.
pub open spec fn kid_keys_unique(kids: Seq<(Seq<char>, KeeperTree)>) -> bool {
    forall|i: int, j: int| 0 <= i < j < kids.len() ==> (#[trigger] kids[i]).0 != (#[trigger] kids[j]).0
}

proof fn lemma_restore_kids_keep_keys(
    kids: Seq<(Seq<char>, KeeperTree)>,
    skids: Seq<(Seq<char>, KeeperTree)>,
    n: int,
)
    requires
        0 <= n <= skids.len(),
    ensures
        restore_kids(kids, skids, n).len() >= kids.len(),
        forall|i: int| 0 <= i < kids.len() ==> (#[trigger] restore_kids(kids, skids, n)[i]).0 == kids[i].0,
    decreases n,
{
    if n > 0 {
        lemma_restore_kids_keep_keys(kids, skids, n - 1);
        let prev = restore_kids(kids, skids, n - 1);
        let k = skids[n - 1].0;
        lemma_key_pos(keys_of(prev), k);
        let p = key_pos(keys_of(prev), k);
        if p >= 0 {
            assert(keys_of(prev)[p] == prev[p].0);
        }
        assert forall|i: int| 0 <= i < kids.len() implies (#[trigger] restore_kids(kids, skids, n)[i]).0 == kids[i].0 by {
            assert(prev[i].0 == kids[i].0);
        }
    }
}

proof fn lemma_restore_kids_listed(
    kids: Seq<(Seq<char>, KeeperTree)>,
    skids: Seq<(Seq<char>, KeeperTree)>,
    n: int,
    i: int,
    j: int,
)
    requires
        kid_keys_unique(kids),
        kid_keys_unique(skids),
        0 <= i < kids.len(),
        0 <= j < skids.len(),
        skids[j].0 == kids[i].0,
        0 <= n <= skids.len(),
    ensures
        restore_kids(kids, skids, n)[i] == if j < n {
            (kids[i].0, restore_tree(kids[i].1, skids[j].1))
        } else {
            kids[i]
        },
    decreases n,
{
    lemma_restore_kids_keep_keys(kids, skids, n);
    if n > 0 {
        lemma_restore_kids_listed(kids, skids, n - 1, i, j);
        lemma_restore_kids_keep_keys(kids, skids, n - 1);
        let prev = restore_kids(kids, skids, n - 1);
        let k = skids[n - 1].0;
        lemma_key_pos(keys_of(prev), k);
        let p = key_pos(keys_of(prev), k);
        assert(keys_of(prev)[i] == prev[i].0);
        if p >= 0 {
            assert(keys_of(prev)[p] == prev[p].0);
        }
        if n - 1 == j {
            assert(p >= 0);
            if p < i {
                assert(prev[p].0 == kids[p].0);
                assert(kids[p].0 != kids[i].0);
            }
            assert(p == i);
        } else {
            if n - 1 < j {
                assert(skids[n - 1].0 != skids[j].0);
            } else {
                assert(skids[j].0 != skids[n - 1].0);
            }
            assert(p != i);
        }
    }
}

/// What restoring `s` into `t` must leave alone, at every depth, as found in
/// `r`: every child of `t` keeps its place and key; a child whose key `s`
/// does not list keeps its whole subtree; a child that `s` lists keeps, in
/// the same way, whatever the listed snapshot child does not list.
pub open spec fn keeps_unlisted(t: KeeperTree, s: KeeperTree, r: KeeperTree) -> bool
    decreases t,
{
    &&& r.kids.len() >= t.kids.len()
    &&& forall|i: int| 0 <= i < t.kids.len() ==> (#[trigger] r.kids[i]).0 == t.kids[i].0
    &&& forall|i: int| 0 <= i < t.kids.len() && !keys_of(s.kids).contains(t.kids[i].0)
        ==> (#[trigger] r.kids[i]).1 == t.kids[i].1
    &&& forall|i: int, j: int| 0 <= i < t.kids.len() && 0 <= j < s.kids.len() && s.kids[j].0 == t.kids[i].0
        ==> keeps_unlisted(t.kids[i].1, #[trigger] s.kids[j].1, #[trigger] r.kids[i].1)
}

/// Law: restoring leaves alone, at every depth, each child whose key the
/// matching snapshot level does not list: it keeps its place, its key and
/// its whole subtree, also under a child that the snapshot does list (when no
/// level of the tree or of the snapshot repeats a key).
pub proof fn lemma_restore_keeps_unlisted_at_every_depth(t: KeeperTree, s: KeeperTree)
    requires
        keys_unique(t),
        keys_unique(s),
    ensures
        keeps_unlisted(t, s, restore_tree(t, s)),
    decreases t,
{
    let r = restore_tree(t, s);
    let n = s.kids.len() as int;
    lemma_restore_kids_keep_keys(t.kids, s.kids, n);
    assert(kid_keys_unique(t.kids));
    assert(kid_keys_unique(s.kids));
    assert forall|i: int| 0 <= i < t.kids.len() && !keys_of(s.kids).contains(t.kids[i].0)
        implies (#[trigger] r.kids[i]).1 == t.kids[i].1 by {
        lemma_restore_keeps_unlisted(t, s, i);
    }
    assert forall|i: int, j: int| 0 <= i < t.kids.len() && 0 <= j < s.kids.len() && s.kids[j].0 == t.kids[i].0
        implies keeps_unlisted(t.kids[i].1, #[trigger] s.kids[j].1, #[trigger] r.kids[i].1) by {
        lemma_restore_kids_listed(t.kids, s.kids, n, i, j);
        assert(keys_unique(t.kids[i].1));
        assert(keys_unique(s.kids[j].1));
        assert(decreases_to!(t => t.kids));
        assert(decreases_to!(t.kids => t.kids[i]));
        lemma_restore_keeps_unlisted_at_every_depth(t.kids[i].1, s.kids[j].1);
    }
}


proof fn lemma_graft_grows(old: KeeperTree, new: KeeperTree, keys: Seq<Seq<char>>, m: int, n: int)
    requires
        0 <= m <= n <= keys.len(),
    ensures
        graft(old, new, keys, n).1.kids.len() >= graft(old, new, keys, m).1.kids.len(),
        forall|q: int| 0 <= q < graft(old, new, keys, m).1.kids.len()
            ==> #[trigger] graft(old, new, keys, n).1.kids[q] == graft(old, new, keys, m).1.kids[q],
    decreases n - m,
{
    if m < n {
        lemma_graft_grows(old, new, keys, m, n - 1);
    }
}

/// The state of grafting after `n` keys: the children of `old` from the
/// `n`-th on are still in the old tree, each the only child with its key,
/// and the children appended to the new tree have none of their keys.
spec fn graft_pending(old: KeeperTree, new: KeeperTree, n: int) -> bool {
    let g = graft(old, new, keys_of(old.kids), n);
    &&& forall|h: int| n <= h < old.kids.len() ==> keys_of(g.0.kids).contains(#[trigger] old.kids[h].0)
    &&& forall|h: int, x: int| n <= h < old.kids.len() && 0 <= x < g.0.kids.len() && (#[trigger] g.0.kids[x]).0 == (#[trigger] old.kids[h]).0
        ==> g.0.kids[x] == old.kids[h]
    &&& g.1.kids.len() >= new.kids.len()
    &&& forall|q: int| 0 <= q < new.kids.len() ==> #[trigger] g.1.kids[q] == new.kids[q]
    &&& forall|q: int, h: int| new.kids.len() <= q < g.1.kids.len() && n <= h < old.kids.len()
        ==> (#[trigger] g.1.kids[q]).0 != (#[trigger] old.kids[h]).0
}

proof fn lemma_graft_step(old: KeeperTree, new: KeeperTree, n: int)
    requires
        kid_keys_unique(old.kids),
        0 <= n <= old.kids.len(),
    ensures
        graft_pending(old, new, n),
        forall|g: int| 0 <= g < n && !keys_of(new.kids).contains(old.kids[g].0) ==>
            exists|q: int| 0 <= q < graft(old, new, keys_of(old.kids), n).1.kids.len()
                && graft(old, new, keys_of(old.kids), n).1.kids[q] == #[trigger] old.kids[g],
    decreases n,
{
    let keys = keys_of(old.kids);
    if n == 0 {
        assert forall|h: int| 0 <= h < old.kids.len() implies keys_of(old.kids).contains(#[trigger] old.kids[h].0) by {
            assert(keys_of(old.kids)[h] == old.kids[h].0);
        }
        assert forall|h: int, x: int| 0 <= h < old.kids.len() && 0 <= x < old.kids.len() && (#[trigger] old.kids[x]).0 == (#[trigger] old.kids[h]).0
            implies old.kids[x] == old.kids[h] by {
            if x < h {
                assert(old.kids[x].0 != old.kids[h].0);
            } else if h < x {
                assert(old.kids[h].0 != old.kids[x].0);
            }
        }
    } else {
        lemma_graft_step(old, new, n - 1);
        let prev = graft(old, new, keys, n - 1);
        let o = prev.0;
        let w = prev.1;
        let k = keys[n - 1];
        assert(k == old.kids[n - 1].0);
        let cur = graft(old, new, keys, n);
        if keys_of(w.kids).contains(k) {
            // Then `k` is a key of the new tree itself.
            let q = choose|q: int| 0 <= q < keys_of(w.kids).len() && keys_of(w.kids)[q] == k;
            assert(w.kids[q].0 == k);
            if q >= new.kids.len() {
                assert(false);
            }
            assert(keys_of(new.kids)[q] == new.kids[q].0);
            assert(keys_of(new.kids).contains(k));
            assert forall|q2: int, h: int| new.kids.len() <= q2 < cur.1.kids.len() && n <= h < old.kids.len()
                implies (#[trigger] cur.1.kids[q2]).0 != (#[trigger] old.kids[h]).0 by {
                assert(w.kids[q2].0 != old.kids[h].0);
            }
        } else {
            assert(keys_of(o.kids).contains(old.kids[n - 1].0));
            lemma_key_pos(keys_of(o.kids), k);
            let idx = key_pos(keys_of(o.kids), k);
            assert(idx >= 0);
            assert(keys_of(o.kids)[idx] == o.kids[idx].0);
            assert(o.kids[idx] == old.kids[n - 1]);
            let o2 = o.kids.remove(idx);
            assert(cur.0.kids == o2);
            assert(cur.1.kids == w.kids.push((k, old.kids[n - 1].1)));
            assert(cur.1.kids[w.kids.len() as int] == old.kids[n - 1]);
            assert forall|h: int| n <= h < old.kids.len() implies keys_of(cur.0.kids).contains(#[trigger] old.kids[h].0) by {
                assert(keys_of(o.kids).contains(old.kids[h].0));
                let x = choose|x: int| 0 <= x < keys_of(o.kids).len() && keys_of(o.kids)[x] == old.kids[h].0;
                assert(o.kids[x].0 == old.kids[h].0);
                assert(old.kids[n - 1].0 != old.kids[h].0);
                assert(x != idx);
                let x2 = if x < idx { x } else { x - 1 };
                assert(o2[x2] == o.kids[x]);
                assert(keys_of(cur.0.kids)[x2] == old.kids[h].0);
            }
            assert forall|h: int, x: int| n <= h < old.kids.len() && 0 <= x < cur.0.kids.len() && (#[trigger] cur.0.kids[x]).0 == (#[trigger] old.kids[h]).0
                implies cur.0.kids[x] == old.kids[h] by {
                let x1 = if x < idx { x } else { x + 1 };
                assert(o2[x] == o.kids[x1]);
            }
            assert forall|q2: int, h: int| new.kids.len() <= q2 < cur.1.kids.len() && n <= h < old.kids.len()
                implies (#[trigger] cur.1.kids[q2]).0 != (#[trigger] old.kids[h]).0 by {
                if q2 < w.kids.len() {
                    assert(w.kids[q2].0 != old.kids[h].0);
                } else {
                    assert(old.kids[n - 1].0 != old.kids[h].0);
                }
            }
        }
        assert forall|g: int| 0 <= g < n && !keys_of(new.kids).contains(old.kids[g].0) implies
            exists|q: int| 0 <= q < cur.1.kids.len() && cur.1.kids[q] == #[trigger] old.kids[g] by {
            if g < n - 1 {
                let q = choose|q: int| 0 <= q < w.kids.len() && w.kids[q] == old.kids[g];
                lemma_graft_grows(old, new, keys, n - 1, n);
                assert(cur.1.kids[q] == old.kids[g]);
            } else {
                assert(cur.1.kids[w.kids.len() as int] == old.kids[g]);
            }
        }
    }
}

/// Law: grafting carries over every child of the old tree whose key the new
/// tree lacks, with its whole subtree (when the old children have distinct
/// keys).
pub proof fn lemma_graft_carries_missing(old: KeeperTree, new: KeeperTree, g: int)
    requires
        kid_keys_unique(old.kids),
        0 <= g < old.kids.len(),
        !keys_of(new.kids).contains(old.kids[g].0),
    ensures
        exists|q: int| 0 <= q < graft(old, new, keys_of(old.kids), old.kids.len() as int).1.kids.len()
            && graft(old, new, keys_of(old.kids), old.kids.len() as int).1.kids[q] == old.kids[g],
{
    lemma_graft_step(old, new, old.kids.len() as int);
}


proof fn lemma_strict_kids_old(
    okids: Seq<(Seq<char>, KeeperTree)>,
    skids: Seq<(Seq<char>, KeeperTree)>,
    n: int,
    p: int,
)
    requires
        0 <= n <= skids.len(),
        0 <= p < okids.len(),
    ensures
        strict_kids(okids, skids, n).0.len() == okids.len(),
        forall|i: int| 0 <= i < okids.len() ==> (#[trigger] strict_kids(okids, skids, n).0[i]).0 == okids[i].0,
        (forall|i: int| 0 <= i < n ==> (#[trigger] skids[i]).0 != okids[p].0)
            ==> strict_kids(okids, skids, n).0[p] == okids[p],
    decreases n,
{
    if n > 0 {
        lemma_strict_kids_old(okids, skids, n - 1, p);
        let prev = strict_kids(okids, skids, n - 1);
        let ok = prev.0;
        let k = skids[n - 1].0;
        lemma_key_pos(keys_of(ok), k);
        let q = key_pos(keys_of(ok), k);
        if q >= 0 {
            assert(keys_of(ok)[q] == ok[q].0);
        }
        if forall|i: int| 0 <= i < n ==> (#[trigger] skids[i]).0 != okids[p].0 {
            assert(skids[n - 1].0 != okids[p].0);
            assert(q != p);
        }
    }
}

proof fn lemma_strict_kids_new_fixed(
    okids: Seq<(Seq<char>, KeeperTree)>,
    skids: Seq<(Seq<char>, KeeperTree)>,
    n: int,
    j: int,
)
    requires
        0 <= j < n <= skids.len(),
    ensures
        strict_kids(okids, skids, n).1[j] == strict_kids(okids, skids, j + 1).1[j],
    decreases n,
{
    if n > j + 1 {
        lemma_strict_kids_new_fixed(okids, skids, n - 1, j);
        lemma_strict_kids_keys(okids, skids, n - 1);
    }
}

/// Law: a strict restore carries over the old deeper children. For each
/// snapshot child whose key the old tree had, every child of the old one
/// whose key that snapshot child does not list is, with its whole subtree,
/// under the new child with that key (when no level of the tree or of the
/// snapshot repeats a key).
pub proof fn lemma_restore_strict_carries_grandchildren(t: KeeperTree, s: KeeperTree, j: int, p: int, g: int)
    requires
        keys_unique(t),
        keys_unique(s),
        0 <= j < s.kids.len(),
        0 <= p < t.kids.len(),
        t.kids[p].0 == s.kids[j].0,
        0 <= g < t.kids[p].1.kids.len(),
        !keys_of(s.kids[j].1.kids).contains(t.kids[p].1.kids[g].0),
    ensures
        restore_strict_tree(t, s).kids[j].0 == s.kids[j].0,
        exists|q: int| 0 <= q < restore_strict_tree(t, s).kids[j].1.kids.len()
            && restore_strict_tree(t, s).kids[j].1.kids[q] == t.kids[p].1.kids[g],
{
    let n = s.kids.len() as int;
    let k = s.kids[j].0;
    assert(kid_keys_unique(t.kids));
    assert(kid_keys_unique(s.kids));
    lemma_strict_kids_keys(t.kids, s.kids, n);
    lemma_strict_kids_keys(t.kids, s.kids, j);
    lemma_strict_kids_new_fixed(t.kids, s.kids, n, j);
    lemma_strict_kids_old(t.kids, s.kids, j, p);
    assert forall|i: int| 0 <= i < j implies (#[trigger] s.kids[i]).0 != t.kids[p].0 by {
        assert(s.kids[i].0 != s.kids[j].0);
    }
    let ok = strict_kids(t.kids, s.kids, j).0;
    assert(ok[p] == t.kids[p]);
    lemma_key_pos(keys_of(ok), k);
    let q = key_pos(keys_of(ok), k);
    assert(keys_of(ok)[p] == ok[p].0);
    assert(q >= 0);
    assert(keys_of(ok)[q] == ok[q].0);
    if q < p {
        assert(ok[q].0 == t.kids[q].0);
        assert(t.kids[q].0 != t.kids[p].0);
    }
    assert(q == p);
    let old = t.kids[p].1;
    assert(keys_unique(s.kids[j].1));
    lemma_restore_into_empty(s.kids[j].1);
    let fresh = restore_tree(empty_tree(), s.kids[j].1);
    assert(fresh == s.kids[j].1);
    assert(keys_unique(old));
    assert(kid_keys_unique(old.kids));
    lemma_graft_carries_missing(old, fresh, g);
    let gr = graft(old, fresh, keys_of(old.kids), old.kids.len() as int);
    assert(strict_kids(t.kids, s.kids, j + 1).1[j] == (k, gr.1));
}

} // verus!
