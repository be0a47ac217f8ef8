//! [`ChildStackManager`]: navigation through a [`ComponentContext2`], with
//! the state tree saved and restored as a whole.
//!
//! The manager owns a [`ChildStack`], the context whose [`StateKeeper`]
//! holds the states, and the factory that builds components. The component
//! at stack position `i` has a child keeper under the key `child:i`
//! ([`child_key`]): pushing creates it when missing, popping removes it,
//! clearing drops every child keeper.
//!
//! [`StateKeeper`]: crate::state_keeper::StateKeeper

use vstd::prelude::*;
use crate::child_stack::{ChildStack, LifecycleEvent, call_if_present, enter_states, exit_states, exits_down, pop_calls, push_calls, replace_calls};
use crate::component_context2::ComponentContext2;
use crate::component_factory::ComponentFactory2;
use crate::component_node::ComponentNode;
use crate::lifecycle::{LifecycleObserver, LifecycleState};
use crate::state_keeper::{KeeperTree, StateKeeperSnapshot, empty_tree, key_pos, keys_of, lemma_key_pos, restore_tree, states_taken, without_key};
use crate::text::{decimal, push_char, push_decimal};

verus! {

/// The key of the child keeper of stack position `i`: `child:` and `i` in
/// decimal.
pub open spec fn child_key(i: nat) -> Seq<char> {
    seq!['c', 'h', 'i', 'l', 'd', ':'] + decimal(i)
}

/// `kids` with a child under `k`: unchanged when one exists, otherwise an
/// empty child appended.
pub open spec fn ensure_child(kids: Seq<(Seq<char>, KeeperTree)>, k: Seq<char>) -> Seq<(Seq<char>, KeeperTree)> {
    if key_pos(keys_of(kids), k) >= 0 {
        kids
    } else {
        kids.push((k, empty_tree()))
    }
}

/// The key of the child keeper of stack position `i`.
pub fn make_child_key(i: usize) -> (k: String)
    ensures
        k@ == child_key(i as nat),
{
    let mut k = String::new();
    push_char(&mut k, 'c');
    push_char(&mut k, 'h');
    push_char(&mut k, 'i');
    push_char(&mut k, 'l');
    push_char(&mut k, 'd');
    push_char(&mut k, ':');
    push_decimal(&mut k, i);
    proof {
        assert(k@ =~= child_key(i as nat));
    }
    k
}

/// A navigation stack that owns its context and its component factory.
pub struct ChildStackManager<C, N, F> {
    stack: ChildStack<C, N>,
    ctx: ComponentContext2,
    factory: F,
}

impl<C: Clone, N: ComponentNode, F: ComponentFactory2<C, N>> ChildStackManager<C, N, F> {
    /// The configurations, bottom first.
    pub closed spec fn configs(&self) -> Seq<C> {
        self.stack.configs()
    }

    /// The components, bottom first.
    pub closed spec fn components(&self) -> Seq<N> {
        self.stack.components()
    }

    /// What each component has been told (see [`ChildStack::histories`]).
    pub closed spec fn histories(&self) -> Seq<Seq<LifecycleState>> {
        self.stack.histories()
    }

    /// The components taken out, with their histories (see
    /// [`ChildStack::retired`]).
    pub closed spec fn retired(&self) -> Seq<(N, Seq<LifecycleState>)> {
        self.stack.retired()
    }

    /// Every lifecycle callback made so far (see [`ChildStack::calls`]).
    pub closed spec fn calls(&self) -> Seq<(nat, LifecycleState)> {
        self.stack.calls()
    }

    /// The context that owns the state tree.
    pub closed spec fn context_view(&self) -> ComponentContext2 {
        self.ctx
    }

    /// The factory.
    pub closed spec fn factory_view(&self) -> F {
        self.factory
    }

    /// An empty manager over `ctx` and `factory`.
    pub fn new(ctx: ComponentContext2, factory: F) -> (m: Self)
        ensures
            m.configs().len() == 0,
            m.calls().len() == 0,
            m.context_view() == ctx,
            m.factory_view() == factory,
    {
        ChildStackManager { stack: ChildStack::new(), ctx, factory }
    }

    /// Make sure the context's tree has a child keeper under `key`, and
    /// return a root context under `key` for the new component.
    fn create_child_context(&mut self, key: &str) -> (c: ComponentContext2)
        ensures
            c.key_view() == key@,
            c.keeper().tree() == empty_tree(),
            final(self).context_view().keeper().tree().own == old(self).context_view().keeper().tree().own,
            final(self).context_view().keeper().tree().kids == ensure_child(old(self).context_view().keeper().tree().kids, key@),
            final(self).context_view().key_view() == old(self).context_view().key_view(),
            final(self).stack == old(self).stack,
            final(self).factory == old(self).factory,
    {
        let ghost kids0 = self.ctx.keeper().tree().kids;
        let keeper = self.ctx.state_keeper_mut();
        let _child = keeper.child(key);
        proof {
            lemma_key_pos(keys_of(kids0), key@);
            let p = key_pos(keys_of(kids0), key@);
            if p >= 0 {
                assert(keys_of(kids0)[p] == kids0[p].0);
                assert(kids0.update(p, (key@, kids0[p].1)) =~= kids0);
            }
        }
        ComponentContext2::root(key)
    }

    /// Push `config`: its child keeper `child:n` is made (when missing), the
    /// factory builds the component with a context under that key, and the
    /// component is pushed (see [`ChildStack::push`]).
    pub fn push(&mut self, config: C)
        ensures
            final(self).configs() == old(self).configs().push(config),
            final(self).calls() == old(self).calls() + push_calls(old(self).configs().len()),
            final(self).histories() == (if old(self).configs().len() > 0 {
                old(self).histories().update(
                    old(self).configs().len() - 1,
                    old(self).histories().last().push(LifecycleState::Paused),
                )
            } else {
                old(self).histories()
            }).push(enter_states()),
            final(self).context_view().keeper().tree().own == old(self).context_view().keeper().tree().own,
            final(self).context_view().keeper().tree().kids == ensure_child(
                old(self).context_view().keeper().tree().kids,
                child_key(old(self).configs().len()),
            ),
            final(self).context_view().key_view() == old(self).context_view().key_view(),
            final(self).factory_view() == old(self).factory_view(),
    {
        let key = make_child_key(self.stack.len());
        let child_ctx = self.create_child_context(key.as_str());
        let component = self.factory.create(config.clone(), child_ctx);
        self.stack.push(config, component);
    }

    /// Pop the active component (see [`ChildStack::pop`]); when there was
    /// one, its child keeper `child:n-1` is removed.
    pub fn pop(&mut self) -> (r: Option<(C, N)>)
        ensures
            old(self).configs().len() == 0 ==> {
                &&& r is None
                &&& final(self).configs() == old(self).configs()
                &&& final(self).calls() == old(self).calls()
                &&& final(self).context_view() == old(self).context_view()
            },
            old(self).configs().len() > 0 ==> {
                &&& r is Some
                &&& (r->0).0 == old(self).configs().last()
                &&& final(self).configs() == old(self).configs().drop_last()
                &&& final(self).calls() == old(self).calls() + pop_calls(old(self).configs().len())
                &&& final(self).retired() == old(self).retired().push(((r->0).1, old(self).histories().last() + exit_states()))
                &&& final(self).context_view().keeper().tree().own == old(self).context_view().keeper().tree().own
                &&& final(self).context_view().keeper().tree().kids == without_key(
                    old(self).context_view().keeper().tree().kids,
                    child_key((old(self).configs().len() - 1) as nat),
                )
                &&& final(self).context_view().key_view() == old(self).context_view().key_view()
            },
            final(self).factory_view() == old(self).factory_view(),
    {
        let result = self.stack.pop();
        if result.is_some() {
            let key = make_child_key(self.stack.len());
            self.ctx.state_keeper_mut().remove_child(key.as_str());
        }
        result
    }

    /// Replace the active component with one built for `config`, under the
    /// child keeper of the top position (`child:0` on an empty stack); see
    /// [`ChildStack::replace`].
    pub fn replace(&mut self, config: C)
        ensures
            old(self).configs().len() == 0 ==> final(self).configs() == seq![config]
                && final(self).calls() == old(self).calls() + push_calls(0),
            old(self).configs().len() > 0 ==> final(self).configs() == old(self).configs().drop_last().push(config)
                && final(self).calls() == old(self).calls() + replace_calls(old(self).configs().len())
                && final(self).histories() == old(self).histories().drop_last().push(enter_states()),
            final(self).context_view().keeper().tree().own == old(self).context_view().keeper().tree().own,
            final(self).context_view().keeper().tree().kids == ensure_child(
                old(self).context_view().keeper().tree().kids,
                child_key(if old(self).configs().len() == 0 { 0 } else { (old(self).configs().len() - 1) as nat }),
            ),
            final(self).context_view().key_view() == old(self).context_view().key_view(),
            final(self).factory_view() == old(self).factory_view(),
    {
        let n = self.stack.len();
        let top = if n == 0 { 0 } else { n - 1 };
        let key = make_child_key(top);
        let child_ctx = self.create_child_context(key.as_str());
        let component = self.factory.create(config.clone(), child_ctx);
        self.stack.replace(config, component);
    }

    /// Remove every component (see [`ChildStack::clear`]) and every child
    /// keeper.
    pub fn clear(&mut self)
        ensures
            final(self).configs().len() == 0,
            final(self).calls() == old(self).calls() + exits_down(old(self).configs().len(), 0),
            final(self).histories().len() == 0,
            final(self).context_view().keeper().tree() == (KeeperTree {
                own: old(self).context_view().keeper().tree().own,
                kids: Seq::empty(),
            }),
            final(self).context_view().key_view() == old(self).context_view().key_view(),
            final(self).factory_view() == old(self).factory_view(),
    {
        self.stack.clear();
        self.ctx.state_keeper_mut().clear_children();
    }

    /// The active (top) component.
    pub fn active(&self) -> (r: Option<&N>)
        ensures
            match r {
                Some(c) => self.components().len() > 0 && *c == self.components().last(),
                None => self.configs().len() == 0,
            },
    {
        self.stack.active()
    }

    /// The configuration of the active component.
    pub fn active_config(&self) -> (r: Option<&C>)
        ensures
            match r {
                Some(c) => self.configs().len() > 0 && *c == self.configs().last(),
                None => self.configs().len() == 0,
            },
    {
        self.stack.active_config()
    }

    /// Whether the stack is empty.
    pub fn is_empty(&self) -> (r: bool)
        ensures
            r == (self.configs().len() == 0),
    {
        self.stack.is_empty()
    }

    /// Number of components.
    pub fn len(&self) -> (n: usize)
        ensures
            n == self.configs().len(),
    {
        self.stack.len()
    }

    /// The context.
    pub fn context(&self) -> (r: &ComponentContext2)
        ensures
            *r == self.context_view(),
    {
        &self.ctx
    }

    /// The context, mutably; the stack is untouched.
    pub fn context_mut(&mut self) -> (r: &mut ComponentContext2)
        ensures
            *r == old(self).context_view(),
            final(self).context_view() == *final(r),
            final(self).configs() == old(self).configs(),
            final(self).calls() == old(self).calls(),
            final(self).factory_view() == old(self).factory_view(),
    {
        &mut self.ctx
    }

    /// Take every state of the tree into a snapshot (see
    /// [`ComponentContext2::save_all`]).
    pub fn save_all(&mut self) -> (s: StateKeeperSnapshot)
        ensures
            s.tree() == old(self).context_view().keeper().tree(),
            states_taken(final(self).context_view().keeper().tree(), old(self).context_view().keeper().tree()),
            final(self).context_view().key_view() == old(self).context_view().key_view(),
            final(self).configs() == old(self).configs(),
            final(self).calls() == old(self).calls(),
    {
        self.ctx.save_all()
    }

    /// Restore the state tree from a snapshot (see
    /// [`ComponentContext2::restore_all`]).
    pub fn restore_all(&mut self, snapshot: StateKeeperSnapshot)
        ensures
            final(self).context_view().keeper().tree() == restore_tree(
                old(self).context_view().keeper().tree(),
                snapshot.tree(),
            ),
            final(self).context_view().key_view() == old(self).context_view().key_view(),
            final(self).configs() == old(self).configs(),
            final(self).calls() == old(self).calls(),
    {
        self.ctx.restore_all(snapshot);
    }

    /// The active component, for rendering.
    pub fn active_node(&self) -> (r: Option<&N>)
        ensures
            match r {
                Some(c) => self.components().len() > 0 && *c == self.components().last(),
                None => self.configs().len() == 0,
            },
    {
        self.stack.active()
    }

    /// Apply a host lifecycle event to the active component (see
    /// [`ChildStack::on_lifecycle_event`]).
    pub fn on_lifecycle_event(&mut self, event: LifecycleEvent)
        ensures
            final(self).configs() == old(self).configs(),
            final(self).calls() == old(self).calls() + call_if_present(
                old(self).configs().len(),
                old(self).configs().len() - 1,
                match event {
                    LifecycleEvent::Resume => LifecycleState::Resumed,
                    LifecycleEvent::Pause => LifecycleState::Paused,
                },
            ),
            final(self).context_view() == old(self).context_view(),
    {
        self.stack.on_lifecycle_event(event);
    }
}

/// `without_key` leaves children that do not have key `k` alone.
proof fn lemma_without_absent(kids: Seq<(Seq<char>, KeeperTree)>, k: Seq<char>)
    requires
        !keys_of(kids).contains(k),
    ensures
        without_key(kids, k) == kids,
    decreases kids.len(),
{
    if kids.len() > 0 {
        let d = kids.drop_last();
        assert(keys_of(kids)[kids.len() - 1] == kids.last().0);
        if keys_of(d).contains(k) {
            let j = choose|j: int| 0 <= j < keys_of(d).len() && keys_of(d)[j] == k;
            assert(keys_of(kids)[j] == k);
        }
        lemma_without_absent(d, k);
        assert(d.push(kids.last()) =~= kids);
    }
}

/// Law: popping what a push added removes the child keeper the push made:
/// the children end as they were with `k` removed, and exactly as they were
/// when `k` was not there before.
pub proof fn lemma_pop_undoes_push_keeper(kids: Seq<(Seq<char>, KeeperTree)>, k: Seq<char>)
    ensures
        without_key(ensure_child(kids, k), k) == without_key(kids, k),
        !keys_of(kids).contains(k) ==> without_key(ensure_child(kids, k), k) == kids,
{
    lemma_key_pos(keys_of(kids), k);
    if !keys_of(kids).contains(k) {
        lemma_without_absent(kids, k);
    }
    if key_pos(keys_of(kids), k) < 0 {
        let e = kids.push((k, empty_tree()));
        assert(e.drop_last() =~= kids);
        if keys_of(kids).contains(k) {
            let j = choose|j: int| 0 <= j < keys_of(kids).len() && keys_of(kids)[j] == k;
            assert(keys_of(kids)[j] != k);
        }
    }
}

proof fn lemma_decimal_nonempty(n: nat)
    ensures
        decimal(n).len() >= 1,
        n >= 10 ==> decimal(n).len() >= 2,
    decreases n,
{
    if n >= 10 {
        lemma_decimal_nonempty(n / 10);
    }
}

/// Law: different numbers have different decimal forms.
pub proof fn lemma_decimal_injective(a: nat, b: nat)
    ensures
        decimal(a) == decimal(b) ==> a == b,
    decreases a,
{
    lemma_decimal_nonempty(a);
    lemma_decimal_nonempty(b);
    if decimal(a) == decimal(b) {
        if a < 10 && b < 10 {
            assert(decimal(a)[0] == decimal(b)[0]);
        } else if a >= 10 && b >= 10 {
            assert(decimal(a).last() == decimal(b).last());
            assert(decimal(a).drop_last() =~= decimal(a / 10));
            assert(decimal(b).drop_last() =~= decimal(b / 10));
            lemma_decimal_injective(a / 10, b / 10);
        }
    }
}

/// Law: distinct stack positions have distinct child keeper keys.
pub proof fn lemma_child_keys_distinct(i: nat, j: nat)
    requires
        i != j,
    ensures
        child_key(i) != child_key(j),
{
    lemma_decimal_injective(i, j);
    if child_key(i) == child_key(j) {
        assert(child_key(i).skip(6) =~= decimal(i));
        assert(child_key(j).skip(6) =~= decimal(j));
    }
}

impl<C, N, F> LifecycleObserver for ChildStackManager<C, N, F> {
}

} // verus!
