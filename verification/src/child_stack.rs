//! [`ChildStack`]: a stack of child components with lifecycle management and
//! state save/restore.
//!
//! The stack holds `(config, component)` pairs; the top one is active (shown).
//! Every operation drives the lifecycle of the components it touches:
//! a pushed component is created, started and resumed; the one it covers is
//! paused; a removed component is paused, stopped and destroyed; the one it
//! uncovers is resumed.
//!
//! The contracts describe the lifecycle calls through [`ChildStack::calls`]:
//! every callback the stack has made, as `(position, state)` pairs in call
//! order, where `position` is the component's index in the stack.

use vstd::prelude::*;
use crate::component_factory::ComponentFactory;
use crate::component_node::ComponentNode;
use crate::lifecycle::{LifecycleObserver, LifecycleState};
use crate::state_keeper::AnyState;
use vstd::std_specs::cmp::PartialEqSpec;

verus! {

/// The saved form of a stack: each configuration with the serialized state
/// of its component, bottom first.
pub struct SavedStack<C> {
    pub items: Vec<(C, Option<Vec<u8>>)>,
}

/// A lifecycle event applied to the active component.
#[derive(Debug, Clone, Copy, PartialEq, Eq)]
pub enum LifecycleEvent {
    /// The host resumed.
    Resume,
    /// The host paused.
    Pause,
}

struct ChildItem<C, N> {
    config: C,
    component: N,
    /// The lifecycle callbacks this component received while in the stack.
    hist: Ghost<Seq<LifecycleState>>,
}

/// The states a component is taken through when it comes in: created,
/// started, resumed.
pub open spec fn enter_states() -> Seq<LifecycleState> {
    seq![LifecycleState::Created, LifecycleState::Started, LifecycleState::Resumed]
}

/// The states a component is taken through when it goes out: paused,
/// stopped, destroyed.
pub open spec fn exit_states() -> Seq<LifecycleState> {
    seq![LifecycleState::Paused, LifecycleState::Stopped, LifecycleState::Destroyed]
}

/// The callbacks that bring the component at `p` in: create, start, resume.
pub open spec fn enter_calls(p: nat) -> Seq<(nat, LifecycleState)> {
    seq![(p, LifecycleState::Created), (p, LifecycleState::Started), (p, LifecycleState::Resumed)]
}

/// The callbacks that take the component at `p` out: pause, stop, destroy.
pub open spec fn exit_calls(p: nat) -> Seq<(nat, LifecycleState)> {
    seq![(p, LifecycleState::Paused), (p, LifecycleState::Stopped), (p, LifecycleState::Destroyed)]
}

/// The callbacks that remove the components at positions `hi - 1` down to
/// `lo`, top first.
pub open spec fn exits_down(hi: nat, lo: nat) -> Seq<(nat, LifecycleState)>
    decreases hi,
{
    if hi <= lo {
        Seq::empty()
    } else {
        exit_calls((hi - 1) as nat) + exits_down((hi - 1) as nat, lo)
    }
}

/// A single callback to the component at `p` when `p` is a position of a
/// stack of `n` components, none otherwise.
pub open spec fn call_if_present(n: nat, p: int, s: LifecycleState) -> Seq<(nat, LifecycleState)> {
    if 0 <= p < n {
        seq![(p as nat, s)]
    } else {
        Seq::empty()
    }
}

/// The callbacks of pushing onto a stack of `n`: pause the top, bring the
/// new one in.
pub open spec fn push_calls(n: nat) -> Seq<(nat, LifecycleState)> {
    call_if_present(n, n - 1, LifecycleState::Paused) + enter_calls(n)
}

/// The callbacks of popping a stack of `n > 0`: take the top out, resume the
/// one below.
pub open spec fn pop_calls(n: nat) -> Seq<(nat, LifecycleState)> {
    exit_calls((n - 1) as nat) + call_if_present((n - 1) as nat, n - 2, LifecycleState::Resumed)
}

/// The callbacks of replacing the top of a stack of `n > 0`.
pub open spec fn replace_calls(n: nat) -> Seq<(nat, LifecycleState)> {
    exit_calls((n - 1) as nat) + enter_calls((n - 1) as nat)
}

/// A stack of child components.
pub struct ChildStack<C, N> {
    items: Vec<ChildItem<C, N>>,
    calls: Ghost<Seq<(nat, LifecycleState)>>,
    handed: Ghost<Seq<(nat, AnyState)>>,
    retired: Ghost<Seq<(N, Seq<LifecycleState>)>>,
}

/// Apply one lifecycle callback.
fn notify<N: ComponentNode>(component: &mut N, state: LifecycleState) {
    match state {
        LifecycleState::Created => component.on_create(),
        LifecycleState::Started => component.on_start(),
        LifecycleState::Resumed => component.on_resume(),
        LifecycleState::Paused => component.on_pause(),
        LifecycleState::Stopped => component.on_stop(),
        LifecycleState::Destroyed => component.on_destroy(),
    }
}

impl<C, N: ComponentNode> ChildStack<C, N> {
    /// The configurations, bottom first.
    pub closed spec fn configs(&self) -> Seq<C> {
        self.items@.map_values(|it: ChildItem<C, N>| it.config)
    }

    /// The components, bottom first.
    pub closed spec fn components(&self) -> Seq<N> {
        self.items@.map_values(|it: ChildItem<C, N>| it.component)
    }

    /// Every lifecycle callback made so far: position in the stack and the
    /// state it announces, in call order.
    pub closed spec fn calls(&self) -> Seq<(nat, LifecycleState)> {
        self.calls@
    }

    /// Every state handed to a component in place by [`ChildStack::restore`]:
    /// the component's position and the state, in call order.
    pub closed spec fn handed(&self) -> Seq<(nat, AnyState)> {
        self.handed@
    }

    /// What each component has been told, bottom first: the states of the
    /// lifecycle callbacks it received while in the stack, in order.
    pub closed spec fn histories(&self) -> Seq<Seq<LifecycleState>> {
        self.items@.map_values(|it: ChildItem<C, N>| it.hist@)
    }

    /// The components taken out of the stack, in the order they left, each
    /// with the states of every callback it received while in the stack.
    pub closed spec fn retired(&self) -> Seq<(N, Seq<LifecycleState>)> {
        self.retired@
    }

    /// Tell the component at position `i` about `state`, and record it in the
    /// component's history and in the call log.
    fn notify_at(&mut self, i: usize, state: LifecycleState)
        requires
            i < old(self).items@.len(),
        ensures
            final(self).items@.len() == old(self).items@.len(),
            forall|j: int| 0 <= j < old(self).items@.len() && j != i ==> #[trigger] final(self).items@[j] == old(self).items@[j],
            final(self).items@[i as int].config == old(self).items@[i as int].config,
            final(self).items@[i as int].hist@ == old(self).items@[i as int].hist@.push(state),
            final(self).configs() == old(self).configs(),
            final(self).histories() == old(self).histories().update(i as int, old(self).histories()[i as int].push(state)),
            final(self).calls() == old(self).calls().push((i as nat, state)),
            final(self).handed() == old(self).handed(),
            final(self).retired() == old(self).retired(),
    {
        let it = &mut self.items[i];
        notify(&mut it.component, state);
        it.hist = Ghost(it.hist@.push(state));
        self.calls = Ghost(self.calls@.push((i as nat, state)));
        proof {
            assert(self.configs() =~= old(self).configs());
            assert(self.histories() =~= old(self).histories().update(i as int, old(self).histories()[i as int].push(state)));
        }
    }

    /// Put `component` on top without any callback.
    fn insert_top(&mut self, config: C, component: N)
        ensures
            final(self).items@.len() == old(self).items@.len() + 1,
            forall|j: int| 0 <= j < old(self).items@.len() ==> #[trigger] final(self).items@[j] == old(self).items@[j],
            final(self).configs() == old(self).configs().push(config),
            final(self).components() == old(self).components().push(component),
            final(self).histories() == old(self).histories().push(Seq::empty()),
            final(self).calls() == old(self).calls(),
            final(self).handed() == old(self).handed(),
            final(self).retired() == old(self).retired(),
    {
        self.items.push(ChildItem { config, component, hist: Ghost(Seq::empty()) });
        proof {
            assert(self.configs() =~= old(self).configs().push(config));
            assert(self.components() =~= old(self).components().push(component));
            assert(self.histories() =~= old(self).histories().push(Seq::empty()));
        }
    }

    /// Take the top item out without any callback; it joins the retired
    /// components with its history.
    fn take_top(&mut self) -> (r: Option<(C, N)>)
        ensures
            old(self).items@.len() == 0 ==> r is None && *final(self) == *old(self),
            old(self).items@.len() > 0 ==> {
                &&& r == Some((old(self).configs().last(), old(self).components().last()))
                &&& final(self).items@ == old(self).items@.drop_last()
                &&& final(self).retired() == old(self).retired().push(
                    (old(self).components().last(), old(self).histories().last()))
                &&& final(self).calls() == old(self).calls()
                &&& final(self).handed() == old(self).handed()
            },
    {
        if self.items.len() == 0 {
            return None;
        }
        match self.items.pop() {
            Some(it) => {
                let ChildItem { config, component, hist } = it;
                let ghost gc = component;
                self.retired = Ghost(self.retired@.push((gc, hist@)));
                Some((config, component))
            },
            None => None,
        }
    }

    /// Hand `state` to the component at position `i`, and record it.
    fn hand_at(&mut self, i: usize, state: AnyState)
        requires
            i < old(self).items@.len(),
        ensures
            final(self).items@.len() == old(self).items@.len(),
            forall|j: int| 0 <= j < old(self).items@.len() && j != i ==> #[trigger] final(self).items@[j] == old(self).items@[j],
            final(self).configs() == old(self).configs(),
            final(self).histories() == old(self).histories(),
            final(self).calls() == old(self).calls(),
            final(self).handed() == old(self).handed().push((i as nat, state)),
            final(self).retired() == old(self).retired(),
    {
        let ghost g = state;
        let it = &mut self.items[i];
        it.component.restore_state(state);
        self.handed = Ghost(self.handed@.push((i as nat, g)));
        proof {
            assert(self.configs() =~= old(self).configs());
            assert(self.histories() =~= old(self).histories());
        }
    }

    /// An empty stack.
    pub fn new() -> (s: Self)
        ensures
            s.configs().len() == 0,
            s.calls().len() == 0,
    {
        let s = ChildStack { items: Vec::new(), calls: Ghost(Seq::empty()), handed: Ghost(Seq::empty()),
            retired: Ghost(Seq::empty()) };
        proof {
            assert(s.configs() =~= Seq::<C>::empty());
        }
        s
    }

    /// Number of components.
    pub fn len(&self) -> (n: usize)
        ensures
            n == self.configs().len(),
    {
        self.items.len()
    }

    /// Whether the stack is empty.
    pub fn is_empty(&self) -> (r: bool)
        ensures
            r == (self.configs().len() == 0),
    {
        self.items.len() == 0
    }

    /// Configuration of the active (top) component.
    pub fn active_config(&self) -> (r: Option<&C>)
        ensures
            match r {
                Some(c) => self.configs().len() > 0 && *c == self.configs().last(),
                None => self.configs().len() == 0,
            },
    {
        let n = self.items.len();
        if n == 0 {
            None
        } else {
            Some(&self.items[n - 1].config)
        }
    }

    /// The active (top) component.
    pub fn active(&self) -> (r: Option<&N>)
        ensures
            match r {
                Some(c) => self.components().len() > 0 && *c == self.components().last(),
                None => self.configs().len() == 0,
            },
    {
        let n = self.items.len();
        if n == 0 {
            None
        } else {
            Some(&self.items[n - 1].component)
        }
    }

    /// Push a component: the active one is paused, the new one is created,
    /// started, resumed, and becomes active.
    pub fn push(&mut self, config: C, component: N)
        ensures
            final(self).configs() == old(self).configs().push(config),
            final(self).calls() == old(self).calls() + push_calls(old(self).configs().len()),
            final(self).histories() == (if old(self).configs().len() > 0 {
                old(self).histories().update(
                    old(self).configs().len() - 1,
                    old(self).histories().last().push(LifecycleState::Paused),
                )
            } else {
                old(self).histories()
            }).push(enter_states()),
            final(self).components().len() == old(self).components().len() + 1,
            forall|i: int| 0 <= i < old(self).components().len() - 1 ==> #[trigger] final(self).components()[i] == old(self).components()[i],
            final(self).handed() == old(self).handed(),
            final(self).retired() == old(self).retired(),
    {
        let n = self.items.len();
        let ghost c0 = self.calls@;
        let ghost h0 = self.histories();
        if n > 0 {
            self.notify_at(n - 1, LifecycleState::Paused);
        }
        let ghost mid = self.items@;
        let ghost ha = self.histories();
        self.insert_top(config, component);
        self.notify_at(n, LifecycleState::Created);
        proof {
            assert(self.histories() =~= ha.push(seq![LifecycleState::Created]));
        }
        self.notify_at(n, LifecycleState::Started);
        proof {
            assert(self.histories() =~~= ha.push(seq![LifecycleState::Created, LifecycleState::Started]));
        }
        self.notify_at(n, LifecycleState::Resumed);
        proof {
            assert(self.calls@ =~= c0 + push_calls(n as nat));
            assert(self.configs() =~= old(self).configs().push(config));
            let h1 = if n > 0 { h0.update(n - 1, h0.last().push(LifecycleState::Paused)) } else { h0 };
            assert(ha =~= h1);
            assert(self.histories() =~~= h1.push(enter_states()));
            assert forall|i: int| 0 <= i < old(self).components().len() - 1 implies #[trigger] self.components()[i] == old(self).components()[i] by {
                assert(self.items@[i] == old(self).items@[i]);
            }
        }
    }
}



impl<C, N: ComponentNode> ChildStack<C, N> {
    /// Remove the top component from the items, taking it out of the
    /// lifecycle (pause, stop, destroy), without resuming the one below.
    fn pop_destroy(&mut self) -> (r: Option<(C, N)>)
        ensures
            old(self).configs().len() == 0 ==> r is None && *final(self) == *old(self),
            old(self).configs().len() > 0 ==> {
                &&& r is Some
                &&& (r->0).0 == old(self).configs().last()
                &&& final(self).configs() == old(self).configs().drop_last()
                &&& final(self).calls() == old(self).calls() + exit_calls((old(self).configs().len() - 1) as nat)
                &&& final(self).histories() == old(self).histories().drop_last()
                &&& final(self).retired() == old(self).retired().push(((r->0).1, old(self).histories().last() + exit_states()))
            },
            final(self).components() == old(self).components().take(final(self).configs().len() as int),
            final(self).handed() == old(self).handed(),
    {
        let n = self.items.len();
        if n == 0 {
            return None;
        }
        let ghost c0 = self.calls@;
        self.notify_at(n - 1, LifecycleState::Paused);
        self.notify_at(n - 1, LifecycleState::Stopped);
        self.notify_at(n - 1, LifecycleState::Destroyed);
        let ghost mid = self.items@;
        let r = self.take_top();
        proof {
            assert(self.calls@ =~= c0 + exit_calls((n - 1) as nat));
            assert(self.configs() =~= old(self).configs().drop_last());
            assert(self.histories() =~= old(self).histories().drop_last());
            assert(mid[n - 1].hist@ =~= old(self).histories().last() + exit_states());
            assert(self.components() =~= old(self).components().take(n - 1)) by {
                assert forall|k: int| 0 <= k < n - 1 implies self.components()[k] == old(self).components()[k] by {
                    assert(self.items@[k] == mid[k]);
                    assert(mid[k] == old(self).items@[k]);
                }
            }
        }
        r
    }

    /// Pop the active component: it is paused, stopped and destroyed and
    /// returned with its configuration; the one below is resumed. The
    /// returned component is the one that left the top, with those callbacks
    /// at the end of its history.
    pub fn pop(&mut self) -> (r: Option<(C, N)>)
        ensures
            old(self).configs().len() == 0 ==> r is None && final(self).configs() == old(self).configs()
                && final(self).calls() == old(self).calls() && final(self).histories() == old(self).histories()
                && final(self).retired() == old(self).retired(),
            old(self).configs().len() > 0 ==> {
                &&& r is Some
                &&& (r->0).0 == old(self).configs().last()
                &&& final(self).configs() == old(self).configs().drop_last()
                &&& final(self).calls() == old(self).calls() + pop_calls(old(self).configs().len())
                &&& final(self).retired() == old(self).retired().push(((r->0).1, old(self).histories().last() + exit_states()))
                &&& final(self).histories() == if old(self).configs().len() > 1 {
                    old(self).histories().drop_last().update(
                        old(self).configs().len() - 2,
                        old(self).histories()[old(self).configs().len() - 2].push(LifecycleState::Resumed),
                    )
                } else {
                    old(self).histories().drop_last()
                }
            },
            final(self).components().len() == final(self).configs().len(),
            forall|i: int| 0 <= i < final(self).components().len() - 1 ==> #[trigger] final(self).components()[i] == old(self).components()[i],
            final(self).handed() == old(self).handed(),
    {
        let ghost h0 = self.histories();
        let r = self.pop_destroy();
        let ghost c1 = self.calls@;
        let ghost mid = self.items@;
        let ghost midc = self.components();
        let ghost h1 = self.histories();
        let n = self.items.len();
        if r.is_some() && n > 0 {
            self.notify_at(n - 1, LifecycleState::Resumed);
        }
        proof {
            if r.is_some() {
                assert(self.calls@ =~= old(self).calls() + pop_calls(old(self).configs().len()));
            }
            assert forall|i: int| 0 <= i < self.items@.len() - 1 implies #[trigger] self.components()[i] == old(self).components()[i] by {
                assert(self.items@[i] == mid[i]);
                assert(self.components()[i] == self.items@[i].component);
                assert(midc[i] == mid[i].component);
                assert(midc[i] == old(self).components()[i]);
            }
            assert(self.configs().len() == self.items@.len());
            assert(self.components().len() == self.items@.len());
        }
        r
    }

    /// Replace the active component: the old one is paused, stopped and
    /// destroyed, the new one created, started and resumed. On an empty stack
    /// this is a push.
    pub fn replace(&mut self, config: C, component: N)
        ensures
            old(self).configs().len() == 0 ==> final(self).configs() == seq![config]
                && final(self).calls() == old(self).calls() + push_calls(0)
                && final(self).histories() == seq![enter_states()]
                && final(self).retired() == old(self).retired(),
            old(self).configs().len() > 0 ==> {
                &&& final(self).configs() == old(self).configs().drop_last().push(config)
                &&& final(self).calls() == old(self).calls() + replace_calls(old(self).configs().len())
                &&& final(self).histories() == old(self).histories().drop_last().push(enter_states())
                &&& final(self).retired().len() == old(self).retired().len() + 1
                &&& final(self).retired().drop_last() == old(self).retired()
                &&& final(self).retired().last().1 == old(self).histories().last() + exit_states()
            },
            final(self).components().len() == final(self).configs().len(),
            forall|i: int| 0 <= i < old(self).components().len() - 1 ==> #[trigger] final(self).components()[i] == old(self).components()[i],
            final(self).handed() == old(self).handed(),
    {
        if self.items.len() == 0 {
            self.push(config, component);
            proof {
                assert(self.configs() =~= seq![config]);
                assert(self.histories() =~= seq![enter_states()]);
            }
            return;
        }
        let ghost c0 = self.calls@;
        let n = self.items.len();
        let _old = self.pop_destroy();
        let ghost mid = self.items@;
        let ghost midc = self.components();
        let ghost r1 = self.retired();
        let ghost ha = self.histories();
        self.insert_top(config, component);
        self.notify_at(n - 1, LifecycleState::Created);
        proof {
            assert(self.histories() =~= ha.push(seq![LifecycleState::Created]));
        }
        self.notify_at(n - 1, LifecycleState::Started);
        proof {
            assert(self.histories() =~~= ha.push(seq![LifecycleState::Created, LifecycleState::Started]));
        }
        self.notify_at(n - 1, LifecycleState::Resumed);
        proof {
            assert(self.histories() =~~= ha.push(enter_states()));
            assert forall|i: int| 0 <= i < old(self).components().len() - 1 implies #[trigger] self.components()[i] == old(self).components()[i] by {
                assert(self.components()[i] == self.items@[i].component);
                assert(self.items@[i] == mid[i]);
                assert(midc[i] == mid[i].component);
                assert(midc[i] == old(self).components()[i]);
            }
            assert(self.configs() =~= old(self).configs().drop_last().push(config));
            assert(self.calls@ =~= old(self).calls() + replace_calls(n as nat));
            assert(self.histories() =~= old(self).histories().drop_last().push(enter_states()));
            assert(self.retired().drop_last() =~= old(self).retired());
        }
    }

    /// Remove every component, top first, each paused, stopped and destroyed.
    pub fn clear(&mut self)
        ensures
            final(self).configs().len() == 0,
            final(self).calls() == old(self).calls() + exits_down(old(self).configs().len(), 0),
            final(self).histories().len() == 0,
            final(self).retired().len() == old(self).retired().len() + old(self).configs().len(),
            final(self).retired().take(old(self).retired().len() as int) == old(self).retired(),
            forall|k: int| 0 <= k < old(self).configs().len() ==> (#[trigger] final(self).retired()[old(self).retired().len() + k]).1
                == old(self).histories()[old(self).configs().len() - 1 - k] + exit_states(),
            final(self).handed() == old(self).handed(),
    {
        let ghost c0 = self.calls@;
        let ghost n0 = self.items@.len();
        let ghost r0 = self.retired@;
        let ghost h0 = self.histories();
        proof {
            assert(c0 + exits_down(n0, n0) =~= c0);
            assert(h0.take(n0 as int) =~= h0);
        }
        while self.items.len() > 0
            invariant
                self.items@.len() <= n0,
                n0 == h0.len(),
                self.calls@ + exits_down(self.items@.len() as nat, 0) == c0 + exits_down(n0, 0),
                self.configs().len() == self.items@.len(),
                self.histories() == h0.take(self.items@.len() as int),
                self.retired@.len() == r0.len() + n0 - self.items@.len(),
                self.retired@.take(r0.len() as int) == r0,
                forall|k: int| 0 <= k < n0 - self.items@.len() ==> (#[trigger] self.retired@[r0.len() + k]).1
                    == h0[n0 - 1 - k] + exit_states(),
                self.handed@ == old(self).handed(),
            decreases self.items@.len(),
        {
            let ghost k = self.items@.len();
            let ghost rb = self.retired@;
            let _ = self.pop_destroy();
            proof {
                assert(exits_down(k as nat, 0) == exit_calls((k - 1) as nat) + exits_down((k - 1) as nat, 0));
                assert(self.calls@ + exits_down(self.items@.len() as nat, 0) =~= c0 + exits_down(n0, 0));
                assert(self.histories() =~= h0.take(self.items@.len() as int));
                assert(self.retired@.take(r0.len() as int) =~= r0) by {
                    assert(self.retired@ == rb.push(self.retired@.last()));
                    assert(rb.take(r0.len() as int) == r0);
                }
                assert forall|j: int| 0 <= j < n0 - self.items@.len() implies (#[trigger] self.retired@[r0.len() + j]).1
                    == h0[n0 - 1 - j] + exit_states() by {
                    if j < n0 - k {
                        assert(self.retired@[r0.len() + j] == rb[r0.len() + j]);
                    }
                }
            }
        }
        proof {
            assert(self.calls@ + exits_down(0, 0) =~= self.calls@);
        }
    }

    /// Bring a component to the front. When a component with an equal
    /// configuration is in the stack, every component above the first such
    /// one is removed (top first: paused, stopped, destroyed) and `component`
    /// is dropped; otherwise the active component is replaced by `component`.
    pub fn bring_to_front(&mut self, config: C, component: N)
        where
            C: PartialEq,
        ensures
            C::obeys_eq_spec() ==> ({
                let cs = old(self).configs();
                if exists|i: int| 0 <= i < cs.len() && cs[i].eq_spec(&config) {
                    let pos = choose|i: int| 0 <= i < cs.len() && cs[i].eq_spec(&config)
                        && forall|j: int| 0 <= j < i ==> !cs[j].eq_spec(&config);
                    &&& final(self).configs() == cs.take(pos + 1)
                    &&& final(self).calls() == old(self).calls() + exits_down(cs.len(), (pos + 1) as nat)
                    &&& final(self).histories() == old(self).histories().take(pos + 1)
                } else if cs.len() == 0 {
                    &&& final(self).configs() == seq![config]
                    &&& final(self).calls() == old(self).calls() + push_calls(0)
                    &&& final(self).histories() == seq![enter_states()]
                } else {
                    &&& final(self).configs() == cs.drop_last().push(config)
                    &&& final(self).calls() == old(self).calls() + replace_calls(cs.len())
                    &&& final(self).histories() == old(self).histories().drop_last().push(enter_states())
                }
            }),
    {
        let n = self.items.len();
        let mut i: usize = 0;
        let mut found = false;
        while i < n && !found
            invariant
                n == self.items@.len(),
                i <= n,
                C::obeys_eq_spec() ==> forall|j: int| 0 <= j < i - (if found { 1int } else { 0int }) ==> !(#[trigger] self.configs()[j]).eq_spec(&config),
                found ==> i > 0 && (C::obeys_eq_spec() ==> self.configs()[i - 1].eq_spec(&config)),
                self.configs().len() == n,
            decreases n - i + (if found { 0int } else { 1int }),
        {
            if self.items[i].config == config {
                found = true;
            }
            i = i + 1;
        }
        if found {
            let pos = i - 1;
            let ghost c0 = self.calls@;
            let ghost cs = self.configs();
            let ghost hs = self.histories();
            proof {
                assert(c0 + exits_down(n as nat, n as nat) =~= c0);
                assert(hs.take(n as int) =~= hs);
            }
            while self.items.len() > pos + 1
                invariant
                    pos + 1 <= self.items@.len() <= n,
                    self.configs() == cs.take(self.items@.len() as int),
                    self.histories() == hs.take(self.items@.len() as int),
                    hs == old(self).histories(),
                    hs.len() == n,
                    self.calls@ + exits_down(self.items@.len() as nat, (pos + 1) as nat) == c0 + exits_down(n as nat, (pos + 1) as nat),
                    cs.len() == n,
                decreases self.items@.len(),
            {
                let ghost k = self.items@.len();
                let _ = self.pop_destroy();
                proof {
                    assert(exits_down(k as nat, (pos + 1) as nat) == exit_calls((k - 1) as nat) + exits_down((k - 1) as nat, (pos + 1) as nat));
                    assert(self.calls@ + exits_down(self.items@.len() as nat, (pos + 1) as nat) =~= c0 + exits_down(n as nat, (pos + 1) as nat));
                    assert(self.configs() =~= cs.take(self.items@.len() as int));
                    assert(hs.take(k as int).drop_last() =~= hs.take(k - 1));
                    assert(self.histories() =~= hs.take(self.items@.len() as int));
                }
            }
            proof {
                assert(self.calls@ + exits_down((pos + 1) as nat, (pos + 1) as nat) =~= self.calls@);
                if C::obeys_eq_spec() {
                    let ch = choose|i: int| 0 <= i < cs.len() && cs[i].eq_spec(&config)
                        && forall|j: int| 0 <= j < i ==> !cs[j].eq_spec(&config);
                    assert(0 <= pos < cs.len() && cs[pos as int].eq_spec(&config)
                        && forall|j: int| 0 <= j < pos ==> !cs[j].eq_spec(&config));
                    if ch < pos {
                    } else if ch > pos {
                        assert(!cs[pos as int].eq_spec(&config));
                    }
                }
            }
        } else {
            self.replace(config, component);
        }
    }

    /// The active (top) component, mutably.
    pub fn active_mut(&mut self) -> (r: Option<&mut N>)
        ensures
            old(self).configs().len() == 0 ==> r is None && final(self).components() == old(self).components(),
            old(self).configs().len() > 0 ==> r is Some && *r->0 == old(self).components().last()
                && final(self).components() == old(self).components().update(old(self).components().len() - 1, *final(r->0)),
            final(self).configs() == old(self).configs(),
            final(self).calls() == old(self).calls(),
    {
        let n = self.items.len();
        if n == 0 {
            return None;
        }
        let it = &mut self.items[n - 1];
        Some(&mut it.component)
    }

    /// Apply a host lifecycle event to the active component: `on_resume` on
    /// `Resume`, `on_pause` on `Pause`; nothing on an empty stack.
    pub fn on_lifecycle_event(&mut self, event: LifecycleEvent)
        ensures
            final(self).configs() == old(self).configs(),
            final(self).calls() == old(self).calls() + call_if_present(
                old(self).configs().len(),
                old(self).configs().len() - 1,
                match event {
                    LifecycleEvent::Resume => LifecycleState::Resumed,
                    LifecycleEvent::Pause => LifecycleState::Paused,
                },
            ),
            final(self).histories() == if old(self).configs().len() > 0 {
                old(self).histories().update(
                    old(self).configs().len() - 1,
                    old(self).histories().last().push(match event {
                        LifecycleEvent::Resume => LifecycleState::Resumed,
                        LifecycleEvent::Pause => LifecycleState::Paused,
                    }),
                )
            } else {
                old(self).histories()
            },
            final(self).retired() == old(self).retired(),
            final(self).handed() == old(self).handed(),
    {
        let n = self.items.len();
        let ghost c0 = self.calls@;
        let state = match event {
            LifecycleEvent::Resume => LifecycleState::Resumed,
            LifecycleEvent::Pause => LifecycleState::Paused,
        };
        if n > 0 {
            self.notify_at(n - 1, state);
        }
        proof {
            assert(self.calls@ =~= c0 + call_if_present(n as nat, n - 1, state));
            assert(self.configs() =~= old(self).configs());
        }
    }
}


/// The callbacks of pushing onto stacks of sizes `lo`, `lo + 1`, ..., `hi - 1`.
pub open spec fn pushes_up(lo: nat, hi: nat) -> Seq<(nat, LifecycleState)>
    decreases hi,
{
    if hi <= lo {
        Seq::empty()
    } else {
        pushes_up(lo, (hi - 1) as nat) + push_calls((hi - 1) as nat)
    }
}


impl<C: Clone, N: ComponentNode> ChildStack<C, N> {
    /// Save the stack: each configuration (cloned) with the serialized state
    /// of its component, bottom first. Each component is asked for its state
    /// once, bottom first, and [`ChildStack::save_answers`] turns the answers
    /// into the saved stack. A component whose state is not serialized bytes
    /// is saved without state.
    pub fn save(&self) -> (saved: SavedStack<C>)
        ensures
            saved.items@.len() == self.configs().len(),
            forall|i: int| 0 <= i < self.configs().len() ==> cloned::<C>(self.configs()[i], #[trigger] saved.items@[i].0),
    {
        let n = self.items.len();
        let mut answers: Vec<Option<AnyState>> = Vec::new();
        let mut i: usize = 0;
        while i < n
            invariant
                n == self.items@.len(),
                i <= n,
                answers@.len() == i,
            decreases n - i,
        {
            answers.push(self.items[i].component.save_state());
            i = i + 1;
        }
        self.save_answers(answers)
    }

    /// The saved stack for the given answers of the components, bottom
    /// first: each configuration (cloned) with no state where its component
    /// answered `None`, and with the bytes where it answered with a state
    /// made from serialized bytes.
    pub fn save_answers(&self, answers: Vec<Option<AnyState>>) -> (saved: SavedStack<C>)
        requires
            answers@.len() == self.configs().len(),
        ensures
            saved.items@.len() == self.configs().len(),
            forall|i: int| 0 <= i < self.configs().len() ==> cloned::<C>(self.configs()[i], #[trigger] saved.items@[i].0),
            forall|i: int| 0 <= i < self.configs().len() ==> match #[trigger] answers@[i] {
                None => saved.items@[i].1 is None,
                Some(st) => st.known_bytes() is Some ==> {
                    &&& saved.items@[i].1 is Some
                    &&& saved.items@[i].1->0@ == st.known_bytes()->0
                },
            },
    {
        let n = self.items.len();
        let ghost orig = answers@;
        let mut rest = answers;
        let mut items: Vec<(C, Option<Vec<u8>>)> = Vec::new();
        let mut i: usize = 0;
        while i < n
            invariant
                n == self.items@.len(),
                orig.len() == n,
                i <= n,
                items@.len() == i,
                rest@ == orig.skip(i as int),
                forall|j: int| 0 <= j < i ==> cloned::<C>(self.items@[j].config, #[trigger] items@[j].0),
                forall|j: int| 0 <= j < i ==> match #[trigger] orig[j] {
                    None => items@[j].1 is None,
                    Some(st) => st.known_bytes() is Some ==> {
                        &&& items@[j].1 is Some
                        &&& items@[j].1->0@ == st.known_bytes()->0
                    },
                },
            decreases n - i,
        {
            proof {
                assert(rest@.len() == n - i);
            }
            let answer = rest.remove(0);
            proof {
                assert(answer == orig[i as int]);
                assert(rest@ =~= orig.skip(i as int + 1));
            }
            let config = self.items[i].config.clone();
            let bytes = match answer {
                Some(st) => st.into_bytes(),
                None => None,
            };
            items.push((config, bytes));
            i = i + 1;
        }
        proof {
            assert forall|j: int| 0 <= j < n implies cloned::<C>(self.configs()[j], #[trigger] items@[j].0) by {
                assert(self.configs()[j] == self.items@[j].config);
            }
        }
        SavedStack { items }
    }

    /// Rebuild the stack from a saved one: the stack is cleared, then each
    /// saved configuration, bottom first, gets a new component from the
    /// factory, which receives its saved bytes (if any) and is pushed.
    pub fn restore_from_saved<F: ComponentFactory<C, N>>(&mut self, saved: SavedStack<C>, factory: &F)
        ensures
            final(self).configs() == saved.items@.map_values(|p: (C, Option<Vec<u8>>)| p.0),
            final(self).calls() == old(self).calls() + exits_down(old(self).configs().len(), 0)
                + pushes_up(0, saved.items@.len()),
            final(self).histories() == rebuilt_histories(saved.items@.len()),
            final(self).handed().len() >= old(self).handed().len(),
            final(self).handed().take(old(self).handed().len() as int) == old(self).handed(),
            handed_bytes(final(self).handed().skip(old(self).handed().len() as int))
                == saved_handoffs(saved.items@, saved.items@.len() as int),
    {
        let ghost hd0 = self.handed@;
        self.clear();
        let ghost c0 = self.calls@;
        let ghost orig = saved.items@;
        let mut items = saved.items;
        let ghost mut k: int = 0;
        proof {
            assert(items@ =~= orig.skip(0));
            assert(self.configs() =~= orig.take(0).map_values(|p: (C, Option<Vec<u8>>)| p.0));
            assert(c0 + pushes_up(0, 0) =~= c0);
            assert(self.histories() =~= rebuilt_histories(0));
            assert(self.handed@.take(hd0.len() as int) =~= hd0);
            assert(handed_bytes(self.handed@.skip(hd0.len() as int)) =~= saved_handoffs(orig, 0));
        }
        while items.len() > 0
            invariant
                0 <= k <= orig.len(),
                items@ == orig.skip(k),
                self.configs() == orig.take(k).map_values(|p: (C, Option<Vec<u8>>)| p.0),
                self.items@.len() == k,
                self.calls() == c0 + pushes_up(0, k as nat),
                self.histories() == rebuilt_histories(k as nat),
                self.handed@.len() >= hd0.len(),
                self.handed@.take(hd0.len() as int) == hd0,
                handed_bytes(self.handed@.skip(hd0.len() as int)) == saved_handoffs(orig, k),
            decreases orig.len() - k,
        {
            proof {
                assert(orig.skip(k).len() == orig.len() - k);
            }
            let n = self.items.len();
            let (config, state) = items.remove(0);
            let component = factory.create(config.clone());
            let ghost hb = self.handed@;
            let ghost hs = self.histories();
            self.insert_top(config, component);
            match state {
                Some(bytes) => {
                    let st = AnyState::from_bytes(bytes);
                    self.hand_at(n, st);
                },
                None => {},
            }
            proof {
                assert(orig[k].0 == config && orig[k].1 == state);
                assert(self.handed@.take(hd0.len() as int) =~= hd0);
                assert(handed_bytes(self.handed@.skip(hd0.len() as int)) =~= saved_handoffs(orig, k + 1)) by {
                    assert(hb.skip(hd0.len() as int) =~= hb.skip(hd0.len() as int));
                    if state is Some {
                        assert(self.handed@.skip(hd0.len() as int) =~= hb.skip(hd0.len() as int).push(self.handed@.last()));
                    } else {
                        assert(self.handed@ == hb);
                    }
                }
            }
            let ghost ha = self.histories();
            if n > 0 {
                self.notify_at(n - 1, LifecycleState::Paused);
            }
            let ghost hp = self.histories();
            self.notify_at(n, LifecycleState::Created);
            proof {
                assert(self.histories() =~= hp.update(n as int, seq![LifecycleState::Created]));
            }
            self.notify_at(n, LifecycleState::Started);
            proof {
                assert(self.histories() =~~= hp.update(n as int, seq![LifecycleState::Created, LifecycleState::Started]));
            }
            self.notify_at(n, LifecycleState::Resumed);
            proof {
                assert(self.histories() =~~= hp.update(n as int, enter_states()));
                assert(self.histories() =~~= rebuilt_histories((k + 1) as nat));
                assert(orig.take(k + 1).map_values(|p: (C, Option<Vec<u8>>)| p.0)
                    =~= orig.take(k).map_values(|p: (C, Option<Vec<u8>>)| p.0).push(config));
                assert(self.configs() =~= orig.take(k + 1).map_values(|p: (C, Option<Vec<u8>>)| p.0));
                assert(items@ =~= orig.skip(k + 1));
                assert(self.calls() =~= c0 + pushes_up(0, (k + 1) as nat));
                k = k + 1;
            }
        }
        proof {
            assert(orig.skip(k).len() == orig.len() - k);
            assert(orig.take(k) =~= orig);
        }
    }
}

/// The histories after rebuilding `m` components by pushes: each was
/// created, started and resumed, and every one but the top was then paused.
pub open spec fn rebuilt_histories(m: nat) -> Seq<Seq<LifecycleState>> {
    Seq::new(m, |i: int| if i + 1 < m { enter_states().push(LifecycleState::Paused) } else { enter_states() })
}

/// Positions and known bytes of handed-over states.
pub open spec fn handed_bytes(h: Seq<(nat, AnyState)>) -> Seq<(nat, Option<Seq<u8>>)> {
    h.map_values(|e: (nat, AnyState)| (e.0, e.1.known_bytes()))
}

/// What rebuilding from the first `k` saved entries hands over: entry `j`
/// with bytes gives position `j` a state made from exactly those bytes.
pub open spec fn saved_handoffs<C>(items: Seq<(C, Option<Vec<u8>>)>, k: int) -> Seq<(nat, Option<Seq<u8>>)>
    decreases k,
{
    if k <= 0 {
        Seq::empty()
    } else {
        let prev = saved_handoffs(items, k - 1);
        match items[k - 1].1 {
            Some(b) => prev.push(((k - 1) as nat, Some(b@))),
            None => prev,
        }
    }
}

/// The states that an in-place restore of the first `k` saved entries hands
/// out against `configs`: entry `j` goes to position `j` when that position
/// exists, the entry holds a state and the configurations are equal.
pub open spec fn handoffs<C: PartialEq>(configs: Seq<C>, saved: Seq<(C, Option<AnyState>)>, k: int) -> Seq<(nat, AnyState)>
    decreases k,
{
    if k <= 0 {
        Seq::empty()
    } else {
        let prev = handoffs(configs, saved, k - 1);
        let j = k - 1;
        if j < configs.len() && j < saved.len() && saved[j].1 is Some && configs[j].eq_spec(&saved[j].0) {
            prev.push((j as nat, saved[j].1->0))
        } else {
            prev
        }
    }
}

impl<C: PartialEq, N: ComponentNode> ChildStack<C, N> {
    /// Restore states in place, without re-creating components: the state at
    /// index `i` goes to the component at position `i` when there is one and
    /// its configuration equals the saved one.
    pub fn restore(&mut self, saved: Vec<(C, Option<AnyState>)>)
        ensures
            final(self).configs() == old(self).configs(),
            final(self).calls() == old(self).calls(),
            final(self).components().len() == old(self).components().len(),
            C::obeys_eq_spec() ==> forall|i: int| 0 <= i < old(self).components().len() && !(i < saved@.len()
                && saved@[i].1 is Some && old(self).configs()[i].eq_spec(&saved@[i].0))
                ==> #[trigger] final(self).components()[i] == old(self).components()[i],
            C::obeys_eq_spec() ==> final(self).handed() == old(self).handed() + handoffs(old(self).configs(), saved@, saved@.len() as int),
    {
        let ghost orig = saved@;
        let mut rest = saved;
        let total = rest.len();
        let n = self.items.len();
        let mut i: usize = 0;
        proof {
            assert(rest@ =~= orig.skip(0));
        }
        while rest.len() > 0
            invariant
                rest@ == orig.skip(i as int),
                i <= orig.len(),
                total == orig.len(),
                self.items@.len() == n,
                n == old(self).items@.len(),
                self.configs() == old(self).configs(),
                self.calls() == old(self).calls(),
                C::obeys_eq_spec() ==> forall|j: int| 0 <= j < n && !(j < i && orig[j].1 is Some
                    && old(self).configs()[j].eq_spec(&orig[j].0))
                    ==> #[trigger] self.items@[j].component == old(self).items@[j].component,
                C::obeys_eq_spec() ==> self.handed@ == old(self).handed() + handoffs(old(self).configs(), orig, i as int),
            decreases orig.len() - i,
        {
            proof {
                assert(orig.skip(i as int).len() == orig.len() - i);
            }
            let (saved_config, state) = rest.remove(0);
            proof {
                assert(saved_config == orig[i as int].0);
            }
            match state {
                Some(st) => {
                    if i < n && self.items[i].config == saved_config {
                        self.hand_at(i, st);
                        proof {
                            assert(self.configs() =~= old(self).configs());
                        }
                    }
                },
                None => {},
            }
            proof {
                assert(rest@ =~= orig.skip(i + 1));
                assert(orig[i as int].0 == saved_config);
            }
            i = i + 1;
        }
        proof {
            assert(orig.skip(i as int).len() == orig.len() - i);
            assert forall|j: int| C::obeys_eq_spec() && 0 <= j < n
                && !(j < orig.len() && orig[j].1 is Some && old(self).configs()[j].eq_spec(&orig[j].0))
                implies #[trigger] self.components()[j] == old(self).components()[j] by {
                assert(self.components()[j] == self.items@[j].component);
                assert(old(self).components()[j] == old(self).items@[j].component);
            }
        }
    }
}

impl<C, N: ComponentNode> Default for ChildStack<C, N> {
    fn default() -> (s: Self)
        ensures
            s.configs().len() == 0,
            s.calls().len() == 0,
    {
        ChildStack::new()
    }
}


/// The state announced by the last callback to position `p`, if any.
pub open spec fn last_state(calls: Seq<(nat, LifecycleState)>, p: nat) -> Option<LifecycleState>
    decreases calls.len(),
{
    if calls.len() == 0 {
        None
    } else if calls.last().0 == p {
        Some(calls.last().1)
    } else {
        last_state(calls.drop_last(), p)
    }
}

/// A stack of `n` components is settled when its top component was last
/// resumed and every other one was last paused.
pub open spec fn settled(calls: Seq<(nat, LifecycleState)>, n: nat) -> bool {
    &&& n > 0 ==> last_state(calls, (n - 1) as nat) == Some(LifecycleState::Resumed)
    &&& forall|p: nat| p + 1 < n ==> #[trigger] last_state(calls, p) == Some(LifecycleState::Paused)
}

proof fn lemma_last_state_concat(a: Seq<(nat, LifecycleState)>, b: Seq<(nat, LifecycleState)>, p: nat)
    ensures
        last_state(a + b, p) == if last_state(b, p) is Some { last_state(b, p) } else { last_state(a, p) },
    decreases b.len(),
{
    if b.len() == 0 {
        assert(a + b =~= a);
    } else {
        assert((a + b).drop_last() =~= a + b.drop_last());
        assert((a + b).last() == b.last());
        lemma_last_state_concat(a, b.drop_last(), p);
    }
}

proof fn lemma_last_state_absent(b: Seq<(nat, LifecycleState)>, p: nat)
    requires
        forall|i: int| 0 <= i < b.len() ==> (#[trigger] b[i]).0 != p,
    ensures
        last_state(b, p) is None,
    decreases b.len(),
{
    if b.len() > 0 {
        let d = b.drop_last();
        assert forall|i: int| 0 <= i < d.len() implies (#[trigger] d[i]).0 != p by {
            assert(d[i] == b[i]);
        }
        assert(b[b.len() - 1].0 != p);
        lemma_last_state_absent(d, p);
    }
}

/// A block of callbacks that does not touch `p` leaves what `p` last heard.
proof fn lemma_untouched(calls: Seq<(nat, LifecycleState)>, b: Seq<(nat, LifecycleState)>, p: nat)
    requires
        forall|i: int| 0 <= i < b.len() ==> (#[trigger] b[i]).0 != p,
    ensures
        last_state(calls + b, p) == last_state(calls, p),
{
    lemma_last_state_absent(b, p);
    lemma_last_state_concat(calls, b, p);
}

/// Law: pushing keeps a settled stack settled.
pub proof fn lemma_push_settles(calls: Seq<(nat, LifecycleState)>, n: nat)
    requires
        settled(calls, n),
    ensures
        settled(calls + push_calls(n), n + 1),
{
    let b = push_calls(n);
    let e = enter_calls(n);
    assert forall|p: nat| p + 1 < n + 1 implies #[trigger] last_state(calls + b, p) == Some(LifecycleState::Paused) by {
        if p + 1 == n {
            let h = seq![(p, LifecycleState::Paused)];
            assert(b =~= h + e);
            lemma_last_state_absent(e, p);
            lemma_last_state_concat(h, e, p);
            lemma_last_state_concat(calls, b, p);
        } else {
            assert forall|i: int| 0 <= i < b.len() implies (#[trigger] b[i]).0 != p by {}
            lemma_untouched(calls, b, p);
        }
    }
    lemma_last_state_concat(calls, b, n);
    assert(b.last() == (n, LifecycleState::Resumed));
}

/// Law: popping keeps a settled stack settled.
pub proof fn lemma_pop_settles(calls: Seq<(nat, LifecycleState)>, n: nat)
    requires
        settled(calls, n),
        n > 0,
    ensures
        settled(calls + pop_calls(n), (n - 1) as nat),
{
    let b = pop_calls(n);
    assert forall|p: nat| p + 1 < n - 1 implies #[trigger] last_state(calls + b, p) == Some(LifecycleState::Paused) by {
        assert forall|i: int| 0 <= i < b.len() implies (#[trigger] b[i]).0 != p by {}
        lemma_untouched(calls, b, p);
    }
    if n > 1 {
        let top = (n - 2) as nat;
        lemma_last_state_concat(calls, b, top);
        assert(b.last() == (top, LifecycleState::Resumed));
    }
}

/// Law: replacing the top keeps a settled stack settled.
pub proof fn lemma_replace_settles(calls: Seq<(nat, LifecycleState)>, n: nat)
    requires
        settled(calls, n),
        n > 0,
    ensures
        settled(calls + replace_calls(n), n),
{
    let b = replace_calls(n);
    assert forall|p: nat| p + 1 < n implies #[trigger] last_state(calls + b, p) == Some(LifecycleState::Paused) by {
        assert forall|i: int| 0 <= i < b.len() implies (#[trigger] b[i]).0 != p by {}
        lemma_untouched(calls, b, p);
    }
    let top = (n - 1) as nat;
    lemma_last_state_concat(calls, b, top);
    assert(b.last() == (top, LifecycleState::Resumed));
}

/// Law: resuming the host keeps a settled stack settled.
pub proof fn lemma_resume_settles(calls: Seq<(nat, LifecycleState)>, n: nat)
    requires
        settled(calls, n),
    ensures
        settled(calls + call_if_present(n, n - 1, LifecycleState::Resumed), n),
{
    let b = call_if_present(n, n - 1, LifecycleState::Resumed);
    assert forall|p: nat| p + 1 < n implies #[trigger] last_state(calls + b, p) == Some(LifecycleState::Paused) by {
        assert forall|i: int| 0 <= i < b.len() implies (#[trigger] b[i]).0 != p by {}
        lemma_untouched(calls, b, p);
    }
    if n > 0 {
        let top = (n - 1) as nat;
        lemma_last_state_concat(calls, b, top);
        assert(b.last() == (top, LifecycleState::Resumed));
    }
}

/// Law: rebuilding a stack of `m` components by pushes leaves it settled.
pub proof fn lemma_pushes_settle(calls: Seq<(nat, LifecycleState)>, m: nat)
    ensures
        settled(calls + pushes_up(0, m), m),
    decreases m,
{
    if m == 0 {
        assert(calls + pushes_up(0, 0) =~= calls);
    } else {
        lemma_pushes_settle(calls, (m - 1) as nat);
        lemma_push_settles(calls + pushes_up(0, (m - 1) as nat), (m - 1) as nat);
        assert(calls + pushes_up(0, m) =~= calls + pushes_up(0, (m - 1) as nat) + push_calls((m - 1) as nat));
    }
}

} // verus!
