//! [`BackDispatcher`]: the central handler of the system Back button.
//!
//! Components register Back handlers with priorities. On Back, handlers are
//! consulted from the highest priority to the lowest; the first one that
//! returns `true` consumes the event. When none does, `handle` returns
//! `false` and the caller (usually the navigation stack) pops.

use vstd::prelude::*;

verus! {

/// Something that can react to Back: returns `true` when it consumed it.
///
/// Closures `FnMut() -> bool` are Back handlers.
pub trait BackHandler {
    /// React to Back; `true` when the event is consumed.
    fn on_back(&mut self) -> bool;
}

/// Calls a Back closure. Its result is whatever the closure decides.
#[verifier::external_body]
fn call_back_closure<F: FnMut() -> bool>(f: &mut F) -> bool {
    f()
}

impl<F: FnMut() -> bool> BackHandler for F {
    fn on_back(&mut self) -> bool {
        call_back_closure(self)
    }
}

/// A Back handler with its priority.
///
/// Suggested priorities: 100 for dialogs, 50 for nested stacks, 10 for the
/// component itself, 0 for the system behaviour (pop).
pub struct BackCallback {
    /// The higher, the earlier the handler is consulted.
    pub priority: u32,
    /// The handler: `true` when Back is consumed.
    pub handler: Box<dyn BackHandler>,
}

/// The priorities of a sequence of callbacks.
pub open spec fn priorities(s: Seq<BackCallback>) -> Seq<u32> {
    s.map_values(|c: BackCallback| c.priority)
}

/// Priorities in ascending order.
pub open spec fn ascending(p: Seq<u32>) -> bool {
    forall|i: int, j: int| 0 <= i <= j < p.len() ==> p[i] <= p[j]
}

/// Number of callbacks with a priority at most `p`.
pub open spec fn count_at_most(s: Seq<u32>, p: u32) -> int
    decreases s.len(),
{
    if s.len() == 0 {
        0
    } else {
        count_at_most(s.drop_last(), p) + if s.last() <= p { 1int } else { 0int }
    }
}

/// `s` without the callbacks of priority `p`, in order.
pub open spec fn without_priority(s: Seq<BackCallback>, p: u32) -> Seq<BackCallback>
    decreases s.len(),
{
    if s.len() == 0 {
        s
    } else {
        let rest = without_priority(s.drop_last(), p);
        if s.last().priority == p {
            rest
        } else {
            rest.push(s.last())
        }
    }
}

/// Registry of Back handlers, kept in ascending priority order.
pub struct BackDispatcher {
    callbacks: Vec<BackCallback>,
    /// The handlers consulted by the last `handle`: position and answer, in
    /// the order they were called.
    last_dispatch: Ghost<Seq<(nat, bool)>>,
}

impl BackDispatcher {
    /// The registered callbacks, in ascending priority order.
    pub closed spec fn callbacks(&self) -> Seq<BackCallback> {
        self.callbacks@
    }

    /// Position (in [`BackDispatcher::callbacks`]) and answer of each handler
    /// consulted by the last `handle`, in call order.
    pub closed spec fn last_dispatch(&self) -> Seq<(nat, bool)> {
        self.last_dispatch@
    }

    #[verifier::type_invariant]
    closed spec fn sorted(&self) -> bool {
        ascending(priorities(self.callbacks@))
    }

    /// An empty dispatcher.
    pub fn new() -> (d: Self)
        ensures
            d.callbacks().len() == 0,
            d.last_dispatch().len() == 0,
    {
        BackDispatcher { callbacks: Vec::new(), last_dispatch: Ghost(Seq::empty()) }
    }

    /// Number of registered handlers.
    pub fn len(&self) -> (n: usize)
        ensures
            n == self.callbacks().len(),
    {
        self.callbacks.len()
    }

    /// Whether no handler is registered.
    pub fn is_empty(&self) -> (r: bool)
        ensures
            r == (self.callbacks().len() == 0),
    {
        self.callbacks.len() == 0
    }
}

impl Default for BackDispatcher {
    fn default() -> (d: Self)
        ensures
            d.callbacks().len() == 0,
            d.last_dispatch().len() == 0,
    {
        BackDispatcher::new()
    }
}


proof fn lemma_count_at_most_bounds(s: Seq<u32>, p: u32)
    ensures
        0 <= count_at_most(s, p) <= s.len(),
    decreases s.len(),
{
    if s.len() > 0 {
        lemma_count_at_most_bounds(s.drop_last(), p);
    }
}

/// In ascending priorities, the callbacks of priority at most `p` are exactly
/// the first `count_at_most` ones.
proof fn lemma_count_at_most_prefix(s: Seq<u32>, p: u32, k: int)
    requires
        ascending(s),
        0 <= k <= s.len(),
        forall|i: int| 0 <= i < k ==> s[i] <= p,
        k < s.len() ==> s[k] > p,
    ensures
        count_at_most(s, p) == k,
    decreases s.len(),
{
    if s.len() > 0 {
        if k == s.len() {
            lemma_count_at_most_prefix(s.drop_last(), p, k - 1);
        } else {
            assert(s.last() >= s[k]);
            lemma_count_at_most_prefix(s.drop_last(), p, k);
        }
    }
}

impl BackDispatcher {
    /// Register a handler. It goes after every handler of lower or equal
    /// priority and before every handler of higher priority, so the order
    /// stays ascending and handlers of equal priority keep registration order.
    pub fn register(&mut self, callback: BackCallback)
        ensures
            ({
                let pos = count_at_most(priorities(old(self).callbacks()), callback.priority);
                final(self).callbacks() == old(self).callbacks().insert(pos, callback)
            }),
            ascending(priorities(old(self).callbacks())),
            ascending(priorities(final(self).callbacks())),
            final(self).last_dispatch() == old(self).last_dispatch(),
    {
        proof {
            use_type_invariant(&*self);
        }
        let mut cbs: Vec<BackCallback> = Vec::new();
        std::mem::swap(&mut cbs, &mut self.callbacks);
        let n = cbs.len();
        let mut pos: usize = 0;
        while pos < n && cbs[pos].priority <= callback.priority
            invariant
                n == cbs@.len(),
                pos <= n,
                forall|i: int| 0 <= i < pos ==> (#[trigger] cbs@[i]).priority <= callback.priority,
            decreases n - pos,
        {
            pos = pos + 1;
        }
        proof {
            let ps = priorities(cbs@);
            lemma_count_at_most_prefix(ps, callback.priority, pos as int);
            let ins = cbs@.insert(pos as int, callback);
            assert(ascending(ps));
            assert forall|i: int, j: int| 0 <= i <= j < ins.len() implies (#[trigger] priorities(ins)[i]) <= (#[trigger] priorities(ins)[j]) by {
                assert(priorities(ins)[i] == ins[i].priority);
                assert(priorities(ins)[j] == ins[j].priority);
                if i < pos {
                    assert(ins[i] == cbs@[i]);
                    assert(ps[i] == cbs@[i].priority);
                    if j < pos {
                        assert(ins[j] == cbs@[j]);
                        assert(ps[j] == cbs@[j].priority);
                    } else if j > pos {
                        assert(ins[j] == cbs@[j - 1]);
                        assert(ps[j - 1] == cbs@[j - 1].priority);
                    }
                } else if i == pos {
                    if j > pos {
                        assert(ins[j] == cbs@[j - 1]);
                        assert(ps[j - 1] == cbs@[j - 1].priority);
                        assert(ps[pos as int] == cbs@[pos as int].priority);
                    }
                } else {
                    assert(ins[i] == cbs@[i - 1]);
                    assert(ins[j] == cbs@[j - 1]);
                    assert(ps[i - 1] == cbs@[i - 1].priority);
                    assert(ps[j - 1] == cbs@[j - 1].priority);
                }
            }
        }
        cbs.insert(pos, callback);
        self.callbacks = cbs;
    }

    /// Remove every handler with `priority`; the others keep their order.
    pub fn unregister(&mut self, priority: u32)
        ensures
            final(self).callbacks() == without_priority(old(self).callbacks(), priority),
            ascending(priorities(final(self).callbacks())),
            final(self).last_dispatch() == old(self).last_dispatch(),
    {
        proof {
            use_type_invariant(&*self);
        }
        let mut cbs: Vec<BackCallback> = Vec::new();
        std::mem::swap(&mut cbs, &mut self.callbacks);
        let ghost orig = cbs@;
        let mut i: usize = 0;
        let ghost mut j: int = 0;
        proof {
            assert(orig.take(0) =~= Seq::<BackCallback>::empty());
            assert(cbs@ =~= without_priority(orig.take(0), priority) + orig.skip(0));
        }
        while i < cbs.len()
            invariant
                0 <= j <= orig.len(),
                cbs@ == without_priority(orig.take(j), priority) + orig.skip(j),
                i == without_priority(orig.take(j), priority).len(),
                ascending(priorities(orig)),
            decreases orig.len() - j,
        {
            proof {
                if j >= orig.len() {
                    assert(orig.skip(j).len() == 0);
                }
                assert(orig.take(j + 1).drop_last() =~= orig.take(j));
            }
            if cbs[i].priority == priority {
                cbs.remove(i);
            } else {
                i = i + 1;
            }
            proof {
                assert(cbs@ =~= without_priority(orig.take(j + 1), priority) + orig.skip(j + 1));
                j = j + 1;
            }
        }
        proof {
            assert(orig.take(j) =~= orig);
            assert(cbs@ =~= without_priority(orig, priority));
            lemma_without_priority_ascending(orig, priority);
        }
        self.callbacks = cbs;
    }
}

proof fn lemma_without_priority_ascending(s: Seq<BackCallback>, p: u32)
    requires
        ascending(priorities(s)),
    ensures
        ascending(priorities(without_priority(s, p))),
        forall|i: int| 0 <= i < without_priority(s, p).len() ==> exists|j: int| 0 <= j < s.len() && #[trigger] without_priority(s, p)[i] == s[j],
    decreases s.len(),
{
    if s.len() > 0 {
        let d = s.drop_last();
        assert(ascending(priorities(d))) by {
            assert forall|i: int, j: int| 0 <= i <= j < priorities(d).len() implies (#[trigger] priorities(d)[i]) <= (#[trigger] priorities(d)[j]) by {
                assert(priorities(d)[i] == priorities(s)[i]);
                assert(priorities(d)[j] == priorities(s)[j]);
            }
        }
        lemma_without_priority_ascending(d, p);
        let rest = without_priority(d, p);
        assert forall|i: int| 0 <= i < rest.len() implies exists|j: int| 0 <= j < s.len() && #[trigger] rest[i] == s[j] by {
            let j = choose|j: int| 0 <= j < d.len() && rest[i] == d[j];
            assert(rest[i] == s[j]);
        }
        if s.last().priority != p {
            let w = rest.push(s.last());
            assert forall|i: int, j: int| 0 <= i <= j < priorities(w).len() implies (#[trigger] priorities(w)[i]) <= (#[trigger] priorities(w)[j]) by {
                assert(priorities(w)[i] == w[i].priority);
                assert(priorities(w)[j] == w[j].priority);
                if j == w.len() - 1 && i < j {
                    assert(w[i] == rest[i]);
                    let k = choose|k: int| 0 <= k < d.len() && rest[i] == d[k];
                    assert(d[k] == s[k]);
                    assert(priorities(s)[k] == s[k].priority);
                    assert(priorities(s)[s.len() - 1] == s[s.len() - 1].priority);
                    assert(priorities(s)[k] <= priorities(s)[s.len() - 1]);
                } else if j < w.len() - 1 {
                    assert(w[i] == rest[i]);
                    assert(w[j] == rest[j]);
                    assert(priorities(rest)[i] == rest[i].priority);
                    assert(priorities(rest)[j] == rest[j].priority);
                }
            }
            assert forall|i: int| 0 <= i < w.len() implies exists|j: int| 0 <= j < s.len() && #[trigger] w[i] == s[j] by {
                if i == w.len() - 1 {
                    assert(w[i] == s[s.len() - 1]);
                } else {
                    assert(w[i] == rest[i]);
                }
            }
        }
    }
}


/// Ask the handler at position `i` about Back, and record the consultation.
fn consult(cbs: &mut Vec<BackCallback>, i: usize, Ghost(trace): Ghost<Seq<(nat, bool)>>) -> (r: (bool, Ghost<Seq<(nat, bool)>>))
    requires
        i < old(cbs)@.len(),
    ensures
        final(cbs)@.len() == old(cbs)@.len(),
        forall|j: int| 0 <= j < old(cbs)@.len() && j != i ==> #[trigger] final(cbs)@[j] == old(cbs)@[j],
        final(cbs)@[i as int].priority == old(cbs)@[i as int].priority,
        r.1@ == trace.push((i as nat, r.0)),
{
    let ans = cbs[i].handler.on_back();
    (ans, Ghost(trace.push((i as nat, ans))))
}

impl BackDispatcher {
    /// Handle Back: consult the handlers from the highest priority to the
    /// lowest (the registration order, backwards), each at most once, until
    /// one consumes the event. Returns whether one did. The handlers stay
    /// registered with their priorities; [`BackDispatcher::last_dispatch`]
    /// records who was asked and what each answered.
    pub fn handle(&mut self) -> (r: bool)
        ensures
            priorities(final(self).callbacks()) == priorities(old(self).callbacks()),
            ({
                let t = final(self).last_dispatch();
                let n = old(self).callbacks().len();
                &&& t.len() <= n
                &&& forall|k: int| 0 <= k < t.len() ==> (#[trigger] t[k]).0 == n - 1 - k
                &&& forall|k: int| 0 <= k < t.len() - 1 ==> !(#[trigger] t[k]).1
                &&& r == (t.len() > 0 && t.last().1)
                &&& !r ==> t.len() == n
                &&& forall|k1: int, k2: int| 0 <= k1 <= k2 < t.len()
                    ==> old(self).callbacks()[(#[trigger] t[k1]).0 as int].priority >= old(self).callbacks()[(#[trigger] t[k2]).0 as int].priority
            }),
    {
        proof {
            use_type_invariant(&*self);
        }
        let mut cbs: Vec<BackCallback> = Vec::new();
        std::mem::swap(&mut cbs, &mut self.callbacks);
        let ghost orig = cbs@;
        let n = cbs.len();
        let mut i: usize = n;
        let mut handled = false;
        let mut trace: Ghost<Seq<(nat, bool)>> = Ghost(Seq::empty());
        while i > 0 && !handled
            invariant
                n == orig.len(),
                cbs@.len() == n,
                i <= n,
                priorities(cbs@) == priorities(orig),
                trace@.len() == n - i,
                forall|k: int| 0 <= k < trace@.len() ==> (#[trigger] trace@[k]).0 == n - 1 - k,
                forall|k: int| 0 <= k < trace@.len() - 1 ==> !(#[trigger] trace@[k]).1,
                handled == (trace@.len() > 0 && trace@.last().1),
            decreases i,
        {
            i = i - 1;
            let ghost before = cbs@;
            let ghost t0 = trace@;
            let (ans, t1) = consult(&mut cbs, i, trace);
            trace = t1;
            proof {
                assert(priorities(cbs@) =~= priorities(before)) by {
                    assert forall|j: int| 0 <= j < n implies priorities(cbs@)[j] == priorities(before)[j] by {
                        if j != i {
                            assert(cbs@[j] == before[j]);
                        }
                    }
                }
                assert forall|k: int| 0 <= k < trace@.len() - 1 implies !(#[trigger] trace@[k]).1 by {
                    assert(trace@[k] == t0[k]);
                }
                assert forall|k: int| 0 <= k < trace@.len() implies (#[trigger] trace@[k]).0 == n - 1 - k by {
                    if k < t0.len() {
                        assert(trace@[k] == t0[k]);
                    }
                }
            }
            handled = ans;
        }
        proof {
            assert forall|k1: int, k2: int| 0 <= k1 <= k2 < trace@.len()
                implies orig[(#[trigger] trace@[k1]).0 as int].priority >= orig[(#[trigger] trace@[k2]).0 as int].priority by {
                assert(priorities(orig)[n - 1 - k1] == orig[n - 1 - k1].priority);
                assert(priorities(orig)[n - 1 - k2] == orig[n - 1 - k2].priority);
            }
        }
        self.callbacks = cbs;
        self.last_dispatch = trace;
        handled
    }
}


/// Law: after `unregister(p)` no handler of priority `p` is left, and every
/// handler left was registered before.
pub proof fn lemma_unregister_removes_priority(s: Seq<BackCallback>, p: u32)
    ensures
        forall|i: int| 0 <= i < without_priority(s, p).len() ==> (#[trigger] without_priority(s, p)[i]).priority != p,
        without_priority(s, p).len() <= s.len(),
    decreases s.len(),
{
    if s.len() > 0 {
        lemma_unregister_removes_priority(s.drop_last(), p);
        let rest = without_priority(s.drop_last(), p);
        if s.last().priority != p {
            assert forall|i: int| 0 <= i < rest.push(s.last()).len() implies (#[trigger] rest.push(s.last())[i]).priority != p by {
                if i < rest.len() {
                    assert(rest.push(s.last())[i] == rest[i]);
                }
            }
        }
    }
}

proof fn lemma_without_priority_insert(s: Seq<BackCallback>, pos: int, cb: BackCallback)
    requires
        0 <= pos <= s.len(),
    ensures
        without_priority(s.insert(pos, cb), cb.priority) == without_priority(s, cb.priority),
    decreases s.len(),
{
    let ins = s.insert(pos, cb);
    if pos == s.len() {
        assert(ins.drop_last() =~= s);
    } else {
        assert(ins.drop_last() =~= s.drop_last().insert(pos, cb));
        lemma_without_priority_insert(s.drop_last(), pos, cb);
        assert(ins.last() == s.last());
    }
}

/// Law: unregistering a priority undoes registering a handler with it: the
/// handlers left are those left by unregistering it before the registration.
pub proof fn lemma_unregister_undoes_register(s: Seq<BackCallback>, cb: BackCallback)
    requires
        ascending(priorities(s)),
    ensures
        without_priority(s.insert(count_at_most(priorities(s), cb.priority), cb), cb.priority)
            == without_priority(s, cb.priority),
{
    lemma_count_at_most_bounds(priorities(s), cb.priority);
    lemma_without_priority_insert(s, count_at_most(priorities(s), cb.priority), cb);
}

} // verus!
