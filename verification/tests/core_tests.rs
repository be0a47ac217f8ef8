use egui_android::back_dispatcher::{BackCallback, BackDispatcher};
use egui_android::component_context::ComponentContext;
use egui_android::component_context2::ComponentContext2;
use egui_android::state_keeper::{AnyState, StateKeeper, StateKeeperSnapshot};

#[derive(Debug, Clone, PartialEq)]
struct Counter(u32);

#[derive(Debug, Clone, PartialEq)]
struct Label(String);

// ─── BackDispatcher ────────────────────────────────────────────────

#[test]
fn test_handle_returns_false_when_no_callbacks() {
    let mut d = BackDispatcher::new();
    assert!(!d.handle());
}

#[test]
fn test_handle_calls_priority_order() {
    let mut d = BackDispatcher::new();
    let order = std::sync::Arc::new(std::sync::Mutex::new(Vec::new()));

    {
        let o = order.clone();
        d.register(BackCallback {
            priority: 10,
            handler: Box::new(move || {
                o.lock().unwrap().push(10);
                false
            }),
        });
    }
    {
        let o = order.clone();
        d.register(BackCallback {
            priority: 20,
            handler: Box::new(move || {
                o.lock().unwrap().push(20);
                false
            }),
        });
    }
    {
        let o = order.clone();
        d.register(BackCallback {
            priority: 5,
            handler: Box::new(move || {
                o.lock().unwrap().push(5);
                false
            }),
        });
    }

    d.handle();
    assert_eq!(*order.lock().unwrap(), vec![20, 10, 5]);
}

#[test]
fn test_handle_stops_at_first_true() {
    let mut d = BackDispatcher::new();
    let order = std::sync::Arc::new(std::sync::Mutex::new(Vec::new()));

    {
        let o = order.clone();
        d.register(BackCallback {
            priority: 10,
            handler: Box::new(move || {
                o.lock().unwrap().push(10);
                false
            }),
        });
    }
    {
        let o = order.clone();
        d.register(BackCallback {
            priority: 20,
            handler: Box::new(move || {
                o.lock().unwrap().push(20);
                true
            }),
        });
    }
    {
        let o = order.clone();
        d.register(BackCallback {
            priority: 5,
            handler: Box::new(move || {
                o.lock().unwrap().push(5);
                false
            }),
        });
    }

    assert!(d.handle());
    assert_eq!(*order.lock().unwrap(), vec![20]);
}

#[test]
fn test_register_unregister() {
    let mut d = BackDispatcher::new();
    d.register(BackCallback {
        priority: 10,
        handler: Box::new(|| true),
    });
    assert_eq!(d.len(), 1);

    d.unregister(10);
    assert!(d.is_empty());
}

#[test]
fn back_dispatcher_unregister_removes_every_callback_of_a_priority() {
    let mut d = BackDispatcher::new();
    d.register(BackCallback { priority: 7, handler: Box::new(|| false) });
    d.register(BackCallback { priority: 3, handler: Box::new(|| false) });
    d.register(BackCallback { priority: 7, handler: Box::new(|| true) });
    assert_eq!(d.len(), 3);
    d.unregister(7);
    assert_eq!(d.len(), 1);
    // The remaining handler declines Back.
    assert!(!d.handle());
    d.unregister(42);
    assert_eq!(d.len(), 1);
}

#[test]
fn back_dispatcher_equal_priorities_newest_first() {
    let mut d = BackDispatcher::new();
    let order = std::sync::Arc::new(std::sync::Mutex::new(Vec::new()));
    for tag in [1, 2, 3] {
        let o = order.clone();
        d.register(BackCallback {
            priority: 5,
            handler: Box::new(move || {
                o.lock().unwrap().push(tag);
                false
            }),
        });
    }
    assert!(!d.handle());
    assert_eq!(*order.lock().unwrap(), vec![3, 2, 1]);
}

// ─── ComponentContext ──────────────────────────────────────────────

#[test]
fn request_back_sets_flag() {
    let mut ctx = ComponentContext::new();
    assert!(!ctx.take_back_request(), "initially no request");
    ctx.request_back();
    assert!(ctx.take_back_request(), "after request_back the flag is set");
}

#[test]
fn take_back_request_resets_flag() {
    let mut ctx = ComponentContext::new();
    ctx.request_back();
    assert!(ctx.take_back_request(), "the first call takes true");
    assert!(!ctx.take_back_request(), "after the first call the flag is reset");
}

#[test]
fn multiple_request_back_collapses_to_one() {
    let mut ctx = ComponentContext::new();
    ctx.request_back();
    ctx.request_back();
    assert!(ctx.take_back_request(), "several requests are one pop");
    assert!(!ctx.take_back_request(), "the single request was reset");
}

#[test]
fn component_context_starts_clear() {
    let ctx = ComponentContext::new();
    assert!(!ctx.finish_requested);
    assert!(ctx.back_dispatcher.is_empty());
}

// ─── ComponentContext2 ─────────────────────────────────────────────

#[test]
fn test_root_creation() {
    let ctx = ComponentContext2::root("root");
    assert_eq!(ctx.key(), "root");
    assert!(ctx.state::<()>().is_none());
}

#[test]
fn test_set_and_get_state() {
    let mut ctx = ComponentContext2::root("test");
    ctx.set_state(Box::new(42u32));
    assert_eq!(ctx.state::<u32>(), Some(&42));
}

#[test]
fn component_context2_test_save_restore_roundtrip() {
    let mut ctx = ComponentContext2::root("root");
    ctx.set_state(Box::new(String::from("hello")));

    let snapshot = ctx.save_all();
    assert!(ctx.state::<String>().is_none());

    let mut restored = ComponentContext2::root("root");
    restored.restore_all(snapshot);
    assert_eq!(restored.state::<String>(), Some(&"hello".to_string()));
}

#[test]
fn test_state_mut() {
    let mut ctx = ComponentContext2::root("test");
    ctx.set_state(Box::new(vec![1, 2, 3]));

    if let Some(val) = ctx.state_mut::<Vec<i32>>() {
        val.push(4);
    }
    assert_eq!(ctx.state::<Vec<i32>>(), Some(&vec![1, 2, 3, 4]));
}

// ─── StateKeeper ───────────────────────────────────────────────────

#[test]
fn test_new_keeper_is_empty() {
    let keeper = StateKeeper::new();
    assert!(!keeper.has_own_state());
    assert_eq!(keeper.children_count(), 0);
}

#[test]
fn test_set_and_get_own_state() {
    let mut keeper = StateKeeper::new();
    keeper.set_own_state(Box::new(Counter(42)));
    assert!(keeper.has_own_state());
    assert_eq!(keeper.own_state::<Counter>(), Some(&Counter(42)));
}

#[test]
fn test_own_state_wrong_type() {
    let mut keeper = StateKeeper::new();
    keeper.set_own_state(Box::new(Counter(42)));
    assert_eq!(keeper.own_state::<Label>(), None);
}

#[test]
fn test_take_own_state() {
    let mut keeper = StateKeeper::new();
    keeper.set_own_state(Box::new(Counter(42)));
    let taken = keeper.take_own_state();
    assert!(taken.is_some());
    assert!(!keeper.has_own_state());
}

#[test]
fn test_child_creation() {
    let mut keeper = StateKeeper::new();
    let child = keeper.child("screen:home");
    child.set_own_state(Box::new(Counter(1)));

    assert!(keeper.has_child("screen:home"));
    assert_eq!(keeper.children_count(), 1);

    let child = keeper.child("screen:home");
    assert_eq!(child.own_state::<Counter>(), Some(&Counter(1)));
}

#[test]
fn test_child_reuses_existing() {
    let mut keeper = StateKeeper::new();
    keeper.child("a").set_own_state(Box::new(Counter(10)));
    keeper.child("b").set_own_state(Box::new(Counter(20)));

    assert_eq!(keeper.children_count(), 2);

    let _ = keeper.child("a");
    assert_eq!(keeper.children_count(), 2);
}

#[test]
fn test_remove_child() {
    let mut keeper = StateKeeper::new();
    keeper.child("a");
    keeper.child("b");
    assert_eq!(keeper.children_count(), 2);

    keeper.remove_child("a");
    assert_eq!(keeper.children_count(), 1);
    assert!(!keeper.has_child("a"));
    assert!(keeper.has_child("b"));
}

#[test]
fn test_save_and_restore_flat() {
    let mut keeper = StateKeeper::new();
    keeper.set_own_state(Box::new(Counter(42)));

    let snapshot = keeper.save_take();
    assert!(!keeper.has_own_state());

    let mut restored = StateKeeper::new();
    restored.restore(snapshot);
    assert_eq!(restored.own_state::<Counter>(), Some(&Counter(42)));
}

#[test]
fn test_save_and_restore_with_children() {
    let mut root = StateKeeper::new();
    root.set_own_state(Box::new(Label("root".into())));
    root.child("child1").set_own_state(Box::new(Counter(1)));
    root.child("child1")
        .child("grandchild")
        .set_own_state(Box::new(Counter(11)));
    root.child("child2").set_own_state(Box::new(Counter(2)));

    let snapshot = root.save_take();

    let mut restored = StateKeeper::new();
    restored.restore(snapshot);

    assert_eq!(restored.own_state::<Label>(), Some(&Label("root".into())));
    assert_eq!(restored.child("child1").own_state::<Counter>(), Some(&Counter(1)));
    assert_eq!(
        restored.child("child1").child("grandchild").own_state::<Counter>(),
        Some(&Counter(11))
    );
    assert_eq!(restored.child("child2").own_state::<Counter>(), Some(&Counter(2)));
}

#[test]
fn test_restore_ignores_unknown_children() {
    let mut keeper = StateKeeper::new();
    keeper.child("keep_me").set_own_state(Box::new(Counter(1)));

    let snapshot = StateKeeperSnapshot {
        own_state: None,
        children: vec![
            (
                "keep_me".into(),
                StateKeeperSnapshot {
                    own_state: Some(AnyState::new(Counter(42))),
                    children: vec![],
                },
            ),
            (
                "unknown".into(),
                StateKeeperSnapshot {
                    own_state: Some(AnyState::new(Counter(99))),
                    children: vec![],
                },
            ),
        ],
    };

    keeper.restore(snapshot);
    assert_eq!(keeper.child("keep_me").own_state::<Counter>(), Some(&Counter(42)));
    assert!(keeper.has_child("unknown"));
    assert_eq!(keeper.child("unknown").own_state::<Counter>(), Some(&Counter(99)));
}

#[test]
fn test_clear_tree() {
    let mut keeper = StateKeeper::new();
    keeper.set_own_state(Box::new(Counter(1)));
    keeper.child("a").set_own_state(Box::new(Counter(2)));
    keeper.clear();

    assert!(!keeper.has_own_state());
    assert_eq!(keeper.children_count(), 0);
}

#[test]
fn test_restore_strict_replaces_children() {
    let mut keeper = StateKeeper::new();
    keeper.child("old1").set_own_state(Box::new(Counter(1)));
    keeper.child("old2").set_own_state(Box::new(Counter(2)));

    let snapshot = StateKeeperSnapshot {
        own_state: None,
        children: vec![(
            "new1".into(),
            StateKeeperSnapshot {
                own_state: Some(AnyState::new(Counter(10))),
                children: vec![],
            },
        )],
    };

    keeper.restore_strict(snapshot);
    assert_eq!(keeper.children_count(), 1);
    assert!(keeper.has_child("new1"));
    assert!(!keeper.has_child("old1"));
    assert!(!keeper.has_child("old2"));
}

#[test]
fn test_child_mut() {
    let mut keeper = StateKeeper::new();
    keeper.set_own_state(Box::new(Counter(0)));

    if let Some(val) = keeper.own_state_mut::<Counter>() {
        val.0 = 100;
    }
    assert_eq!(keeper.own_state::<Counter>(), Some(&Counter(100)));
}

#[test]
fn test_deep_tree_save_restore() {
    let mut root = StateKeeper::new();
    root.child("l1")
        .child("l2")
        .child("l3")
        .set_own_state(Box::new(Label("deep".into())));

    let snapshot = root.save_take();
    let mut restored = StateKeeper::new();
    restored.restore(snapshot);

    assert_eq!(
        restored.child("l1").child("l2").child("l3").own_state::<Label>(),
        Some(&Label("deep".into()))
    );
}

#[test]
fn state_keeper_save_keeps_states_and_shape() {
    let mut keeper = StateKeeper::new();
    keeper.set_own_state(Box::new(Counter(5)));
    keeper.child("a").set_own_state(Box::new(Counter(6)));
    let snapshot = keeper.save();
    // The keeper keeps its own states.
    assert_eq!(keeper.own_state::<Counter>(), Some(&Counter(5)));
    assert_eq!(snapshot.children.len(), 1);
    assert_eq!(snapshot.children[0].0, "a");
    assert!(snapshot.own_state.is_some());
}

#[test]
fn state_keeper_restore_keeps_children_the_snapshot_does_not_list() {
    let mut keeper = StateKeeper::new();
    keeper.child("kept").set_own_state(Box::new(Counter(3)));
    let snapshot = StateKeeperSnapshot {
        own_state: Some(AnyState::new(Counter(8))),
        children: vec![],
    };
    keeper.restore(snapshot);
    assert_eq!(keeper.own_state::<Counter>(), Some(&Counter(8)));
    assert_eq!(keeper.child("kept").own_state::<Counter>(), Some(&Counter(3)));
}

#[test]
fn state_keeper_clear_own_and_children() {
    let mut keeper = StateKeeper::with_state(Box::new(Counter(1)));
    keeper.child("x");
    keeper.clear_own_state();
    assert!(!keeper.has_own_state());
    assert_eq!(keeper.children_count(), 1);
    keeper.clear_children();
    assert_eq!(keeper.children_count(), 0);
    assert!(!keeper.has_own_state());
}

#[test]
fn byte_states_give_their_bytes_back() {
    assert_eq!(AnyState::from_bytes(vec![1, 2, 3]).into_bytes(), Some(vec![1, 2, 3]));
    assert_eq!(AnyState::new(vec![4u8]).into_bytes(), Some(vec![4]));
    assert_eq!(AnyState::new(Counter(1)).into_bytes(), None);
    let mut keeper = StateKeeper::new();
    keeper.set_own_any(AnyState::from_bytes(vec![9]));
    assert_eq!(keeper.own_state::<Vec<u8>>(), Some(&vec![9]));
    assert_eq!(keeper.own_state::<Counter>(), None);
    if let Some(b) = keeper.own_state_mut::<Vec<u8>>() {
        b.push(10);
    }
    assert_eq!(keeper.own_state::<Vec<u8>>(), Some(&vec![9, 10]));
}

#[test]
fn state_keeper_save_copies_byte_states_through_restore() {
    let mut keeper = StateKeeper::new();
    keeper.set_own_any(AnyState::from_bytes(vec![1, 2, 3]));
    keeper.child("a").set_own_any(AnyState::from_bytes(vec![9]));
    let snapshot = keeper.save();
    // The keeper still holds its own bytes.
    assert_eq!(keeper.own_state::<Vec<u8>>(), Some(&vec![1, 2, 3]));
    let mut restored = StateKeeper::new();
    restored.restore(snapshot);
    assert_eq!(restored.own_state::<Vec<u8>>(), Some(&vec![1, 2, 3]));
    assert_eq!(restored.child("a").own_state::<Vec<u8>>(), Some(&vec![9]));
}
