use egui_android::child_stack::{ChildStack, LifecycleEvent, SavedStack};
use egui_android::child_stack_manager::{make_child_key, ChildStackManager};
use egui_android::component_context::{BackAction, ComponentContext};
use egui_android::component_context2::ComponentContext2;
use egui_android::component_factory::{create_component, ComponentFactory, ComponentFactory2};
use egui_android::component_node::ComponentNode;
use egui_android::component_state::util;
use egui_android::lifecycle::{LifecycleObserver, LifecycleState};
use egui_android::persistent_state::{PersistentComponent, PersistentState};
use egui_android::state_keeper::AnyState;
use std::cell::RefCell;
use std::rc::Rc;

// ─── Test components ───────────────────────────────────────────────

#[derive(Default)]
struct TestComp {
    pub events: Vec<&'static str>,
}

impl LifecycleObserver for TestComp {
    fn on_create(&mut self) {
        self.events.push("create");
    }
    fn on_start(&mut self) {
        self.events.push("start");
    }
    fn on_resume(&mut self) {
        self.events.push("resume");
    }
    fn on_pause(&mut self) {
        self.events.push("pause");
    }
    fn on_stop(&mut self) {
        self.events.push("stop");
    }
    fn on_destroy(&mut self) {
        self.events.push("destroy");
    }
}

impl ComponentNode for TestComp {}

/// A component that records its callbacks, tagged, in a shared log.
struct Logged {
    tag: &'static str,
    log: Rc<RefCell<Vec<(&'static str, &'static str)>>>,
    restored: Option<Vec<u8>>,
}

impl Logged {
    fn new(tag: &'static str, log: &Rc<RefCell<Vec<(&'static str, &'static str)>>>) -> Self {
        Logged { tag, log: log.clone(), restored: None }
    }
    fn note(&self, what: &'static str) {
        self.log.borrow_mut().push((self.tag, what));
    }
}

impl LifecycleObserver for Logged {
    fn on_create(&mut self) {
        self.note("create");
    }
    fn on_start(&mut self) {
        self.note("start");
    }
    fn on_resume(&mut self) {
        self.note("resume");
    }
    fn on_pause(&mut self) {
        self.note("pause");
    }
    fn on_stop(&mut self) {
        self.note("stop");
    }
    fn on_destroy(&mut self) {
        self.note("destroy");
    }
}

impl ComponentNode for Logged {
    fn save_state(&self) -> Option<AnyState> {
        Some(AnyState::new(self.tag.as_bytes().to_vec()))
    }
    fn restore_state(&mut self, state: AnyState) {
        self.restored = state.into_bytes();
    }
}

// ─── ChildStack ────────────────────────────────────────────────────

#[test]
fn test_push_lifecycle() {
    let mut s: ChildStack<&str, TestComp> = ChildStack::new();
    s.push("a", TestComp::default());
    assert_eq!(s.len(), 1);
}

#[test]
fn test_pop_lifecycle() {
    let mut s: ChildStack<&str, TestComp> = ChildStack::new();
    s.push("a", TestComp::default());
    s.push("b", TestComp::default());
    assert_eq!(s.len(), 2);
    let (cfg, _) = s.pop().unwrap();
    assert_eq!(cfg, "b");
    assert_eq!(s.len(), 1);
}

#[test]
fn test_replace_lifecycle() {
    let mut s: ChildStack<&str, TestComp> = ChildStack::new();
    s.push("a", TestComp::default());
    s.replace("b", TestComp::default());
    assert_eq!(s.active_config(), Some(&"b"));
}

#[test]
fn child_stack_test_clear_destroys_all() {
    let mut s: ChildStack<&str, TestComp> = ChildStack::new();
    s.push("a", TestComp::default());
    s.clear();
    assert!(s.is_empty());
}

#[test]
fn test_pop_empty() {
    assert!(ChildStack::<&str, TestComp>::new().pop().is_none());
}

#[test]
fn test_active_empty() {
    assert!(ChildStack::<&str, TestComp>::new().active().is_none());
}

#[test]
fn test_active_mut_empty() {
    assert!(ChildStack::<&str, TestComp>::new().active_mut().is_none());
}

#[test]
fn child_stack_push_pop_callback_order() {
    let log = Rc::new(RefCell::new(Vec::new()));
    let mut s: ChildStack<&str, Logged> = ChildStack::new();
    s.push("a", Logged::new("a", &log));
    s.push("b", Logged::new("b", &log));
    let (cfg, comp) = s.pop().unwrap();
    assert_eq!(cfg, "b");
    assert_eq!(comp.tag, "b");
    assert_eq!(
        *log.borrow(),
        vec![
            ("a", "create"), ("a", "start"), ("a", "resume"),
            ("a", "pause"),
            ("b", "create"), ("b", "start"), ("b", "resume"),
            ("b", "pause"), ("b", "stop"), ("b", "destroy"),
            ("a", "resume"),
        ]
    );
}

#[test]
fn child_stack_replace_and_clear_callback_order() {
    let log = Rc::new(RefCell::new(Vec::new()));
    let mut s: ChildStack<&str, Logged> = ChildStack::new();
    s.push("a", Logged::new("a", &log));
    s.push("b", Logged::new("b", &log));
    log.borrow_mut().clear();
    s.replace("c", Logged::new("c", &log));
    assert_eq!(
        *log.borrow(),
        vec![
            ("b", "pause"), ("b", "stop"), ("b", "destroy"),
            ("c", "create"), ("c", "start"), ("c", "resume"),
        ]
    );
    log.borrow_mut().clear();
    s.clear();
    assert_eq!(
        *log.borrow(),
        vec![
            ("c", "pause"), ("c", "stop"), ("c", "destroy"),
            ("a", "pause"), ("a", "stop"), ("a", "destroy"),
        ]
    );
    assert!(s.is_empty());
}

#[test]
fn child_stack_replace_on_empty_pushes() {
    let log = Rc::new(RefCell::new(Vec::new()));
    let mut s: ChildStack<&str, Logged> = ChildStack::new();
    s.replace("a", Logged::new("a", &log));
    assert_eq!(s.len(), 1);
    assert_eq!(*log.borrow(), vec![("a", "create"), ("a", "start"), ("a", "resume")]);
}

#[test]
fn child_stack_bring_to_front_found_pops_above() {
    let log = Rc::new(RefCell::new(Vec::new()));
    let mut s: ChildStack<&str, Logged> = ChildStack::new();
    s.push("a", Logged::new("a", &log));
    s.push("b", Logged::new("b", &log));
    s.push("c", Logged::new("c", &log));
    log.borrow_mut().clear();
    s.bring_to_front("a", Logged::new("unused", &log));
    assert_eq!(s.len(), 1);
    assert_eq!(s.active_config(), Some(&"a"));
    assert_eq!(
        *log.borrow(),
        vec![
            ("c", "pause"), ("c", "stop"), ("c", "destroy"),
            ("b", "pause"), ("b", "stop"), ("b", "destroy"),
        ]
    );
}

#[test]
fn child_stack_bring_to_front_missing_replaces_top() {
    let log = Rc::new(RefCell::new(Vec::new()));
    let mut s: ChildStack<&str, Logged> = ChildStack::new();
    s.push("a", Logged::new("a", &log));
    s.push("b", Logged::new("b", &log));
    s.bring_to_front("z", Logged::new("z", &log));
    assert_eq!(s.len(), 2);
    assert_eq!(s.active_config(), Some(&"z"));
}

#[test]
fn child_stack_lifecycle_events_reach_the_active_component() {
    let log = Rc::new(RefCell::new(Vec::new()));
    let mut s: ChildStack<&str, Logged> = ChildStack::new();
    s.on_lifecycle_event(LifecycleEvent::Pause);
    assert!(log.borrow().is_empty());
    s.push("a", Logged::new("a", &log));
    s.push("b", Logged::new("b", &log));
    log.borrow_mut().clear();
    s.on_lifecycle_event(LifecycleEvent::Pause);
    s.on_lifecycle_event(LifecycleEvent::Resume);
    assert_eq!(*log.borrow(), vec![("b", "pause"), ("b", "resume")]);
}

#[test]
fn child_stack_save_keeps_configs_and_bytes() {
    let log = Rc::new(RefCell::new(Vec::new()));
    let mut s: ChildStack<String, Logged> = ChildStack::new();
    s.push("a".to_string(), Logged::new("a", &log));
    s.push("b".to_string(), Logged::new("b", &log));
    let saved = s.save();
    assert_eq!(saved.items.len(), 2);
    assert_eq!(saved.items[0], ("a".to_string(), Some(b"a".to_vec())));
    assert_eq!(saved.items[1], ("b".to_string(), Some(b"b".to_vec())));
}

struct LoggedFactory {
    log: Rc<RefCell<Vec<(&'static str, &'static str)>>>,
}

impl ComponentFactory<String, Logged> for LoggedFactory {
    fn create(&self, config: String) -> Logged {
        let tag: &'static str = if config == "a" { "a" } else { "other" };
        Logged::new(tag, &self.log)
    }
}

#[test]
fn restore_empty_saved_clears_stack() {
    let log = Rc::new(RefCell::new(Vec::new()));
    let mut restored: ChildStack<String, Logged> = ChildStack::new();
    restored.restore_from_saved(SavedStack { items: vec![] }, &LoggedFactory { log: log.clone() });
    assert!(restored.is_empty());
}

#[test]
fn child_stack_restore_in_place_matches_configs() {
    let log = Rc::new(RefCell::new(Vec::new()));
    let mut s: ChildStack<String, Logged> = ChildStack::new();
    s.push("a".to_string(), Logged::new("a", &log));
    s.push("b".to_string(), Logged::new("b", &log));
    s.restore(vec![
        ("a".to_string(), Some(AnyState::new(vec![1u8, 2]))),
        ("x".to_string(), Some(AnyState::new(vec![3u8]))),
    ]);
    assert_eq!(s.len(), 2);
    assert_eq!(s.active().unwrap().restored, None);
    s.pop();
    assert_eq!(s.active().unwrap().restored, Some(vec![1u8, 2]));
}

// ─── Lifecycle and component defaults ──────────────────────────────

struct TestObserver {
    states: Vec<LifecycleState>,
}

impl LifecycleObserver for TestObserver {
    fn on_create(&mut self) {
        self.states.push(LifecycleState::Created);
    }
    fn on_start(&mut self) {
        self.states.push(LifecycleState::Started);
    }
    fn on_resume(&mut self) {
        self.states.push(LifecycleState::Resumed);
    }
    fn on_pause(&mut self) {
        self.states.push(LifecycleState::Paused);
    }
    fn on_stop(&mut self) {
        self.states.push(LifecycleState::Stopped);
    }
    fn on_destroy(&mut self) {
        self.states.push(LifecycleState::Destroyed);
    }
}

#[test]
fn test_lifecycle_order() {
    let mut observer = TestObserver { states: vec![] };
    observer.on_create();
    observer.on_start();
    observer.on_resume();
    observer.on_pause();
    observer.on_stop();
    observer.on_destroy();

    assert_eq!(
        observer.states,
        vec![
            LifecycleState::Created,
            LifecycleState::Started,
            LifecycleState::Resumed,
            LifecycleState::Paused,
            LifecycleState::Stopped,
            LifecycleState::Destroyed,
        ]
    );
}

#[test]
fn test_handle_back_default() {
    struct NoBack;
    impl LifecycleObserver for NoBack {}
    impl ComponentNode for NoBack {
        fn handle_back(&mut self, _ctx: &mut ComponentContext) -> BackAction {
            BackAction::Propagate
        }
    }

    let mut node: Box<dyn ComponentNode> = Box::new(NoBack);
    let mut ctx = ComponentContext::new();
    assert_eq!(node.handle_back(&mut ctx), BackAction::Propagate);
}

#[test]
fn component_node_defaults_keep_no_state() {
    let mut c = TestComp::default();
    let mut ctx = ComponentContext::new();
    assert_eq!(c.handle_back(&mut ctx), BackAction::Propagate);
    assert!(util::save_state(&c).is_none());
    util::restore_state(&mut c, AnyState::new(5u8));
    assert!(c.events.is_empty());
}

struct TestFactory;

impl ComponentFactory<&'static str, TestComp> for TestFactory {
    fn create(&self, _config: &'static str) -> TestComp {
        TestComp::default()
    }
}

#[test]
fn create_component_runs_create_start_resume() {
    let c = create_component(&TestFactory, "x");
    assert_eq!(c.events, vec!["create", "start", "resume"]);
}

// ─── PersistentState ───────────────────────────────────────────────

#[derive(Default, Debug)]
struct CounterComp {
    value: i32,
}

impl LifecycleObserver for CounterComp {}

impl PersistentState for CounterComp {
    type State = i32;
    fn save(&self) -> i32 {
        self.value
    }
    fn restore(&mut self, state: i32) {
        self.value = state;
    }
    fn encode_state(state: &i32) -> Option<Vec<u8>> {
        bincode::serialize(state).ok()
    }
    fn decode_state(bytes: &[u8]) -> Option<i32> {
        bincode::deserialize(bytes).ok()
    }
}

impl ComponentNode for CounterComp {}

impl CounterComp {
    fn new(v: i32) -> Self {
        CounterComp { value: v }
    }
}

fn manual_save(c: &CounterComp) -> Option<AnyState> {
    PersistentState::save_to_boxed(c)
}

fn manual_restore(c: &mut CounterComp, state: AnyState) {
    PersistentState::restore_from_boxed(c, state);
}

fn to_bytes(saved: &SavedStack<String>) -> Vec<u8> {
    bincode::serialize(&saved.items).unwrap()
}

fn from_bytes(bytes: &[u8]) -> SavedStack<String> {
    SavedStack { items: bincode::deserialize(bytes).unwrap() }
}

struct CounterFactory;

impl ComponentFactory<String, CounterComp> for CounterFactory {
    fn create(&self, _: String) -> CounterComp {
        CounterComp::new(0)
    }
}

struct PersistentCounterFactory;

impl ComponentFactory<String, CounterComp> for PersistentCounterFactory {
    fn create(&self, _: String) -> CounterComp {
        CounterComp::new(0)
    }
}

#[test]
fn saved_stack_bincode_roundtrip() {
    let mut stack: ChildStack<String, CounterComp> = ChildStack::new();
    stack.push("a".to_string(), CounterComp::new(0));

    let saved = stack.save();
    let bytes = to_bytes(&saved);
    let _deserialized: SavedStack<String> = from_bytes(&bytes);
}

#[test]
fn restore_from_saved_creates_correct_structure() {
    let mut stack: ChildStack<String, CounterComp> = ChildStack::new();
    stack.push("a".to_string(), CounterComp::new(0));
    stack.push("b".to_string(), CounterComp::new(0));

    let saved = stack.save();
    let bytes = to_bytes(&saved);
    let deserialized = from_bytes(&bytes);

    let mut restored: ChildStack<String, CounterComp> = ChildStack::new();
    restored.restore_from_saved(deserialized, &CounterFactory);

    assert_eq!(restored.len(), 2);
    assert_eq!(restored.active_config(), Some(&"b".to_string()));
}

#[test]
fn persistent_state_save_restore_via_stack() {
    let comp = CounterComp::new(99);
    let saved_data = manual_save(&comp).unwrap();

    let saved = SavedStack {
        items: vec![("screen".to_string(), Some(bincode::serialize(&99i32).unwrap()))],
    };

    let bytes = to_bytes(&saved);
    let deserialized = from_bytes(&bytes);

    let mut restored_stack: ChildStack<String, CounterComp> = ChildStack::new();
    restored_stack.restore_from_saved(deserialized, &PersistentCounterFactory);

    let restored_comp = restored_stack.active_mut().unwrap();
    manual_restore(restored_comp, saved_data);

    assert_eq!(restored_comp.value, 99);
}

#[test]
fn multiple_persistent_components_in_stack() {
    let mut stack: ChildStack<String, CounterComp> = ChildStack::new();
    stack.push("a".to_string(), CounterComp::new(10));
    stack.push("b".to_string(), CounterComp::new(20));
    stack.push("c".to_string(), CounterComp::new(30));

    let mut saved_items = Vec::new();
    for i in 0..stack.len() {
        let config = match i {
            0 => "a",
            1 => "b",
            _ => "c",
        };
        let value: i32 = match i {
            0 => 10,
            1 => 20,
            _ => 30,
        };
        let bytes = bincode::serialize(&value).unwrap();
        saved_items.push((config.to_string(), Some(bytes)));
    }

    let saved = SavedStack { items: saved_items };

    let bytes = to_bytes(&saved);
    let deserialized = from_bytes(&bytes);

    let mut restored: ChildStack<String, CounterComp> = ChildStack::new();
    restored.restore_from_saved(deserialized, &PersistentCounterFactory);

    assert_eq!(restored.len(), 3);
    assert_eq!(restored.active_config(), Some(&"c".to_string()));

    let (config, _) = restored.pop().unwrap();
    assert_eq!(config, "c");
    let (config, _) = restored.pop().unwrap();
    assert_eq!(config, "b");
    let (config, _) = restored.pop().unwrap();
    assert_eq!(config, "a");
}

#[test]
fn state_screen_like_save_restore() {
    let mut counter = CounterComp::new(0);
    counter.value = 42;

    let saved_state = bincode::serialize(&42i32).unwrap();

    let saved = SavedStack {
        items: vec![("state".to_string(), Some(saved_state))],
    };

    let bytes = to_bytes(&saved);

    let deserialized = from_bytes(&bytes);
    let mut restored_stack: ChildStack<String, CounterComp> = ChildStack::new();
    restored_stack.restore_from_saved(deserialized, &PersistentCounterFactory);

    assert_eq!(restored_stack.len(), 1);

    let restored_comp = restored_stack.active_mut().unwrap();
    let deserialized_state: i32 = bincode::deserialize(saved.items[0].1.as_ref().unwrap()).unwrap();
    restored_comp.restore(deserialized_state);

    assert_eq!(restored_comp.value, 42);
}

#[test]
fn application_like_save_restore_cycle() {
    let mut stack: ChildStack<String, CounterComp> = ChildStack::new();
    stack.push("state".to_string(), CounterComp::new(0));

    {
        let comp = stack.active_mut().unwrap();
        comp.value = 100;
    }

    let mut saved_items = Vec::new();
    for i in 0..stack.len() {
        let config = stack.active_config().cloned().unwrap_or_default();
        let value: i32 = if i == 0 { 100 } else { 0 };
        let bytes = bincode::serialize(&value).unwrap();
        saved_items.push((config, Some(bytes)));
    }

    let saved = SavedStack { items: saved_items };

    let bytes = to_bytes(&saved);

    let deserialized = from_bytes(&bytes);
    let mut restored_stack: ChildStack<String, CounterComp> = ChildStack::new();
    restored_stack.restore_from_saved(deserialized, &PersistentCounterFactory);

    let restored_comp = restored_stack.active_mut().unwrap();
    let saved_state: i32 = bincode::deserialize(saved.items[0].1.as_ref().unwrap()).unwrap();
    restored_comp.restore(saved_state);

    assert_eq!(restored_comp.value, 100);
}

#[test]
fn restore_from_saved_hands_bytes_to_components() {
    let log = Rc::new(RefCell::new(Vec::new()));
    let mut stack: ChildStack<String, Logged> = ChildStack::new();
    stack.push("a".to_string(), Logged::new("a", &log));
    stack.push("b".to_string(), Logged::new("b", &log));
    let saved = stack.save();
    let mut restored: ChildStack<String, Logged> = ChildStack::new();
    restored.restore_from_saved(saved, &LoggedFactory { log: log.clone() });
    assert_eq!(restored.len(), 2);
    assert_eq!(restored.active().unwrap().restored, Some(b"b".to_vec()));
}

#[test]
fn persistent_state_serialization_roundtrip() {
    let comp = CounterComp { value: 42 };
    let saved = comp.save_to_boxed().unwrap();
    let mut restored = CounterComp { value: 0 };
    restored.restore_from_boxed(saved);
    assert_eq!(restored.value, 42);
}

#[test]
fn persistent_component_saves_through_node() {
    let wrapped = PersistentComponent::new(CounterComp { value: 99 });
    let state = wrapped.save_state().unwrap();
    let mut other = PersistentComponent::new(CounterComp::default());
    other.restore_state(state);
    assert_eq!(other.inner.value, 99);
}

#[test]
fn persistent_state_ignores_foreign_state() {
    let mut comp = CounterComp { value: 7 };
    comp.restore_from_boxed(AnyState::new(String::from("not bytes")));
    assert_eq!(comp.value, 7);
    comp.restore_from_boxed(AnyState::new(vec![1u8]));
    assert_eq!(comp.value, 7);
}

// ─── ChildStackManager ─────────────────────────────────────────────

#[derive(Debug, Clone, PartialEq)]
enum TestRoute {
    A,
    B,
}

#[derive(Default)]
struct CtxComp {
    ctx: Option<ComponentContext2>,
}

impl LifecycleObserver for CtxComp {}
impl ComponentNode for CtxComp {}

struct CtxFactory;

impl ComponentFactory2<TestRoute, CtxComp> for CtxFactory {
    fn create(&self, _config: TestRoute, ctx: ComponentContext2) -> CtxComp {
        let mut comp = CtxComp::default();
        comp.ctx = Some(ctx);
        comp
    }
}

type Manager = ChildStackManager<TestRoute, CtxComp, CtxFactory>;

#[test]
fn test_new_manager_is_empty() {
    let ctx = ComponentContext2::root("test");
    let manager = Manager::new(ctx, CtxFactory);
    assert!(manager.is_empty());
    assert_eq!(manager.len(), 0);
}

#[test]
fn test_push_adds_component() {
    let ctx = ComponentContext2::root("test");
    let mut manager = Manager::new(ctx, CtxFactory);

    manager.push(TestRoute::A);
    assert!(!manager.is_empty());
    assert_eq!(manager.len(), 1);
    assert_eq!(manager.active_config(), Some(&TestRoute::A));
}

#[test]
fn test_push_twice() {
    let ctx = ComponentContext2::root("test");
    let mut manager = Manager::new(ctx, CtxFactory);

    manager.push(TestRoute::A);
    manager.push(TestRoute::B);
    assert_eq!(manager.len(), 2);
    assert_eq!(manager.active_config(), Some(&TestRoute::B));
}

#[test]
fn test_pop_removes_top() {
    let ctx = ComponentContext2::root("test");
    let mut manager = Manager::new(ctx, CtxFactory);

    manager.push(TestRoute::A);
    manager.push(TestRoute::B);
    let popped = manager.pop();
    assert!(popped.is_some());
    assert_eq!(popped.unwrap().0, TestRoute::B);
    assert_eq!(manager.len(), 1);
    assert_eq!(manager.active_config(), Some(&TestRoute::A));
}

#[test]
fn test_pop_empty_returns_none() {
    let ctx = ComponentContext2::root("test");
    let mut manager = Manager::new(ctx, CtxFactory);

    assert!(manager.pop().is_none());
}

#[test]
fn test_replace_works() {
    let ctx = ComponentContext2::root("test");
    let mut manager = Manager::new(ctx, CtxFactory);

    manager.push(TestRoute::A);
    manager.replace(TestRoute::B);
    assert_eq!(manager.len(), 1);
    assert_eq!(manager.active_config(), Some(&TestRoute::B));
}

#[test]
fn child_stack_manager_test_clear_destroys_all() {
    let ctx = ComponentContext2::root("test");
    let mut manager = Manager::new(ctx, CtxFactory);

    manager.push(TestRoute::A);
    manager.push(TestRoute::B);
    manager.clear();
    assert!(manager.is_empty());
}

#[test]
fn child_stack_manager_test_save_restore_roundtrip() {
    let mut ctx = ComponentContext2::root("test");
    ctx.state_keeper_mut().set_own_state(Box::new(42u32));
    let mut manager = Manager::new(ctx, CtxFactory);

    manager.push(TestRoute::A);

    let snapshot = manager.save_all();

    let new_ctx = ComponentContext2::root("test");
    let mut restored = Manager::new(new_ctx, CtxFactory);
    restored.restore_all(snapshot);

    assert_eq!(restored.context().state::<u32>(), Some(&42));
}

#[test]
fn child_stack_manager_keeps_one_keeper_per_position() {
    let ctx = ComponentContext2::root("root");
    let mut manager = Manager::new(ctx, CtxFactory);
    manager.push(TestRoute::A);
    manager.push(TestRoute::B);
    let keeper = manager.context().state_keeper();
    assert_eq!(keeper.children_count(), 2);
    assert!(keeper.has_child("child:0"));
    assert!(keeper.has_child("child:1"));
    assert_eq!(manager.active().unwrap().ctx.as_ref().unwrap().key(), "child:1");

    manager.replace(TestRoute::A);
    assert_eq!(manager.context().state_keeper().children_count(), 2);

    manager.pop();
    let keeper = manager.context().state_keeper();
    assert_eq!(keeper.children_count(), 1);
    assert!(!keeper.has_child("child:1"));

    manager.clear();
    assert_eq!(manager.context().state_keeper().children_count(), 0);
}

#[test]
fn child_keys_are_decimal() {
    assert_eq!(make_child_key(0), "child:0");
    assert_eq!(make_child_key(7), "child:7");
    assert_eq!(make_child_key(10), "child:10");
    assert_eq!(make_child_key(12345), "child:12345");
}

#[test]
fn save_answers_keeps_bytes_and_missing_states() {
    let mut stack: ChildStack<String, TestComp> = ChildStack::new();
    stack.push("a".to_string(), TestComp::default());
    stack.push("b".to_string(), TestComp::default());
    stack.push("c".to_string(), TestComp::default());
    let answers = vec![Some(AnyState::from_bytes(vec![4, 5])), None, Some(AnyState::new(7u32))];
    let saved = stack.save_answers(answers);
    assert_eq!(saved.items.len(), 3);
    assert_eq!(saved.items[0], ("a".to_string(), Some(vec![4, 5])));
    assert_eq!(saved.items[1], ("b".to_string(), None));
    // A state that is not serialized bytes is saved without state.
    assert_eq!(saved.items[2], ("c".to_string(), None));
}
