# egui_android

The core of an MVI application framework for egui on Android, verified with
Verus.

- `src/` — the library, every function with a contract proved by Verus:
  - state: `state_keeper` (recursive state tree, save/restore),
    `component_context`, `component_context2`, `persistent_state`,
    `component_state`;
  - navigation: `child_stack` (component stack driving the lifecycle),
    `child_stack_manager`, `component_factory`, `component_node`,
    `lifecycle`, `back_dispatcher`;
  - input: `ime_service` (input-method reducer with its text model),
    `ime_logic`, `ime_editor`, `input_processing`, `text`;
  - platform: `platform`, `platform_state`, `event`, `backend`,
    `frame_loop` (main-loop decisions), `system_bars`, `log_throttle`.
- `tests/` — scenarios on concrete values.
- `app/` — what stays outside the verified library: egui layout and events,
  serde/bincode, the thread-shared platform state, clock-based logging.
