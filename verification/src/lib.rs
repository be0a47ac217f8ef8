//! Verified core of an MVI application framework for egui on Android.

pub mod text;
pub mod ime_service;
pub mod ime_logic;
pub mod state_keeper;
pub mod back_dispatcher;
pub mod lifecycle;
pub mod theme;
pub mod component_context;
pub mod component_context2;
pub mod component_node;
pub mod component_factory;
pub mod child_stack;
pub mod child_stack_manager;
pub mod platform;
pub mod event;
pub mod platform_state;
pub mod backend;
pub mod component_state;
pub mod persistent_state;
pub mod ime_editor;
pub mod input_processing;
pub mod frame_loop;
pub mod log_throttle;
pub mod system_bars;
