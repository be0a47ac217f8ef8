//! Component factories: from a configuration (route) to a component.

use vstd::prelude::*;
use crate::component_context2::ComponentContext2;
use crate::component_node::ComponentNode;

verus! {

/// Creates the component for a configuration (a route).
pub trait ComponentFactory<C, N: ComponentNode> {
    /// The component for `config`.
    fn create(&self, config: C) -> N;
}

/// Creates the component for a configuration, handing it its context.
pub trait ComponentFactory2<C, N: ComponentNode> {
    /// The component for `config`, owning `ctx`.
    fn create(&self, config: C, ctx: ComponentContext2) -> N;
}

/// Create the component for `config` and take it through `on_create`,
/// `on_start` and `on_resume`, in that order.
pub fn create_component<C, N: ComponentNode, F: ComponentFactory<C, N>>(factory: &F, config: C) -> N {
    let mut component = factory.create(config);
    component.on_create();
    component.on_start();
    component.on_resume();
    component
}

} // verus!
