use vstd::prelude::*;

use crate::ir::{entities_view, Entity, EntityV};

verus! {

/// The lowered program: the body of each function, found by its index.
pub struct Runtime {
    pub instructions: Vec<Entity>,
}

impl View for Runtime {
    type V = Seq<EntityV>;

    open spec fn view(&self) -> Seq<EntityV> {
        entities_view(self.instructions@)
    }
}

} // verus!
