use vstd::prelude::*;

use crate::bundles::{atom, atom_shape};
use crate::ecs::{keep_systems, ComponentType, ECS};

verus! {

/// The one-shot bootstrap system: on its first (and only) run it
/// spawns a fixed count of particle entities and deregisters itself.
#[derive(Clone, Copy, PartialEq, Eq, Structural, Debug)]
pub struct Start;

/// Number of particles the bootstrap spawns.
pub const SPAWN_COUNT: usize = 1000;

impl Start {
    /// Spawns `SPAWN_COUNT` particles and removes every system
    /// registered under this system's name. Existing entities are kept
    /// unchanged, in place.
    pub fn update(&self, _view: Vec<usize>, api: &mut ECS)
        requires
            old(api).entitys@.len() + SPAWN_COUNT <= usize::MAX,
        ensures
            final(api).entitys@.len() == old(api).entitys@.len() + SPAWN_COUNT,
            forall|k: int|
                0 <= k < old(api).entitys@.len() ==> final(api).entitys@[k] == old(
                    api,
                ).entitys@[k],
            forall|k: int|
                old(api).entitys@.len() <= k < final(api).entitys@.len() ==> atom_shape(
                    #[trigger] final(api).entitys@[k]@,
                ),
            final(api).systems@ == keep_systems(old(api).systems@, "Start"@),
            final(api).size == old(api).size,
    {
        let mut i: usize = 0;
        while i < SPAWN_COUNT
            invariant
                0 <= i <= SPAWN_COUNT,
                api.entitys@.len() == old(api).entitys@.len() + i,
                forall|k: int|
                    0 <= k < old(api).entitys@.len() ==> api.entitys@[k] == old(api).entitys@[k],
                forall|k: int|
                    old(api).entitys@.len() <= k < api.entitys@.len() ==> atom_shape(
                        #[trigger] api.entitys@[k]@,
                    ),
                api.systems@ == old(api).systems@,
                api.size == old(api).size,
            decreases SPAWN_COUNT - i,
        {
            api.add_entity(atom());
            i = i + 1;
        }
        api.remove_system(self.name());
    }

    /// Registered name of the bootstrap system.
    pub fn name(&self) -> (r: String)
        ensures
            r@ == "Start"@,
    {
        String::from_str("Start")
    }

    /// The bootstrap asks for no particular components: the empty
    /// schema, which selects every entity.
    pub fn contains(&self) -> (r: Vec<ComponentType>)
        ensures
            r@ == Seq::<ComponentType>::empty(),
    {
        Vec::new()
    }
}

} // verus!
