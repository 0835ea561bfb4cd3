//! A snapshot: the three indexes over one instant of the storage, acquired
//! once and then only read.

use vstd::prelude::*;
use crate::archetypes::{archetype_rejection, indexes, ArchetypeIndex};
use crate::catalog::{catalogues, component_rejection, ComponentCatalog};
use crate::entities::EntityIndex;
use crate::membership::is_partition;
use crate::model::{component_ids, Archetype, Component};
use crate::outcome::SnapshotError;

verus! {

/// The component catalog, the archetype index and the entity index of one
/// instant. The entity index is derived from the archetypes.
#[derive(Debug)]
pub struct Snapshot {
    components: ComponentCatalog,
    archetypes: ArchetypeIndex,
    entities: EntityIndex,
}

impl Snapshot {
    #[verifier::type_invariant]
    spec fn inv(self) -> bool {
        &&& self.components.wf()
        &&& self.archetypes.wf()
        &&& self.entities.wf()
        &&& self.entities.derived_from(self.archetypes@)
    }

    /// The component catalog of the snapshot.
    pub closed spec fn spec_components(&self) -> &ComponentCatalog {
        &self.components
    }

    /// The archetype index of the snapshot.
    pub closed spec fn spec_archetypes(&self) -> &ArchetypeIndex {
        &self.archetypes
    }

    /// The entity index of the snapshot.
    pub closed spec fn spec_entities(&self) -> &EntityIndex {
        &self.entities
    }

    /// The three indexes are well formed, and the entity index is the reverse
    /// map of the membership of the archetypes.
    pub open spec fn wf(&self) -> bool {
        &&& self.components().wf()
        &&& self.archetypes().wf()
        &&& self.entities().wf()
        &&& self.entities().derived_from(self.archetypes()@)
    }

    /// Builds a snapshot of the given components and archetypes, which may come
    /// in any order; `resources` is the id of the archetype that holds the
    /// resources. The components are checked before the archetypes.
    pub fn new(components: Vec<Component>, archetypes: Vec<Archetype>, resources: usize) -> (built:
        Result<Snapshot, SnapshotError>)
        ensures
            match built {
                Ok(snapshot) => {
                    &&& snapshot.wf()
                    &&& catalogues(snapshot.components()@, components@)
                    &&& indexes(snapshot.archetypes()@, archetypes@)
                    &&& snapshot.archetypes().resources() == resources
                },
                Err(error) => {
                    ||| component_rejection(components@, error)
                    ||| component_ids(components@).no_duplicates() && archetype_rejection(
                        archetypes@,
                        error,
                    )
                },
            },
    {
        let catalog = match ComponentCatalog::new(components) {
            Ok(catalog) => catalog,
            Err(error) => {
                return Err(error);
            },
        };
        let index = match ArchetypeIndex::new(archetypes, resources) {
            Ok(index) => index,
            Err(error) => {
                return Err(error);
            },
        };
        Ok(Snapshot::from_indexes(catalog, index))
    }

    /// The snapshot of a component catalog and an archetype index.
    pub fn from_indexes(components: ComponentCatalog, archetypes: ArchetypeIndex) -> (snapshot:
        Snapshot)
        ensures
            snapshot.wf(),
            *snapshot.components() == components,
            *snapshot.archetypes() == archetypes,
    {
        proof {
            use_type_invariant(&components);
            use_type_invariant(&archetypes);
            components.lemma_inv_wf();
            archetypes.lemma_inv_wf();
        }
        let entities = EntityIndex::build(&archetypes);
        Snapshot { components, archetypes, entities }
    }

    /// The component catalog of the snapshot.
    #[verifier::when_used_as_spec(spec_components)]
    pub fn components(&self) -> (components: &ComponentCatalog)
        ensures
            components == self.components(),
            self.wf(),
    {
        proof {
            use_type_invariant(self);
        }
        &self.components
    }

    /// The archetype index of the snapshot.
    #[verifier::when_used_as_spec(spec_archetypes)]
    pub fn archetypes(&self) -> (archetypes: &ArchetypeIndex)
        ensures
            archetypes == self.archetypes(),
            self.wf(),
    {
        proof {
            use_type_invariant(self);
        }
        &self.archetypes
    }

    /// The entity index of the snapshot.
    #[verifier::when_used_as_spec(spec_entities)]
    pub fn entities(&self) -> (entities: &EntityIndex)
        ensures
            entities == self.entities(),
            self.wf(),
    {
        proof {
            use_type_invariant(self);
        }
        &self.entities
    }

    /// Whether membership is a partition: no entity is a member twice. A
    /// snapshot for which this fails breaks the data model; the queries answer
    /// on it all the same, with the first archetype in order as the owner.
    pub fn is_partition(&self) -> (holds: bool)
        ensures
            holds == is_partition(self.archetypes()@),
    {
        proof {
            use_type_invariant(self);
        }
        self.entities.is_disjoint()
    }
}

} // verus!
