//! The structured answers of the queries that report more than ids.

use vstd::prelude::*;
use crate::model::{ComponentName, ComponentNameView};

verus! {

/// One component with the entities that have it.
#[derive(Clone, Debug, PartialEq, Eq)]
pub struct EntitySection {
    /// The component, by id and full name.
    pub component: ComponentName,
    /// The entities of the archetypes that have the component; possibly none.
    pub entities: Vec<u32>,
}

/// What an [`EntitySection`] stands for.
pub struct EntitySectionView {
    pub component: ComponentNameView,
    pub entities: Seq<u32>,
}

impl View for EntitySection {
    type V = EntitySectionView;

    open spec fn view(&self) -> EntitySectionView {
        EntitySectionView { component: self.component@, entities: self.entities@ }
    }
}

impl DeepView for EntitySection {
    type V = EntitySectionView;

    open spec fn deep_view(&self) -> EntitySectionView {
        self@
    }
}

/// An archetype with its components resolved to names.
#[derive(Clone, Debug, PartialEq, Eq)]
pub struct ArchetypeDescription {
    pub id: usize,
    pub table_id: usize,
    /// The member entities, in storage order.
    pub entities: Vec<u32>,
    /// The components in table storage, by id and short name.
    pub table_components: Vec<ComponentName>,
    /// The components in sparse-set storage, by id and short name.
    pub sparse_components: Vec<ComponentName>,
}

/// What an [`ArchetypeDescription`] stands for.
pub struct ArchetypeDescriptionView {
    pub id: usize,
    pub table_id: usize,
    pub entities: Seq<u32>,
    pub table_components: Seq<ComponentNameView>,
    pub sparse_components: Seq<ComponentNameView>,
}

impl View for ArchetypeDescription {
    type V = ArchetypeDescriptionView;

    open spec fn view(&self) -> ArchetypeDescriptionView {
        ArchetypeDescriptionView {
            id: self.id,
            table_id: self.table_id,
            entities: self.entities@,
            table_components: self.table_components.deep_view(),
            sparse_components: self.sparse_components.deep_view(),
        }
    }
}

impl DeepView for ArchetypeDescription {
    type V = ArchetypeDescriptionView;

    open spec fn deep_view(&self) -> ArchetypeDescriptionView {
        self@
    }
}

} // verus!
