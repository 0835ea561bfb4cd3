//! The records of a storage snapshot: components, archetypes and the names
//! under which components are reported.

use vstd::prelude::*;

verus! {

/// The id that is reserved by convention: a component with this id is kept out
/// of every enumeration and cannot be looked up.
pub const RESERVED_ID: usize = 0;

/// How the data of a component is laid out.
#[derive(Clone, Copy, Debug, PartialEq, Eq, Structural)]
pub enum StorageKind {
    /// Columnar storage shared by all entities of an archetype.
    Table,
    /// Per-entity associative storage.
    SparseSet,
}

/// The metadata of one component type.
#[derive(Clone, Debug, PartialEq, Eq)]
pub struct Component {
    pub id: usize,
    /// The fully qualified name.
    pub name: String,
    pub storage: StorageKind,
    pub thread_safe: bool,
}

/// A group of entities that share one set of components.
#[derive(Clone, Debug, PartialEq, Eq)]
pub struct Archetype {
    pub id: usize,
    /// The backing column storage.
    pub table_id: usize,
    /// The ids of the components kept in table storage.
    pub table_components: Vec<usize>,
    /// The ids of the components kept in sparse-set storage.
    pub sparse_components: Vec<usize>,
    /// The member entities, in storage order.
    pub entities: Vec<u32>,
}

/// A component as it is reported in listings: its id and a name.
#[derive(Clone, Debug, PartialEq, Eq)]
pub struct ComponentName {
    pub id: usize,
    pub name: String,
}

/// What a [`ComponentName`] stands for.
pub struct ComponentNameView {
    pub id: usize,
    pub name: Seq<char>,
}

impl View for ComponentName {
    type V = ComponentNameView;

    open spec fn view(&self) -> ComponentNameView {
        ComponentNameView { id: self.id, name: self.name@ }
    }
}

impl DeepView for ComponentName {
    type V = ComponentNameView;

    open spec fn deep_view(&self) -> ComponentNameView {
        self@
    }
}

/// The ids of a sequence of components, in order.
pub open spec fn component_ids(components: Seq<Component>) -> Seq<usize> {
    components.map_values(|c: Component| c.id)
}

/// The ids of a sequence of archetypes, in order.
pub open spec fn archetype_ids(archetypes: Seq<Archetype>) -> Seq<usize> {
    archetypes.map_values(|a: Archetype| a.id)
}

impl Component {
    /// A copy of this record.
    pub fn duplicate(&self) -> (copy: Component)
        ensures
            copy == *self,
    {
        Component {
            id: self.id,
            name: self.name.clone(),
            storage: self.storage,
            thread_safe: self.thread_safe,
        }
    }
}

impl Archetype {
    /// All component ids of the archetype: those in table storage, then those in
    /// sparse-set storage.
    pub open spec fn components(&self) -> Seq<usize> {
        self.table_components@ + self.sparse_components@
    }

    /// The component `id` belongs to the archetype, in either storage.
    pub open spec fn has_component(&self, id: usize) -> bool {
        self.table_components@.contains(id) || self.sparse_components@.contains(id)
    }

    /// The entity `id` is a member of the archetype.
    pub open spec fn has_entity(&self, id: u32) -> bool {
        self.entities@.contains(id)
    }

    /// No component id is named twice, within one storage or across the two.
    pub open spec fn wf(&self) -> bool {
        self.components().no_duplicates()
    }

    /// Whether the component `id` belongs to the archetype.
    pub fn contains_component(&self, id: usize) -> (found: bool)
        ensures
            found == self.has_component(id),
    {
        holds_id(&self.table_components, id) || holds_id(&self.sparse_components, id)
    }

    /// Whether the entity `id` is a member of the archetype.
    pub fn contains_entity(&self, id: u32) -> (found: bool)
        ensures
            found == self.has_entity(id),
    {
        let mut i: usize = 0;
        while i < self.entities.len()
            invariant
                i <= self.entities.len(),
                forall|k: int| 0 <= k < i ==> self.entities@[k] != id,
            decreases self.entities.len() - i,
        {
            if self.entities[i] == id {
                return true;
            }
            i += 1;
        }
        false
    }

    /// The number of member entities.
    pub fn entity_count(&self) -> (count: usize)
        ensures
            count == self.entities@.len(),
    {
        self.entities.len()
    }
}

/// Whether `id` occurs in `ids`.
pub fn holds_id(ids: &Vec<usize>, id: usize) -> (found: bool)
    ensures
        found == ids@.contains(id),
{
    let mut i: usize = 0;
    while i < ids.len()
        invariant
            i <= ids.len(),
            forall|k: int| 0 <= k < i ==> ids@[k] != id,
        decreases ids.len() - i,
    {
        if ids[i] == id {
            return true;
        }
        i += 1;
    }
    false
}

/// A copy of a vector of plain values.
pub fn copy_of<T: Copy>(items: &Vec<T>) -> (copy: Vec<T>)
    ensures
        copy@ == items@,
{
    let mut copy: Vec<T> = Vec::new();
    let mut i: usize = 0;
    while i < items.len()
        invariant
            i <= items.len(),
            copy@ == items@.take(i as int),
        decreases items.len() - i,
    {
        copy.push(items[i]);
        i += 1;
    }
    copy
}

} // verus!
