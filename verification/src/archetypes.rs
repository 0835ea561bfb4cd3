//! The archetype index: archetype descriptors indexed by id.

use vstd::prelude::*;
use vstd::seq_lib::*;
use crate::catalog::first_repeat;
use crate::keys::{
    ascending, lemma_ascending_unique, lemma_greatest_goes_last, lemma_insert_ascending,
    lemma_insert_contains, lemma_push_contains, lemma_push_no_duplicates, lower_bound, position,
};
use crate::model::{archetype_ids, Archetype};
use crate::outcome::{not_found_id, Kind, QueryError, QueryErrorView, SnapshotError};

verus! {

/// The archetype at position `j` is the first that cannot be taken in: it names
/// a component twice, or it carries the id of an earlier archetype.
pub open spec fn first_rejected(archetypes: Seq<Archetype>, j: int) -> bool {
    &&& 0 <= j < archetypes.len()
    &&& forall|k: int| 0 <= k < j ==> (#[trigger] archetypes[k]).wf()
    &&& archetype_ids(archetypes).take(j).no_duplicates()
    &&& !archetypes[j].wf() || archetype_ids(archetypes).take(j).contains(archetypes[j].id)
}

/// Why `archetype` is turned down, given whether its id is already in use: a
/// component that it names twice comes before a clash of ids.
pub open spec fn is_rejection(archetype: Archetype, error: SnapshotError) -> bool {
    if archetype.wf() {
        error == (SnapshotError::DuplicateArchetype { id: archetype.id })
    } else {
        exists|p: int|
            first_repeat(archetype.components(), p) && error == (SnapshotError::RepeatedComponent {
                archetype: archetype.id,
                component: #[trigger] archetype.components()[p],
            })
    }
}

/// `index` holds exactly the given archetypes, in ascending order of id: the
/// given sequence itself where that is ascending already. None of them names a
/// component twice.
pub open spec fn indexes(index: Seq<Archetype>, archetypes: Seq<Archetype>) -> bool {
    &&& ascending(archetype_ids(index))
    &&& archetype_ids(archetypes).no_duplicates()
    &&& forall|j: int| 0 <= j < archetypes.len() ==> (#[trigger] archetypes[j]).wf()
    &&& index.to_multiset() == archetypes.to_multiset()
    &&& ascending(archetype_ids(archetypes)) ==> index == archetypes
}

/// `error` says why the first archetype that cannot be taken in is turned down.
pub open spec fn archetype_rejection(archetypes: Seq<Archetype>, error: SnapshotError) -> bool {
    exists|j: int| first_rejected(archetypes, j) && is_rejection(#[trigger] archetypes[j], error)
}

/// The archetype that carries `id`, where there is one.
pub open spec fn archetype_of(archetypes: Seq<Archetype>, id: usize) -> Archetype {
    archetypes[archetype_ids(archetypes).index_of(id)]
}

/// What getting the archetype `id` gives: its descriptor, unless no archetype
/// carries the id.
pub open spec fn fetch(archetypes: Seq<Archetype>, id: usize) -> Result<Archetype, QueryErrorView> {
    if archetype_ids(archetypes).contains(id) {
        Ok(archetype_of(archetypes, id))
    } else {
        Err(not_found_id(Kind::Archetype, id))
    }
}

/// What a fetched descriptor or its error stands for.
pub open spec fn found_archetype(found: Result<&Archetype, QueryError>) -> Result<
    Archetype,
    QueryErrorView,
> {
    match found {
        Ok(a) => Ok(*a),
        Err(error) => Err(error@),
    }
}

/// In an index the archetype that carries the id of a descriptor is that
/// descriptor.
pub proof fn lemma_archetype_of(archetypes: Seq<Archetype>, i: int)
    requires
        ascending(archetype_ids(archetypes)),
        0 <= i < archetypes.len(),
    ensures
        archetype_ids(archetypes).contains(archetypes[i].id),
        archetype_of(archetypes, archetypes[i].id) == archetypes[i],
{
    let ids = archetype_ids(archetypes);
    assert(ids[i] == archetypes[i].id);
    let k = ids.index_of(archetypes[i].id);
    lemma_ascending_unique(ids, i, k);
}

/// Each archetype with the number of its member entities, in order.
pub open spec fn census(archetypes: Seq<Archetype>) -> Seq<(usize, usize)> {
    archetypes.map_values(|a: Archetype| (a.id, a.entities@.len() as usize))
}

/// The position of the first id in `ids` that repeats an earlier one.
pub fn find_repeat(ids: &Vec<usize>) -> (found: Option<usize>)
    ensures
        match found {
            Some(p) => first_repeat(ids@, p as int),
            None => ids@.no_duplicates(),
        },
{
    let mut p: usize = 0;
    assert(ids@.take(0) =~= Seq::empty());
    while p < ids.len()
        invariant
            p <= ids.len(),
            ids@.take(p as int).no_duplicates(),
        decreases ids.len() - p,
    {
        let mut q: usize = 0;
        while q < p
            invariant
                q <= p < ids.len(),
                ids@.take(p as int).no_duplicates(),
                forall|k: int| 0 <= k < q ==> ids@[k] != ids@[p as int],
            decreases p - q,
        {
            if ids[q] == ids[p] {
                assert(ids@.take(p as int)[q as int] == ids@[p as int]);
                assert(ids@.take(p as int).contains(ids@[p as int]));
                return Some(p);
            }
            q += 1;
        }
        proof {
            assert(!ids@.take(p as int).contains(ids@[p as int]));
            lemma_push_no_duplicates(ids@.take(p as int), ids@[p as int]);
            assert(ids@.take(p + 1) =~= ids@.take(p as int).push(ids@[p as int]));
        }
        p += 1;
    }
    assert(ids@.take(p as int) =~= ids@);
    None
}

impl Archetype {
    /// All component ids of the archetype, table storage first.
    pub fn component_list(&self) -> (all: Vec<usize>)
        ensures
            all@ == self.components(),
    {
        let mut all: Vec<usize> = Vec::new();
        let mut i: usize = 0;
        while i < self.table_components.len()
            invariant
                i <= self.table_components.len(),
                all@ == self.table_components@.take(i as int),
            decreases self.table_components.len() - i,
        {
            all.push(self.table_components[i]);
            i += 1;
        }
        assert(self.table_components@.take(i as int) =~= self.table_components@);
        let mut k: usize = 0;
        while k < self.sparse_components.len()
            invariant
                k <= self.sparse_components.len(),
                all@ == self.table_components@ + self.sparse_components@.take(k as int),
            decreases self.sparse_components.len() - k,
        {
            all.push(self.sparse_components[k]);
            k += 1;
        }
        assert(self.sparse_components@.take(k as int) =~= self.sparse_components@);
        all
    }
}

/// Archetype descriptors, kept in ascending order of id, and the id of the
/// archetype that holds the resources.
#[derive(Debug)]
pub struct ArchetypeIndex {
    ids: Vec<usize>,
    records: Vec<Archetype>,
    resources: usize,
}

impl View for ArchetypeIndex {
    type V = Seq<Archetype>;

    /// The descriptors of the index, in ascending order of id.
    closed spec fn view(&self) -> Seq<Archetype> {
        self.records@
    }
}

impl ArchetypeIndex {
    #[verifier::type_invariant]
    pub(crate) closed spec fn inv(self) -> bool {
        &&& self.ids@ == archetype_ids(self.records@)
        &&& ascending(self.ids@)
        &&& forall|i: int| 0 <= i < self.records@.len() ==> (#[trigger] self.records@[i]).wf()
    }

    /// The id of the archetype whose components are the resources.
    pub closed spec fn resources(&self) -> usize {
        self.resources
    }

    /// The descriptors stand in strictly ascending order of id, and none names a
    /// component twice.
    pub open spec fn wf(&self) -> bool {
        &&& ascending(archetype_ids(self@))
        &&& forall|i: int| 0 <= i < self@.len() ==> (#[trigger] self@[i]).wf()
    }

    /// Builds the index of the given archetypes, which may come in any order;
    /// `resources` is the id of the archetype that holds the resources. The
    /// first archetype that names a component twice or repeats an earlier id is
    /// turned down.
    pub fn new(archetypes: Vec<Archetype>, resources: usize) -> (built: Result<
        ArchetypeIndex,
        SnapshotError,
    >)
        ensures
            match built {
                Ok(index) => {
                    &&& index.wf()
                    &&& index.resources() == resources
                    &&& indexes(index@, archetypes@)
                },
                Err(error) => archetype_rejection(archetypes@, error),
            },
    {
        let ghost input = archetypes@;
        let mut ids: Vec<usize> = Vec::new();
        let mut records: Vec<Archetype> = Vec::new();
        assert(records@ =~= input.take(0));
        for a in it: archetypes
            invariant
                it.seq() == input,
                ids@ == archetype_ids(records@),
                ascending(ids@),
                forall|i: int| 0 <= i < records@.len() ==> (#[trigger] records@[i]).wf(),
                forall|k: int| 0 <= k < it.index() ==> (#[trigger] input[k]).wf(),
                forall|id: usize|
                    ids@.contains(id) <==> archetype_ids(input).take(it.index() as int).contains(
                        id,
                    ),
                archetype_ids(input).take(it.index() as int).no_duplicates(),
                records@.to_multiset() == input.take(it.index() as int).to_multiset(),
                ascending(archetype_ids(input).take(it.index() as int)) ==> records@ == input.take(
                    it.index() as int,
                ),
        {
            let ghost j = it.index() as int;
            let ghost seen = archetype_ids(input).take(j);
            assert(a == input[j]);
            assert(archetype_ids(input)[j] == a.id);
            let all = a.component_list();
            match find_repeat(&all) {
                Some(p) => {
                    proof {
                        assert(!a.wf()) by {
                            let q = choose|q: int|
                                0 <= q < all@.take(p as int).len() && all@.take(p as int)[q]
                                    == all@[p as int];
                            assert(all@[q] == all@[p as int]);
                        }
                        assert(first_rejected(input, j));
                    }
                    return Err(
                        SnapshotError::RepeatedComponent { archetype: a.id, component: all[p] },
                    );
                },
                None => {},
            }
            let pos = lower_bound(&ids, a.id);
            if pos < ids.len() && ids[pos] == a.id {
                proof {
                    assert(ids@.contains(a.id));
                    assert(first_rejected(input, j));
                }
                return Err(SnapshotError::DuplicateArchetype { id: a.id });
            }
            proof {
                assert(!ids@.contains(a.id)) by {
                    if ids@.contains(a.id) {
                        let k = choose|k: int| 0 <= k < ids@.len() && ids@[k] == a.id;
                        assert(k >= pos);
                    }
                }
                lemma_insert_ascending(ids@, a.id, pos as int);
                lemma_insert_contains(ids@, pos as int, a.id);
                lemma_push_contains(seen, a.id);
                lemma_push_no_duplicates(seen, a.id);
                assert(archetype_ids(input).take(j + 1) =~= seen.push(a.id));
                assert forall|id: usize|
                    ids@.insert(pos as int, a.id).contains(id) <==> seen.push(a.id).contains(
                        id,
                    ) by {}
                assert(archetype_ids(records@.insert(pos as int, a)) =~= ids@.insert(
                    pos as int,
                    a.id,
                ));
                assert(input.take(j + 1) =~= input.take(j).push(a));
                to_multiset_build(input.take(j), a);
                to_multiset_insert(records@, pos as int, a);
                if ascending(seen.push(a.id)) {
                    lemma_greatest_goes_last(ids@, seen, a.id, pos as int);
                    assert(records@.insert(pos as int, a) =~= input.take(j + 1));
                }
            }
            ids.insert(pos, a.id);
            records.insert(pos, a);
        }
        proof {
            assert(input.take(input.len() as int) =~= input);
            assert(archetype_ids(input).take(input.len() as int) =~= archetype_ids(input));
        }
        Ok(ArchetypeIndex { ids, records, resources })
    }

    /// The stored ids are the ids of the descriptors, so the index is well formed.
    pub(crate) proof fn lemma_inv_wf(&self)
        requires
            self.inv(),
        ensures
            self.wf(),
    {
    }

    /// The number of archetypes.
    pub fn len(&self) -> (len: usize)
        ensures
            len == self@.len(),
    {
        self.records.len()
    }

    /// The descriptors, in ascending order of id.
    pub fn records(&self) -> (records: &Vec<Archetype>)
        ensures
            records@ == self@,
            self.wf(),
    {
        proof {
            use_type_invariant(self);
        }
        &self.records
    }

    /// The id of the archetype whose components are the resources.
    pub fn resources_id(&self) -> (id: usize)
        ensures
            id == self.resources(),
    {
        self.resources
    }

    /// The descriptor of the archetype with the given id.
    pub fn get(&self, id: usize) -> (found: Result<&Archetype, QueryError>)
        ensures
            match found {
                Ok(a) => self@.contains(*a) && a.id == id,
                Err(error) => {
                    &&& error@ == not_found_id(Kind::Archetype, id)
                    &&& !archetype_ids(self@).contains(id)
                },
            },
            found_archetype(found) == fetch(self@, id),
    {
        proof {
            use_type_invariant(self);
        }
        match position(&self.ids, id) {
            Some(pos) => {
                proof {
                    assert(self.records@[pos as int].id == self.ids@[pos as int]);
                    lemma_archetype_of(self.records@, pos as int);
                }
                Ok(&self.records[pos])
            },
            None => Err(QueryError::missing_id(Kind::Archetype, id)),
        }
    }

    /// Every archetype with the number of its member entities, in ascending
    /// order of id.
    pub fn list_all(&self) -> (listing: Vec<(usize, usize)>)
        ensures
            listing@ == census(self@),
            forall|i: int, j: int| 0 <= i < j < listing@.len() ==> listing@[i].0 < listing@[j].0,
    {
        proof {
            use_type_invariant(self);
            assert forall|i: int, j: int| 0 <= i < j < self.records@.len() implies census(
                self.records@,
            )[i].0 < census(self.records@)[j].0 by {
                assert(self.ids@[i] < self.ids@[j]);
            }
        }
        let mut listing: Vec<(usize, usize)> = Vec::new();
        let mut i: usize = 0;
        while i < self.records.len()
            invariant
                i <= self.records.len(),
                listing@ == census(self.records@.take(i as int)),
            decreases self.records.len() - i,
        {
            let a = &self.records[i];
            assert(census(self.records@.take(i + 1)) =~= census(self.records@.take(i as int)).push(
                (a.id, a.entities@.len() as usize),
            ));
            listing.push((a.id, a.entity_count()));
            i += 1;
        }
        assert(self.records@.take(i as int) =~= self.records@);
        listing
    }
}

} // verus!
