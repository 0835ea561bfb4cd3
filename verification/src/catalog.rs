//! The component catalog: component metadata indexed by id and searchable by name.

use vstd::prelude::*;
use vstd::seq_lib::*;
use crate::keys::{
    ascending, lemma_ascending_unique, lemma_filter_ascending, lemma_greatest_goes_last,
    lemma_insert_ascending, lemma_insert_contains, lemma_push_contains, lemma_push_no_duplicates,
    lower_bound, position,
};
use crate::model::{component_ids, Component, ComponentName, ComponentNameView, RESERVED_ID};
use crate::outcome::{not_found_id, Kind, QueryError, QueryErrorView, SnapshotError};
use crate::text::{contains, display_name, displayed_name, is_substring};

verus! {

/// The id at position `j` is the first that repeats an earlier one.
pub open spec fn first_repeat(ids: Seq<usize>, j: int) -> bool {
    &&& 0 <= j < ids.len()
    &&& ids.take(j).no_duplicates()
    &&& ids.take(j).contains(ids[j])
}

/// `catalog` holds exactly the given components, in ascending order of id: the
/// given sequence itself where that is ascending already.
pub open spec fn catalogues(catalog: Seq<Component>, components: Seq<Component>) -> bool {
    &&& ascending(component_ids(catalog))
    &&& component_ids(components).no_duplicates()
    &&& catalog.to_multiset() == components.to_multiset()
    &&& ascending(component_ids(components)) ==> catalog == components
}

/// `error` names the id of the first component that repeats the id of an
/// earlier one.
pub open spec fn component_rejection(components: Seq<Component>, error: SnapshotError) -> bool {
    exists|j: int|
        first_repeat(component_ids(components), j) && error == (SnapshotError::DuplicateComponent {
            id: #[trigger] components[j].id,
        })
}

/// The record that carries `id`, where there is one.
pub open spec fn record_of(components: Seq<Component>, id: usize) -> Component {
    components[component_ids(components).index_of(id)]
}

/// What looking up `id` gives: the record that carries it, unless the id is the
/// reserved one or no record carries it.
pub open spec fn lookup(components: Seq<Component>, id: usize) -> Result<
    Component,
    QueryErrorView,
> {
    if id != RESERVED_ID && component_ids(components).contains(id) {
        Ok(record_of(components, id))
    } else {
        Err(not_found_id(Kind::Component, id))
    }
}

/// What a looked-up record or its error stands for.
pub open spec fn found_record(found: Result<&Component, QueryError>) -> Result<
    Component,
    QueryErrorView,
> {
    match found {
        Ok(c) => Ok(*c),
        Err(error) => Err(error@),
    }
}

/// The test that keeps the reserved id out of enumerations.
pub open spec fn is_enumerated() -> spec_fn(Component) -> bool {
    |c: Component| c.id != RESERVED_ID
}

/// The components that enumerations report: all but the one with the reserved id.
pub open spec fn enumerated(components: Seq<Component>) -> Seq<Component> {
    components.filter(is_enumerated())
}

/// A component as a listing shows it in the given display mode.
pub open spec fn shown(c: Component, short: bool) -> ComponentNameView {
    ComponentNameView { id: c.id, name: displayed_name(c.name@, short) }
}

/// The listing of `components` in the given display mode, in their order.
pub open spec fn names(components: Seq<Component>, short: bool) -> Seq<ComponentNameView> {
    enumerated(components).map_values(|c: Component| shown(c, short))
}

/// The ids of a listing, in its order.
pub open spec fn listed_ids(listing: Seq<ComponentNameView>) -> Seq<usize> {
    listing.map_values(|n: ComponentNameView| n.id)
}

/// The test for a listed name that contains `pattern`.
pub open spec fn holds_pattern(pattern: Seq<char>) -> spec_fn(ComponentNameView) -> bool {
    |n: ComponentNameView| is_substring(pattern, n.name)
}

/// The entries of a listing whose name contains `pattern`, in their order.
pub open spec fn matching(listing: Seq<ComponentNameView>, pattern: Seq<char>) -> Seq<
    ComponentNameView,
> {
    listing.filter(holds_pattern(pattern))
}

/// The test for an enumerated component whose displayed name is exactly `name`.
pub open spec fn is_named(name: Seq<char>, short: bool) -> spec_fn(Component) -> bool {
    |c: Component| c.id != RESERVED_ID && displayed_name(c.name@, short) == name
}

/// The enumerated components whose displayed name is exactly `name`, in their order.
pub open spec fn named(components: Seq<Component>, name: Seq<char>, short: bool) -> Seq<Component> {
    components.filter(is_named(name, short))
}

/// The records that a vector of references points to.
pub open spec fn referents(refs: Seq<&Component>) -> Seq<Component> {
    refs.map_values(|c: &Component| *c)
}

/// Component metadata, kept in ascending order of id.
#[derive(Debug)]
pub struct ComponentCatalog {
    ids: Vec<usize>,
    records: Vec<Component>,
}

impl View for ComponentCatalog {
    type V = Seq<Component>;

    /// The records of the catalog, in ascending order of id.
    closed spec fn view(&self) -> Seq<Component> {
        self.records@
    }
}

impl ComponentCatalog {
    #[verifier::type_invariant]
    pub(crate) closed spec fn inv(self) -> bool {
        &&& self.ids@ == component_ids(self.records@)
        &&& ascending(self.ids@)
    }

    /// The records stand in strictly ascending order of id, so no id is used twice.
    pub open spec fn wf(&self) -> bool {
        ascending(component_ids(self@))
    }

    /// Builds the catalog of the given components, which may come in any order.
    /// Two components with one id are turned down, with the id of the first
    /// component that repeats an earlier one.
    pub fn new(components: Vec<Component>) -> (built: Result<ComponentCatalog, SnapshotError>)
        ensures
            match built {
                Ok(catalog) => catalog.wf() && catalogues(catalog@, components@),
                Err(error) => component_rejection(components@, error),
            },
    {
        let ghost input = components@;
        let mut ids: Vec<usize> = Vec::new();
        let mut records: Vec<Component> = Vec::new();
        assert(records@ =~= input.take(0));
        for c in it: components
            invariant
                it.seq() == input,
                ids@ == component_ids(records@),
                ascending(ids@),
                forall|id: usize|
                    ids@.contains(id) <==> component_ids(input).take(it.index() as int).contains(
                        id,
                    ),
                component_ids(input).take(it.index() as int).no_duplicates(),
                records@.to_multiset() == input.take(it.index() as int).to_multiset(),
                ascending(component_ids(input).take(it.index() as int)) ==> records@ == input.take(
                    it.index() as int,
                ),
        {
            let ghost j = it.index() as int;
            let ghost seen = component_ids(input).take(j);
            assert(c == input[j]);
            assert(component_ids(input)[j] == c.id);
            let pos = lower_bound(&ids, c.id);
            if pos < ids.len() && ids[pos] == c.id {
                proof {
                    assert(ids@.contains(c.id));
                    assert(first_repeat(component_ids(input), j));
                }
                return Err(SnapshotError::DuplicateComponent { id: c.id });
            }
            proof {
                assert(!ids@.contains(c.id)) by {
                    if ids@.contains(c.id) {
                        let k = choose|k: int| 0 <= k < ids@.len() && ids@[k] == c.id;
                        assert(k >= pos);
                    }
                }
                lemma_insert_ascending(ids@, c.id, pos as int);
                lemma_insert_contains(ids@, pos as int, c.id);
                lemma_push_contains(seen, c.id);
                lemma_push_no_duplicates(seen, c.id);
                assert(component_ids(input).take(j + 1) =~= seen.push(c.id));
                assert forall|id: usize|
                    ids@.insert(pos as int, c.id).contains(id) <==> seen.push(c.id).contains(
                        id,
                    ) by {}
                assert(component_ids(records@.insert(pos as int, c)) =~= ids@.insert(
                    pos as int,
                    c.id,
                ));
                assert(input.take(j + 1) =~= input.take(j).push(c));
                to_multiset_build(input.take(j), c);
                to_multiset_insert(records@, pos as int, c);
                if ascending(seen.push(c.id)) {
                    lemma_greatest_goes_last(ids@, seen, c.id, pos as int);
                    assert(records@.insert(pos as int, c) =~= input.take(j + 1));
                }
            }
            ids.insert(pos, c.id);
            records.insert(pos, c);
        }
        proof {
            assert(input.take(input.len() as int) =~= input);
            assert(component_ids(input).take(input.len() as int) =~= component_ids(input));
        }
        Ok(ComponentCatalog { ids, records })
    }

    /// The stored ids are the ids of the records, so the records are well formed.
    pub(crate) proof fn lemma_inv_wf(&self)
        requires
            self.inv(),
        ensures
            self.wf(),
    {
    }

    /// The number of records, the one with the reserved id included.
    pub fn len(&self) -> (len: usize)
        ensures
            len == self@.len(),
    {
        self.records.len()
    }

    /// The number of components that enumerations report: every record but the
    /// one with the reserved id.
    pub fn count(&self) -> (count: usize)
        ensures
            count == enumerated(self@).len(),
    {
        proof {
            use_type_invariant(self);
            lemma_enumerated_len(self.records@);
        }
        if self.ids.len() > 0 && self.ids[0] == RESERVED_ID {
            self.records.len() - 1
        } else {
            self.records.len()
        }
    }

    /// The record with the given id, the reserved id included.
    pub fn get(&self, id: usize) -> (found: Option<&Component>)
        ensures
            match found {
                Some(c) => {
                    &&& component_ids(self@).contains(id)
                    &&& self@.contains(*c)
                    &&& c.id == id
                    &&& *c == record_of(self@, id)
                },
                None => !component_ids(self@).contains(id),
            },
    {
        proof {
            use_type_invariant(self);
        }
        match position(&self.ids, id) {
            Some(pos) => {
                proof {
                    assert(self.records@[pos as int].id == self.ids@[pos as int]);
                    lemma_record_of(self.records@, pos as int);
                }
                Some(&self.records[pos])
            },
            None => None,
        }
    }

    /// The component with the given id. The reserved id denotes no component.
    pub fn lookup_by_id(&self, id: usize) -> (found: Result<&Component, QueryError>)
        ensures
            match found {
                Ok(c) => id != RESERVED_ID && self@.contains(*c) && c.id == id,
                Err(error) => {
                    &&& error@ == not_found_id(Kind::Component, id)
                    &&& id == RESERVED_ID || !component_ids(self@).contains(id)
                },
            },
            found_record(found) == lookup(self@, id),
    {
        if id == RESERVED_ID {
            return Err(QueryError::missing_id(Kind::Component, id));
        }
        match self.get(id) {
            Some(c) => Ok(c),
            None => Err(QueryError::missing_id(Kind::Component, id)),
        }
    }

    /// The enumerated components whose displayed name is exactly `name`, in
    /// ascending order of id. Names are not unique: the result may hold none, one
    /// or several records.
    pub fn lookup_by_exact_name(&self, name: &str, short: bool) -> (found: Vec<&Component>)
        ensures
            referents(found@) == named(self@, name@, short),
            ascending(component_ids(referents(found@))),
    {
        proof {
            use_type_invariant(self);
            lemma_filter_ascending(self.records@, |c: Component| c.id, is_named(name@, short));
        }
        let wanted = name.to_owned();
        let mut found: Vec<&Component> = Vec::new();
        let mut i: usize = 0;
        assert(self.records@.take(0) =~= Seq::empty());
        assert(referents(found@) =~= Seq::empty());
        reveal(Seq::filter);
        while i < self.records.len()
            invariant
                i <= self.records.len(),
                wanted@ == name@,
                referents(found@) == named(self.records@.take(i as int), name@, short),
            decreases self.records.len() - i,
        {
            let c = &self.records[i];
            proof {
                assert(self.records@.take(i + 1) =~= self.records@.take(i as int).push(*c));
                self.records@.take(i as int).lemma_filter_push(*c, is_named(name@, short));
            }
            if c.id != RESERVED_ID {
                let shown = display_name(c.name.as_str(), short);
                if shown == wanted {
                    assert(referents(found@.push(c)) =~= referents(found@).push(*c));
                    found.push(c);
                }
            }
            i += 1;
        }
        assert(self.records@.take(i as int) =~= self.records@);
        found
    }

    /// The listing of the enumerated components in the given display mode, in
    /// ascending order of id; with a filter, only the entries whose displayed
    /// name contains it.
    pub fn get_components_by_name(&self, short: bool, filter: Option<&str>) -> (listing: Vec<
        ComponentName,
    >)
        ensures
            listing.deep_view() == match filter {
                Some(pattern) => matching(names(self@, short), pattern@),
                None => names(self@, short),
            },
            ascending(listed_ids(listing.deep_view())),
    {
        let all = self.list_all(short);
        match filter {
            Some(pattern) => select_matching(all, pattern),
            None => all,
        }
    }

    /// Every component but the one with the reserved id, in ascending order of
    /// id, each under its name in the given display mode.
    pub fn list_all(&self, short: bool) -> (listing: Vec<ComponentName>)
        ensures
            listing.deep_view() == names(self@, short),
            ascending(listed_ids(listing.deep_view())),
    {
        proof {
            use_type_invariant(self);
            lemma_names_ascending(self.records@, short);
        }
        let mut listing: Vec<ComponentName> = Vec::new();
        let mut i: usize = 0;
        assert(self.records@.take(0) =~= Seq::empty());
        assert(listing.deep_view() =~= Seq::empty());
        reveal(Seq::filter);
        while i < self.records.len()
            invariant
                i <= self.records.len(),
                listing.deep_view() == names(self.records@.take(i as int), short),
            decreases self.records.len() - i,
        {
            let c = &self.records[i];
            proof {
                let before = self.records@.take(i as int);
                assert(self.records@.take(i + 1) =~= before.push(*c));
                before.lemma_filter_push(*c, is_enumerated());
                assert(enumerated(before).push(*c).map_values(|c: Component| shown(c, short))
                    =~= names(before, short).push(shown(*c, short)));
            }
            if c.id != RESERVED_ID {
                let entry = ComponentName { id: c.id, name: display_name(c.name.as_str(), short) };
                let ghost before = listing.deep_view();
                let ghost added = entry@;
                listing.push(entry);
                assert(listing.deep_view() =~= before.push(added));
            }
            i += 1;
        }
        assert(self.records@.take(i as int) =~= self.records@);
        listing
    }

    /// The enumerated components whose displayed name contains `pattern`, in
    /// ascending order of id. The search is case-sensitive.
    pub fn filter_by_name_substring(&self, pattern: &str, short: bool) -> (listing: Vec<
        ComponentName,
    >)
        ensures
            listing.deep_view() == matching(names(self@, short), pattern@),
            ascending(listed_ids(listing.deep_view())),
    {
        select_matching(self.list_all(short), pattern)
    }
}

/// The entries of a listing whose name contains `pattern`, in their order.
pub fn select_matching(listing: Vec<ComponentName>, pattern: &str) -> (selected: Vec<ComponentName>)
    ensures
        selected.deep_view() == matching(listing.deep_view(), pattern@),
        ascending(listed_ids(listing.deep_view())) ==> ascending(listed_ids(selected.deep_view())),
{
    let ghost all = listing.deep_view();
    proof {
        if ascending(listed_ids(all)) {
            lemma_filter_ascending(all, |n: ComponentNameView| n.id, holds_pattern(pattern@));
        }
    }
    let ghost input = listing@;
    let mut selected: Vec<ComponentName> = Vec::new();
    assert(all.take(0) =~= Seq::empty());
    assert(selected.deep_view() =~= Seq::empty());
    reveal(Seq::filter);
    for entry in it: listing
        invariant
            it.seq() == input,
            all.len() == input.len(),
            forall|k: int| 0 <= k < input.len() ==> all[k] == input[k]@,
            selected.deep_view() == matching(all.take(it.index() as int), pattern@),
    {
        proof {
            let j = it.index() as int;
            assert(all.take(j + 1) =~= all.take(j).push(entry@));
            all.take(j).lemma_filter_push(entry@, holds_pattern(pattern@));
        }
        if contains(entry.name.as_str(), pattern) {
            let ghost before = selected.deep_view();
            let ghost added = entry@;
            selected.push(entry);
            assert(selected.deep_view() =~= before.push(added));
        }
    }
    assert(all.take(all.len() as int) =~= all);
    selected
}

/// The listing of a catalog ascends by id.
pub proof fn lemma_names_ascending(components: Seq<Component>, short: bool)
    requires
        ascending(component_ids(components)),
    ensures
        ascending(listed_ids(names(components, short))),
{
    lemma_filter_ascending(components, |c: Component| c.id, is_enumerated());
    assert(listed_ids(names(components, short)) =~= enumerated(components).map_values(
        |c: Component| c.id,
    ));
}

/// In a catalog the record that carries the id of a record is that record.
pub proof fn lemma_record_of(components: Seq<Component>, i: int)
    requires
        ascending(component_ids(components)),
        0 <= i < components.len(),
    ensures
        component_ids(components).contains(components[i].id),
        record_of(components, components[i].id) == components[i],
{
    let ids = component_ids(components);
    assert(ids[i] == components[i].id);
    let k = ids.index_of(components[i].id);
    lemma_ascending_unique(ids, i, k);
}

/// Among ascending ids only the first can be the reserved one, so an
/// enumeration leaves out one record at most.
pub proof fn lemma_enumerated_len(components: Seq<Component>)
    requires
        ascending(component_ids(components)),
    ensures
        enumerated(components).len() == if components.len() > 0 && components[0].id
            == RESERVED_ID {
            components.len() - 1
        } else {
            components.len() as int
        },
    decreases components.len(),
{
    reveal(Seq::filter);
    if components.len() > 0 {
        let front = components.drop_last();
        let last = components.last();
        assert(components =~= front.push(last));
        assert(ascending(component_ids(front))) by {
            assert forall|a: int, b: int| 0 <= a < b < front.len() implies component_ids(front)[a]
                < component_ids(front)[b] by {
                assert(component_ids(components)[a] < component_ids(components)[b]);
            }
        }
        lemma_enumerated_len(front);
        front.lemma_filter_push(last, is_enumerated());
        if front.len() > 0 {
            assert(component_ids(components)[0] < component_ids(components)[components.len() - 1]);
        }
    }
}

} // verus!
