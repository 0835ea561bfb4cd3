//! Component names as text: the displayed form of a name, substring search and
//! the alphabetical order used when names are listed.

use vstd::prelude::*;
use vstd::relations::{sorted_by, total_ordering};
use vstd::seq_lib::*;

verus! {

/// The short form of a full type name, as `bevy::utils::get_short_name` computes it.
pub uninterp spec fn short_name_of(full: Seq<char>) -> Seq<char>;

/// The name under which a component is shown and searched: its short form when
/// `short` is set, its full path otherwise.
pub open spec fn displayed_name(full: Seq<char>, short: bool) -> Seq<char> {
    if short {
        short_name_of(full)
    } else {
        full
    }
}

/// `pattern` occurs in `text` starting at position `at`.
pub open spec fn occurs_at(pattern: Seq<char>, text: Seq<char>, at: int) -> bool {
    &&& 0 <= at
    &&& at + pattern.len() <= text.len()
    &&& forall|i: int| 0 <= i < pattern.len() ==> text[at + i] == pattern[i]
}

/// `pattern` occurs somewhere in `text`. The empty pattern occurs in every text.
pub open spec fn is_substring(pattern: Seq<char>, text: Seq<char>) -> bool {
    exists|at: int| occurs_at(pattern, text, at)
}

/// `a` and `b` agree on their first `k` characters, and there either `a` ends or
/// `a` holds the smaller character.
pub open spec fn precedes_at(a: Seq<char>, b: Seq<char>, k: int) -> bool {
    &&& 0 <= k <= a.len()
    &&& k <= b.len()
    &&& forall|i: int| 0 <= i < k ==> a[i] == b[i]
    &&& (k == a.len() || (k < b.len() && a[k] < b[k]))
}

/// Alphabetical (lexicographic, by code point) order on names: `a` comes no later
/// than `b`.
pub open spec fn name_le(a: Seq<char>, b: Seq<char>) -> bool {
    exists|k: int| precedes_at(a, b, k)
}

/// Every name in `names` comes no later than each name after it.
pub open spec fn names_sorted(names: Seq<Seq<char>>) -> bool {
    forall|i: int, j: int| 0 <= i < j < names.len() ==> name_le(names[i], names[j])
}

/// The alphabetical order as a relation.
pub open spec fn name_order() -> spec_fn(Seq<char>, Seq<char>) -> bool {
    |a: Seq<char>, b: Seq<char>| name_le(a, b)
}

/// The given names in alphabetical order.
pub open spec fn alphabetical(names: Seq<Seq<char>>) -> Seq<Seq<char>> {
    names.sort_by(name_order())
}

/// Calls `bevy::utils::get_short_name`, which drops the module path in front of
/// every path segment of a type name. The result is a function of the argument
/// alone; nothing more is claimed of it.
#[verifier::external_body]
pub(crate) fn short_name(full: &str) -> (short: String)
    ensures
        short@ == short_name_of(full@),
{
    bevy::utils::get_short_name(full)
}

/// The name of a component as it is shown in the given display mode.
pub fn display_name(full: &str, short: bool) -> (shown: String)
    ensures
        shown@ == displayed_name(full@, short),
{
    if short {
        short_name(full)
    } else {
        full.to_owned()
    }
}

/// The characters of a string, in order.
pub fn chars_of(s: &str) -> (chars: Vec<char>)
    ensures
        chars@ == s@,
{
    let mut chars: Vec<char> = Vec::new();
    for c in it: s.chars()
        invariant
            chars@ == it.seq().take(it.index() as int),
            it.seq() == s@,
    {
        chars.push(c);
    }
    chars
}

fn matches_at(text: &Vec<char>, pattern: &Vec<char>, at: usize) -> (hit: bool)
    requires
        at + pattern.len() <= text.len(),
    ensures
        hit == occurs_at(pattern@, text@, at as int),
{
    let mut i: usize = 0;
    while i < pattern.len()
        invariant
            i <= pattern.len(),
            at + pattern.len() <= text.len(),
            forall|j: int| 0 <= j < i ==> text@[at + j] == pattern@[j],
        decreases pattern.len() - i,
    {
        if text[at + i] != pattern[i] {
            return false;
        }
        i += 1;
    }
    true
}

/// Whether `pattern` occurs in `text`, character for character.
pub fn contains_chars(text: &Vec<char>, pattern: &Vec<char>) -> (found: bool)
    ensures
        found == is_substring(pattern@, text@),
{
    if pattern.len() > text.len() {
        return false;
    }
    let last: usize = text.len() - pattern.len();
    let mut at: usize = 0;
    while at <= last
        invariant
            last == text.len() - pattern.len(),
            at <= last + 1,
            forall|k: int| 0 <= k < at ==> !occurs_at(pattern@, text@, k),
        decreases last + 1 - at,
    {
        if matches_at(text, pattern, at) {
            return true;
        }
        at += 1;
    }
    false
}

/// Whether `pattern` occurs in `text`. The search is case-sensitive, and the
/// empty pattern is found in every text.
pub fn contains(text: &str, pattern: &str) -> (found: bool)
    ensures
        found == is_substring(pattern@, text@),
{
    let text_chars = chars_of(text);
    let pattern_chars = chars_of(pattern);
    contains_chars(&text_chars, &pattern_chars)
}

/// Whether `a` comes no later than `b` in alphabetical order.
pub fn chars_le(a: &Vec<char>, b: &Vec<char>) -> (le: bool)
    ensures
        le == name_le(a@, b@),
{
    let mut i: usize = 0;
    while i < a.len() && i < b.len()
        invariant
            i <= a.len(),
            i <= b.len(),
            forall|j: int| 0 <= j < i ==> a@[j] == b@[j],
        decreases a.len() - i,
    {
        if a[i] != b[i] {
            let le = a[i] < b[i];
            proof {
                if le {
                    assert(precedes_at(a@, b@, i as int));
                } else {
                    assert forall|k: int| !precedes_at(a@, b@, k) by {}
                }
            }
            return le;
        }
        i += 1;
    }
    let le = i == a.len();
    proof {
        if le {
            assert(precedes_at(a@, b@, i as int));
        } else {
            assert forall|k: int| !precedes_at(a@, b@, k) by {}
        }
    }
    le
}

/// Whether the name `a` comes no later than the name `b` in alphabetical order.
pub fn str_le(a: &str, b: &str) -> (le: bool)
    ensures
        le == name_le(a@, b@),
{
    let a_chars = chars_of(a);
    let b_chars = chars_of(b);
    chars_le(&a_chars, &b_chars)
}

/// Of two names, one comes no later than the other.
pub proof fn lemma_name_le_total(a: Seq<char>, b: Seq<char>)
    ensures
        name_le(a, b) || name_le(b, a),
{
    let k = first_difference(a, b, 0);
    lemma_first_difference(a, b, 0);
    if k == a.len() {
        assert(precedes_at(a, b, k));
    } else if k == b.len() {
        assert(precedes_at(b, a, k));
    } else if a[k] < b[k] {
        assert(precedes_at(a, b, k));
    } else {
        assert(precedes_at(b, a, k));
    }
}

/// The alphabetical order is transitive.
pub proof fn lemma_name_le_transitive(a: Seq<char>, b: Seq<char>, c: Seq<char>)
    requires
        name_le(a, b),
        name_le(b, c),
    ensures
        name_le(a, c),
{
    let k1 = choose|k: int| precedes_at(a, b, k);
    let k2 = choose|k: int| precedes_at(b, c, k);
    if k1 <= k2 {
        if k1 == a.len() {
            assert(precedes_at(a, c, k1));
        } else if k1 < k2 {
            assert(b[k1] == c[k1]);
            assert(precedes_at(a, c, k1));
        } else {
            assert(precedes_at(a, c, k1));
        }
    } else {
        assert(a[k2] == b[k2]);
        assert(precedes_at(a, c, k2));
    }
}

/// Two names that each come no later than the other are the same name.
pub proof fn lemma_name_le_antisymmetric(a: Seq<char>, b: Seq<char>)
    requires
        name_le(a, b),
        name_le(b, a),
    ensures
        a == b,
{
    let k1 = choose|k: int| precedes_at(a, b, k);
    let k2 = choose|k: int| precedes_at(b, a, k);
    if k1 < k2 {
        assert(b[k1] == a[k1]);
    } else if k2 < k1 {
        assert(a[k2] == b[k2]);
    }
    assert(a =~= b);
}

/// The alphabetical order is a total order on names.
pub proof fn lemma_name_order_total()
    ensures
        total_ordering(name_order()),
{
    let order = name_order();
    assert forall|x: Seq<char>| #[trigger] order(x, x) by {
        assert(precedes_at(x, x, x.len() as int));
    }
    assert forall|x: Seq<char>, y: Seq<char>| #[trigger]
        order(x, y) && #[trigger] order(y, x) implies x == y by {
        lemma_name_le_antisymmetric(x, y);
    }
    assert forall|x: Seq<char>, y: Seq<char>, z: Seq<char>| #[trigger]
        order(x, y) && #[trigger] order(y, z) implies order(x, z) by {
        lemma_name_le_transitive(x, y, z);
    }
    assert forall|x: Seq<char>, y: Seq<char>| #[trigger] order(x, y) || #[trigger] order(y, x) by {
        lemma_name_le_total(x, y);
    }
}

/// There is one way to put names in alphabetical order: a sorted sequence with
/// the given names is the given names in alphabetical order.
pub proof fn lemma_alphabetical_unique(sorted: Seq<Seq<char>>, names: Seq<Seq<char>>)
    requires
        names_sorted(sorted),
        sorted.to_multiset() == names.to_multiset(),
    ensures
        sorted == alphabetical(names),
{
    lemma_name_order_total();
    names.lemma_sort_by_ensures(name_order());
    assert(sorted_by(sorted, name_order())) by {
        assert forall|i: int, j: int| 0 <= i < j < sorted.len() implies #[trigger] name_order()(
            sorted[i],
            sorted[j],
        ) by {
            assert(name_le(sorted[i], sorted[j]));
        }
    }
    lemma_sorted_unique(sorted, alphabetical(names), name_order());
}

/// Puts `name` into alphabetically sorted names, after the names that come no
/// later than it.
fn insert_name(sorted: &mut Vec<String>, name: String)
    requires
        names_sorted(old(sorted).deep_view()),
    ensures
        names_sorted(final(sorted).deep_view()),
        final(sorted).deep_view().to_multiset() == old(sorted).deep_view().to_multiset().insert(
            name@,
        ),
{
    let ghost before = sorted.deep_view();
    let mut pos: usize = sorted.len();
    let mut placed = false;
    while pos > 0 && !placed
        invariant
            pos <= sorted.len(),
            sorted.deep_view() == before,
            before.len() == sorted.len(),
            placed ==> pos > 0 && name_le(before[pos - 1], name@),
            forall|i: int| pos <= i < before.len() ==> name_le(name@, before[i]),
        decreases pos + (if placed { 0int } else { 1int }),
    {
        if str_le(sorted[pos - 1].as_str(), name.as_str()) {
            placed = true;
        } else {
            proof {
                lemma_name_le_total(before[pos - 1], name@);
            }
            pos -= 1;
        }
    }
    proof {
        let grown = before.insert(pos as int, name@);
        assert forall|i: int, j: int| 0 <= i < j < grown.len() implies name_le(
            grown[i],
            grown[j],
        ) by {
            if j == pos {
                if i < pos - 1 {
                    lemma_name_le_transitive(before[i], before[pos - 1], name@);
                }
            }
        }
        to_multiset_insert(before, pos as int, name@);
    }
    let ghost added = name@;
    sorted.insert(pos, name);
    assert(sorted.deep_view() =~= before.insert(pos as int, added));
}

/// The given names in alphabetical order. Names that are equal keep their number.
pub fn sort_names(names: Vec<String>) -> (sorted: Vec<String>)
    ensures
        names_sorted(sorted.deep_view()),
        sorted.deep_view().to_multiset() == names.deep_view().to_multiset(),
        sorted.deep_view() == alphabetical(names.deep_view()),
{
    let ghost input = names@;
    let ghost all = names.deep_view();
    let mut sorted: Vec<String> = Vec::new();
    assert(sorted.deep_view() =~= all.take(0));
    for name in it: names
        invariant
            it.seq() == input,
            all.len() == input.len(),
            forall|k: int| 0 <= k < input.len() ==> all[k] == input[k]@,
            names_sorted(sorted.deep_view()),
            sorted.deep_view().to_multiset() == all.take(it.index() as int).to_multiset(),
    {
        proof {
            let j = it.index() as int;
            assert(all.take(j + 1) =~= all.take(j).push(name@));
            to_multiset_build(all.take(j), name@);
        }
        insert_name(&mut sorted, name);
    }
    proof {
        assert(all.take(all.len() as int) =~= all);
        lemma_alphabetical_unique(sorted.deep_view(), all);
    }
    sorted
}

/// The first position at or after `from` where `a` and `b` differ or one of them ends.
spec fn first_difference(a: Seq<char>, b: Seq<char>, from: int) -> int
    decreases a.len() - from,
{
    if 0 <= from < a.len() && from < b.len() && a[from] == b[from] {
        first_difference(a, b, from + 1)
    } else {
        from
    }
}

proof fn lemma_first_difference(a: Seq<char>, b: Seq<char>, from: int)
    requires
        0 <= from <= a.len(),
        from <= b.len(),
    ensures
        from <= first_difference(a, b, from) <= a.len(),
        first_difference(a, b, from) <= b.len(),
        forall|i: int| from <= i < first_difference(a, b, from) ==> a[i] == b[i],
        first_difference(a, b, from) == a.len() || first_difference(a, b, from) == b.len()
            || a[first_difference(a, b, from)] != b[first_difference(a, b, from)],
    decreases a.len() - from,
{
    if from < a.len() && from < b.len() && a[from] == b[from] {
        lemma_first_difference(a, b, from + 1);
    }
}

} // verus!
