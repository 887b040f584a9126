//! A map from names to values that keeps its entries in alphabetical order
//! of the names, so that two maps with the same entries are the same value.

use crate::text::{
    lemma_precedes_asymmetric,
    lemma_precedes_irreflexive,
    lemma_precedes_transitive,
    precedes,
    text_place,
    Place,
};
use vstd::prelude::*;

verus! {

/// Each name comes strictly before all names after it.
pub open spec fn ascending<V>(list: Seq<(Seq<char>, V)>) -> bool {
    forall|i: int, j: int|
        0 <= i < j < list.len() ==> precedes(#[trigger] list[i].0, #[trigger] list[j].0)
}

/// Whether `name` is the name of some entry of `list`.
pub open spec fn holds_name<V>(list: Seq<(Seq<char>, V)>, name: Seq<char>) -> bool {
    exists|i: int| 0 <= i < list.len() && #[trigger] list[i].0 == name
}

/// The place of an entry of `list` with the name `name`.
pub open spec fn place_of_name<V>(list: Seq<(Seq<char>, V)>, name: Seq<char>) -> int {
    choose|i: int| 0 <= i < list.len() && #[trigger] list[i].0 == name
}

/// The map that a list of entries stands for.
pub open spec fn as_map<V>(list: Seq<(Seq<char>, V)>) -> Map<Seq<char>, V> {
    Map::new(
        |name: Seq<char>| holds_name(list, name),
        |name: Seq<char>| list[place_of_name(list, name)].1,
    )
}

/// In an ascending list every entry is what the map holds under its name.
pub proof fn lemma_entry_in_map<V>(list: Seq<(Seq<char>, V)>, i: int)
    requires
        ascending(list),
        0 <= i < list.len(),
    ensures
        as_map(list).contains_key(list[i].0),
        as_map(list)[list[i].0] == list[i].1,
        place_of_name(list, list[i].0) == i,
{
    let name = list[i].0;
    let j = place_of_name(list, name);
    if j < i {
        lemma_precedes_asymmetric(list[j].0, list[i].0);
    } else if i < j {
        lemma_precedes_asymmetric(list[i].0, list[j].0);
    }
}

/// A name that lies strictly between the neighbours at a place of an
/// ascending list is not in the list.
pub open spec fn fits_at<V>(list: Seq<(Seq<char>, V)>, name: Seq<char>, at: int) -> bool {
    &&& 0 <= at <= list.len()
    &&& forall|i: int| 0 <= i < at ==> precedes(#[trigger] list[i].0, name)
    &&& forall|i: int| at <= i < list.len() ==> precedes(name, #[trigger] list[i].0)
}

/// A name for which there is a gap in the list is not in the list.
pub proof fn lemma_gap_means_absent<V>(list: Seq<(Seq<char>, V)>, name: Seq<char>, at: int)
    requires
        fits_at(list, name, at),
    ensures
        !holds_name(list, name),
{
    if holds_name(list, name) {
        let i = place_of_name(list, name);
        lemma_precedes_irreflexive(name);
    }
}

/// Putting a new name into its gap adds it to the map.
pub proof fn lemma_insert_in_gap<V>(list: Seq<(Seq<char>, V)>, name: Seq<char>, value: V, at: int)
    requires
        ascending(list),
        fits_at(list, name, at),
    ensures
        ascending(list.insert(at, (name, value))),
        as_map(list.insert(at, (name, value))) == as_map(list).insert(name, value),
{
    let grown = list.insert(at, (name, value));
    assert forall|i: int, j: int| 0 <= i < j < grown.len() implies precedes(
        #[trigger] grown[i].0,
        #[trigger] grown[j].0,
    ) by {
        let a = if i < at { i } else { i - 1 };
        let b = if j < at { j } else { j - 1 };
        if i != at && j != at {
            assert(precedes(list[a].0, list[b].0));
        } else if i == at {
            assert(precedes(name, list[b].0));
        } else {
            assert(precedes(list[a].0, name));
        }
    }
    assert forall|k: Seq<char>| #[trigger]
        as_map(grown).contains_key(k) <==> as_map(list).insert(name, value).contains_key(k) by {
        if holds_name(grown, k) {
            let i = place_of_name(grown, k);
            if i < at {
                assert(list[i].0 == k);
            } else if i > at {
                assert(list[i - 1].0 == k);
            }
        }
        if holds_name(list, k) {
            let i = place_of_name(list, k);
            if i < at {
                assert(grown[i].0 == k);
            } else {
                assert(grown[i + 1].0 == k);
            }
        }
        if k == name {
            assert(grown[at].0 == k);
        }
    }
    assert forall|k: Seq<char>| #[trigger] as_map(grown).contains_key(k) implies as_map(grown)[k]
        == as_map(list).insert(name, value)[k] by {
        let i = place_of_name(grown, k);
        lemma_entry_in_map(grown, i);
        lemma_gap_means_absent(list, name, at);
        if i < at {
            assert(list[i].0 == k);
            lemma_entry_in_map(list, i);
        } else if i > at {
            assert(list[i - 1].0 == k);
            lemma_entry_in_map(list, i - 1);
        }
    }
    assert(as_map(grown) =~= as_map(list).insert(name, value));
}

/// Replacing the value of an entry replaces it in the map.
pub proof fn lemma_update_entry<V>(list: Seq<(Seq<char>, V)>, at: int, value: V)
    requires
        ascending(list),
        0 <= at < list.len(),
    ensures
        ascending(list.update(at, (list[at].0, value))),
        as_map(list.update(at, (list[at].0, value))) == as_map(list).insert(list[at].0, value),
{
    let name = list[at].0;
    let changed = list.update(at, (name, value));
    assert forall|i: int, j: int| 0 <= i < j < changed.len() implies precedes(
        #[trigger] changed[i].0,
        #[trigger] changed[j].0,
    ) by {
        assert(precedes(list[i].0, list[j].0));
    }
    assert forall|k: Seq<char>| #[trigger]
        as_map(changed).contains_key(k) <==> as_map(list).insert(name, value).contains_key(k) by {
        if holds_name(changed, k) {
            let i = place_of_name(changed, k);
            assert(list[i].0 == k);
        }
        if holds_name(list, k) {
            let i = place_of_name(list, k);
            assert(changed[i].0 == k);
        }
        if k == name {
            assert(changed[at].0 == k);
        }
    }
    assert forall|k: Seq<char>| #[trigger] as_map(changed).contains_key(k) implies as_map(
        changed,
    )[k] == as_map(list).insert(name, value)[k] by {
        let i = place_of_name(changed, k);
        lemma_entry_in_map(changed, i);
        lemma_entry_in_map(list, i);
        lemma_entry_in_map(list, at);
    }
    assert(as_map(changed) =~= as_map(list).insert(name, value));
}

/// Taking an entry out of the list takes its name out of the map.
pub proof fn lemma_remove_entry<V>(list: Seq<(Seq<char>, V)>, at: int)
    requires
        ascending(list),
        0 <= at < list.len(),
    ensures
        ascending(list.remove(at)),
        as_map(list.remove(at)) == as_map(list).remove(list[at].0),
        fits_at(list.remove(at), list[at].0, at),
{
    let name = list[at].0;
    let shrunk = list.remove(at);
    assert forall|i: int, j: int| 0 <= i < j < shrunk.len() implies precedes(
        #[trigger] shrunk[i].0,
        #[trigger] shrunk[j].0,
    ) by {
        let a = if i < at { i } else { i + 1 };
        let b = if j < at { j } else { j + 1 };
        assert(precedes(list[a].0, list[b].0));
    }
    assert forall|i: int| 0 <= i < at implies precedes(#[trigger] shrunk[i].0, name) by {
        assert(precedes(list[i].0, list[at].0));
    }
    assert forall|i: int| at <= i < shrunk.len() implies precedes(name, #[trigger] shrunk[i].0) by {
        assert(precedes(list[at].0, list[i + 1].0));
    }
    lemma_gap_means_absent(shrunk, name, at);
    assert forall|k: Seq<char>| #[trigger]
        as_map(shrunk).contains_key(k) <==> as_map(list).remove(name).contains_key(k) by {
        if holds_name(shrunk, k) {
            let i = place_of_name(shrunk, k);
            if i < at {
                assert(list[i].0 == k);
            } else {
                assert(list[i + 1].0 == k);
            }
        }
        if holds_name(list, k) && k != name {
            let i = place_of_name(list, k);
            if i < at {
                assert(shrunk[i].0 == k);
            } else {
                assert(shrunk[i - 1].0 == k);
            }
        }
    }
    assert forall|k: Seq<char>| #[trigger] as_map(shrunk).contains_key(k) implies as_map(
        shrunk,
    )[k] == as_map(list).remove(name)[k] by {
        let i = place_of_name(shrunk, k);
        lemma_entry_in_map(shrunk, i);
        if i < at {
            assert(list[i].0 == k);
            lemma_entry_in_map(list, i);
        } else {
            assert(list[i + 1].0 == k);
            lemma_entry_in_map(list, i + 1);
        }
    }
    assert(as_map(shrunk) =~= as_map(list).remove(name));
}

/// Whether the list `after` is the list `before` with one entry put in
/// or, if the name was there, with the value of its entry replaced.
pub open spec fn is_put_into<V>(
    after: Seq<(Seq<char>, V)>,
    before: Seq<(Seq<char>, V)>,
    name: Seq<char>,
    value: V,
) -> bool {
    if holds_name(before, name) {
        after == before.update(place_of_name(before, name), (name, value))
    } else {
        exists|at: int| 0 <= at <= before.len() && after == #[trigger] before.insert(at, (name, value))
    }
}

/// Whether the list `after` is the list `before` without the entry of the
/// name, if there was one.
pub open spec fn is_taken_from<V>(
    after: Seq<(Seq<char>, V)>,
    before: Seq<(Seq<char>, V)>,
    name: Seq<char>,
) -> bool {
    if holds_name(before, name) {
        after == before.remove(place_of_name(before, name))
    } else {
        after == before
    }
}

/// A map from names to values of type `V`.
#[derive(Debug, PartialEq, Eq)]
pub struct NameMap<V> {
    entries: Vec<(String, V)>,
}

impl<V> View for NameMap<V> {
    type V = Map<Seq<char>, V>;

    /// The map from each name to its value.
    open spec fn view(&self) -> Map<Seq<char>, V> {
        as_map(self.list())
    }
}

impl<V> NameMap<V> {
    /// The entries, in alphabetical order of their names.
    pub closed spec fn list(&self) -> Seq<(Seq<char>, V)> {
        self.entries@.map_values(|e: (String, V)| (e.0@, e.1))
    }

    /// The names are in strictly ascending alphabetical order.
    #[verifier::type_invariant]
    pub open spec fn well_formed(&self) -> bool {
        ascending(self.list())
    }

    /// The map without entries.
    pub fn new() -> (map: NameMap<V>)
        ensures
            map.list() == Seq::<(Seq<char>, V)>::empty(),
            map@ == Map::<Seq<char>, V>::empty(),
            map.well_formed(),
    {
        let map = NameMap { entries: Vec::new() };
        proof {
            assert(map.list() =~= Seq::<(Seq<char>, V)>::empty());
            assert(map@ =~= Map::<Seq<char>, V>::empty());
        }
        map
    }

    /// The number of entries.
    pub fn len(&self) -> (n: usize)
        ensures
            n == self.list().len(),
            self.well_formed(),
    {
        proof {
            use_type_invariant(self);
        }
        self.entries.len()
    }

    /// The name of the entry at place `i` in alphabetical order.
    pub fn name_at(&self, i: usize) -> (name: &String)
        requires
            i < self.list().len(),
        ensures
            name@ == self.list()[i as int].0,
    {
        &self.entries[i].0
    }

    /// The value of the entry at place `i` in alphabetical order.
    pub fn value_at(&self, i: usize) -> (value: &V)
        requires
            i < self.list().len(),
        ensures
            *value == self.list()[i as int].1,
            self.well_formed(),
            self@.contains_key(self.list()[i as int].0),
            self@[self.list()[i as int].0] == *value,
    {
        proof {
            use_type_invariant(self);
            lemma_entry_in_map(self.list(), i as int);
        }
        &self.entries[i].1
    }

    /// Puts `value` in place of the value of the entry at place `i`.
    pub fn set_value_at(&mut self, i: usize, value: V)
        requires
            i < old(self).list().len(),
        ensures
            final(self).list() == old(self).list().update(
                i as int,
                (old(self).list()[i as int].0, value),
            ),
            final(self)@ == old(self)@.insert(old(self).list()[i as int].0, value),
            final(self).well_formed(),
    {
        proof {
            use_type_invariant(&*self);
        }
        let ghost before = self.list();
        let mut entries: Vec<(String, V)> = Vec::new();
        std::mem::swap(&mut entries, &mut self.entries);
        proof {
            lemma_update_entry(before, i as int, value);
        }
        entries[i].1 = value;
        proof {
            let after = entries@.map_values(|e: (String, V)| (e.0@, e.1));
            assert(after =~= before.update(i as int, (before[i as int].0, value)));
        }
        self.entries = entries;
    }

    /// Looks for `name`: returns whether it is there and the place where it
    /// is or where it would have to go.
    fn find(&self, name: &str) -> (found: (bool, usize))
        ensures
            self.well_formed(),
            found.0 ==> found.1 < self.list().len() && self.list()[found.1 as int].0 == name@,
            !found.0 ==> fits_at(self.list(), name@, found.1 as int),
            found.0 == self@.contains_key(name@),
    {
        proof {
            use_type_invariant(self);
        }
        let mut i: usize = 0;
        while i < self.entries.len()
            invariant
                self.well_formed(),
                i <= self.entries.len(),
                self.entries.len() == self.list().len(),
                forall|j: int| 0 <= j < i ==> precedes(#[trigger] self.list()[j].0, name@),
            decreases self.entries.len() - i,
        {
            match text_place(self.entries[i].0.as_str(), name) {
                Place::Before => {},
                Place::Same => {
                    return (true, i);
                },
                Place::After => {
                    proof {
                        let here = self.list()[i as int].0;
                        crate::text::lemma_precedes_total(here, name@);
                        assert forall|j: int| i <= j < self.list().len() implies precedes(
                            name@,
                            #[trigger] self.list()[j].0,
                        ) by {
                            if i < j {
                                lemma_precedes_transitive(name@, here, self.list()[j].0);
                            }
                        }
                        lemma_gap_means_absent(self.list(), name@, i as int);
                    }
                    return (false, i);
                },
            }
            i += 1;
        }
        proof {
            lemma_gap_means_absent(self.list(), name@, i as int);
        }
        (false, i)
    }

    /// Whether the map holds a value under `name`.
    pub fn contains_key(&self, name: &str) -> (found: bool)
        ensures
            found == self@.contains_key(name@),
    {
        self.find(name).0
    }

    /// The value under `name`, if there is one.
    pub fn get(&self, name: &str) -> (value: Option<&V>)
        ensures
            value is Some <==> self@.contains_key(name@),
            value matches Some(v) ==> *v == self@[name@],
    {
        let (found, at) = self.find(name);
        if found {
            proof {
                lemma_entry_in_map(self.list(), at as int);
            }
            Some(&self.entries[at].1)
        } else {
            None
        }
    }

    /// Puts `value` under `name`, in place of the value that was there, if
    /// any.
    pub fn insert(&mut self, name: String, value: V)
        ensures
            final(self)@ == old(self)@.insert(name@, value),
            final(self).well_formed(),
            is_put_into(final(self).list(), old(self).list(), name@, value),
    {
        let (found, at) = self.find(name.as_str());
        let ghost before = self.list();
        proof {
            if found {
                lemma_entry_in_map(before, at as int);
            }
        }
        let mut entries: Vec<(String, V)> = Vec::new();
        std::mem::swap(&mut entries, &mut self.entries);
        if found {
            proof {
                lemma_update_entry(before, at as int, value);
            }
            entries[at] = (name, value);
        } else {
            proof {
                lemma_insert_in_gap(before, name@, value, at as int);
            }
            entries.insert(at, (name, value));
        }
        proof {
            let after = entries@.map_values(|e: (String, V)| (e.0@, e.1));
            if found {
                assert(after =~= before.update(at as int, (before[at as int].0, value)));
            } else {
                assert(after =~= before.insert(at as int, (name@, value)));
            }
        }
        self.entries = entries;
    }

    /// Takes the entry under `name` out of the map and returns its value.
    pub fn remove(&mut self, name: &str) -> (value: Option<V>)
        ensures
            value is Some <==> old(self)@.contains_key(name@),
            value matches Some(v) ==> v == old(self)@[name@],
            final(self)@ == old(self)@.remove(name@),
            final(self).well_formed(),
            is_taken_from(final(self).list(), old(self).list(), name@),
    {
        let (found, at) = self.find(name);
        if !found {
            proof {
                assert(self@.remove(name@) =~= self@);
            }
            return None;
        }
        let ghost before = self.list();
        let mut entries: Vec<(String, V)> = Vec::new();
        std::mem::swap(&mut entries, &mut self.entries);
        proof {
            lemma_entry_in_map(before, at as int);
            lemma_remove_entry(before, at as int);
        }
        let entry = entries.remove(at);
        proof {
            let after = entries@.map_values(|e: (String, V)| (e.0@, e.1));
            assert(after =~= before.remove(at as int));
        }
        self.entries = entries;
        Some(entry.1)
    }
}

} // verus!
