//! A table keyed by names that remembers the order in which its names came.
//!
//! The positions of the names are kept in a `zed_collections::HashMap`, which
//! is std's `HashMap` with the hasher of rustc-hash. Verus does not look
//! inside that map: what it holds has a name, `positions_of`, and the three
//! calls that the table makes into it are stated over that name and believed,
//! not proved. Everything else in this file is proved.

use vstd::prelude::*;
use zed_collections::HashMap;

verus! {

/// The hasher of `zed_collections::HashMap`, rustc-hash's `FxBuildHasher`.
/// It is carried inside the map and never looked into.
#[verifier::external_type_specification]
#[verifier::external_body]
pub struct ExFxBuildHasher(rustc_hash::FxBuildHasher);

/// The model of a position map: from a name's characters to a position.
pub type Positions = Map<Seq<char>, usize>;

/// What a position map holds: for each key, by its characters, the value
/// stored under it. Two keys with the same characters are the same key, as
/// `str`'s `Eq` and `Hash` have it.
pub uninterp spec fn positions_of(map: HashMap<&'static str, usize>) -> Map<Seq<char>, usize>;

/// Calls `HashMap::default` for `zed_collections::HashMap`. Believed of it:
/// the new map holds nothing.
#[verifier::external_body]
fn positions_new() -> (table: HashMap<&'static str, usize>)
    ensures
        positions_of(table) == Positions::empty(),
{
    HashMap::default()
}

/// Calls `HashMap::insert`. Believed of it: afterwards the key holds the given
/// value, whether or not it held one before, and every other key holds what
/// it held.
#[verifier::external_body]
fn positions_insert(map: &mut HashMap<&'static str, usize>, name: &'static str, position: usize)
    ensures
        positions_of(*final(map)) == positions_of(*old(map)).insert(name@, position),
{
    map.insert(name, position);
}

/// Calls `HashMap::get`. Believed of it: it hands out the value stored under
/// the key if the map holds the key, and nothing if it does not.
#[verifier::external_body]
fn positions_get<'a>(map: &'a HashMap<&'static str, usize>, name: &str) -> (found: Option<
    &'a usize,
>)
    ensures
        found matches Some(position) ==> positions_of(*map).contains_key(name@) && *position
            == positions_of(*map)[name@],
        found is None ==> !positions_of(*map).contains_key(name@),
{
    map.get(name)
}

/// A table from names to values that keeps its names in the order in which
/// they were first inserted.
pub struct NameTable<V> {
    names: Vec<&'static str>,
    values: Vec<V>,
    positions: HashMap<&'static str, usize>,
}

impl<V> View for NameTable<V> {
    type V = Map<Seq<char>, V>;

    /// The table as a map from a name's characters to the value under it.
    closed spec fn view(&self) -> Map<Seq<char>, V> {
        Map::new(
            |n: Seq<char>| positions_of(self.positions).contains_key(n),
            |n: Seq<char>| self.values@[positions_of(self.positions)[n] as int],
        )
    }
}

impl<V> NameTable<V> {
    /// The table's invariant: the names, and the value beside each, are found
    /// again through the position map, and the position map holds nothing
    /// else. `new` establishes it and every method keeps it.
    pub closed spec fn wf(&self) -> bool {
        &&& self.names@.len() == self.values@.len()
        &&& forall|i: int|
            0 <= i < self.names@.len() ==> {
                &&& positions_of(self.positions).contains_key(#[trigger] self.names@[i]@)
                &&& positions_of(self.positions)[self.names@[i]@] == i
            }
        &&& forall|n: Seq<char>| #[trigger]
            positions_of(self.positions).contains_key(n) ==> {
                &&& positions_of(self.positions)[n] < self.names@.len()
                &&& self.names@[positions_of(self.positions)[n] as int]@ == n
            }
    }

    /// The names in the order in which they were first inserted.
    pub closed spec fn keys(&self) -> Seq<Seq<char>> {
        self.names@.map_values(|n: &'static str| n@)
    }

    /// The values, each at the position of its name in `keys`.
    pub closed spec fn values(&self) -> Seq<V> {
        self.values@
    }

    /// `keys` names each key of the map once, and `values` holds at each
    /// position the value under the name at that position.
    pub open spec fn ordered(&self) -> bool {
        &&& self.keys().len() == self.values().len()
        &&& self.keys().no_duplicates()
        &&& self@.dom() =~= self.keys().to_set()
        &&& forall|i: int|
            0 <= i < self.keys().len() ==> self@[#[trigger] self.keys()[i]] == self.values()[i]
    }

    /// A well-formed table is ordered, and holds as many names as `keys` is
    /// long.
    pub proof fn lemma_ordered(&self)
        requires
            self.wf(),
        ensures
            self.ordered(),
            self@.dom().finite(),
            self@.dom().len() == self.keys().len(),
    {
        let keys = self.keys();
        assert forall|i: int, j: int| 0 <= i < keys.len() && 0 <= j < keys.len() && i != j implies keys[i]
            != keys[j] by {
            assert(positions_of(self.positions)[self.names@[i]@] == i);
            assert(positions_of(self.positions)[self.names@[j]@] == j);
        }
        assert forall|n: Seq<char>| self@.dom().contains(n) <==> keys.to_set().contains(n) by {
            if self@.dom().contains(n) {
                let p: int = positions_of(self.positions)[n] as int;
                assert(keys[p] == n);
            }
            if keys.to_set().contains(n) {
                let i = choose|i: int| 0 <= i < keys.len() && keys[i] == n;
                assert(self.names@[i]@ == n);
            }
        }
        assert forall|i: int| 0 <= i < keys.len() implies self@[#[trigger] keys[i]]
            == self.values()[i] by {
            assert(positions_of(self.positions)[self.names@[i]@] == i);
        }
        vstd::seq_lib::seq_to_set_is_finite(keys);
        keys.unique_seq_to_set();
    }

    /// A table that holds nothing.
    pub fn new() -> (table: Self)
        ensures
            table@ == Map::<Seq<char>, V>::empty(),
            table.keys() == Seq::<Seq<char>>::empty(),
            table.values() == Seq::<V>::empty(),
            table.wf(),
    {
        let table = NameTable { names: Vec::new(), values: Vec::new(), positions: positions_new() };
        proof {
            assert(table@ =~= Map::<Seq<char>, V>::empty());
            assert(table.keys() =~= Seq::<Seq<char>>::empty());
            table.lemma_ordered();
        }
        table
    }

    /// The number of names in the table.
    pub fn len(&self) -> (n: usize)
        requires
            self.wf(),
        ensures
            n == self.keys().len(),
            n == self.values().len(),
            self@.dom().finite(),
            n == self@.dom().len(),
            self.ordered(),
    {
        proof {
            self.lemma_ordered();
        }
        self.names.len()
    }

    /// The position of a name in `keys`, if the table holds the name.
    pub fn position(&self, name: &str) -> (found: Option<usize>)
        requires
            self.wf(),
        ensures
            found matches Some(i) ==> i < self.keys().len() && self.keys()[i as int] == name@,
            found is None ==> !self@.contains_key(name@),
    {
        proof {
            self.lemma_ordered();
        }
        match positions_get(&self.positions, name) {
            Some(position) => {
                let i: usize = *position;
                Some(i)
            },
            None => None,
        }
    }

    /// The value under a name, if the table holds the name.
    pub fn get(&self, name: &str) -> (found: Option<&V>)
        requires
            self.wf(),
        ensures
            found matches Some(value) ==> self@.contains_key(name@) && *value == self@[name@],
            found is None ==> !self@.contains_key(name@),
    {
        match positions_get(&self.positions, name) {
            Some(position) => {
                let i: usize = *position;
                Some(&self.values[i])
            },
            None => None,
        }
    }

    /// The name at a position.
    pub fn name_at(&self, i: usize) -> (name: &'static str)
        requires
            i < self.keys().len(),
        ensures
            name@ == self.keys()[i as int],
    {
        self.names[i]
    }

    /// The value at a position.
    pub fn value_at(&self, i: usize) -> (value: &V)
        requires
            i < self.values().len(),
        ensures
            *value == self.values()[i as int],
    {
        &self.values[i]
    }

    /// Puts a value under a name. A name that the table holds keeps its
    /// position and gets the new value; a new name goes to the end.
    pub fn insert(&mut self, name: &'static str, value: V)
        requires
            old(self).wf(),
        ensures
            final(self).wf(),
            final(self)@ == old(self)@.insert(name@, value),
            old(self)@.contains_key(name@) ==> final(self).keys() == old(self).keys()
                && exists|i: int|
                0 <= i < old(self).keys().len() && old(self).keys()[i] == name@
                    && final(self).values() == old(self).values().update(i, value),
            !old(self)@.contains_key(name@) ==> final(self).keys() == old(self).keys().push(name@)
                && final(self).values() == old(self).values().push(value),
    {
        let found = match positions_get(&self.positions, name) {
            Some(position) => {
                let i: usize = *position;
                Some(i)
            },
            None => None,
        };
        match found {
            Some(i) => {
                self.values.set(i, value);
                proof {
                    assert(self@ =~= old(self)@.insert(name@, value)) by {
                        assert forall|n: Seq<char>| old(self)@.insert(name@, value).contains_key(
                            n,
                        ) implies #[trigger] self@[n] == old(self)@.insert(name@, value)[n] by {
                            if n != name@ {
                                let p: int = positions_of(self.positions)[n] as int;
                                assert(self.names@[p]@ == n);
                            }
                        }
                    }
                    assert(old(self).keys()[i as int] == name@);
                }
            },
            None => {
                let i: usize = self.names.len();
                self.names.push(name);
                self.values.push(value);
                positions_insert(&mut self.positions, name, i);
                proof {
                    assert(self@ =~= old(self)@.insert(name@, value)) by {
                        assert forall|n: Seq<char>| old(self)@.insert(name@, value).contains_key(
                            n,
                        ) implies #[trigger] self@[n] == old(self)@.insert(name@, value)[n] by {
                            if n != name@ {
                                let p: int = positions_of(old(self).positions)[n] as int;
                                assert(p < old(self).names@.len());
                            }
                        }
                    }
                    assert(self.keys() =~= old(self).keys().push(name@));
                }
            },
        }
    }
}

} // verus!
