//! The catalog: the registry joined into one entry per name.
//!
//! Of the registrations under one name the last one counts, and it is joined
//! with the preview registered under that name, if there is one. A catalog
//! is a value of its own: what is registered after it was made does not show
//! in it.

use crate::index::NameTable;
use crate::registry::{ComponentRegistry, RegistrationView, RegistryView, scope_view, text_view};
use crate::scope::{ComponentScope, ScopeView};
use crate::text::{
    lemma_text_le_total,
    lemma_text_le_transitive,
    text_at_most,
    text_le,
};
use vstd::prelude::*;

verus! {

/// The name of a component, as the key under which the catalog holds it.
#[derive(Debug, PartialEq, Eq, Hash)]
pub struct ComponentId(pub &'static str);

impl Clone for ComponentId {
    fn clone(&self) -> (copy: Self)
        ensures
            copy@ == self@,
    {
        ComponentId(self.0)
    }
}

impl View for ComponentId {
    type V = Seq<char>;

    open spec fn view(&self) -> Seq<char> {
        self.0@
    }
}

/// What the catalog holds of one component.
pub struct ComponentMetadata<P> {
    name: &'static str,
    scope: Option<ComponentScope>,
    description: Option<&'static str>,
    preview: Option<P>,
}

/// An entry of the catalog as a plain value. The name is also the entry's
/// identifier.
pub struct MetadataView<P> {
    pub name: Seq<char>,
    pub scope: Option<ScopeView>,
    pub description: Option<Seq<char>>,
    pub preview: Option<P>,
}

impl<P> View for ComponentMetadata<P> {
    type V = MetadataView<P>;

    closed spec fn view(&self) -> MetadataView<P> {
        MetadataView {
            name: self.name@,
            scope: scope_view(self.scope),
            description: text_view(self.description),
            preview: self.preview,
        }
    }
}

impl<P> ComponentMetadata<P> {
    /// The entry made of a registration and of the preview found for it.
    pub fn new(
        name: &'static str,
        scope: Option<ComponentScope>,
        description: Option<&'static str>,
        preview: Option<P>,
    ) -> (metadata: Self)
        ensures
            metadata@ == (MetadataView {
                name: name@,
                scope: scope_view(scope),
                description: text_view(description),
                preview,
            }),
    {
        ComponentMetadata { name, scope, description, preview }
    }

    /// The identifier of the component: its name.
    pub fn id(&self) -> (id: ComponentId)
        ensures
            id@ == self@.name,
    {
        ComponentId(self.name)
    }

    /// The name of the component.
    pub fn name(&self) -> (name: &'static str)
        ensures
            name@ == self@.name,
    {
        self.name
    }

    /// The scope of the component, if it has one.
    pub fn scope(&self) -> (scope: Option<ComponentScope>)
        ensures
            scope_view(scope) == self@.scope,
    {
        match &self.scope {
            Some(scope) => Some(scope.clone()),
            None => None,
        }
    }

    /// The description of the component, if it has one.
    pub fn description(&self) -> (description: Option<&'static str>)
        ensures
            text_view(description) == self@.description,
    {
        self.description
    }
}

impl<P: Copy> ComponentMetadata<P> {
    /// What draws the preview of the component, if a preview is registered.
    pub fn preview(&self) -> (preview: Option<P>)
        ensures
            preview == self@.preview,
    {
        self.preview
    }
}

impl<P: Copy> Clone for ComponentMetadata<P> {
    fn clone(&self) -> (copy: Self)
        ensures
            copy@ == self@,
    {
        ComponentMetadata {
            name: self.name,
            scope: self.scope(),
            description: self.description,
            preview: self.preview,
        }
    }
}

/// A catalog as a plain value: from a name to the entry under it.
pub type Catalog<P> = Map<Seq<char>, MetadataView<P>>;

/// The entry that a registration gives, joined with the preview registered
/// under its name.
pub open spec fn metadata_of<P>(
    registration: RegistrationView,
    previews: Map<Seq<char>, P>,
) -> MetadataView<P> {
    MetadataView {
        name: registration.name,
        scope: registration.scope,
        description: registration.description,
        preview: if previews.contains_key(registration.name) {
            Some(previews[registration.name])
        } else {
            None
        },
    }
}

/// The position of the last registration under a name, if the name is
/// registered at all.
pub open spec fn last_registration(list: Seq<RegistrationView>, name: Seq<char>) -> Option<int>
    decreases list.len(),
{
    if list.len() == 0 {
        None
    } else if list.last().name == name {
        Some(list.len() - 1)
    } else {
        last_registration(list.drop_last(), name)
    }
}

/// The catalog of a registry: one entry for each registered name, made of the
/// last registration under that name and of the preview under that name.
pub open spec fn snapshot<P>(registry: RegistryView<P>) -> Catalog<P> {
    Map::new(
        |name: Seq<char>| last_registration(registry.components, name) is Some,
        |name: Seq<char>|
            metadata_of(
                registry.components[last_registration(registry.components, name)->0],
                registry.previews,
            ),
    )
}

/// The entries of a catalog for which a preview is registered.
pub open spec fn with_preview_only<P>(catalog: Catalog<P>) -> Catalog<P> {
    Map::new(
        |name: Seq<char>| catalog.contains_key(name) && catalog[name].preview is Some,
        |name: Seq<char>| catalog[name],
    )
}

/// The values of a list as plain values.
pub open spec fn views<T: View>(list: Seq<T>) -> Seq<T::V> {
    list.map_values(|item: T| item@)
}

/// `list` holds the entries of `catalog`, each one once and under its own
/// name, in whatever order.
pub open spec fn lists<P>(list: Seq<MetadataView<P>>, catalog: Catalog<P>) -> bool {
    &&& forall|i: int|
        0 <= i < list.len() ==> catalog.contains_key((#[trigger] list[i]).name)
            && catalog[list[i].name] == list[i]
    &&& forall|i: int, j: int|
        0 <= i < j < list.len() ==> (#[trigger] list[i]).name != (#[trigger] list[j]).name
    &&& forall|name: Seq<char>| #[trigger]
        catalog.contains_key(name) ==> exists|i: int|
            0 <= i < list.len() && (#[trigger] list[i]).name == name
}

/// The names of `list` do not decrease from one entry to the next, in the
/// order of texts.
pub open spec fn sorted_by_name<P>(list: Seq<MetadataView<P>>) -> bool {
    forall|i: int, j: int|
        0 <= i < j < list.len() ==> text_le((#[trigger] list[i]).name, (#[trigger] list[j]).name)
}

/// The last registration under a name is a registration under that name, and
/// none under that name comes behind it; a name that is not registered has
/// none.
pub proof fn lemma_last_registration(list: Seq<RegistrationView>, name: Seq<char>)
    ensures
        last_registration(list, name) matches Some(at) ==> 0 <= at < list.len() && list[at].name
            == name && forall|j: int| at < j < list.len() ==> list[j].name != name,
        last_registration(list, name) is None ==> forall|j: int|
            0 <= j < list.len() ==> list[j].name != name,
    decreases list.len(),
{
    if list.len() > 0 && list.last().name != name {
        let rest = list.drop_last();
        lemma_last_registration(rest, name);
        match last_registration(rest, name) {
            Some(at) => {
                assert forall|j: int| at < j < list.len() implies list[j].name != name by {
                    if j < rest.len() {
                        assert(rest[j].name != name);
                    }
                }
            },
            None => {
                assert forall|j: int| 0 <= j < list.len() implies list[j].name != name by {
                    if j < rest.len() {
                        assert(rest[j].name != name);
                    }
                }
            },
        }
    }
}

/// A position that holds a registration under a name, with none under that
/// name behind it, is the position of the last registration under the name.
pub proof fn lemma_last_registration_at(list: Seq<RegistrationView>, name: Seq<char>, at: int)
    requires
        0 <= at < list.len(),
        list[at].name == name,
        forall|j: int| at < j < list.len() ==> list[j].name != name,
    ensures
        last_registration(list, name) == Some(at),
{
    lemma_last_registration(list, name);
}

/// Nothing registered, nothing in the catalog.
pub proof fn lemma_snapshot_empty<P>()
    ensures
        snapshot(RegistryView::<P>::empty()) == Catalog::<P>::empty(),
{
    assert(snapshot(RegistryView::<P>::empty()) =~= Catalog::<P>::empty());
}

/// One more registration puts its entry under its name, in place of the entry
/// that the name had, and leaves every other entry as it was.
pub proof fn lemma_snapshot_with_component<P>(
    registry: RegistryView<P>,
    registration: RegistrationView,
)
    ensures
        snapshot(registry.with_component(registration)) == snapshot(registry).insert(
            registration.name,
            metadata_of(registration, registry.previews),
        ),
{
    let after = registry.with_component(registration);
    let expected = snapshot(registry).insert(
        registration.name,
        metadata_of(registration, registry.previews),
    );
    assert(after.components.drop_last() =~= registry.components);
    assert forall|name: Seq<char>| #[trigger]
        snapshot(after).dom().contains(name) == expected.dom().contains(name) && (
        expected.dom().contains(name) ==> snapshot(after)[name] == expected[name]) by {
        if name != registration.name {
            lemma_last_registration(registry.components, name);
        }
    }
    assert(snapshot(after) =~= expected);
}

/// A list that holds the entries of a catalog is as long as the catalog has
/// names, and the catalog has finitely many.
pub proof fn lemma_lists_len<P>(list: Seq<MetadataView<P>>, catalog: Catalog<P>)
    requires
        lists(list, catalog),
    ensures
        catalog.dom().finite(),
        catalog.dom().len() == list.len(),
{
    let names = list.map_values(|m: MetadataView<P>| m.name);
    assert forall|i: int, j: int| 0 <= i < names.len() && 0 <= j < names.len() && i != j implies names[i]
        != names[j] by {
        if i < j {
            assert(list[i].name != list[j].name);
        } else {
            assert(list[j].name != list[i].name);
        }
    }
    assert forall|name: Seq<char>| catalog.dom().contains(name) <==> names.to_set().contains(
        name,
    ) by {
        if catalog.contains_key(name) {
            let i = choose|i: int| 0 <= i < list.len() && (#[trigger] list[i]).name == name;
            assert(names[i] == name);
        }
        if names.to_set().contains(name) {
            let i = choose|i: int| 0 <= i < names.len() && names[i] == name;
            assert(list[i].name == name);
        }
    }
    assert(catalog.dom() =~= names.to_set());
    vstd::seq_lib::seq_to_set_is_finite(names);
    names.unique_seq_to_set();
}

/// A rearrangement of a list that holds the entries of a catalog holds them
/// too.
pub proof fn lemma_lists_rearranged<P>(
    list: Seq<MetadataView<P>>,
    other: Seq<MetadataView<P>>,
    catalog: Catalog<P>,
)
    requires
        lists(list, catalog),
        list.to_multiset() == other.to_multiset(),
    ensures
        lists(other, catalog),
{
    list.to_multiset_ensures();
    other.to_multiset_ensures();
    assert forall|i: int| 0 <= i < other.len() implies catalog.contains_key(
        (#[trigger] other[i]).name,
    ) && catalog[other[i].name] == other[i] by {
        assert(other.contains(other[i]));
        assert(list.to_multiset().count(other[i]) > 0);
        assert(list.contains(other[i]));
        let k = choose|k: int| 0 <= k < list.len() && list[k] == other[i];
        assert(catalog[list[k].name] == list[k]);
    }
    assert(list.no_duplicates()) by {
        assert forall|i: int, j: int| 0 <= i < list.len() && 0 <= j < list.len() && i
            != j implies list[i] != list[j] by {
            if i < j {
                assert(list[i].name != list[j].name);
            } else {
                assert(list[j].name != list[i].name);
            }
        }
    }
    list.lemma_multiset_has_no_duplicates();
    other.lemma_multiset_has_no_duplicates_conv();
    assert forall|i: int, j: int| 0 <= i < j < other.len() implies (#[trigger] other[i]).name
        != (#[trigger] other[j]).name by {
        if other[i].name == other[j].name {
            assert(catalog[other[i].name] == other[i]);
            assert(catalog[other[j].name] == other[j]);
            assert(other[i] == other[j]);
        }
    }
    assert forall|name: Seq<char>| #[trigger] catalog.contains_key(name) implies exists|i: int|
        0 <= i < other.len() && (#[trigger] other[i]).name == name by {
        let k = choose|k: int| 0 <= k < list.len() && (#[trigger] list[k]).name == name;
        assert(list.contains(list[k]));
        assert(other.to_multiset().count(list[k]) > 0);
        assert(other.contains(list[k]));
        let i = choose|i: int| 0 <= i < other.len() && other[i] == list[k];
        assert(other[i].name == name);
    }
}

/// Puts an entry into a list that is sorted by name, behind the entries whose
/// names do not come after its own.
fn insert_by_name<P>(sorted: &mut Vec<ComponentMetadata<P>>, metadata: ComponentMetadata<P>)
    requires
        sorted_by_name(views(old(sorted)@)),
    ensures
        sorted_by_name(views(final(sorted)@)),
        views(final(sorted)@).to_multiset() == views(old(sorted)@).to_multiset().insert(metadata@),
{
    let mut at: usize = 0;
    while at < sorted.len() && text_at_most(sorted[at].name(), metadata.name())
        invariant
            at <= sorted@.len(),
            sorted@ == old(sorted)@,
            forall|k: int| 0 <= k < at ==> text_le((#[trigger] sorted@[k])@.name, metadata@.name),
        decreases sorted@.len() - at,
    {
        at += 1;
    }
    let ghost before = views(sorted@);
    sorted.insert(at, metadata);
    proof {
        let after = views(sorted@);
        let place: int = at as int;
        assert(after =~= before.insert(place, metadata@));
        vstd::seq_lib::to_multiset_insert(before, place, metadata@);
        before.insert_ensures(place, metadata@);
        assert forall|i: int, j: int| 0 <= i < j < after.len() implies text_le(
            (#[trigger] after[i]).name,
            (#[trigger] after[j]).name,
        ) by {
            if j < place {
                assert(after[i] == before[i] && after[j] == before[j]);
            } else if j == place {
                assert(after[i] == before[i]);
                assert(old(sorted)@[i]@ == before[i]);
            } else {
                assert(after[j] == before[j - 1]);
                assert(place < before.len());
                assert(old(sorted)@[place]@ == before[place]);
                assert(!text_le(before[place].name, metadata@.name));
                lemma_text_le_total(before[place].name, metadata@.name);
                if place < j - 1 {
                    assert(text_le(before[place].name, before[j - 1].name));
                }
                lemma_text_le_transitive(metadata@.name, before[place].name, before[j - 1].name);
                if i < place {
                    assert(after[i] == before[i]);
                    assert(old(sorted)@[i]@ == before[i]);
                    lemma_text_le_transitive(before[i].name, metadata@.name, before[j - 1].name);
                } else if i == place {
                } else {
                    assert(after[i] == before[i - 1]);
                }
            }
        }
    }
}

/// Copies of the entries of a list, sorted by name.
fn sorted_copies<P: Copy>(list: &Vec<&ComponentMetadata<P>>) -> (sorted: Vec<ComponentMetadata<P>>)
    ensures
        sorted_by_name(views(sorted@)),
        views(sorted@).to_multiset() == views(list@).to_multiset(),
{
    let mut sorted: Vec<ComponentMetadata<P>> = Vec::new();
    let mut i: usize = 0;
    proof {
        assert(views(list@.take(0)) =~= views(sorted@));
    }
    while i < list.len()
        invariant
            i <= list@.len(),
            sorted_by_name(views(sorted@)),
            views(sorted@).to_multiset() == views(list@.take(i as int)).to_multiset(),
        decreases list@.len() - i,
    {
        let copy = list[i].clone();
        proof {
            let head = views(list@.take(i as int));
            assert(views(list@.take(i + 1)) =~= head.push(copy@));
            head.to_multiset_ensures();
        }
        insert_by_name(&mut sorted, copy);
        i += 1;
    }
    proof {
        assert(list@.take(list@.len() as int) =~= list@);
    }
    sorted
}

/// The catalog: for each registered name one entry.
pub struct AllComponents<P> {
    entries: NameTable<ComponentMetadata<P>>,
}

impl<P> View for AllComponents<P> {
    type V = Catalog<P>;

    closed spec fn view(&self) -> Catalog<P> {
        Map::new(|name: Seq<char>| self.entries@.contains_key(name), |name: Seq<char>|
            self.entries@[name]@)
    }
}

impl<P> AllComponents<P> {
    /// The catalog's invariant, which `new` establishes and every function
    /// keeps: every entry stands under its own name.
    pub closed spec fn wf(&self) -> bool {
        &&& self.entries.wf()
        &&& forall|name: Seq<char>| #[trigger]
            self.entries@.contains_key(name) ==> self.entries@[name]@.name == name
    }

    /// In a well-formed catalog every entry stands under its own name, and
    /// the names are finitely many.
    pub proof fn lemma_keyed_by_name(&self)
        requires
            self.wf(),
        ensures
            self@.dom().finite(),
            forall|name: Seq<char>| #[trigger] self@.contains_key(name) ==> self@[name].name == name,
    {
        self.entries.lemma_ordered();
        assert(self@.dom() =~= self.entries@.dom());
    }

    proof fn lemma_values_listed(&self)
        requires
            self.wf(),
        ensures
            lists(views(self.entries.values()), self@),
            self.entries.values().len() == self.entries.keys().len(),
            forall|i: int|
                0 <= i < self.entries.keys().len() ==> (#[trigger] self.entries.values()[i])@.name
                    == self.entries.keys()[i],
    {
        self.entries.lemma_ordered();
        let keys = self.entries.keys();
        let values = self.entries.values();
        let list = views(values);
        assert forall|i: int| 0 <= i < keys.len() implies (#[trigger] values[i])@.name
            == keys[i] && self@.contains_key(keys[i]) && self@[keys[i]] == values[i]@ by {
            assert(keys.to_set().contains(keys[i]));
            assert(self.entries@[keys[i]] == values[i]);
        }
        assert forall|i: int| 0 <= i < list.len() implies self@.contains_key(
            (#[trigger] list[i]).name,
        ) && self@[list[i].name] == list[i] by {
            assert(values[i]@.name == keys[i]);
        }
        assert forall|i: int, j: int| 0 <= i < j < list.len() implies (#[trigger] list[i]).name
            != (#[trigger] list[j]).name by {
            assert(values[i]@.name == keys[i]);
            assert(values[j]@.name == keys[j]);
        }
        assert forall|name: Seq<char>| #[trigger] self@.contains_key(name) implies exists|i: int|
            0 <= i < list.len() && (#[trigger] list[i]).name == name by {
            assert(keys.to_set().contains(name));
            let i = choose|i: int| 0 <= i < keys.len() && keys[i] == name;
            assert(values[i]@.name == keys[i]);
            assert(list[i].name == name);
        }
    }

    /// A catalog without entries.
    pub fn new() -> (catalog: Self)
        ensures
            catalog.wf(),
            catalog@ == Catalog::<P>::empty(),
    {
        let catalog = AllComponents { entries: NameTable::new() };
        proof {
            assert(catalog@ =~= Catalog::<P>::empty());
        }
        catalog
    }

    /// Puts an entry under its own name, in place of the entry that the name
    /// had.
    pub fn insert(&mut self, metadata: ComponentMetadata<P>)
        requires
            old(self).wf(),
        ensures
            final(self).wf(),
            final(self)@ == old(self)@.insert(metadata@.name, metadata@),
    {
        let name = metadata.name();
        self.entries.insert(name, metadata);
        proof {
            assert(self@ =~= old(self)@.insert(metadata@.name, metadata@));
        }
    }

    /// The number of entries.
    pub fn len(&self) -> (count: usize)
        requires
            self.wf(),
        ensures
            self@.dom().finite(),
            count == self@.dom().len(),
    {
        proof {
            assert(self@.dom() =~= self.entries@.dom());
        }
        self.entries.len()
    }

    /// Whether the catalog has no entry.
    pub fn is_empty(&self) -> (empty: bool)
        requires
            self.wf(),
        ensures
            empty == (self@ == Catalog::<P>::empty()),
    {
        let count: usize = self.len();
        proof {
            if count == 0 {
                assert(self@.dom() =~= Set::<Seq<char>>::empty());
                assert(self@ =~= Catalog::<P>::empty());
            } else {
                assert(Catalog::<P>::empty().dom().len() == 0);
            }
        }
        count == 0
    }

    /// Whether the catalog has an entry for a component.
    pub fn contains_key(&self, id: &ComponentId) -> (found: bool)
        requires
            self.wf(),
        ensures
            found == self@.contains_key(id@),
    {
        self.entries.get(id.0).is_some()
    }

    /// The entry of a component, if the catalog has one.
    pub fn get(&self, id: &ComponentId) -> (found: Option<&ComponentMetadata<P>>)
        requires
            self.wf(),
        ensures
            found matches Some(metadata) ==> self@.contains_key(id@) && metadata@ == self@[id@]
                && metadata@.name == id@,
            found is None ==> !self@.contains_key(id@),
    {
        self.entries.get(id.0)
    }

    /// All entries, each one once.
    pub fn all(&self) -> (list: Vec<&ComponentMetadata<P>>)
        requires
            self.wf(),
        ensures
            lists(views(list@), self@),
    {
        let count: usize = self.entries.len();
        let mut list: Vec<&ComponentMetadata<P>> = Vec::new();
        let mut i: usize = 0;
        while i < count
            invariant
                i <= count,
                count == self.entries.values().len(),
                list@.len() == i,
                forall|k: int| 0 <= k < i ==> *(#[trigger] list@[k]) == self.entries.values()[k],
            decreases count - i,
        {
            list.push(self.entries.value_at(i));
            i += 1;
        }
        proof {
            self.lemma_values_listed();
            assert(views(list@) =~= views(self.entries.values()));
        }
        list
    }

    /// The entries for which a preview is registered, each one once.
    pub fn all_previews(&self) -> (list: Vec<&ComponentMetadata<P>>)
        requires
            self.wf(),
        ensures
            lists(views(list@), with_preview_only(self@)),
    {
        let count: usize = self.entries.len();
        let mut list: Vec<&ComponentMetadata<P>> = Vec::new();
        let ghost mut origin: Seq<int> = Seq::empty();
        let mut i: usize = 0;
        while i < count
            invariant
                i <= count,
                count == self.entries.values().len(),
                list@.len() == origin.len(),
                forall|k: int|
                    0 <= k < origin.len() ==> 0 <= (#[trigger] origin[k]) < i && *list@[k]
                        == self.entries.values()[origin[k]] && list@[k]@.preview is Some,
                forall|k: int, l: int|
                    0 <= k < l < origin.len() ==> (#[trigger] origin[k]) < (#[trigger] origin[l]),
                forall|v: int|
                    0 <= v < i && (#[trigger] self.entries.values()[v])@.preview is Some
                        ==> exists|k: int| 0 <= k < origin.len() && #[trigger] origin[k] == v,
            decreases count - i,
        {
            let metadata = self.entries.value_at(i);
            if metadata.preview.is_some() {
                let ghost listed = list@;
                let ghost earlier = origin;
                list.push(metadata);
                proof {
                    origin = earlier.push(i as int);
                    assert(metadata@.preview is Some);
                    assert forall|k: int| 0 <= k < origin.len() implies 0 <= (#[trigger] origin[k])
                        < i + 1 && *list@[k] == self.entries.values()[origin[k]]
                        && list@[k]@.preview is Some by {
                        if k < earlier.len() {
                            assert(origin[k] == earlier[k]);
                            assert(list@[k] == listed[k]);
                        }
                    }
                    assert forall|k: int, l: int| 0 <= k < l < origin.len() implies (
                    #[trigger] origin[k]) < (#[trigger] origin[l]) by {
                        assert(origin[k] == earlier[k]);
                        if l < earlier.len() {
                            assert(origin[l] == earlier[l]);
                        }
                    }
                    assert forall|v: int|
                        0 <= v < i + 1 && (#[trigger] self.entries.values()[v])@.preview is Some
                        implies exists|k: int| 0 <= k < origin.len() && #[trigger] origin[k] == v by {
                        if v < i {
                            let k = choose|k: int|
                                0 <= k < earlier.len() && #[trigger] earlier[k] == v;
                            assert(origin[k] == v);
                        } else {
                            assert(origin[earlier.len() as int] == v);
                        }
                    }
                }
            }
            i += 1;
        }
        proof {
            self.lemma_values_listed();
            let values = self.entries.values();
            let all = views(values);
            let shown = views(list@);
            let previews = with_preview_only(self@);
            assert forall|k: int| 0 <= k < shown.len() implies previews.contains_key(
                (#[trigger] shown[k]).name,
            ) && previews[shown[k].name] == shown[k] by {
                assert(shown[k] == all[origin[k]]);
            }
            assert forall|k: int, l: int| 0 <= k < l < shown.len() implies (#[trigger] shown[k]).name
                != (#[trigger] shown[l]).name by {
                assert(shown[k] == all[origin[k]]);
                assert(shown[l] == all[origin[l]]);
                assert(origin[k] < origin[l]);
            }
            assert forall|name: Seq<char>| #[trigger] previews.contains_key(name) implies exists|k: int|
                0 <= k < shown.len() && (#[trigger] shown[k]).name == name by {
                let v = choose|v: int| 0 <= v < all.len() && (#[trigger] all[v]).name == name;
                assert(self@[all[v].name] == all[v]);
                assert(values[v]@.preview is Some);
                let k = choose|k: int| 0 <= k < origin.len() && #[trigger] origin[k] == v;
                assert(shown[k] == all[origin[k]]);
            }
        }
        list
    }
}

impl<P: Copy> AllComponents<P> {
    /// All entries, each one once, sorted by name.
    pub fn all_sorted(&self) -> (list: Vec<ComponentMetadata<P>>)
        requires
            self.wf(),
        ensures
            lists(views(list@), self@),
            sorted_by_name(views(list@)),
    {
        let all = self.all();
        let list = sorted_copies(&all);
        proof {
            lemma_lists_rearranged(views(all@), views(list@), self@);
        }
        list
    }

    /// The entries for which a preview is registered, each one once, sorted
    /// by name.
    pub fn all_previews_sorted(&self) -> (list: Vec<ComponentMetadata<P>>)
        requires
            self.wf(),
        ensures
            lists(views(list@), with_preview_only(self@)),
            sorted_by_name(views(list@)),
    {
        let previews = self.all_previews();
        let list = sorted_copies(&previews);
        proof {
            lemma_lists_rearranged(views(previews@), views(list@), with_preview_only(self@));
        }
        list
    }
}

/// The catalog of what is registered: for each registered name one entry,
/// made of the last registration under that name and of the preview
/// registered under that name, if there is one.
pub fn components<P: Copy>(registry: &ComponentRegistry<P>) -> (catalog: AllComponents<P>)
    requires
        registry.wf(),
    ensures
        catalog.wf(),
        catalog@ == snapshot(registry@),
{
    let mut catalog = AllComponents::new();
    let count: usize = registry.registration_count();
    let mut i: usize = 0;
    proof {
        assert(registry@.components.take(0) =~= Seq::<RegistrationView>::empty());
        lemma_snapshot_empty::<P>();
        assert(snapshot(
            RegistryView { components: registry@.components.take(0), previews: registry@.previews },
        ) =~= snapshot(RegistryView::<P>::empty()));
    }
    while i < count
        invariant
            i <= count,
            count == registry@.components.len(),
            registry.wf(),
            catalog.wf(),
            catalog@ == snapshot(
                RegistryView {
                    components: registry@.components.take(i as int),
                    previews: registry@.previews,
                },
            ),
        decreases count - i,
    {
        let registration = registry.registration(i);
        let preview = match registry.preview(registration.name) {
            Some(preview) => Some(*preview),
            None => None,
        };
        let scope = match &registration.scope {
            Some(scope) => Some(scope.clone()),
            None => None,
        };
        let metadata = ComponentMetadata::new(
            registration.name,
            scope,
            registration.description,
            preview,
        );
        proof {
            let before = RegistryView {
                components: registry@.components.take(i as int),
                previews: registry@.previews,
            };
            assert(before.with_component(registration@).components =~= registry@.components.take(
                i + 1,
            ));
            lemma_snapshot_with_component(before, registration@);
            assert(metadata@ == metadata_of(registration@, registry@.previews));
        }
        catalog.insert(metadata);
        i += 1;
    }
    proof {
        assert(registry@.components.take(count as int) =~= registry@.components);
    }
    catalog
}

} // verus!
