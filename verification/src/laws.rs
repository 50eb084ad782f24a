//! What holds of every registry and of every catalog made from one.

use crate::catalog::{
    Catalog,
    lemma_last_registration,
    lemma_snapshot_empty,
    lemma_snapshot_with_component,
    metadata_of,
    last_registration,
    snapshot,
    with_preview_only,
};
use crate::catalog::{lemma_lists_len, lists, sorted_by_name, MetadataView};
use crate::registry::{PreviewView, RegistrationView, RegistryView};
use crate::text::{lemma_text_le_antisymmetric, text_le};
use vstd::prelude::*;

verus! {

/// No two registrations of the list stand under the same name.
pub open spec fn distinct_names(list: Seq<RegistrationView>) -> bool {
    forall|i: int, j: int|
        0 <= i < j < list.len() ==> (#[trigger] list[i]).name != (#[trigger] list[j]).name
}

/// A name is registered if some registration stands under it.
pub open spec fn is_registered(list: Seq<RegistrationView>, name: Seq<char>) -> bool {
    exists|i: int| 0 <= i < list.len() && (#[trigger] list[i]).name == name
}

/// The catalog has an entry for a name exactly if the name is registered.
pub proof fn lemma_catalog_names<P>(registry: RegistryView<P>, name: Seq<char>)
    ensures
        snapshot(registry).contains_key(name) <==> is_registered(registry.components, name),
{
    lemma_last_registration(registry.components, name);
    if is_registered(registry.components, name) {
        let i = choose|i: int|
            0 <= i < registry.components.len() && (#[trigger] registry.components[i]).name == name;
        assert(registry.components[i].name == name);
    }
    if let Some(at) = last_registration(registry.components, name) {
        assert(registry.components[at].name == name);
    }
}

/// A registration shows in the next catalog: its name has an entry, and the
/// entry is made of that registration.
pub proof fn lemma_registration_shows<P>(registry: RegistryView<P>, registration: RegistrationView)
    ensures
        snapshot(registry.with_component(registration)).contains_key(registration.name),
        snapshot(registry.with_component(registration))[registration.name] == metadata_of(
            registration,
            registry.previews,
        ),
{
    lemma_snapshot_with_component(registry, registration);
}

/// Registering a name twice gives one entry, that of the second
/// registration: the catalog is the one that the second registration alone
/// would have given.
pub proof fn lemma_second_registration_wins<P>(
    registry: RegistryView<P>,
    first: RegistrationView,
    second: RegistrationView,
)
    requires
        first.name == second.name,
    ensures
        snapshot(registry.with_component(first).with_component(second)) == snapshot(
            registry.with_component(second),
        ),
        snapshot(registry.with_component(first).with_component(second))[second.name]
            == metadata_of(second, registry.previews),
{
    lemma_snapshot_with_component(registry, first);
    lemma_snapshot_with_component(registry.with_component(first), second);
    lemma_snapshot_with_component(registry, second);
    assert(snapshot(registry).insert(first.name, metadata_of(first, registry.previews)).insert(
        second.name,
        metadata_of(second, registry.previews),
    ) =~= snapshot(registry).insert(second.name, metadata_of(second, registry.previews)));
}

/// Where every name is registered once, the catalog has as many entries as
/// there are registrations, and each registration has its own entry.
pub proof fn lemma_distinct_names_all_listed<P>(registry: RegistryView<P>)
    requires
        distinct_names(registry.components),
    ensures
        snapshot(registry).dom().finite(),
        snapshot(registry).dom().len() == registry.components.len(),
        forall|i: int|
            0 <= i < registry.components.len() ==> snapshot(registry).contains_key(
                (#[trigger] registry.components[i]).name,
            ) && snapshot(registry)[registry.components[i].name] == metadata_of(
                registry.components[i],
                registry.previews,
            ),
{
    let list = registry.components;
    let names = list.map_values(|c: RegistrationView| c.name);
    assert forall|i: int| 0 <= i < list.len() implies last_registration(
        list,
        (#[trigger] list[i]).name,
    ) == Some(i) by {
        lemma_last_registration(list, list[i].name);
        match last_registration(list, list[i].name) {
            Some(at) => {
                if at < i {
                    assert(list[at].name != list[i].name);
                } else if i < at {
                    assert(list[i].name != list[at].name);
                }
            },
            None => {},
        }
    }
    assert forall|i: int, j: int| 0 <= i < names.len() && 0 <= j < names.len() && i != j implies names[i]
        != names[j] by {
        if i < j {
            assert(list[i].name != list[j].name);
        } else {
            assert(list[j].name != list[i].name);
        }
    }
    assert forall|name: Seq<char>| snapshot(registry).dom().contains(name) <==> names.to_set().contains(
        name,
    ) by {
        lemma_last_registration(list, name);
        if let Some(at) = last_registration(list, name) {
            assert(names[at] == name);
        }
        if names.to_set().contains(name) {
            let i = choose|i: int| 0 <= i < names.len() && names[i] == name;
            assert(list[i].name == name);
        }
    }
    assert(snapshot(registry).dom() =~= names.to_set());
    vstd::seq_lib::seq_to_set_is_finite(names);
    names.unique_seq_to_set();
}

/// Where every name is registered once, the order of the registrations does
/// not show in the catalog: the same registrations in another order give the
/// same catalog.
pub proof fn lemma_order_of_registrations<P>(
    list: Seq<RegistrationView>,
    other: Seq<RegistrationView>,
    previews: Map<Seq<char>, P>,
)
    requires
        distinct_names(list),
        list.to_multiset() == other.to_multiset(),
    ensures
        distinct_names(other),
        snapshot(RegistryView { components: list, previews }) == snapshot(
            RegistryView { components: other, previews },
        ),
{
    list.to_multiset_ensures();
    other.to_multiset_ensures();
    assert(list.no_duplicates()) by {
        assert forall|i: int, j: int| 0 <= i < list.len() && 0 <= j < list.len() && i
            != j implies list[i] != list[j] by {
            if i < j {
                assert(list[i].name != list[j].name);
            } else {
                assert(list[j].name != list[i].name);
            }
        }
    }
    list.lemma_multiset_has_no_duplicates();
    other.lemma_multiset_has_no_duplicates_conv();
    assert forall|i: int, j: int| 0 <= i < j < other.len() implies (#[trigger] other[i]).name
        != (#[trigger] other[j]).name by {
        assert(other.contains(other[i]) && other.contains(other[j]));
        assert(list.to_multiset().count(other[i]) > 0);
        assert(list.to_multiset().count(other[j]) > 0);
        let k = choose|k: int| 0 <= k < list.len() && list[k] == other[i];
        let l = choose|l: int| 0 <= l < list.len() && list[l] == other[j];
        if k < l {
            assert(list[k].name != list[l].name);
        } else if l < k {
            assert(list[l].name != list[k].name);
        }
    }
    let here = RegistryView { components: list, previews };
    let there = RegistryView { components: other, previews };
    lemma_distinct_names_all_listed(here);
    lemma_distinct_names_all_listed(there);
    assert forall|name: Seq<char>| #[trigger]
        snapshot(here).dom().contains(name) == snapshot(there).dom().contains(name) && (snapshot(
            here,
        ).dom().contains(name) ==> snapshot(there)[name] == snapshot(here)[name]) by {
        lemma_last_registration(list, name);
        lemma_last_registration(other, name);
        if let Some(at) = last_registration(list, name) {
            assert(list.contains(list[at]));
            assert(other.to_multiset().count(list[at]) > 0);
            let j = choose|j: int| 0 <= j < other.len() && other[j] == list[at];
            assert(snapshot(there).contains_key(other[j].name));
            assert(snapshot(here)[list[at].name] == metadata_of(list[at], previews));
            assert(snapshot(there)[other[j].name] == metadata_of(other[j], previews));
        }
        if let Some(at) = last_registration(other, name) {
            assert(other.contains(other[at]));
            assert(list.to_multiset().count(other[at]) > 0);
            let j = choose|j: int| 0 <= j < list.len() && list[j] == other[at];
            assert(snapshot(here).contains_key(list[j].name));
        }
    }
    assert(snapshot(here) =~= snapshot(there));
}

/// Registering a component and registering a preview do not get in each
/// other's way: either order gives the same registry.
pub proof fn lemma_component_and_preview_commute<P>(
    registry: RegistryView<P>,
    registration: RegistrationView,
    name: Seq<char>,
    preview: P,
)
    ensures
        registry.with_component(registration).with_preview(name, preview) == registry.with_preview(
            name,
            preview,
        ).with_component(registration),
{
}

/// A list of previews leaves the registrations as they are.
pub proof fn lemma_previews_keep_components<P>(registry: RegistryView<P>, previews: Seq<PreviewView<P>>)
    ensures
        registry.with_previews(previews).components == registry.components,
    decreases previews.len(),
{
    if previews.len() > 0 {
        lemma_previews_keep_components(registry, previews.drop_last());
    }
}

/// The two passes may run in either order: all components and then all
/// previews give the registry that all previews and then all components
/// give.
pub proof fn lemma_passes_commute<P>(
    registry: RegistryView<P>,
    components: Seq<RegistrationView>,
    previews: Seq<PreviewView<P>>,
)
    ensures
        registry.with_components(components).with_previews(previews) == registry.with_previews(
            previews,
        ).with_components(components),
    decreases previews.len(),
{
    if previews.len() > 0 {
        lemma_passes_commute(registry, components, previews.drop_last());
    }
}

/// A registered component without a preview is in the catalog, but not among
/// the entries with a preview. Once a preview is registered under its name it
/// is among them, and its entry holds that preview.
pub proof fn lemma_preview_join<P>(registry: RegistryView<P>, name: Seq<char>, preview: P)
    requires
        is_registered(registry.components, name),
    ensures
        snapshot(registry).contains_key(name),
        !registry.previews.contains_key(name) ==> snapshot(registry)[name].preview is None
            && !with_preview_only(snapshot(registry)).contains_key(name),
        snapshot(registry.with_preview(name, preview)).contains_key(name),
        snapshot(registry.with_preview(name, preview))[name].preview == Some(preview),
        with_preview_only(snapshot(registry.with_preview(name, preview))).contains_key(name),
{
    lemma_catalog_names(registry, name);
    lemma_catalog_names(registry.with_preview(name, preview), name);
    lemma_last_registration(registry.components, name);
}

/// A preview changes the entry under its own name and no other.
pub proof fn lemma_preview_touches_one_entry<P>(
    registry: RegistryView<P>,
    name: Seq<char>,
    preview: P,
    other: Seq<char>,
)
    requires
        other != name,
    ensures
        snapshot(registry.with_preview(name, preview)).contains_key(other) == snapshot(
            registry,
        ).contains_key(other),
        snapshot(registry).contains_key(other) ==> snapshot(registry.with_preview(name, preview))[other]
            == snapshot(registry)[other],
{
    lemma_last_registration(registry.components, other);
}

/// A catalog made before a new component is registered does not show it: the
/// name has no entry there. The catalog made afterwards has the entry, and
/// beside it the entries of the earlier one, unchanged.
pub proof fn lemma_snapshot_isolation<P>(registry: RegistryView<P>, registration: RegistrationView)
    requires
        !is_registered(registry.components, registration.name),
    ensures
        !snapshot(registry).contains_key(registration.name),
        snapshot(registry.with_component(registration)).contains_key(registration.name),
        snapshot(registry.with_component(registration)).remove(registration.name) == snapshot(
            registry,
        ),
{
    lemma_catalog_names(registry, registration.name);
    lemma_snapshot_with_component(registry, registration);
    assert(snapshot(registry).insert(
        registration.name,
        metadata_of(registration, registry.previews),
    ).remove(registration.name) =~= snapshot(registry));
}

/// Before anything is registered the catalog is empty.
pub proof fn lemma_empty_registry_empty_catalog<P>()
    ensures
        snapshot(RegistryView::<P>::empty()) == Catalog::<P>::empty(),
        with_preview_only(snapshot(RegistryView::<P>::empty())) == Catalog::<P>::empty(),
{
    lemma_snapshot_empty::<P>();
    assert(with_preview_only(Catalog::<P>::empty()) =~= Catalog::<P>::empty());
}

/// The catalog of a list of registrations followed by the same list again is
/// the catalog of the list once.
pub proof fn lemma_registered_twice<P>(registry: RegistryView<P>, list: Seq<RegistrationView>)
    ensures
        snapshot(registry.with_components(list).with_components(list)) == snapshot(
            registry.with_components(list),
        ),
{
    let once = registry.with_components(list);
    let twice = once.with_components(list);
    assert forall|name: Seq<char>| #[trigger]
        snapshot(once).contains_key(name) == snapshot(twice).contains_key(name) && (snapshot(
            once,
        ).contains_key(name) ==> snapshot(twice)[name] == snapshot(once)[name]) by {
        lemma_last_registration(once.components, name);
        lemma_last_registration(twice.components, name);
        lemma_last_registration(list, name);
        let n = registry.components.len() as int;
        let m = list.len() as int;
        match last_registration(twice.components, name) {
            Some(at) => {
                if at >= n + m {
                    assert(twice.components[at] == list[at - n - m]);
                    assert(once.components[at - m] == list[at - n - m]);
                    assert forall|j: int| at - m < j < once.components.len() implies once.components[j].name
                        != name by {
                        assert(twice.components[j + m] == list[j - n]);
                        assert(once.components[j] == list[j - n]);
                    }
                    crate::catalog::lemma_last_registration_at(once.components, name, at - m);
                } else {
                    assert(twice.components[at] == once.components[at]);
                    assert forall|j: int| at < j < once.components.len() implies once.components[j].name
                        != name by {
                        assert(twice.components[j] == once.components[j]);
                    }
                    crate::catalog::lemma_last_registration_at(once.components, name, at);
                }
            },
            None => {
                assert forall|j: int| 0 <= j < once.components.len() implies once.components[j].name
                    != name by {
                    assert(twice.components[j] == once.components[j]);
                }
            },
        }
    }
    assert(snapshot(twice) =~= snapshot(once));
}

/// The position of the last preview registered under a name, if the list
/// holds one.
pub open spec fn last_preview<P>(list: Seq<PreviewView<P>>, name: Seq<char>) -> Option<int>
    decreases list.len(),
{
    if list.len() == 0 {
        None
    } else if list.last().name == name {
        Some(list.len() - 1)
    } else {
        last_preview(list.drop_last(), name)
    }
}

/// After a list of previews a name holds the last preview that the list has
/// for it; a name that the list does not mention holds what it held.
pub proof fn lemma_previews_last_wins<P>(
    registry: RegistryView<P>,
    list: Seq<PreviewView<P>>,
    name: Seq<char>,
)
    ensures
        last_preview(list, name) matches Some(at) ==> 0 <= at < list.len() && list[at].name == name
            && registry.with_previews(list).previews.contains_key(name) && registry.with_previews(
            list,
        ).previews[name] == list[at].preview,
        last_preview(list, name) is None ==> registry.with_previews(list).previews.contains_key(
            name,
        ) == registry.previews.contains_key(name) && (registry.previews.contains_key(name)
            ==> registry.with_previews(list).previews[name] == registry.previews[name]),
    decreases list.len(),
{
    if list.len() > 0 {
        lemma_previews_last_wins(registry, list.drop_last(), name);
    }
}

/// Registering a list of previews a second time changes nothing.
pub proof fn lemma_previews_twice<P>(registry: RegistryView<P>, list: Seq<PreviewView<P>>)
    ensures
        registry.with_previews(list).with_previews(list) == registry.with_previews(list),
{
    let once = registry.with_previews(list);
    let twice = once.with_previews(list);
    lemma_previews_keep_components(registry, list);
    lemma_previews_keep_components(once, list);
    assert forall|name: Seq<char>| #[trigger]
        twice.previews.dom().contains(name) == once.previews.dom().contains(name) && (
        once.previews.dom().contains(name) ==> twice.previews[name] == once.previews[name]) by {
        lemma_previews_last_wins(registry, list, name);
        lemma_previews_last_wins(once, list, name);
    }
    assert(twice.previews =~= once.previews);
}

/// A second run of the two passes, with callbacks that return what they
/// returned the first time, leaves the catalog as the first run left it.
pub proof fn lemma_second_run_same_catalog<P>(
    registry: RegistryView<P>,
    components: Seq<RegistrationView>,
    previews: Seq<PreviewView<P>>,
)
    ensures
        snapshot(
            registry.with_components(components).with_previews(previews).with_components(
                components,
            ).with_previews(previews),
        ) == snapshot(registry.with_components(components).with_previews(previews)),
{
    let once = registry.with_components(components).with_previews(previews);
    let shown = registry.with_previews(previews);
    // The first run is the previews and then the components.
    lemma_passes_commute(registry, components, previews);
    assert(once == shown.with_components(components));
    // In the second run the previews change nothing, so it only adds the
    // components again.
    lemma_passes_commute(once, components, previews);
    lemma_previews_twice(registry.with_components(components), previews);
    assert(once.with_components(components).with_previews(previews) == once.with_components(
        components,
    ));
    lemma_registered_twice(shown, components);
}

/// A catalog has one sorted listing: two lists that hold its entries, each
/// sorted by name, are the same list.
pub proof fn lemma_sorted_listing_unique<P>(
    one: Seq<MetadataView<P>>,
    other: Seq<MetadataView<P>>,
    catalog: Catalog<P>,
)
    requires
        lists(one, catalog),
        sorted_by_name(one),
        lists(other, catalog),
        sorted_by_name(other),
    ensures
        one == other,
{
    lemma_lists_len(one, catalog);
    lemma_lists_len(other, catalog);
    lemma_sorted_listing_agree(one, other, catalog, one.len() as int);
    assert(one =~= other);
}

proof fn lemma_sorted_listing_agree<P>(
    one: Seq<MetadataView<P>>,
    other: Seq<MetadataView<P>>,
    catalog: Catalog<P>,
    n: int,
)
    requires
        lists(one, catalog),
        sorted_by_name(one),
        lists(other, catalog),
        sorted_by_name(other),
        one.len() == other.len(),
        0 <= n <= one.len(),
    ensures
        forall|i: int| 0 <= i < n ==> one[i] == other[i],
    decreases n,
{
    if n > 0 {
        lemma_sorted_listing_agree(one, other, catalog, n - 1);
        let i = n - 1;
        assert(catalog.contains_key(one[i].name));
        assert(catalog.contains_key(other[i].name));
        let j = choose|j: int| 0 <= j < other.len() && (#[trigger] other[j]).name == one[i].name;
        let k = choose|k: int| 0 <= k < one.len() && (#[trigger] one[k]).name == other[i].name;
        if j < i {
            assert(one[j] == other[j]);
            assert(one[j].name != one[i].name);
        }
        if k < i {
            assert(one[k] == other[k]);
            assert(other[k].name != other[i].name);
        }
        if j > i && k > i {
            assert(text_le(other[i].name, other[j].name));
            assert(text_le(one[i].name, one[k].name));
            lemma_text_le_antisymmetric(one[i].name, other[i].name);
        }
        if j == i {
            assert(catalog[one[i].name] == one[i]);
            assert(catalog[other[i].name] == other[i]);
        } else if k == i {
            assert(catalog[one[i].name] == one[i]);
            assert(catalog[other[i].name] == other[i]);
        } else {
            assert(one[i].name == other[i].name);
            assert(other[j].name != other[i].name || j == i) by {
                if j < i {
                    assert(other[j].name != other[i].name);
                } else if i < j {
                    assert(other[i].name != other[j].name);
                }
            }
        }
    }
}

} // verus!
