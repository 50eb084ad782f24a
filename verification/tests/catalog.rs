use component::catalog::{components, AllComponents, ComponentId, ComponentMetadata};
use component::registry::{ComponentRegistration, ComponentRegistry};
use component::scope::ComponentScope;

type Preview = fn() -> &'static str;

fn button_preview() -> &'static str {
    "a button"
}

fn avatar_preview() -> &'static str {
    "an avatar"
}

fn registration(
    scope: &str,
    name: &'static str,
    description: &'static str,
) -> ComponentRegistration {
    ComponentRegistration {
        scope: Some(ComponentScope::from(scope)),
        name,
        description: Some(description),
    }
}

fn names(list: &[ComponentMetadata<Preview>]) -> Vec<&'static str> {
    list.iter().map(|metadata| metadata.name()).collect()
}

fn sorted_names_of_refs(list: Vec<&ComponentMetadata<Preview>>) -> Vec<&'static str> {
    let mut names: Vec<&'static str> = list.iter().map(|metadata| metadata.name()).collect();
    names.sort();
    names
}

#[test]
fn empty_registry_gives_empty_catalog() {
    let registry: ComponentRegistry<Preview> = ComponentRegistry::new();
    let catalog = components(&registry);
    assert_eq!(catalog.len(), 0);
    assert!(catalog.is_empty());
    assert!(catalog.all().is_empty());
    assert!(catalog.all_sorted().is_empty());
    assert!(catalog.all_previews().is_empty());
    assert!(catalog.all_previews_sorted().is_empty());
    assert!(catalog.get(&ComponentId("Button")).is_none());
    assert!(!catalog.contains_key(&ComponentId("Button")));
}

#[test]
fn new_catalog_is_empty() {
    let catalog: AllComponents<Preview> = AllComponents::new();
    assert_eq!(catalog.len(), 0);
    assert!(catalog.is_empty());
    assert!(catalog.all().is_empty());
}

#[test]
fn second_registration_of_a_name_wins() {
    let mut registry: ComponentRegistry<Preview> = ComponentRegistry::new();
    registry.add_component(registration("Layout", "Button", "v1"));
    registry.add_component(registration("Layout", "Button", "v2"));
    let catalog = components(&registry);
    assert_eq!(catalog.len(), 1);
    assert_eq!(catalog.all().len(), 1);
    let button = catalog.get(&ComponentId("Button")).unwrap();
    assert_eq!(button.name(), "Button");
    assert_eq!(button.id(), ComponentId("Button"));
    assert_eq!(button.description(), Some("v2"));
    assert_eq!(button.scope(), Some(ComponentScope::Layout));
}

#[test]
fn last_registration_wins_with_others_between() {
    let mut registry: ComponentRegistry<Preview> = ComponentRegistry::new();
    registry.add_component(registration("Layout", "Button", "v1"));
    registry.add_component(registration("Input", "Checkbox", "a box"));
    registry.add_component(registration("Editor", "Button", "v2"));
    registry.add_component(registration("Layout", "Avatar", "a face"));
    let catalog = components(&registry);
    assert_eq!(catalog.len(), 3);
    let button = catalog.get(&ComponentId("Button")).unwrap();
    assert_eq!(button.description(), Some("v2"));
    assert_eq!(button.scope(), Some(ComponentScope::Editor));
    assert_eq!(names(&catalog.all_sorted()), vec!["Avatar", "Button", "Checkbox"]);
}

#[test]
fn distinct_names_appear_once_in_any_order() {
    let orders: [[usize; 3]; 6] =
        [[0, 1, 2], [0, 2, 1], [1, 0, 2], [1, 2, 0], [2, 0, 1], [2, 1, 0]];
    let data = [
        ("Layout", "Button", "a button"),
        ("Input", "Checkbox", "a box"),
        ("Layout", "Avatar", "a face"),
    ];
    for order in orders {
        let mut registry: ComponentRegistry<Preview> = ComponentRegistry::new();
        for i in order {
            registry.add_component(registration(data[i].0, data[i].1, data[i].2));
        }
        let catalog = components(&registry);
        assert_eq!(catalog.len(), 3);
        assert_eq!(
            sorted_names_of_refs(catalog.all()),
            vec!["Avatar", "Button", "Checkbox"]
        );
        for (scope, name, description) in data {
            let entry = catalog.get(&ComponentId(name)).unwrap();
            assert_eq!(entry.scope(), Some(ComponentScope::from(scope)));
            assert_eq!(entry.description(), Some(description));
        }
    }
}

#[test]
fn preview_may_come_before_or_after_the_component() {
    let mut before: ComponentRegistry<Preview> = ComponentRegistry::new();
    before.add_preview("Button", button_preview);
    before.add_component(registration("Layout", "Button", "a button"));
    let mut after: ComponentRegistry<Preview> = ComponentRegistry::new();
    after.add_component(registration("Layout", "Button", "a button"));
    after.add_preview("Button", button_preview);
    for registry in [before, after] {
        let catalog = components(&registry);
        let button = catalog.get(&ComponentId("Button")).unwrap();
        let preview = button.preview().unwrap();
        assert_eq!(preview(), "a button");
        assert_eq!(catalog.all_previews().len(), 1);
    }
}

#[test]
fn component_without_preview_is_not_among_previews() {
    let mut registry: ComponentRegistry<Preview> = ComponentRegistry::new();
    registry.add_component(registration("Layout", "Button", "a button"));
    let catalog = components(&registry);
    assert_eq!(sorted_names_of_refs(catalog.all()), vec!["Button"]);
    assert!(catalog.all_previews().is_empty());
    assert!(catalog.all_previews_sorted().is_empty());
    assert!(catalog.get(&ComponentId("Button")).unwrap().preview().is_none());

    registry.add_preview("Button", button_preview);
    let catalog = components(&registry);
    assert_eq!(sorted_names_of_refs(catalog.all()), vec!["Button"]);
    assert_eq!(sorted_names_of_refs(catalog.all_previews()), vec!["Button"]);
    assert_eq!(names(&catalog.all_previews_sorted()), vec!["Button"]);
    let preview = catalog.get(&ComponentId("Button")).unwrap().preview().unwrap();
    assert_eq!(preview(), "a button");
}

#[test]
fn preview_without_component_gives_no_entry() {
    let mut registry: ComponentRegistry<Preview> = ComponentRegistry::new();
    registry.add_preview("Button", button_preview);
    let catalog = components(&registry);
    assert!(catalog.is_empty());
    assert!(catalog.all_previews().is_empty());
}

#[test]
fn later_preview_replaces_earlier_one() {
    let mut registry: ComponentRegistry<Preview> = ComponentRegistry::new();
    registry.add_component(registration("Layout", "Button", "a button"));
    registry.add_preview("Button", avatar_preview);
    registry.add_preview("Button", button_preview);
    let catalog = components(&registry);
    let preview = catalog.get(&ComponentId("Button")).unwrap().preview().unwrap();
    assert_eq!(preview(), "a button");
    assert_eq!(catalog.all_previews().len(), 1);
}

#[test]
fn previews_are_joined_by_name() {
    let mut registry: ComponentRegistry<Preview> = ComponentRegistry::new();
    registry.add_component(registration("Layout", "Button", "a button"));
    registry.add_component(registration("Layout", "Avatar", "a face"));
    registry.add_component(registration("Input", "Checkbox", "a box"));
    registry.add_preview("Avatar", avatar_preview);
    registry.add_preview("Button", button_preview);
    let catalog = components(&registry);
    assert_eq!(names(&catalog.all_previews_sorted()), vec!["Avatar", "Button"]);
    assert_eq!(sorted_names_of_refs(catalog.all_previews()), vec!["Avatar", "Button"]);
    let avatar = catalog.get(&ComponentId("Avatar")).unwrap().preview().unwrap();
    assert_eq!(avatar(), "an avatar");
    let button = catalog.get(&ComponentId("Button")).unwrap().preview().unwrap();
    assert_eq!(button(), "a button");
    assert!(catalog.get(&ComponentId("Checkbox")).unwrap().preview().is_none());
}

#[test]
fn all_sorted_is_in_order_of_names() {
    let mut registry: ComponentRegistry<Preview> = ComponentRegistry::new();
    for name in ["Tooltip", "button", "Avatar", "Button", "ButtonLike", "Zed", "apple", "Élan"] {
        registry.add_component(registration("Layout", name, "x"));
    }
    let catalog = components(&registry);
    assert_eq!(
        names(&catalog.all_sorted()),
        vec!["Avatar", "Button", "ButtonLike", "Tooltip", "Zed", "apple", "button", "Élan"]
    );
}

#[test]
fn all_sorted_never_decreases() {
    let mut registry: ComponentRegistry<Preview> = ComponentRegistry::new();
    for name in ["m", "c", "x", "a", "q", "b", "z", "k", "d", "y", "e"] {
        registry.add_component(registration("Layout", name, "x"));
    }
    let catalog = components(&registry);
    let sorted = catalog.all_sorted();
    assert_eq!(sorted.len(), 11);
    for pair in sorted.windows(2) {
        assert!(pair[0].name() <= pair[1].name());
    }
}

#[test]
fn snapshot_does_not_see_later_registrations() {
    let mut registry: ComponentRegistry<Preview> = ComponentRegistry::new();
    registry.add_component(registration("Layout", "Button", "a button"));
    let earlier = components(&registry);
    registry.add_component(registration("Layout", "Avatar", "a face"));
    registry.add_preview("Button", button_preview);
    assert_eq!(earlier.len(), 1);
    assert!(earlier.get(&ComponentId("Avatar")).is_none());
    assert!(earlier.get(&ComponentId("Button")).unwrap().preview().is_none());
    let later = components(&registry);
    assert_eq!(later.len(), 2);
    assert!(later.get(&ComponentId("Avatar")).is_some());
    assert!(later.get(&ComponentId("Button")).unwrap().preview().is_some());
}

#[test]
fn unknown_scope_is_kept_in_the_catalog() {
    let mut registry: ComponentRegistry<Preview> = ComponentRegistry::new();
    registry.add_component(registration("Status Bar", "Clock", "the time"));
    registry.add_component(ComponentRegistration { scope: None, name: "Bare", description: None });
    let catalog = components(&registry);
    let clock = catalog.get(&ComponentId("Clock")).unwrap();
    assert_eq!(clock.scope(), Some(ComponentScope::Unknown("Status Bar".to_string())));
    let bare = catalog.get(&ComponentId("Bare")).unwrap();
    assert_eq!(bare.scope(), None);
    assert_eq!(bare.description(), None);
}

#[test]
fn insert_puts_entry_under_its_name() {
    let mut catalog: AllComponents<Preview> = AllComponents::new();
    catalog.insert(ComponentMetadata::new("Button", None, Some("v1"), None));
    catalog.insert(ComponentMetadata::new("Avatar", None, None, Some(avatar_preview as Preview)));
    catalog.insert(ComponentMetadata::new("Button", None, Some("v2"), None));
    assert_eq!(catalog.len(), 2);
    assert!(catalog.contains_key(&ComponentId("Button")));
    assert!(catalog.contains_key(&ComponentId("Avatar")));
    assert!(!catalog.contains_key(&ComponentId("Checkbox")));
    assert_eq!(catalog.get(&ComponentId("Button")).unwrap().description(), Some("v2"));
    assert_eq!(names(&catalog.all_previews_sorted()), vec!["Avatar"]);
}

#[test]
fn metadata_clone_keeps_everything() {
    let metadata: ComponentMetadata<Preview> = ComponentMetadata::new(
        "Button",
        Some(ComponentScope::Unknown("Odd".to_string())),
        Some("a button"),
        Some(button_preview as Preview),
    );
    let copy = metadata.clone();
    assert_eq!(copy.name(), "Button");
    assert_eq!(copy.id(), ComponentId("Button"));
    assert_eq!(copy.id().clone(), ComponentId("Button"));
    assert_eq!(copy.scope(), Some(ComponentScope::Unknown("Odd".to_string())));
    assert_eq!(copy.description(), Some("a button"));
    assert_eq!(copy.preview().unwrap()(), "a button");
}
