use component::catalog::{components, ComponentId};
use component::registry::{
    call_each, init, register_component, register_preview, Component, ComponentPreview,
    ComponentRegistration, ComponentRegistry, PreviewRegistration,
};
use component::scope::ComponentScope;

type Preview = fn() -> &'static str;

struct Button;

impl Component for Button {
    fn scope() -> Option<ComponentScope> {
        Some(ComponentScope::Input)
    }

    fn name() -> &'static str {
        "Button"
    }

    fn description() -> Option<&'static str> {
        Some("Something to press")
    }
}

fn draw_button() -> &'static str {
    "[ ok ]"
}

impl ComponentPreview for Button {
    type Preview = Preview;

    fn preview() -> Preview {
        draw_button
    }
}

struct Spacer;

impl Component for Spacer {
    fn scope() -> Option<ComponentScope> {
        None
    }

    fn name() -> &'static str {
        "Spacer"
    }
}

fn button_v1() -> ComponentRegistration {
    ComponentRegistration {
        scope: Some(ComponentScope::Layout),
        name: "Button",
        description: Some("v1"),
    }
}

fn button_v2() -> ComponentRegistration {
    ComponentRegistration {
        scope: Some(ComponentScope::Layout),
        name: "Button",
        description: Some("v2"),
    }
}

fn avatar() -> ComponentRegistration {
    ComponentRegistration { scope: Some(ComponentScope::Layout), name: "Avatar", description: None }
}

fn button_preview_old() -> PreviewRegistration<Preview> {
    PreviewRegistration { name: "Button", preview: || "old" }
}

fn button_preview_new() -> PreviewRegistration<Preview> {
    PreviewRegistration { name: "Button", preview: draw_button }
}

#[test]
fn new_registry_is_empty() {
    let registry: ComponentRegistry<Preview> = ComponentRegistry::new();
    assert_eq!(registry.registration_count(), 0);
    assert!(registry.preview("Button").is_none());
}

#[test]
fn registrations_accumulate_in_order() {
    let mut registry: ComponentRegistry<Preview> = ComponentRegistry::new();
    registry.add_component(button_v1());
    registry.add_component(avatar());
    registry.add_component(button_v2());
    assert_eq!(registry.registration_count(), 3);
    assert_eq!(registry.registration(0).name, "Button");
    assert_eq!(registry.registration(0).description, Some("v1"));
    assert_eq!(registry.registration(1).name, "Avatar");
    assert_eq!(registry.registration(2).name, "Button");
    assert_eq!(registry.registration(2).description, Some("v2"));
}

#[test]
fn add_components_keeps_list_order() {
    let mut registry: ComponentRegistry<Preview> = ComponentRegistry::new();
    registry.add_component(avatar());
    registry.add_components(vec![button_v1(), button_v2()]);
    assert_eq!(registry.registration_count(), 3);
    assert_eq!(registry.registration(0).name, "Avatar");
    assert_eq!(registry.registration(1).description, Some("v1"));
    assert_eq!(registry.registration(2).description, Some("v2"));
}

#[test]
fn add_previews_last_one_wins() {
    let mut registry: ComponentRegistry<Preview> = ComponentRegistry::new();
    registry.add_previews(vec![button_preview_old(), button_preview_new()]);
    let preview = registry.preview("Button").unwrap();
    assert_eq!(preview(), "[ ok ]");
    let mut registry: ComponentRegistry<Preview> = ComponentRegistry::new();
    registry.add_previews(vec![button_preview_new(), button_preview_old()]);
    let preview = registry.preview("Button").unwrap();
    assert_eq!(preview(), "old");
}

#[test]
fn register_component_takes_what_the_component_reports() {
    let mut registry: ComponentRegistry<Preview> = ComponentRegistry::new();
    register_component::<Button, Preview>(&mut registry);
    register_component::<Spacer, Preview>(&mut registry);
    assert_eq!(registry.registration_count(), 2);
    let button = registry.registration(0);
    assert_eq!(button.name, "Button");
    assert_eq!(button.scope, Some(ComponentScope::Input));
    assert_eq!(button.description, Some("Something to press"));
    let spacer = registry.registration(1);
    assert_eq!(spacer.name, "Spacer");
    assert_eq!(spacer.scope, None);
    assert_eq!(spacer.description, None);
}

#[test]
fn register_preview_goes_under_the_component_name() {
    let mut registry: ComponentRegistry<Preview> = ComponentRegistry::new();
    register_component::<Button, Preview>(&mut registry);
    register_preview::<Button>(&mut registry);
    let catalog = components(&registry);
    let button = catalog.get(&ComponentId("Button")).unwrap();
    assert_eq!(button.preview().unwrap()(), "[ ok ]");
    assert_eq!(catalog.all_previews().len(), 1);
}

#[test]
fn call_each_keeps_order() {
    let fns: Vec<fn() -> u32> = vec![|| 3, || 1, || 2];
    assert_eq!(call_each(&fns), vec![3, 1, 2]);
    let none: Vec<fn() -> u32> = Vec::new();
    assert!(call_each(&none).is_empty());
}

#[test]
fn init_runs_components_then_previews() {
    let component_fns: Vec<fn() -> ComponentRegistration> = vec![button_v1, avatar, button_v2];
    let preview_fns: Vec<fn() -> PreviewRegistration<Preview>> =
        vec![button_preview_old, button_preview_new];
    let mut registry: ComponentRegistry<Preview> = ComponentRegistry::new();
    init(&mut registry, &component_fns, &preview_fns);
    assert_eq!(registry.registration_count(), 3);
    let catalog = components(&registry);
    assert_eq!(catalog.len(), 2);
    let button = catalog.get(&ComponentId("Button")).unwrap();
    assert_eq!(button.description(), Some("v2"));
    assert_eq!(button.preview().unwrap()(), "[ ok ]");
    assert!(catalog.get(&ComponentId("Avatar")).unwrap().preview().is_none());
}

#[test]
fn init_twice_gives_the_same_catalog() {
    let component_fns: Vec<fn() -> ComponentRegistration> = vec![button_v1, avatar, button_v2];
    let preview_fns: Vec<fn() -> PreviewRegistration<Preview>> = vec![button_preview_new];
    let mut registry: ComponentRegistry<Preview> = ComponentRegistry::new();
    init(&mut registry, &component_fns, &preview_fns);
    init(&mut registry, &component_fns, &preview_fns);
    assert_eq!(registry.registration_count(), 6);
    let catalog = components(&registry);
    assert_eq!(catalog.len(), 2);
    let listed: Vec<&'static str> = catalog.all_sorted().iter().map(|m| m.name()).collect();
    assert_eq!(listed, vec!["Avatar", "Button"]);
    assert_eq!(catalog.get(&ComponentId("Button")).unwrap().description(), Some("v2"));
}

#[test]
fn init_with_nothing_changes_nothing() {
    let component_fns: Vec<fn() -> ComponentRegistration> = Vec::new();
    let preview_fns: Vec<fn() -> PreviewRegistration<Preview>> = Vec::new();
    let mut registry: ComponentRegistry<Preview> = ComponentRegistry::new();
    registry.add_component(avatar());
    init(&mut registry, &component_fns, &preview_fns);
    assert_eq!(registry.registration_count(), 1);
    assert_eq!(components(&registry).len(), 1);
}
