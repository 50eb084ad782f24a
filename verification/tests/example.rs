use component::example::{
    example_group, example_group_with_title, single_example, ComponentExample,
    ComponentExampleGroup, ExampleLabelSide,
};

#[test]
fn label_stands_above_by_default() {
    assert_eq!(ExampleLabelSide::default(), ExampleLabelSide::Top);
}

#[test]
fn new_example() {
    let example = ComponentExample::new("Default", 7u32);
    assert_eq!(example.variant_name(), "Default");
    assert_eq!(*example.element(), 7);
    assert_eq!(example.label_side(), ExampleLabelSide::Top);
    assert!(!example.grows());
}

#[test]
fn example_set_to_grow() {
    let example = ComponentExample::new("Wide", "element").grow();
    assert!(example.grows());
    assert_eq!(example.variant_name(), "Wide");
    assert_eq!(*example.element(), "element");
    assert_eq!(example.label_side(), ExampleLabelSide::Top);
    let (name, element) = example.into_parts();
    assert_eq!(name, "Wide");
    assert_eq!(element, "element");
}

#[test]
fn single_example_is_new_example() {
    let example = single_example("Default", 1u8);
    assert_eq!(example.variant_name(), "Default");
    assert_eq!(*example.element(), 1);
    assert!(!example.grows());
}

#[test]
fn group_without_title() {
    let group = ComponentExampleGroup::new(vec![single_example("A", 1u8), single_example("B", 2)]);
    assert_eq!(group.title, None);
    assert_eq!(group.examples.len(), 2);
    assert_eq!(group.examples[0].variant_name(), "A");
    assert_eq!(group.examples[1].variant_name(), "B");
    assert!(!group.grow);
    assert!(!group.vertical);
}

#[test]
fn group_with_title() {
    let group = ComponentExampleGroup::with_title("Sizes", vec![single_example("A", 1u8)]);
    assert_eq!(group.title, Some("Sizes".to_string()));
    assert_eq!(group.examples.len(), 1);
    assert!(!group.grow);
    assert!(!group.vertical);
}

#[test]
fn group_builders() {
    let group = example_group(vec![single_example("A", 1u8)]).grow();
    assert!(group.grow);
    assert!(!group.vertical);
    assert_eq!(group.title, None);
    let group = example_group_with_title("Sizes", vec![single_example("A", 1u8)]).vertical();
    assert!(!group.grow);
    assert!(group.vertical);
    assert_eq!(group.title, Some("Sizes".to_string()));
    assert_eq!(group.examples.len(), 1);
    let group = example_group(Vec::<ComponentExample<u8>>::new()).vertical().grow();
    assert!(group.grow);
    assert!(group.vertical);
    assert!(group.examples.is_empty());
}
