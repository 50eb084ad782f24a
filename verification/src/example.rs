//! Examples of a component, as a preview shows them: an element that is
//! drawn, a label beside it, and how the two are laid out. What draws an
//! element is not this library's business, so the element's type is left
//! open.

use vstd::prelude::*;

verus! {

/// The side of an example on which its label stands.
#[derive(Debug, Clone, Copy, PartialEq, Eq, Structural)]
pub enum ExampleLabelSide {
    Left,
    Right,
    Top,
    Bottom,
}

impl Default for ExampleLabelSide {
    /// A label stands above its example unless told otherwise.
    fn default() -> (side: Self)
        ensures
            side == ExampleLabelSide::Top,
    {
        ExampleLabelSide::Top
    }
}

/// One example of a component.
pub struct ComponentExample<E> {
    variant_name: String,
    element: E,
    label_side: ExampleLabelSide,
    grow: bool,
}

/// An example as a plain value.
pub struct ExampleView<E> {
    pub variant_name: Seq<char>,
    pub element: E,
    pub label_side: ExampleLabelSide,
    pub grow: bool,
}

impl<E> View for ComponentExample<E> {
    type V = ExampleView<E>;

    closed spec fn view(&self) -> ExampleView<E> {
        ExampleView {
            variant_name: self.variant_name@,
            element: self.element,
            label_side: self.label_side,
            grow: self.grow,
        }
    }
}

impl<E> ComponentExample<E> {
    /// An example with a label and an element: the label stands above, and
    /// the example does not grow.
    pub fn new(variant_name: &str, element: E) -> (example: Self)
        ensures
            example@ == (ExampleView {
                variant_name: variant_name@,
                element,
                label_side: ExampleLabelSide::Top,
                grow: false,
            }),
    {
        ComponentExample {
            variant_name: variant_name.to_owned(),
            element,
            label_side: ExampleLabelSide::default(),
            grow: false,
        }
    }

    /// The same example, set to fill the room that there is to its sides.
    pub fn grow(self) -> (example: Self)
        ensures
            example@ == (ExampleView { grow: true, ..self@ }),
    {
        let mut example = self;
        example.grow = true;
        example
    }

    /// The label of the example.
    pub fn variant_name(&self) -> (name: &str)
        ensures
            name@ == self@.variant_name,
    {
        self.variant_name.as_str()
    }

    /// The side on which the label stands.
    pub fn label_side(&self) -> (side: ExampleLabelSide)
        ensures
            side == self@.label_side,
    {
        self.label_side
    }

    /// Whether the example fills the room that there is to its sides.
    pub fn grows(&self) -> (grows: bool)
        ensures
            grows == self@.grow,
    {
        self.grow
    }

    /// The element of the example.
    pub fn element(&self) -> (element: &E)
        ensures
            *element == self@.element,
    {
        &self.element
    }

    /// The example taken apart: its label and its element.
    pub fn into_parts(self) -> (parts: (String, E))
        ensures
            parts.0@ == self@.variant_name,
            parts.1 == self@.element,
    {
        (self.variant_name, self.element)
    }
}

/// Some examples of a component under one title.
pub struct ComponentExampleGroup<E> {
    pub title: Option<String>,
    pub examples: Vec<ComponentExample<E>>,
    pub grow: bool,
    pub vertical: bool,
}

/// An optional title as its characters.
pub open spec fn title_view(title: Option<String>) -> Option<Seq<char>> {
    match title {
        Some(title) => Some(title@),
        None => None,
    }
}

impl<E> ComponentExampleGroup<E> {
    /// A group without a title: its examples stand side by side, and it does
    /// not grow.
    pub fn new(examples: Vec<ComponentExample<E>>) -> (group: Self)
        ensures
            group.title is None,
            group.examples == examples,
            !group.grow,
            !group.vertical,
    {
        ComponentExampleGroup { title: None, examples, grow: false, vertical: false }
    }

    /// A group under a title: its examples stand side by side, and it does
    /// not grow.
    pub fn with_title(title: &str, examples: Vec<ComponentExample<E>>) -> (group: Self)
        ensures
            title_view(group.title) == Some(title@),
            group.examples == examples,
            !group.grow,
            !group.vertical,
    {
        ComponentExampleGroup {
            title: Some(title.to_owned()),
            examples,
            grow: false,
            vertical: false,
        }
    }

    /// The same group, set to fill the room that there is to its sides.
    pub fn grow(self) -> (group: Self)
        ensures
            group == (ComponentExampleGroup { grow: true, ..self }),
    {
        let mut group = self;
        group.grow = true;
        group
    }

    /// The same group, with its examples one below the other.
    pub fn vertical(self) -> (group: Self)
        ensures
            group == (ComponentExampleGroup { vertical: true, ..self }),
    {
        let mut group = self;
        group.vertical = true;
        group
    }
}

/// One example, with its label above it.
pub fn single_example<E>(variant_name: &str, example: E) -> (made: ComponentExample<E>)
    ensures
        made@ == (ExampleView {
            variant_name: variant_name@,
            element: example,
            label_side: ExampleLabelSide::Top,
            grow: false,
        }),
{
    ComponentExample::new(variant_name, example)
}

/// A group of examples without a title.
pub fn example_group<E>(examples: Vec<ComponentExample<E>>) -> (group: ComponentExampleGroup<E>)
    ensures
        group.title is None,
        group.examples == examples,
        !group.grow,
        !group.vertical,
{
    ComponentExampleGroup::new(examples)
}

/// A group of examples under a title.
pub fn example_group_with_title<E>(title: &str, examples: Vec<ComponentExample<E>>) -> (group:
    ComponentExampleGroup<E>)
    ensures
        title_view(group.title) == Some(title@),
        group.examples == examples,
        !group.grow,
        !group.vertical,
{
    ComponentExampleGroup::with_title(title, examples)
}

} // verus!
