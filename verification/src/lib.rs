//! A catalog of components that describe themselves.
//!
//! A component registers its name, its scope and a description, and may
//! register a preview. The registry keeps what was registered; a catalog is
//! made from it on demand, with one entry for each name, and can be listed
//! as it is or sorted by name.
//!
//! The registry is a value that its owner passes on. Whoever wants one
//! registry for a whole program keeps it behind a lock and hands it to the
//! functions here.

pub mod catalog;
pub mod example;
pub mod index;
pub mod laws;
pub mod registry;
pub mod scope;
pub mod text;

pub use crate::catalog::{components, AllComponents, ComponentId, ComponentMetadata};
pub use crate::example::{
    example_group, example_group_with_title, single_example, ComponentExample,
    ComponentExampleGroup, ExampleLabelSide,
};
pub use crate::registry::{
    init, register_component, register_preview, Component, ComponentPreview, ComponentRegistration,
    ComponentRegistry, PreviewRegistration,
};
pub use crate::scope::ComponentScope;
