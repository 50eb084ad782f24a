//! The registry: what components have said of themselves, before it is joined
//! into a catalog.
//!
//! A registry holds the registrations of components in the order in which they
//! came, a name as often as it was registered, and for each name at most one
//! preview, the one that came last. Registering never fails.

use crate::index::NameTable;
use crate::scope::{ComponentScope, ScopeView};
use vstd::prelude::*;

verus! {

/// What a component reports of itself.
pub trait Component {
    /// The area of the interface that the component belongs to, if any.
    fn scope() -> Option<ComponentScope>;

    /// The name under which the component is registered and found again.
    fn name() -> &'static str;

    /// A sentence or two about the component, if there is any. A component
    /// that does not say otherwise has none.
    fn description() -> (description: Option<&'static str>)
        default_ensures
            description is None,
    {
        None
    }
}

/// A component that can show itself: `preview` hands out what draws it.
pub trait ComponentPreview: Component {
    /// What draws a preview. The registry stores it and never calls it.
    type Preview;

    fn preview() -> Self::Preview;
}

/// One registration of a component.
pub struct ComponentRegistration {
    pub scope: Option<ComponentScope>,
    pub name: &'static str,
    pub description: Option<&'static str>,
}

/// A registration as a plain value.
pub struct RegistrationView {
    pub scope: Option<ScopeView>,
    pub name: Seq<char>,
    pub description: Option<Seq<char>>,
}

/// An optional scope as a plain value.
pub open spec fn scope_view(scope: Option<ComponentScope>) -> Option<ScopeView> {
    match scope {
        Some(scope) => Some(scope@),
        None => None,
    }
}

/// An optional text as its characters.
pub open spec fn text_view(text: Option<&'static str>) -> Option<Seq<char>> {
    match text {
        Some(text) => Some(text@),
        None => None,
    }
}

impl View for ComponentRegistration {
    type V = RegistrationView;

    open spec fn view(&self) -> RegistrationView {
        RegistrationView {
            scope: scope_view(self.scope),
            name: self.name@,
            description: text_view(self.description),
        }
    }
}

/// One registration of a preview: the name of the component and what draws it.
pub struct PreviewRegistration<P> {
    pub name: &'static str,
    pub preview: P,
}

/// A preview registration as a plain value.
pub struct PreviewView<P> {
    pub name: Seq<char>,
    pub preview: P,
}

impl<P> View for PreviewRegistration<P> {
    type V = PreviewView<P>;

    open spec fn view(&self) -> PreviewView<P> {
        PreviewView { name: self.name@, preview: self.preview }
    }
}

/// The registrations of a list, as plain values.
pub open spec fn registration_views(list: Seq<ComponentRegistration>) -> Seq<RegistrationView> {
    list.map_values(|c: ComponentRegistration| c@)
}

/// The preview registrations of a list, as plain values.
pub open spec fn preview_views<P>(list: Seq<PreviewRegistration<P>>) -> Seq<PreviewView<P>> {
    list.map_values(|p: PreviewRegistration<P>| p@)
}

/// A registry as a plain value: the registrations in the order in which they
/// came, and the preview under each name that has one.
pub struct RegistryView<P> {
    pub components: Seq<RegistrationView>,
    pub previews: Map<Seq<char>, P>,
}

impl<P> RegistryView<P> {
    /// The registry in which nothing is registered.
    pub open spec fn empty() -> Self {
        RegistryView { components: Seq::empty(), previews: Map::empty() }
    }

    /// The registry after one more registration: it stands last, whatever
    /// came before it.
    pub open spec fn with_component(self, registration: RegistrationView) -> Self {
        RegistryView { components: self.components.push(registration), previews: self.previews }
    }

    /// The registry after a preview is registered under a name: it takes the
    /// place of the one that the name had.
    pub open spec fn with_preview(self, name: Seq<char>, preview: P) -> Self {
        RegistryView { components: self.components, previews: self.previews.insert(name, preview) }
    }

    /// The registry after a list of registrations, in the order of the list.
    pub open spec fn with_components(self, list: Seq<RegistrationView>) -> Self {
        RegistryView { components: self.components + list, previews: self.previews }
    }

    /// The registry after a list of preview registrations, in the order of
    /// the list.
    pub open spec fn with_previews(self, list: Seq<PreviewView<P>>) -> Self
        decreases list.len(),
    {
        if list.len() == 0 {
            self
        } else {
            self.with_previews(list.drop_last()).with_preview(list.last().name, list.last().preview)
        }
    }
}

/// The registrations of components and of previews.
pub struct ComponentRegistry<P> {
    components: Vec<ComponentRegistration>,
    previews: NameTable<P>,
}

impl<P> View for ComponentRegistry<P> {
    type V = RegistryView<P>;

    closed spec fn view(&self) -> RegistryView<P> {
        RegistryView { components: registration_views(self.components@), previews: self.previews@ }
    }
}

impl<P> ComponentRegistry<P> {
    /// The registry's invariant, which `new` establishes and every function
    /// keeps.
    pub closed spec fn wf(&self) -> bool {
        self.previews.wf()
    }

    /// A registry in which nothing is registered.
    pub fn new() -> (registry: Self)
        ensures
            registry.wf(),
            registry@ == RegistryView::<P>::empty(),
    {
        let registry = ComponentRegistry { components: Vec::new(), previews: NameTable::new() };
        proof {
            assert(registry@.components =~= Seq::<RegistrationView>::empty());
        }
        registry
    }

    /// Adds one registration behind those that are there. A name may be
    /// registered any number of times.
    pub fn add_component(&mut self, registration: ComponentRegistration)
        requires
            old(self).wf(),
        ensures
            final(self).wf(),
            final(self)@ == old(self)@.with_component(registration@),
    {
        self.components.push(registration);
        proof {
            assert(registration_views(self.components@) =~= registration_views(
                old(self).components@,
            ).push(registration@));
        }
    }

    /// Registers a preview under a name, in place of the one that the name
    /// had.
    pub fn add_preview(&mut self, name: &'static str, preview: P)
        requires
            old(self).wf(),
        ensures
            final(self).wf(),
            final(self)@ == old(self)@.with_preview(name@, preview),
    {
        self.previews.insert(name, preview);
    }

    /// Adds a list of registrations, in the order of the list.
    pub fn add_components(&mut self, list: Vec<ComponentRegistration>)
        requires
            old(self).wf(),
        ensures
            final(self).wf(),
            final(self)@ == old(self)@.with_components(registration_views(list@)),
    {
        let mut list = list;
        let ghost added = list@;
        self.components.append(&mut list);
        proof {
            assert(registration_views(self.components@) =~= registration_views(
                old(self).components@,
            ) + registration_views(added));
        }
    }

    /// Registers a list of previews, in the order of the list.
    pub fn add_previews(&mut self, list: Vec<PreviewRegistration<P>>)
        requires
            old(self).wf(),
        ensures
            final(self).wf(),
            final(self)@ == old(self)@.with_previews(preview_views(list@)),
    {
        let ghost all = list@;
        for registration in it: list
            invariant
                self.wf(),
                it.seq() == all,
                self@ == old(self)@.with_previews(preview_views(all.take(it.index() as int))),
        {
            proof {
                let k = it.index() as int;
                assert(all.take(k + 1).drop_last() =~= all.take(k));
                assert(preview_views(all.take(k + 1)).drop_last() =~= preview_views(all.take(k)));
                assert(preview_views(all.take(k + 1)).last() == all[k]@);
            }
            let PreviewRegistration { name, preview } = registration;
            self.previews.insert(name, preview);
        }
        proof {
            assert(all.take(all.len() as int) =~= all);
        }
    }

    /// The number of registrations, a name counted as often as it was
    /// registered.
    pub fn registration_count(&self) -> (count: usize)
        ensures
            count == self@.components.len(),
    {
        self.components.len()
    }

    /// The registration at a position, in the order in which they came.
    pub fn registration(&self, i: usize) -> (registration: &ComponentRegistration)
        requires
            i < self@.components.len(),
        ensures
            registration@ == self@.components[i as int],
    {
        &self.components[i]
    }

    /// The preview registered under a name, if there is one.
    pub fn preview(&self, name: &str) -> (preview: Option<&P>)
        requires
            self.wf(),
        ensures
            preview matches Some(p) ==> self@.previews.contains_key(name@) && *p
                == self@.previews[name@],
            preview is None ==> !self@.previews.contains_key(name@),
    {
        self.previews.get(name)
    }
}

/// `list` holds, position by position, a value that the function at that
/// position of `fns` may return.
pub open spec fn returned_by<F: Fn() -> R, R>(fns: Seq<F>, list: Seq<R>) -> bool {
    &&& list.len() == fns.len()
    &&& forall|i: int| 0 <= i < fns.len() ==> call_ensures(#[trigger] fns[i], (), list[i])
}

/// `registration` holds what the component `T` reports of itself.
pub open spec fn reported_by<T: Component>(registration: ComponentRegistration) -> bool {
    &&& call_ensures(T::scope, (), registration.scope)
    &&& call_ensures(T::name, (), registration.name)
    &&& call_ensures(T::description, (), registration.description)
}

/// Registers the component `T`: its scope, name and description, as it
/// reports them, are added behind the registrations that are there.
pub fn register_component<T: Component, P>(registry: &mut ComponentRegistry<P>)
    requires
        old(registry).wf(),
    ensures
        final(registry).wf(),
        exists|registration: ComponentRegistration|
            reported_by::<T>(registration) && final(registry)@ == old(registry)@.with_component(
                registration@,
            ),
{
    let registration = ComponentRegistration {
        scope: T::scope(),
        name: T::name(),
        description: T::description(),
    };
    proof {
        assert(reported_by::<T>(registration));
    }
    registry.add_component(registration);
}

/// Registers the preview of the component `T` under the name that `T`
/// reports, in place of the one that the name had.
pub fn register_preview<T: ComponentPreview>(registry: &mut ComponentRegistry<T::Preview>)
    requires
        old(registry).wf(),
    ensures
        final(registry).wf(),
        exists|name: &'static str, preview: T::Preview|
            call_ensures(T::name, (), name) && call_ensures(T::preview, (), preview)
                && final(registry)@ == old(registry)@.with_preview(name@, preview),
{
    let name = T::name();
    let preview = T::preview();
    registry.add_preview(name, preview);
}

/// Calls each function of a list, in the order of the list, and hands back
/// what they returned.
pub fn call_each<F: Fn() -> R, R>(fns: &[F]) -> (list: Vec<R>)
    requires
        forall|i: int| 0 <= i < fns@.len() ==> call_requires(#[trigger] fns@[i], ()),
    ensures
        returned_by(fns@, list@),
{
    let mut list: Vec<R> = Vec::new();
    let mut i: usize = 0;
    while i < fns.len()
        invariant
            i <= fns@.len(),
            forall|k: int| 0 <= k < fns@.len() ==> call_requires(#[trigger] fns@[k], ()),
            list@.len() == i,
            forall|k: int| 0 <= k < i ==> call_ensures(#[trigger] fns@[k], (), list@[k]),
        decreases fns@.len() - i,
    {
        let returned = (fns[i])();
        list.push(returned);
        i += 1;
    }
    list
}

/// The registry after one run of the two passes: the components that the
/// first pass brought, and then the previews that the second pass brought.
pub open spec fn after_run<P>(
    before: RegistryView<P>,
    components: Seq<ComponentRegistration>,
    previews: Seq<PreviewRegistration<P>>,
) -> RegistryView<P> {
    before.with_components(registration_views(components)).with_previews(preview_views(previews))
}

/// Fills the registry from two lists of callbacks: first every callback that
/// registers a component, then every callback that registers a preview, each
/// list in its order. A second run registers everything again.
pub fn init<P, F, G>(registry: &mut ComponentRegistry<P>, component_fns: &[F], preview_fns: &[G])
    where
        F: Fn() -> ComponentRegistration,
        G: Fn() -> PreviewRegistration<P>,
    requires
        old(registry).wf(),
        forall|i: int|
            0 <= i < component_fns@.len() ==> call_requires(#[trigger] component_fns@[i], ()),
        forall|i: int| 0 <= i < preview_fns@.len() ==> call_requires(#[trigger] preview_fns@[i], ()),
    ensures
        final(registry).wf(),
        exists|components: Seq<ComponentRegistration>, previews: Seq<PreviewRegistration<P>>|
            returned_by(component_fns@, components) && returned_by(preview_fns@, previews)
                && final(registry)@ == after_run(old(registry)@, components, previews),
{
    let components = call_each(component_fns);
    let ghost registered = components@;
    registry.add_components(components);
    let previews = call_each(preview_fns);
    let ghost previewed = previews@;
    registry.add_previews(previews);
    proof {
        assert(returned_by(component_fns@, registered) && returned_by(preview_fns@, previewed)
            && registry@ == after_run(old(registry)@, registered, previewed));
    }
}

} // verus!
