//! The scopes by which components are grouped.
//!
//! A scope is one of six named areas, or `Unknown` with the text it was made
//! from. Making a scope from a text never fails: a text that names no area is
//! kept as it is inside `Unknown`.

use crate::text::text_eq;
use vstd::prelude::*;
use vstd::std_specs::convert::FromSpecImpl;

verus! {

/// The area of the interface that a component belongs to.
#[derive(Debug, PartialEq, Eq, Hash)]
pub enum ComponentScope {
    Layout,
    Input,
    Notification,
    Editor,
    Collaboration,
    VersionControl,
    Unknown(String),
}

/// A scope as a plain value: `Unknown` holds the characters of its text.
pub enum ScopeView {
    Layout,
    Input,
    Notification,
    Editor,
    Collaboration,
    VersionControl,
    Unknown(Seq<char>),
}

impl View for ComponentScope {
    type V = ScopeView;

    open spec fn view(&self) -> ScopeView {
        match self {
            ComponentScope::Layout => ScopeView::Layout,
            ComponentScope::Input => ScopeView::Input,
            ComponentScope::Notification => ScopeView::Notification,
            ComponentScope::Editor => ScopeView::Editor,
            ComponentScope::Collaboration => ScopeView::Collaboration,
            ComponentScope::VersionControl => ScopeView::VersionControl,
            ComponentScope::Unknown(text) => ScopeView::Unknown(text@),
        }
    }
}

/// The scope that a text stands for. `Version Control` may be written with or
/// without the space; any text that names no area gives `Unknown` with that
/// text.
pub open spec fn scope_of_text(text: Seq<char>) -> ScopeView {
    if text == "Layout"@ {
        ScopeView::Layout
    } else if text == "Input"@ {
        ScopeView::Input
    } else if text == "Notification"@ {
        ScopeView::Notification
    } else if text == "Editor"@ {
        ScopeView::Editor
    } else if text == "Collaboration"@ {
        ScopeView::Collaboration
    } else if text == "Version Control"@ || text == "VersionControl"@ {
        ScopeView::VersionControl
    } else {
        ScopeView::Unknown(text)
    }
}

/// The text under which a scope is shown.
pub open spec fn text_of_scope(scope: ScopeView) -> Seq<char> {
    match scope {
        ScopeView::Layout => "Layout"@,
        ScopeView::Input => "Input"@,
        ScopeView::Notification => "Notification"@,
        ScopeView::Editor => "Editor"@,
        ScopeView::Collaboration => "Collaboration"@,
        ScopeView::VersionControl => "Version Control"@,
        ScopeView::Unknown(text) => "Unknown: "@ + text,
    }
}

/// The texts of the scopes start with different letters, but for the two
/// ways to write `Version Control`, which differ in length.
proof fn lemma_scope_texts_differ()
    ensures
        "Layout"@.len() == 6 && "Layout"@[0] == 'L',
        "Input"@.len() == 5 && "Input"@[0] == 'I',
        "Notification"@.len() == 12 && "Notification"@[0] == 'N',
        "Editor"@.len() == 6 && "Editor"@[0] == 'E',
        "Collaboration"@.len() == 13 && "Collaboration"@[0] == 'C',
        "Version Control"@.len() == 15 && "Version Control"@[0] == 'V',
        "VersionControl"@.len() == 14 && "VersionControl"@[0] == 'V',
        "Unknown: "@.len() == 9 && "Unknown: "@[0] == 'U',
{
    reveal_strlit("Layout");
    reveal_strlit("Input");
    reveal_strlit("Notification");
    reveal_strlit("Editor");
    reveal_strlit("Collaboration");
    reveal_strlit("Version Control");
    reveal_strlit("VersionControl");
    reveal_strlit("Unknown: ");
}

/// A named scope comes back from the text under which it is shown.
pub proof fn lemma_named_scope_round_trip(scope: ScopeView)
    requires
        !(scope is Unknown),
    ensures
        scope_of_text(text_of_scope(scope)) == scope,
{
    lemma_scope_texts_differ();
    let text = text_of_scope(scope);
    match scope {
        ScopeView::Layout => {},
        ScopeView::Input => {
            assert(text[0] == 'I');
        },
        ScopeView::Notification => {
            assert(text[0] == 'N');
        },
        ScopeView::Editor => {
            assert(text[0] == 'E');
        },
        ScopeView::Collaboration => {
            assert(text[0] == 'C');
        },
        ScopeView::VersionControl => {
            assert(text[0] == 'V');
        },
        ScopeView::Unknown(_) => {},
    }
}

/// Whether a text is one of the names by which an area is recognised.
pub open spec fn names_a_scope(text: Seq<char>) -> bool {
    ||| text == "Layout"@
    ||| text == "Input"@
    ||| text == "Notification"@
    ||| text == "Editor"@
    ||| text == "Collaboration"@
    ||| text == "Version Control"@
    ||| text == "VersionControl"@
}

/// A text that names no area is kept, character for character, inside
/// `Unknown`, and no other text gives `Unknown`.
pub proof fn lemma_unrecognized_text_is_kept(text: Seq<char>)
    ensures
        !names_a_scope(text) ==> scope_of_text(text) == ScopeView::Unknown(text),
        names_a_scope(text) ==> !(scope_of_text(text) is Unknown),
{
}

/// An unknown scope is shown with its text behind `Unknown: `, and the scope
/// made from what is shown is unknown again, holding all of what was shown.
pub proof fn lemma_unknown_scope_round_trip(text: Seq<char>)
    ensures
        text_of_scope(ScopeView::Unknown(text)) == "Unknown: "@ + text,
        text_of_scope(ScopeView::Unknown(text)).subrange(
            "Unknown: "@.len() as int,
            text_of_scope(ScopeView::Unknown(text)).len() as int,
        ) == text,
        scope_of_text(text_of_scope(ScopeView::Unknown(text))) == ScopeView::Unknown(
            "Unknown: "@ + text,
        ),
{
    lemma_scope_texts_differ();
    let shown = "Unknown: "@ + text;
    assert(shown[0] == 'U');
    assert(shown.subrange("Unknown: "@.len() as int, shown.len() as int) =~= text);
}

/// The scope that a text stands for, with the text at hand for `Unknown`.
fn scope_from(value: &str) -> (scope: Option<ComponentScope>)
    ensures
        scope matches Some(named) ==> named@ == scope_of_text(value@) && !(named is Unknown),
        scope is None ==> scope_of_text(value@) == ScopeView::Unknown(value@),
{
    if text_eq(value, "Layout") {
        Some(ComponentScope::Layout)
    } else if text_eq(value, "Input") {
        Some(ComponentScope::Input)
    } else if text_eq(value, "Notification") {
        Some(ComponentScope::Notification)
    } else if text_eq(value, "Editor") {
        Some(ComponentScope::Editor)
    } else if text_eq(value, "Collaboration") {
        Some(ComponentScope::Collaboration)
    } else if text_eq(value, "Version Control") || text_eq(value, "VersionControl") {
        Some(ComponentScope::VersionControl)
    } else {
        None
    }
}

impl<'a> From<&'a str> for ComponentScope {
    /// The scope that `value` stands for.
    fn from(value: &'a str) -> (scope: Self)
        ensures
            scope@ == scope_of_text(value@),
    {
        match scope_from(value) {
            Some(named) => named,
            None => ComponentScope::Unknown(value.to_owned()),
        }
    }
}

/// Scopes are told apart by their views, which is what `from` states; the
/// result as a value of the type is left open.
impl<'a> FromSpecImpl<&'a str> for ComponentScope {
    open spec fn obeys_from_spec() -> bool {
        false
    }

    open spec fn from_spec(value: &'a str) -> Self {
        arbitrary()
    }
}

impl From<String> for ComponentScope {
    /// The scope that `value` stands for.
    fn from(value: String) -> (scope: Self)
        ensures
            scope@ == scope_of_text(value@),
    {
        match scope_from(value.as_str()) {
            Some(named) => named,
            None => ComponentScope::Unknown(value),
        }
    }
}

/// As for `&str`: `from` states its result by the view.
impl FromSpecImpl<String> for ComponentScope {
    open spec fn obeys_from_spec() -> bool {
        false
    }

    open spec fn from_spec(value: String) -> Self {
        arbitrary()
    }
}

impl Clone for ComponentScope {
    fn clone(&self) -> (copy: Self)
        ensures
            copy@ == self@,
    {
        match self {
            ComponentScope::Layout => ComponentScope::Layout,
            ComponentScope::Input => ComponentScope::Input,
            ComponentScope::Notification => ComponentScope::Notification,
            ComponentScope::Editor => ComponentScope::Editor,
            ComponentScope::Collaboration => ComponentScope::Collaboration,
            ComponentScope::VersionControl => ComponentScope::VersionControl,
            ComponentScope::Unknown(text) => ComponentScope::Unknown(text.clone()),
        }
    }
}

impl ComponentScope {
    /// The text under which the scope is shown.
    pub fn to_string(&self) -> (shown: String)
        ensures
            shown@ == text_of_scope(self@),
    {
        match self {
            ComponentScope::Layout => "Layout".to_owned(),
            ComponentScope::Input => "Input".to_owned(),
            ComponentScope::Notification => "Notification".to_owned(),
            ComponentScope::Editor => "Editor".to_owned(),
            ComponentScope::Collaboration => "Collaboration".to_owned(),
            ComponentScope::VersionControl => "Version Control".to_owned(),
            ComponentScope::Unknown(text) => {
                let mut shown = "Unknown: ".to_owned();
                shown.append(text.as_str());
                shown
            },
        }
    }
}

} // verus!
