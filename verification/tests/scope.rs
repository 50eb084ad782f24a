use component::scope::ComponentScope;

#[test]
fn named_scopes_from_text() {
    assert_eq!(ComponentScope::from("Layout"), ComponentScope::Layout);
    assert_eq!(ComponentScope::from("Input"), ComponentScope::Input);
    assert_eq!(ComponentScope::from("Notification"), ComponentScope::Notification);
    assert_eq!(ComponentScope::from("Editor"), ComponentScope::Editor);
    assert_eq!(ComponentScope::from("Collaboration"), ComponentScope::Collaboration);
    assert_eq!(ComponentScope::from("Version Control"), ComponentScope::VersionControl);
}

#[test]
fn version_control_without_space() {
    assert_eq!(ComponentScope::from("VersionControl"), ComponentScope::VersionControl);
}

#[test]
fn unknown_text_is_kept() {
    assert_eq!(
        ComponentScope::from("Status Bar"),
        ComponentScope::Unknown("Status Bar".to_string())
    );
}

#[test]
fn scope_names_are_case_sensitive() {
    assert_eq!(ComponentScope::from("layout"), ComponentScope::Unknown("layout".to_string()));
    assert_eq!(ComponentScope::from("Layout "), ComponentScope::Unknown("Layout ".to_string()));
    assert_eq!(ComponentScope::from("Layou"), ComponentScope::Unknown("Layou".to_string()));
}

#[test]
fn empty_text_is_unknown() {
    assert_eq!(ComponentScope::from(""), ComponentScope::Unknown(String::new()));
}

#[test]
fn scope_from_owned_text() {
    assert_eq!(ComponentScope::from("Editor".to_string()), ComponentScope::Editor);
    assert_eq!(ComponentScope::from("VersionControl".to_string()), ComponentScope::VersionControl);
    assert_eq!(
        ComponentScope::from("Überblick".to_string()),
        ComponentScope::Unknown("Überblick".to_string())
    );
}

#[test]
fn scope_display_text() {
    assert_eq!(ComponentScope::Layout.to_string(), "Layout");
    assert_eq!(ComponentScope::Input.to_string(), "Input");
    assert_eq!(ComponentScope::Notification.to_string(), "Notification");
    assert_eq!(ComponentScope::Editor.to_string(), "Editor");
    assert_eq!(ComponentScope::Collaboration.to_string(), "Collaboration");
    assert_eq!(ComponentScope::VersionControl.to_string(), "Version Control");
    assert_eq!(ComponentScope::Unknown("Status Bar".to_string()).to_string(), "Unknown: Status Bar");
    assert_eq!(ComponentScope::Unknown(String::new()).to_string(), "Unknown: ");
}

#[test]
fn named_scopes_round_trip() {
    let named = vec![
        ComponentScope::Layout,
        ComponentScope::Input,
        ComponentScope::Notification,
        ComponentScope::Editor,
        ComponentScope::Collaboration,
        ComponentScope::VersionControl,
    ];
    for scope in named {
        let shown = scope.to_string();
        assert_eq!(ComponentScope::from(shown.as_str()), scope);
        assert_eq!(ComponentScope::from(shown), scope);
    }
}

#[test]
fn unknown_scope_round_trip_keeps_text() {
    let scope = ComponentScope::from("Tooling");
    let shown = scope.to_string();
    assert_eq!(shown, "Unknown: Tooling");
    assert_eq!(
        ComponentScope::from(shown.as_str()),
        ComponentScope::Unknown("Unknown: Tooling".to_string())
    );
}

#[test]
fn scope_clone_is_equal() {
    let scope = ComponentScope::Unknown("Tooling".to_string());
    assert_eq!(scope.clone(), scope);
    assert_eq!(ComponentScope::Editor.clone(), ComponentScope::Editor);
}
