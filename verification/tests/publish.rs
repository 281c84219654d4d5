use gpuicn::publish::{
    build_item, build_order, component_title, is_rust_filename, published_name, registry_index,
    validate_components,
};
use gpuicn::registry::{Manifest, Metadata, RegistryError};

fn strings(items: &[&str]) -> Vec<String> {
    items.iter().map(|s| s.to_string()).collect()
}

fn manifest(components: Vec<(String, Metadata)>) -> Manifest {
    Manifest { name: "gpuicn".into(), homepage: "https://example.test".into(), components }
}

#[test]
fn titles_capitalize_words() {
    assert_eq!(component_title("button"), "Button");
    assert_eq!(component_title("context_menu"), "Context Menu");
    assert_eq!(component_title("_alert__dialog_"), "Alert Dialog");
    assert_eq!(component_title("otp-field"), "Otp-field");
    assert_eq!(published_name("context_menu"), "context-menu");
}

#[test]
fn theme_is_built_first() {
    let order = build_order(&strings(&["button", "menu", "theme", "toast"]));
    assert_eq!(order, ["theme", "button", "menu", "toast"]);
}

#[test]
fn components_must_exist_and_be_valid() {
    let available = strings(&["button", "theme"]);
    assert!(validate_components(&available, &manifest(Vec::new())).is_ok());
    let extra = manifest(vec![(
        "dialog".into(),
        Metadata { title: None, description: None, dependencies: Vec::new() },
    )]);
    assert_eq!(
        validate_components(&available, &extra),
        Err(RegistryError::InvalidComponent("dialog".into()))
    );
    assert_eq!(
        validate_components(&strings(&["Bad"]), &manifest(Vec::new())),
        Err(RegistryError::InvalidComponent("Bad".into()))
    );
}

#[test]
fn items_carry_sources_titles_and_descriptions() {
    let sources = vec![
        ("theme".to_string(), "theme.rs".to_string(), "pub struct Theme;".to_string()),
        ("context_menu".to_string(), "context_menu.rs".to_string(), "pub struct Menu;".to_string()),
    ];
    let item = build_item("context_menu", None, &sources).unwrap();
    assert_eq!(item.name, "context-menu");
    assert_eq!(item.kind, "registry:item");
    assert_eq!(item.title, "Context Menu");
    assert_eq!(
        item.description,
        "The shadcn default Context Menu visual port backed by Base GPUI behavior."
    );
    assert_eq!(item.schema.as_deref(), Some("https://ui.shadcn.com/schema/registry-item.json"));
    assert_eq!(item.files.len(), 2);
    assert_eq!(item.files[1].path, "registry/context_menu/context_menu.rs");
    assert_eq!(item.files[1].target, "~/src/ui/context_menu.rs");
    assert_eq!(item.files[1].kind, "registry:file");
    assert_eq!(item.files[1].content.as_deref(), Some("pub struct Menu;"));
    let meta = Metadata {
        title: Some("Menus".into()),
        description: Some("Menus.".into()),
        dependencies: Vec::new(),
    };
    let custom = build_item("menu", Some(&meta), &Vec::new()).unwrap();
    assert_eq!(custom.title, "Menus");
    assert_eq!(custom.description, "Menus.");
    let index = registry_index("gpuicn", "https://example.test", vec![item, custom]);
    assert_eq!(index.schema, "https://ui.shadcn.com/schema/registry.json");
    assert_eq!(index.items.len(), 2);
    assert!(index.items[0].schema.is_none());
    assert!(index.items[0].files.iter().all(|f| f.content.is_none()));
    assert_eq!(index.items[0].files[1].path, "registry/context_menu/context_menu.rs");
}

#[test]
fn duplicate_and_unusable_modules_are_refused() {
    let duplicate = vec![
        ("a".to_string(), "shared.rs".to_string(), String::new()),
        ("b".to_string(), "shared.rs".to_string(), String::new()),
    ];
    assert_eq!(
        build_item("b", None, &duplicate).map(|i| i.name),
        Err(RegistryError::DuplicateModule("shared".into()))
    );
    let bad = vec![("a".to_string(), "mod.rs".to_string(), String::new())];
    assert_eq!(
        build_item("a", None, &bad).map(|i| i.name),
        Err(RegistryError::InvalidModule("mod".into()))
    );
}

#[test]
fn only_rust_sources_are_published() {
    assert!(is_rust_filename("button.rs"));
    assert!(is_rust_filename("..rs"));
    assert!(!is_rust_filename(".rs"));
    assert!(!is_rust_filename("notes.md"));
    assert!(!is_rust_filename("rs"));
}
