use gpuicn::install::{
    FileCollector, InstallTarget, RegistryItem, SourceFile, declarations, insert_entry,
    is_rust_source, mod_update, plan_writes, root_modules,
};
use gpuicn::registry::{Manifest, Metadata, RegistryError, dependencies, module_name, valid_name};

fn strings(items: &[&str]) -> Vec<String> {
    items.iter().map(|s| s.to_string()).collect()
}

fn metadata(dependencies: &[&str]) -> Metadata {
    Metadata { title: None, description: None, dependencies: strings(dependencies) }
}

fn button_item(name: &str) -> RegistryItem {
    RegistryItem {
        schema: None,
        name: name.into(),
        kind: "registry:item".into(),
        title: "Button".into(),
        description: String::new(),
        files: vec![SourceFile {
            path: "registry/button/button.rs".into(),
            kind: "registry:file".into(),
            target: "../../outside.rs".into(),
            content: Some("pub struct Button;\n".into()),
        }],
    }
}

#[test]
fn dependency_order_is_shared_once_and_cycles_fail() {
    let manifest = Manifest {
        name: "test".into(),
        homepage: "local".into(),
        components: vec![
            ("context_menu".into(), metadata(&["menu"])),
            ("menu".into(), metadata(&["button"])),
        ],
    };
    let available = strings(&["theme", "button", "menu", "context_menu"]);
    let mut result = Vec::new();
    dependencies(&"context_menu".to_string(), &manifest, &available, &mut Vec::new(), &mut result)
        .unwrap();
    assert_eq!(result, ["theme", "button", "menu", "context_menu"]);
    let cyclic = Manifest {
        name: "test".into(),
        homepage: "local".into(),
        components: vec![("theme".into(), metadata(&["button"]))],
    };
    assert!(
        dependencies(&"button".to_string(), &cyclic, &available, &mut Vec::new(), &mut Vec::new())
            .is_err()
    );
}

#[test]
fn local_install_keeps_edits_updates_modules_and_rejects_unsafe_input_before_writing() {
    // The registry returns the requested button; its remote target is ignored.
    let mut collector = FileCollector::new(&strings(&["button"]));
    let name = collector.next_name().unwrap();
    assert_eq!(name, "button");
    collector.accept(&button_item(&name)).unwrap();
    assert!(collector.next_name().is_none());
    let files = collector.finish();
    assert_eq!(files, vec![("button".to_string(), "pub struct Button;\n".to_string())]);

    // A first installation writes the module and declares it.
    let updated = mod_update(&files, "").unwrap();
    assert_eq!(updated, "pub mod button;\n");
    let plan = plan_writes(&files, &vec![None], &Vec::new(), updated, false);
    assert!(plan.kept.is_empty());
    assert_eq!(plan.writes.len(), 2);
    assert!(matches!(&plan.writes[0].target, InstallTarget::Module(m) if m == "button"));
    assert!(!plan.writes[0].replace);
    assert!(matches!(plan.writes[1].target, InstallTarget::ModFile));

    // A caller edit is kept, and a customized mod.rs already declaring the module stays.
    let existing_mod = "// Keep me\npub mod button;\nfn custom() {}\n";
    let updated = mod_update(&files, existing_mod).unwrap();
    assert!(updated.contains("fn custom() {}"));
    assert_eq!(updated, existing_mod);
    let edited = vec![Some(b"// caller edit\n".to_vec())];
    let plan = plan_writes(&files, &edited, &existing_mod.as_bytes().to_vec(), updated.clone(), false);
    assert_eq!(plan.kept, ["button"]);
    assert!(plan.writes.is_empty());

    // Overwriting replaces the edited file.
    let plan = plan_writes(&files, &edited, &existing_mod.as_bytes().to_vec(), updated, true);
    assert!(plan.kept.is_empty());
    assert_eq!(plan.writes.len(), 1);
    assert_eq!(plan.writes[0].content, "pub struct Button;\n");
    assert!(plan.writes[0].replace);

    for bad in [
        "../outside.rs",
        "/absolute.rs",
        "registry/../bad.rs",
        "registry\\bad.rs",
        "registry/mod.rs",
        "registry/type.rs",
    ] {
        assert!(module_name(bad).is_err(), "{bad}");
    }
    // The second requested component is missing: the registry answers with another item.
    let mut collector = FileCollector::new(&strings(&["button", "missing"]));
    collector.accept(&button_item("button")).unwrap();
    assert_eq!(collector.next_name().unwrap(), "missing");
    assert!(collector.accept(&button_item("button")).is_err());
    assert!(!valid_name("../escape"));
    assert!(declarations("not valid Rust", &strings(&["button"])).is_err());
    let mut dialog = Vec::new();
    insert_entry(&mut dialog, "dialog".into(), "#[path = \"modal_focus.rs\"] mod focus;".into());
    insert_entry(&mut dialog, "modal_focus".into(), "fn helper() {}".into());
    assert_eq!(root_modules(&dialog).unwrap(), ["dialog"]);
}

#[test]
fn module_names_come_from_safe_rust_paths() {
    assert_eq!(module_name("registry/button/button.rs").unwrap(), "button");
    assert_eq!(module_name("a/b_c2.rs").unwrap(), "b_c2");
    assert_eq!(
        module_name("registry/button/readme.md"),
        Err(RegistryError::NotRustSource("registry/button/readme.md".into()))
    );
    assert_eq!(
        module_name("registry/./x.rs"),
        Err(RegistryError::UnsafePath("registry/./x.rs".into()))
    );
    assert_eq!(
        module_name("registry/Upper.rs"),
        Err(RegistryError::InvalidModule("Upper".into()))
    );
    assert_eq!(module_name("registry/fn.rs"), Err(RegistryError::InvalidModule("fn".into())));
}

#[test]
fn component_names_are_lowercase_words() {
    assert!(valid_name("button"));
    assert!(valid_name("context_menu"));
    assert!(valid_name("a-2"));
    assert!(!valid_name(""));
    assert!(!valid_name("2fa"));
    assert!(!valid_name("Button"));
    assert!(!valid_name("a.b"));
}

#[test]
fn unknown_and_cyclic_dependencies_are_named() {
    let manifest = Manifest {
        name: "test".into(),
        homepage: "local".into(),
        components: vec![("menu".into(), metadata(&["ghost"])), ("solo".into(), metadata(&["solo"]))],
    };
    let available = strings(&["theme", "menu", "solo"]);
    assert_eq!(
        dependencies(&"menu".to_string(), &manifest, &available, &mut Vec::new(), &mut Vec::new()),
        Err(RegistryError::UnknownDependency("ghost".into()))
    );
    assert_eq!(
        dependencies(&"solo".to_string(), &manifest, &available, &mut Vec::new(), &mut Vec::new()),
        Err(RegistryError::DependencyCycle("solo".into()))
    );
    let mut result = strings(&["theme"]);
    dependencies(&"theme".to_string(), &manifest, &available, &mut Vec::new(), &mut result).unwrap();
    assert_eq!(result, ["theme"]);
}

#[test]
fn collected_items_are_checked() {
    let mut collector = FileCollector::new(&strings(&["button"]));
    assert_eq!(
        collector.accept(&button_item("card")),
        Err(RegistryError::NameMismatch("button".into(), "card".into()))
    );
    let mut empty = button_item("button");
    empty.files.clear();
    assert_eq!(collector.accept(&empty), Err(RegistryError::FileCount("button".into())));
    let mut kind = button_item("button");
    kind.files[0].kind = "registry:ui".into();
    assert_eq!(collector.accept(&kind), Err(RegistryError::FileKind("registry:ui".into())));
    let mut missing = button_item("button");
    missing.files[0].content = None;
    assert_eq!(collector.accept(&missing), Err(RegistryError::MissingContent("button".into())));
    let mut broken = button_item("button");
    broken.files[0].content = Some("pub struct".into());
    assert_eq!(collector.accept(&broken), Err(RegistryError::InvalidSource("button".into())));
    let mut conflicting = button_item("button");
    conflicting.files.push(SourceFile {
        path: "registry/other/button.rs".into(),
        kind: "registry:file".into(),
        target: String::new(),
        content: Some("pub struct Other;\n".into()),
    });
    assert_eq!(collector.accept(&conflicting), Err(RegistryError::ConflictingModule("button".into())));
}

#[test]
fn declarations_append_missing_modules_in_order() {
    assert_eq!(
        declarations("pub mod card;", &strings(&["dialog", "button", "card"])).unwrap(),
        "pub mod card;\npub mod button;\npub mod dialog;\n"
    );
    assert_eq!(
        declarations("mod button { }\n", &strings(&["button"])),
        Err(RegistryError::InlineModule("button".into()))
    );
    assert_eq!(
        declarations("#[path = \"x.rs\"]\nmod button;\n", &strings(&["button"])),
        Err(RegistryError::InlineModule("button".into()))
    );
    assert_eq!(declarations("", &strings(&["a", "a"])).unwrap(), "pub mod a;\n");
    assert!(is_rust_source("fn main() {}"));
    assert!(!is_rust_source("fn main("));
}

#[test]
fn an_installation_needs_sources() {
    assert_eq!(mod_update(&Vec::new(), ""), Err(RegistryError::NoSources));
}

#[test]
fn installing_again_changes_nothing() {
    let files = vec![
        ("button".to_string(), "pub struct Button;\n".to_string()),
        ("card".to_string(), "pub struct Card;\n".to_string()),
    ];
    let installed = mod_update(&files, "").unwrap();
    assert_eq!(installed, "pub mod button;\npub mod card;\n");
    let again = mod_update(&files, &installed).unwrap();
    assert_eq!(again, installed);
    let existing: Vec<Option<Vec<u8>>> = files.iter().map(|(_, text)| Some(text.as_bytes().to_vec())).collect();
    for overwrite in [false, true] {
        let plan = plan_writes(&files, &existing, &installed.as_bytes().to_vec(), again.clone(), overwrite);
        assert!(plan.kept.is_empty());
        assert!(plan.writes.is_empty());
    }
}

#[test]
fn only_path_attributes_with_strings_remove_root_modules() {
    let files = vec![
        (
            "dialog".to_string(),
            "#[doc = \"focus.rs\"] mod focus;\n#[path = \"modal.rs\"] #[cfg(test)] mod modal;\nmod inline { #[path = \"other.rs\"] mod other; }\n".to_string(),
        ),
        ("focus".to_string(), "pub fn f() {}\n".to_string()),
        ("modal".to_string(), "pub fn g() {}\n".to_string()),
        ("other".to_string(), "pub fn h() {}\n".to_string()),
    ];
    assert_eq!(root_modules(&files).unwrap(), ["dialog", "focus", "other"]);
}

#[test]
fn module_stems_follow_the_identifier_rule() {
    assert_eq!(module_name("a/_private.rs").unwrap(), "_private");
    assert_eq!(module_name("a/x9.rs").unwrap(), "x9");
    for stem in ["_", "9lives", "self", "super", "crate", "async", "yield", "mod"] {
        let path = format!("a/{stem}.rs");
        assert_eq!(module_name(&path), Err(RegistryError::InvalidModule(stem.into())), "{stem}");
    }
    assert_eq!(module_name("a/.rs"), Err(RegistryError::InvalidModule("".into())));
}
