use gpuicn::names::{less_than, sorted_set};
use gpuicn::registry::RegistryError;
use gpuicn::source::{
    MAX_ITEM_BYTES, check_add_arguments, check_config_version, check_item_size, check_requested,
    item_file, registry_location,
};

#[test]
fn locations_are_urls_or_directories() {
    let remote = registry_location("https://ui.imajha.com/r/").unwrap();
    assert!(remote.remote);
    assert_eq!(remote.location, "https://ui.imajha.com/r");
    let local = registry_location("site/pages/r//").unwrap();
    assert!(!local.remote);
    assert_eq!(local.location, "site/pages/r");
    assert!(registry_location("http://localhost:8080").unwrap().remote);
    assert_eq!(
        registry_location("ftp://example.test/r").map(|l| l.location),
        Err(RegistryError::InvalidLocation("ftp://example.test/r".into()))
    );
}

#[test]
fn item_files_and_sizes_are_checked() {
    assert_eq!(item_file("button").unwrap(), "button.json");
    assert_eq!(item_file("../escape"), Err(RegistryError::InvalidName("../escape".into())));
    assert!(check_item_size(MAX_ITEM_BYTES as usize).is_ok());
    assert_eq!(check_item_size(MAX_ITEM_BYTES as usize + 1), Err(RegistryError::TooLarge));
}

#[test]
fn arguments_and_configuration_are_checked() {
    let names = vec!["button".to_string()];
    assert!(check_add_arguments(&names, false).is_ok());
    assert!(check_add_arguments(&Vec::new(), true).is_ok());
    assert_eq!(check_add_arguments(&names, true), Err(RegistryError::NamesWithAll));
    assert_eq!(check_requested(&Vec::new()), Err(RegistryError::NothingRequested));
    assert!(check_requested(&names).is_ok());
    assert!(check_config_version(1).is_ok());
    assert_eq!(check_config_version(2), Err(RegistryError::UnsupportedVersion(2)));
}

#[test]
fn names_sort_like_strings() {
    let names: Vec<String> = ["menu", "button", "menu", "context_menu", "Z", "é"]
        .iter()
        .map(|s| s.to_string())
        .collect();
    let mut expected = names.clone();
    expected.sort();
    expected.dedup();
    assert_eq!(sorted_set(&names), expected);
    assert!(less_than("a", "ab"));
    assert!(!less_than("ab", "a"));
    assert!(!less_than("a", "a"));
    assert!(less_than("Z", "a"));
}

#[test]
fn elapsed_nanoseconds_saturate() {
    assert_eq!(gpuicn::clock::saturated_nanos(5), 5);
    assert_eq!(gpuicn::clock::saturated_nanos(u64::MAX as u128), u64::MAX);
    assert_eq!(gpuicn::clock::saturated_nanos(u64::MAX as u128 + 1), u64::MAX);
}
