use cargo_polylith::templates::{base_cargo_toml, component_cargo_toml, component_lib_rs, project_cargo_toml};
use cargo_polylith::text::{char_is_whitespace, decimal, trim, truncate};
use cargo_polylith::model::{ExternalDepInfo, RootDemotionPlan};
use cargo_polylith::strmap::StrMap;
use cargo_polylith::templates::{managed_header, polylith_toml_content, polylith_toml_initial, project_manifest};

#[test]
fn component_manifest_declares_interface() {
    let t = component_cargo_toml("store-pg", "store");
    assert!(t.starts_with("[package]\nname = \"store-pg\"\n"));
    assert!(t.contains("[package.metadata.polylith]\ninterface = \"store\"\n"));
}

#[test]
fn component_lib_rs_has_mod_and_commented_reexport() {
    let lib = component_lib_rs("my_comp");
    assert!(lib.contains("mod my_comp"), "lib.rs missing mod declaration");
    assert!(!lib.contains("pub use my_comp::*"), "lib.rs must not contain wildcard re-export");
    assert!(lib.contains("// pub use my_comp::"), "lib.rs missing commented re-export hint");
}

#[test]
fn base_cargo_toml_has_no_bin_section() {
    let cargo_toml = base_cargo_toml("my_base");
    assert!(cargo_toml.contains("name = \"my_base\""));
    assert!(!cargo_toml.contains("[[bin]]"), "base Cargo.toml must not contain [[bin]] section");
    assert!(!cargo_toml.contains("main.rs"), "base Cargo.toml must not reference main.rs");
}

#[test]
fn base_and_project_manifests_name_the_crate() {
    assert!(base_cargo_toml("cli").contains("name = \"cli\""));
    assert!(project_cargo_toml("app").contains("name = \"app\""));
}

#[test]
fn text_helpers() {
    assert_eq!(trim("  a b \t\n"), "a b");
    assert_eq!(trim("   "), "");
    assert_eq!(decimal(0), "0");
    assert_eq!(decimal(1207), "1207");
}

#[test]
fn project_manifest_starts_with_the_managed_header() {
    let t = project_manifest("app");
    assert!(t.starts_with("# GENERATED BY cargo-polylith -- DO NOT EDIT\n[package]\nname = \"app\"\n"));
    assert_eq!(t, format!("{}{}", managed_header(), project_cargo_toml("app")));
    assert!(polylith_toml_initial().contains("[versioning]\npolicy = \"relaxed\"\nversion = \"0.1.0\"\n"));
}

#[test]
fn migrated_polylith_toml_lists_libraries_and_profiles_in_key_order() {
    let mut libraries = StrMap::new();
    libraries.insert(
        "serde".to_string(),
        ExternalDepInfo { features: vec![], version: Some("1".to_string()), raw: Some("{ version = \"1\" }".to_string()) },
    );
    libraries.insert("anyhow".to_string(), ExternalDepInfo { features: vec![], version: None, raw: None });
    let mut profiles = StrMap::new();
    profiles.insert("prod".to_string(), "profiles/prod.profile".to_string());
    profiles.insert("dev".to_string(), "profiles/dev.profile".to_string());
    let plan = RootDemotionPlan { workspace_package: None, libraries, profiles };
    assert_eq!(
        polylith_toml_content(&plan),
        "[workspace]\nschema_version = 1\n\n[libraries]\nanyhow = \"*\"\nserde = { version = \"1\" }\n\n[profiles]\ndev = \"profiles/dev.profile\"\nprod = \"profiles/prod.profile\"\n"
    );
}

#[test]
fn migrated_polylith_toml_leaves_out_empty_tables() {
    let plan = RootDemotionPlan { workspace_package: None, libraries: StrMap::new(), profiles: StrMap::new() };
    assert_eq!(polylith_toml_content(&plan), "[workspace]\nschema_version = 1\n");
}

#[test]
fn truncate_keeps_at_most_max_characters() {
    assert_eq!(truncate("storage", 4), "stor");
    assert_eq!(truncate("ab", 4), "ab");
    assert_eq!(truncate("héllo", 2), "hé");
}

#[test]
fn unicode_whitespace_is_trimmed() {
    assert!(char_is_whitespace('\u{3000}') && char_is_whitespace('\u{85}') && char_is_whitespace('\t'));
    assert!(!char_is_whitespace('x') && !char_is_whitespace('\u{200B}'));
    assert_eq!(trim("\u{2028} name\u{A0}"), "name");
}
