use cargo_polylith::api_diff::{compare_pub_api, extract_pub_api, ApiDiff};

// 1. Adding a pub fn → InterfaceChanged
#[test]
fn adding_pub_fn_is_interface_changed() {
    let old = r#"pub fn foo() -> u32 { 42 }"#;
    let new = r#"pub fn foo() -> u32 { 42 }
pub fn bar() -> u32 { 0 }"#;
    assert_eq!(compare_pub_api(old, new), ApiDiff::InterfaceChanged);
}

// 2. Changing fn body only → InternalsOnly
#[test]
fn changing_fn_body_only_is_internals_only() {
    let old = r#"pub fn foo() -> u32 { 42 }"#;
    let new = r#"pub fn foo() -> u32 { 100 }"#;
    assert_eq!(compare_pub_api(old, new), ApiDiff::InternalsOnly);
}

// 3. Changing pub struct field type → InterfaceChanged
#[test]
fn changing_pub_struct_field_type_is_interface_changed() {
    let old = r#"pub struct Foo { pub x: u32 }"#;
    let new = r#"pub struct Foo { pub x: u64 }"#;
    assert_eq!(compare_pub_api(old, new), ApiDiff::InterfaceChanged);
}

// 4. Adding pub enum variant → InterfaceChanged
#[test]
fn adding_pub_enum_variant_is_interface_changed() {
    let old = r#"pub enum Color { Red, Green }"#;
    let new = r#"pub enum Color { Red, Green, Blue }"#;
    assert_eq!(compare_pub_api(old, new), ApiDiff::InterfaceChanged);
}

// 5. Changing private fn → InternalsOnly
#[test]
fn changing_private_fn_is_internals_only() {
    let old = r#"fn hidden() -> u32 { 1 }"#;
    let new = r#"fn hidden() -> u32 { 2 }"#;
    assert_eq!(compare_pub_api(old, new), ApiDiff::InternalsOnly);
}

// 6. pub(crate) fn change → InternalsOnly
#[test]
fn pub_crate_fn_change_is_internals_only() {
    let old = r#"pub(crate) fn helper() -> bool { true }"#;
    let new = r#"pub(crate) fn helper() -> bool { false }"#;
    assert_eq!(compare_pub_api(old, new), ApiDiff::InternalsOnly);
}

// 7. Parse failure → treat as empty API (graceful degradation)
#[test]
fn parse_failure_returns_empty_api() {
    let broken = "this is not valid rust !!!";
    let items = extract_pub_api(broken);
    assert!(items.is_empty(), "expected empty on parse failure, got: {items:?}");
}

// Parse failure in comparison — two broken files: both empty API, source different → InternalsOnly
#[test]
fn parse_failure_in_comparison_graceful() {
    let old = "this is not valid rust !!!";
    let new = "also not valid rust ???";
    // Both parse to empty API (equal), sources differ → InternalsOnly
    assert_eq!(compare_pub_api(old, new), ApiDiff::InternalsOnly);
}

// 8. pub use re-export added → InterfaceChanged
#[test]
fn adding_pub_use_is_interface_changed() {
    let old = r#"pub fn foo() {}"#;
    let new = r#"pub fn foo() {}
pub use std::collections::HashMap;"#;
    assert_eq!(compare_pub_api(old, new), ApiDiff::InterfaceChanged);
}

// 9. Doc comment change only → InternalsOnly (or Unchanged)
#[test]
fn doc_comment_change_is_internals_only_or_unchanged() {
    let old = r#"/// Old doc
pub fn foo() -> u32 { 42 }"#;
    let new = r#"/// New doc with more detail
pub fn foo() -> u32 { 42 }"#;
    let result = compare_pub_api(old, new);
    assert!(
        result == ApiDiff::InternalsOnly || result == ApiDiff::Unchanged,
        "expected InternalsOnly or Unchanged for doc-only change, got {result:?}"
    );
}

// 10. Identical source → Unchanged
#[test]
fn identical_source_is_unchanged() {
    let source = r#"pub fn foo() -> u32 { 42 }
pub struct Bar { pub x: i32 }
"#;
    assert_eq!(compare_pub_api(source, source), ApiDiff::Unchanged);
}

// Extra: pub(super) fn change → InternalsOnly (like pub(crate))
#[test]
fn pub_super_fn_change_is_internals_only() {
    let old = r#"pub(super) fn helper() {}"#;
    let new = r#"pub(super) fn helper() { let _x = 1; }"#;
    assert_eq!(compare_pub_api(old, new), ApiDiff::InternalsOnly);
}

// Extra: empty files are Unchanged
#[test]
fn empty_files_are_unchanged() {
    assert_eq!(compare_pub_api("", ""), ApiDiff::Unchanged);
}

#[test]
fn extract_writes_each_kind_and_sorts_by_kind_then_signature() {
    let src = "pub use a::{b, c as d, e::*};\n\
pub static S: u32 = 2;\n\
pub const C: u32 = 1;\n\
pub type A = u32;\n\
pub trait T { fn m(&mut self, x: u32) -> u32; fn n(self); const K: u32; }\n\
pub enum E { A, B(u32), C { x: u32 } }\n\
pub struct P(pub u32, i32);\n\
pub struct N { pub a: u32, b: bool }\n\
pub fn g<T>(x: T) {}\n\
pub fn f(x: u32) -> bool { true }\n\
pub(crate) fn hidden() {}\n\
fn private() {}\n";
    let items = extract_pub_api(src);
    let got: Vec<(&str, &str)> = items.iter().map(|i| (i.kind, i.signature.as_str())).collect();
    assert_eq!(
        got,
        vec![
            ("const", "const C: u32"),
            ("enum", "enum E { A, B(u32), C { x: u32 } }"),
            ("fn", "fn f(u32) -> bool"),
            ("fn", "fn g<T>(T)"),
            ("static", "static S: u32"),
            ("struct", "struct N { a: u32 }"),
            ("struct", "struct P { 0: u32 }"),
            ("trait", "trait T { fn m(&mut self, u32) -> u32, fn n(self) }"),
            ("type", "type A = u32"),
            ("use", "use a::{b, c as d, e::*}"),
        ]
    );
}

#[test]
fn surrounding_whitespace_alone_is_unchanged() {
    assert_eq!(compare_pub_api("pub fn a() {}", "\n  pub fn a() {}  \n"), ApiDiff::Unchanged);
}

#[test]
fn removing_a_pub_item_is_interface_changed() {
    assert_eq!(compare_pub_api("pub fn a() {}\npub fn b() {}", "pub fn a() {}"), ApiDiff::InterfaceChanged);
}

#[test]
fn reordering_pub_items_keeps_the_interface() {
    assert_eq!(compare_pub_api("pub fn a() {}\npub fn b() {}", "pub fn b() {}\npub fn a() {}"), ApiDiff::InternalsOnly);
}
