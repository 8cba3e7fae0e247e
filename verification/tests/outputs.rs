use pku3b::json::{object_insert, JsonValue};
use pku3b::json_output;
use pku3b::markdown_output::{
    self, document_fits, escape_inline, escape_table_cell, render_document, scalar_to_inline,
};

struct Demo {
    value: u32,
}

#[test]
fn json_output_ok_item_uses_schema_v1() {
    let env = json_output::ok_item(Demo { value: 7 });
    assert_eq!(env.schema_version, "1");
    assert_eq!(env.ok, true);
    assert_eq!(env.item.as_ref().unwrap().value, 7);
    assert!(env.items.is_none());
}

#[test]
fn json_output_ok_items_uses_items_field() {
    let env = json_output::ok_items(vec![Demo { value: 1 }, Demo { value: 2 }]);
    assert_eq!(env.schema_version, "1");
    assert_eq!(env.ok, true);
    assert_eq!(env.items.as_ref().unwrap().len(), 2);
    assert!(env.item.is_none());
}

#[test]
fn markdown_output_ok_item_uses_schema_v1() {
    let env = markdown_output::ok_item(Demo { value: 7 });
    assert_eq!(env.schema_version, "1");
    assert_eq!(env.ok, true);
    assert_eq!(env.item.as_ref().unwrap().value, 7);
    assert!(env.items.is_none());
}

#[test]
fn markdown_output_ok_items_uses_items_field() {
    let env = markdown_output::ok_items(vec![Demo { value: 1 }, Demo { value: 2 }]);
    assert_eq!(env.schema_version, "1");
    assert_eq!(env.ok, true);
    assert_eq!(env.items.as_ref().unwrap().len(), 2);
    assert!(env.item.is_none());
}

fn object(pairs: Vec<(&str, JsonValue)>) -> JsonValue {
    let mut entries = Vec::new();
    for (k, v) in pairs {
        object_insert(&mut entries, k.to_owned(), v);
    }
    JsonValue::Object(entries)
}

fn demo_value(n: u32) -> JsonValue {
    object(vec![("value", JsonValue::Number(n.to_string()))])
}

/// The value of `ok_items(vec![Demo { value: 1 }, Demo { value: 2 }])`.
fn demo_items_envelope() -> JsonValue {
    object(vec![
        ("schema_version", JsonValue::String("1".to_owned())),
        ("ok", JsonValue::Bool(true)),
        ("items", JsonValue::Array(vec![demo_value(1), demo_value(2)])),
    ])
}

#[test]
fn render_document_uses_markdown_table_for_item_lists() {
    let value = demo_items_envelope();
    assert!(document_fits(&value));
    let md = render_document(&value);
    assert!(md.contains("# Result"));
    assert!(md.contains("## items"));
    assert!(md.contains("| value |"));
}

#[test]
fn render_document_item_list_exact_text() {
    let md = render_document(&demo_items_envelope());
    assert_eq!(
        md,
        "# Result\n\n- **schema_version**: `1`\n- **ok**: `true`\n\n## items\n\n| value |\n| --- |\n| 1 |\n| 2 |\n"
    );
}

#[test]
fn render_document_non_envelope_is_titled_result() {
    let value = object(vec![("name", JsonValue::String("x".to_owned()))]);
    let md = render_document(&value);
    assert!(md.starts_with("# Result\n"));
    assert!(md.contains("- **name**: `x`"));
}

#[test]
fn document_fits_rejects_nested_envelope_header() {
    let value = object(vec![
        ("schema_version", JsonValue::Array(vec![])),
        ("ok", JsonValue::Bool(true)),
    ]);
    assert!(!document_fits(&value));
    let plain = object(vec![("schema_version", JsonValue::Array(vec![]))]);
    assert!(document_fits(&plain));
}

#[test]
fn object_insert_keeps_keys_sorted_and_overwrites() {
    let mut entries = Vec::new();
    object_insert(&mut entries, "b".to_owned(), 1u32);
    object_insert(&mut entries, "a".to_owned(), 2u32);
    object_insert(&mut entries, "c".to_owned(), 3u32);
    object_insert(&mut entries, "b".to_owned(), 4u32);
    let keys: Vec<&str> = entries.iter().map(|(k, _)| k.as_str()).collect();
    assert_eq!(keys, vec!["a", "b", "c"]);
    assert_eq!(entries[1].1, 4);
}

#[test]
fn escape_inline_guards_backticks() {
    assert_eq!(escape_inline("a`b"), "a\\`b");
    assert_eq!(escape_inline("plain"), "plain");
}

#[test]
fn escape_table_cell_guards_pipes_and_backticks() {
    assert_eq!(escape_table_cell("a|b`c"), "a\\|b\\`c");
}

#[test]
fn scalar_to_inline_formats_each_scalar() {
    assert_eq!(scalar_to_inline(&JsonValue::Null), "_null_");
    assert_eq!(scalar_to_inline(&JsonValue::Bool(false)), "`false`");
    assert_eq!(scalar_to_inline(&JsonValue::Number("42".to_owned())), "`42`");
    assert_eq!(scalar_to_inline(&JsonValue::String("x`y".to_owned())), "`x\\`y`");
    assert_eq!(
        scalar_to_inline(&JsonValue::String("a\nb".to_owned())),
        "\n```text\na\nb\n```"
    );
}
