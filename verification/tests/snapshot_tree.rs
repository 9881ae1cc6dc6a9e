use config_drift::resolve::{decode_snapshot, resolve_output, ResolveError};
use config_drift::snapshot::{SnapshotField, SnapshotValue};

fn text(s: &str) -> SnapshotValue {
    SnapshotValue::Text(s.to_string())
}

fn number(s: &str) -> SnapshotValue {
    SnapshotValue::Number(s.to_string())
}

fn field(name: &str, value: SnapshotValue) -> SnapshotField {
    SnapshotField { name: name.to_string(), value }
}

fn table(fields: Vec<SnapshotField>) -> SnapshotValue {
    SnapshotValue::Table(fields)
}

#[test]
fn scalars_render_as_their_text() {
    assert_eq!(text("localhost").render(), "localhost");
    assert_eq!(text("").render(), "");
    assert_eq!(text("say \"hi\"").render(), "say \"hi\"");
    assert_eq!(number("3306").render(), "3306");
    assert_eq!(number("-1.5").render(), "-1.5");
    assert_eq!(SnapshotValue::Bool(true).render(), "true");
    assert_eq!(SnapshotValue::Bool(false).render(), "false");
    assert_eq!(SnapshotValue::Null.render(), "null");
}

#[test]
fn structures_render_as_nested_text() {
    let list = SnapshotValue::List(vec![text("a"), number("1"), SnapshotValue::Null]);
    assert_eq!(list.render(), "[\"a\", 1, null]");
    assert_eq!(SnapshotValue::List(Vec::new()).render(), "[]");
    assert_eq!(table(Vec::new()).render(), "{}");
    let database = table(vec![
        field(
            "connections",
            table(vec![field(
                "mysql",
                table(vec![field("host", text("127.0.0.1")), field("port", number("3307"))]),
            )]),
        ),
        field("default", text("mysql")),
        field("strict", SnapshotValue::Bool(true)),
        field("options", SnapshotValue::List(vec![SnapshotValue::List(Vec::new())])),
    ]);
    assert_eq!(
        database.render(),
        "{connections: {mysql: {host: \"127.0.0.1\", port: 3307}}, default: \"mysql\", strict: true, options: [[]]}"
    );
}

#[test]
fn rendering_holds_every_nested_scalar() {
    let value = table(vec![
        field("a", SnapshotValue::List(vec![text("needle one"), table(vec![field("b", number("42"))])])),
        field("c", SnapshotValue::Null),
        field("d", SnapshotValue::Bool(false)),
        field("e", text("with \"quotes\" and \\ slashes")),
    ]);
    let rendering = value.render();
    for scalar in ["needle one", "42", "null", "false", "with \"quotes\" and \\ slashes"] {
        assert!(rendering.contains(scalar));
    }
}

#[test]
fn write_nested_appends_to_what_is_there() {
    let mut out: Vec<char> = "x=".chars().collect();
    text("v").write_nested(&mut out);
    let written: String = out.iter().collect();
    assert_eq!(written, "x=\"v\"");
}

#[test]
fn section_is_the_first_field_of_its_name() {
    let root = table(vec![
        field("app", text("one")),
        field("database", text("two")),
        field("app", text("three")),
    ]);
    assert_eq!(root.section("app"), Some(&text("one")));
    assert_eq!(root.section("database"), Some(&text("two")));
    assert_eq!(root.section("cache"), None);
    assert_eq!(root.section(""), None);
}

#[test]
fn snapshot_that_is_no_table_has_no_sections() {
    assert_eq!(text("database").section("database"), None);
    assert_eq!(SnapshotValue::Null.section("database"), None);
    assert_eq!(SnapshotValue::List(vec![text("database")]).section("database"), None);
}

#[test]
fn failed_evaluator_is_an_error_whatever_it_wrote() {
    assert_eq!(resolve_output(false, b"{}"), Err(ResolveError::EvaluatorFailed));
    assert_eq!(resolve_output(false, b""), Err(ResolveError::EvaluatorFailed));
    assert_eq!(resolve_output(false, b"not json"), Err(ResolveError::EvaluatorFailed));
}

#[test]
fn output_that_is_no_document_is_undecodable() {
    assert_eq!(resolve_output(true, b""), Err(ResolveError::Undecodable));
    assert_eq!(resolve_output(true, b"PHP Warning: x"), Err(ResolveError::Undecodable));
    assert_eq!(resolve_output(true, b"{\"a\": }"), Err(ResolveError::Undecodable));
    assert_eq!(resolve_output(true, b"{} trailing"), Err(ResolveError::Undecodable));
    assert_eq!(resolve_output(true, &[0xff, 0xfe]), Err(ResolveError::Undecodable));
    assert_eq!(decode_snapshot(b"[1, 2"), Err(ResolveError::Undecodable));
}

#[test]
fn document_decodes_to_its_tree() {
    let bytes = br#"{"database": {"port": 3306, "host": "127.0.0.1", "ratio": 1.5, "offset": -2,
        "strict": true, "password": null, "replicas": ["a", {"b": []}]}, "app": "demo"}"#;
    let expected = table(vec![
        field("app", text("demo")),
        field(
            "database",
            table(vec![
                field("host", text("127.0.0.1")),
                field("offset", number("-2")),
                field("password", SnapshotValue::Null),
                field("port", number("3306")),
                field("ratio", number("1.5")),
                field(
                    "replicas",
                    SnapshotValue::List(vec![
                        text("a"),
                        table(vec![field("b", SnapshotValue::List(Vec::new()))]),
                    ]),
                ),
                field("strict", SnapshotValue::Bool(true)),
            ]),
        ),
    ]);
    assert_eq!(resolve_output(true, bytes), Ok(expected));
}

#[test]
fn document_need_not_be_a_table() {
    assert_eq!(decode_snapshot(b"false"), Ok(SnapshotValue::Bool(false)));
    assert_eq!(decode_snapshot(b" null "), Ok(SnapshotValue::Null));
    assert_eq!(decode_snapshot(b"\"a\\u00e9\\n\""), Ok(text("a\u{e9}\n")));
    assert_eq!(decode_snapshot(b"[]"), Ok(SnapshotValue::List(Vec::new())));
    assert_eq!(decode_snapshot(b"18446744073709551615"), Ok(number("18446744073709551615")));
}

#[test]
fn repeated_name_keeps_its_last_value() {
    assert_eq!(
        decode_snapshot(br#"{"a": 1, "b": 2, "a": 3}"#),
        Ok(table(vec![field("a", number("3")), field("b", number("2"))]))
    );
}
