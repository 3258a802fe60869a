//! Text, documents, records, registries and identities.
use pipecrab_adapters::dispatch::DispatchError;
use pipecrab_adapters::ids::{mint, mint_call_id};
use pipecrab_adapters::json::{self, Json, JsonNumber};
use pipecrab_adapters::lm::{label, LmError, ModelDelta};
use pipecrab_adapters::records::{
    field_of, has_record_shape, is_variant_named, member_of, read_optional_text, read_optional_u32,
    read_required_text, text_member_of, unsigned_member_of,
};
use pipecrab_adapters::registry::Registry;
use pipecrab_adapters::text;

fn parse(source: &str) -> Json {
    Json::parse(source).expect("a document")
}

#[test]
fn documents_read_and_render() {
    let source = r#"{"a":[1,-2,0.5,null,true,"x\ny"],"b":{}}"#;
    assert_eq!(parse(source).to_text(), source);
    assert_eq!(parse(source).copy().to_text(), source);
    assert_eq!(
        Json::parse_bytes(source.as_bytes()).unwrap().to_text(),
        source
    );
    assert!(Json::parse("{").is_err());
    assert!(Json::parse_bytes(&[0xff]).is_err());
    assert_eq!(Json::text("q\"").to_text(), r#""q\"""#);
    assert_eq!(Json::unsigned(u64::MAX).to_text(), "18446744073709551615");
    match parse("-7") {
        Json::Number(JsonNumber::Negative(n)) => assert_eq!(n.get(), -7),
        other => panic!("expected a negative integer, got {other:?}"),
    }
}

#[test]
fn a_later_member_replaces_an_earlier_one() {
    let mut members = Vec::new();
    json::set(&mut members, "k", Json::unsigned(1));
    json::set(&mut members, "k", Json::unsigned(2));
    let more = match parse(r#"{"l": 3}"#) {
        Json::Object(more) => more,
        other => panic!("expected an object, got {other:?}"),
    };
    json::set_all(&mut members, &more);
    let document = Json::Object(members);
    assert_eq!(document.to_text(), r#"{"k":2,"l":3}"#);
    assert_eq!(unsigned_member_of(&document, "k"), Some(2));
}

#[test]
fn a_variant_is_named_by_a_text_or_by_one_null_member() {
    for (document, named) in [
        (r#""running""#, true),
        (r#"{"running": null}"#, true),
        (r#""Running""#, false),
        (r#"{"running": 1}"#, false),
        (r#"{"running": null, "failed": null}"#, false),
        ("{}", false),
        (r#"["running"]"#, false),
        ("null", false),
    ] {
        assert_eq!(
            is_variant_named(Some(&parse(document)), "running"),
            named,
            "{document}"
        );
    }
    assert!(!is_variant_named(None, "running"));
}

#[test]
fn members_are_described_with_their_types() {
    let document = parse(r#"{"b": "x", "a": [1, null]}"#);
    assert_eq!(
        document.describe_members().as_deref(),
        Some(r#"{"a": Array [Number(1), Null], "b": String("x")}"#)
    );
    assert_eq!(parse("[1]").describe_members(), None);
}

#[test]
fn records_are_objects_or_lists_of_their_fields() {
    let object = parse(r#"{"name": "n", "count": 4, "none": null}"#);
    let list = parse(r#"["n", 4]"#);
    assert!(has_record_shape(&object, 2));
    assert!(has_record_shape(&list, 2));
    assert!(has_record_shape(&list, 3));
    assert!(!has_record_shape(&list, 1));
    assert!(!has_record_shape(&parse("3"), 1));
    assert!(!has_record_shape(&parse("\"x\""), 1));
    for document in [&object, &list] {
        assert_eq!(
            read_required_text(field_of(document, 0, "name")).as_deref(),
            Some("n")
        );
        assert_eq!(read_optional_u32(field_of(document, 1, "count")), Some(Some(4)));
    }
    assert_eq!(read_optional_text(member_of(&object, "none")), Some(None));
    assert_eq!(read_optional_text(member_of(&object, "count")), None);
    assert_eq!(read_optional_text(member_of(&object, "missing")), Some(None));
    assert_eq!(read_required_text(None), None);
    assert_eq!(read_optional_u32(Some(&parse("4294967296"))), None);
    assert_eq!(text_member_of(&object, "name").as_deref(), Some("n"));
    assert_eq!(text_member_of(&list, "name"), None);
}

#[test]
fn text_is_trimmed_cut_and_searched() {
    assert_eq!(text::trim(" \t a b\u{3000}\n"), "a b");
    assert!(text::is_blank("\u{2003} \n"));
    assert!(!text::is_blank(" x "));
    assert_eq!(text::excerpt("héllo", 3), "hé…");
    assert_eq!(text::excerpt("héllo", 2), "h…");
    assert_eq!(text::excerpt("abc", 3), "abc");
    assert!(text::contains("needle in hay", "in h"));
    assert!(!text::contains("hay", "needle"));
    assert!(text::contains("anything", ""));
    assert!(text::same("é", "é"));
    assert!(!text::same("a", "ab"));
    assert_eq!(text::decimal(0), "0");
    assert_eq!(text::decimal(u64::MAX), "18446744073709551615");
    assert_eq!(text::signed_decimal(i64::MIN), "-9223372036854775808");
    assert_eq!(text::signed_decimal(42), "42");
}

#[test]
fn spans_show_as_logs_do() {
    for millis in [0, 1, 250, 999, 1_000, 1_500, 2_050, 10_001, 300_000] {
        let shown = format!("{:?}", std::time::Duration::from_millis(millis));
        assert_eq!(text::span(millis), shown);
    }
}

#[test]
fn identities_are_prefixed_and_differ() {
    let id = mint("pc-");
    assert!(id.starts_with("pc-"));
    assert_ne!(id, mint("pc-"));
    let call = mint_call_id("call_");
    assert!(call.starts_with("call_"));
    assert_ne!(call, mint_call_id("call_"));
}

#[test]
fn a_registry_holds_each_name_once() {
    let mut registry: Registry<u32> = Registry::new();
    registry.insert("a", 1);
    registry.insert("b", 2);
    registry.insert("a", 3);
    assert_eq!(registry.len(), 2);
    assert_eq!(registry.get("a"), Some(&3));
    assert_eq!(registry.get("c"), None);
    let mut walked: Vec<(String, u32)> = (0..registry.len())
        .map(|i| {
            let (name, record) = registry.at(i);
            (name.clone(), *record)
        })
        .collect();
    walked.sort();
    assert_eq!(walked, [("a".to_string(), 3), ("b".to_string(), 2)]);
    assert_eq!(registry.remove("a"), Some(3));
    assert_eq!(registry.remove("a"), None);
    assert_eq!(registry.len(), 1);
}

#[test]
fn tool_calls_are_checked_before_they_are_made() {
    let call = |id: &str, name: &str, arguments: &str| {
        ModelDelta::tool_call(id.into(), name.into(), &parse(arguments))
    };
    assert!(call("c", "n", "{}").is_ok());
    assert_eq!(call("", "n", "{}"), Err(LmError::IncompleteToolCall));
    assert_eq!(call("c", "", "{}"), Err(LmError::IncompleteToolCall));
    assert_eq!(call("c", "n", "[]"), Err(LmError::ToolArgumentsNotObject));
    assert_eq!(label("s", "k", "c"), "[s/k] c");
    assert!(DispatchError::fatal("x").fatal);
    assert!(!DispatchError::recoverable("x").fatal);
}
