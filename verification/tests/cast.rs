//! Rows of recordings.
use tear::cast::{CastParseError, CastRow, CastRowKind};
use tear::json::JsonItem;

#[test]
fn parses_output_row() {
    let r = CastRow::parse(r#"[0.5,"o","hi"]"#).unwrap();
    assert_eq!(r.time.parse::<f64>().unwrap(), 0.5);
    assert_eq!(r.kind, CastRowKind::Output);
    assert_eq!(r.payload, "hi");
}

#[test]
fn parses_input_row() {
    let r = CastRow::parse(r#"[1.0,"i","x"]"#).unwrap();
    assert_eq!(r.kind, CastRowKind::Input);
}

#[test]
fn header_row_returns_specific_error() {
    let err = CastRow::parse(r#"{"version":2}"#).unwrap_err();
    assert!(matches!(err, CastParseError::HeaderRow));
}

#[test]
fn malformed_json_returns_invalid_json() {
    let err = CastRow::parse("not json").unwrap_err();
    assert!(matches!(err, CastParseError::InvalidJson(_)));
}

#[test]
fn too_few_elements_returns_specific_error() {
    let err = CastRow::parse(r#"[0.0, "o"]"#).unwrap_err();
    assert!(matches!(err, CastParseError::TooFewElements(2)));
}

#[test]
fn unknown_kind_surfaces_value() {
    let err = CastRow::parse(r#"[0.0,"r","payload"]"#).unwrap_err();
    match err {
        CastParseError::UnknownKind(s) => assert_eq!(s, "r"),
        other => panic!("expected UnknownKind, got {other:?}"),
    }
}

#[test]
fn bad_time_when_string_in_time_slot() {
    let err = CastRow::parse(r#"["zero","o","x"]"#).unwrap_err();
    assert!(matches!(err, CastParseError::BadTime));
}

#[test]
fn bad_payload_when_array_in_payload_slot() {
    let err = CastRow::parse(r#"[0.0,"o",[1,2,3]]"#).unwrap_err();
    assert!(matches!(err, CastParseError::BadPayload));
}

#[test]
fn kind_label_round_trip() {
    assert_eq!(CastRowKind::Output.as_str(), "o");
    assert_eq!(CastRowKind::Input.as_str(), "i");
}

#[test]
fn not_an_array_when_top_level_is_string() {
    let err = CastRow::parse(r#""hi""#).unwrap_err();
    assert!(matches!(err, CastParseError::NotAnArray));
}

#[test]
fn a_kind_that_is_no_text_is_refused() {
    assert!(matches!(CastRow::parse("[0.0,1,\"x\"]"), Err(CastParseError::BadKindShape)));
}

#[test]
fn elements_past_the_third_do_not_count() {
    let r = CastRow::parse("[2,\"i\",\"k\",null,7]").unwrap();
    assert_eq!(r.time, "2");
    assert_eq!(r.kind, CastRowKind::Input);
    assert_eq!(r.payload, "k");
}

#[test]
fn a_row_is_read_from_its_elements() {
    let items = vec![
        JsonItem::Number("1.5".to_string()),
        JsonItem::Text("o".to_string()),
        JsonItem::Text("hello".to_string()),
    ];
    let r = CastRow::from_items(&items).unwrap();
    assert_eq!((r.time.as_str(), r.payload.as_str()), ("1.5", "hello"));
    assert!(matches!(CastRow::from_items(&Vec::new()), Err(CastParseError::TooFewElements(0))));
}

#[test]
fn every_row_error_has_its_message() {
    let msg = |s: &str| CastRow::parse(s).unwrap_err().to_string();
    assert_eq!(msg("7"), "row is not a JSON array");
    assert_eq!(msg(r#"[1,"o"]"#), "row has 2 elements, expected at least 3");
    assert_eq!(msg(r#"[true,"o","x"]"#), "row[0] (time) is not a number");
    assert_eq!(msg(r#"[1,null,"x"]"#), "row[1] (kind) is not a string");
    assert_eq!(msg(r#"[1,"z","x"]"#), "row[1] kind `z` is not 'o' or 'i'");
    assert_eq!(msg(r#"[1,"o",{}]"#), "row[2] (payload) is not a string");
    assert_eq!(msg(r#"[1,"o",[]]"#), "row[2] (payload) is not a string");
    assert_eq!(
        msg(r#"{"version":2}"#),
        "row is the asciinema header (JSON object, not array)"
    );
    assert!(msg("[1,").starts_with("row is not valid json: "));
    let row = CastRow::parse(r#"[2.5,"i","x"]"#).unwrap();
    assert_eq!(row.clone(), row);
}
