use htknow::image_parse::{extract_description, find_description_value, normalize_base64_payload};

#[test]
fn test_normalize_base64_payload() {
    let raw = "data:image/png;base64, iVBORw0KGgo=\n";
    let normalized: String = normalize_base64_payload(raw);
    assert_eq!(normalized, "iVBORw0KGgo=");
}

#[test]
fn payload_without_prefix_only_loses_white_space() {
    assert_eq!(normalize_base64_payload(" iVBO\r\nRw0K Ggo= "), "iVBORw0KGgo=");
}

#[test]
fn payload_after_first_marker_only() {
    assert_eq!(normalize_base64_payload("a;base64,QUJD;base64,REVG"), "QUJD;base64,REVG");
    assert_eq!(normalize_base64_payload(""), "");
}

#[test]
fn test_extract_description_variants() {
    assert_eq!(extract_description(r#"{"description": "  a picture  "}"#), "a picture");
    assert_eq!(extract_description(r#"{"data": {"text": "hello"}}"#), "hello");
    assert_eq!(extract_description(r#"{"result": {"description": "world"}}"#), "world");
    assert_eq!(
        extract_description(r#"{"code":200,"message":"ok","data":{"image_content":"返回内容","filename":""}}"#),
        "返回内容"
    );
    assert_eq!(extract_description("plain text"), "plain text");
    assert_eq!(extract_description(""), "");
}

#[test]
fn description_field_order_and_fallbacks() {
    let v: serde_json::Value = serde_json::from_str(r#"{"text": "t", "description": "d"}"#).unwrap();
    assert_eq!(find_description_value(&v), Some("d".to_string()));
    let v: serde_json::Value = serde_json::from_str(r#"{"data": 5, "result": "r"}"#).unwrap();
    assert_eq!(find_description_value(&v), Some("r".to_string()));
    let v: serde_json::Value = serde_json::from_str(r#""just a string""#).unwrap();
    assert_eq!(find_description_value(&v), Some("just a string".to_string()));
    let v: serde_json::Value = serde_json::from_str(r#"{"data": {"x": 1}}"#).unwrap();
    assert_eq!(find_description_value(&v), None);
    assert_eq!(extract_description(r#"  {"data": {"x": 1}}  "#), r#"{"data": {"x": 1}}"#);
    assert_eq!(extract_description("   "), "");
}
