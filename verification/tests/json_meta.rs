use htknow::api::file::{meta_json, tags_json, UpdateFileReq, file_image_paths, raw_image_paths, collect_image_references, extract_image_paths_from_text, extract_custom_image_paths_from_meta, merge_custom_image_meta, parse_meta_object};
use htknow::image_ocr::{ocr_payload, ocr_reply, OcrError};
use htknow::json::{find_member, get_member, set_member_value, text_of};

fn v(text: &str) -> serde_json::Value {
    serde_json::from_str(text).unwrap()
}

#[test]
fn custom_image_paths_need_a_checked_record() {
    assert_eq!(extract_custom_image_paths_from_meta(None), None);
    assert_eq!(extract_custom_image_paths_from_meta(Some("   ")), None);
    assert_eq!(extract_custom_image_paths_from_meta(Some("not json")), None);
    let meta = r#"{"_htknow_parse_assets":{"custom_images":{"checked":true,"paths":[" a.png ","",5,"b.png"]}}}"#;
    assert_eq!(
        extract_custom_image_paths_from_meta(Some(meta)),
        Some(vec!["a.png".to_string(), "b.png".to_string()])
    );
    let unchecked = r#"{"_htknow_parse_assets":{"custom_images":{"checked":false,"paths":["a.png"]}}}"#;
    assert_eq!(extract_custom_image_paths_from_meta(Some(unchecked)), None);
    let no_paths = r#"{"_htknow_parse_assets":{"custom_images":{"checked":true}}}"#;
    assert_eq!(extract_custom_image_paths_from_meta(Some(no_paths)), Some(vec![]));
    let missing = r#"{"_htknow_parse_assets":{}}"#;
    assert_eq!(extract_custom_image_paths_from_meta(Some(missing)), None);
}

#[test]
fn merge_writes_the_record_in_key_order() {
    let paths = vec!["a.png".to_string(), " a.png ".to_string(), "".to_string(), "b.png".to_string()];
    assert_eq!(
        merge_custom_image_meta(None, &paths, "manual", 100),
        r#"{"_htknow_parse_assets":{"custom_images":{"checked":true,"paths":["a.png","b.png"],"source":"manual","updated_at":100},"version":1}}"#
    );
    let existing = r#"{"z":1,"_htknow_parse_assets":{"other":true,"version":7}}"#;
    assert_eq!(
        merge_custom_image_meta(Some(existing), &[], "auto", -5),
        r#"{"_htknow_parse_assets":{"custom_images":{"checked":true,"paths":[],"source":"auto","updated_at":-5},"other":true,"version":1},"z":1}"#
    );
    assert_eq!(
        merge_custom_image_meta(Some(" plain text "), &["x".to_string()], "s", 0),
        r#"{"_htknow_parse_assets":{"custom_images":{"checked":true,"paths":["x"],"source":"s","updated_at":0},"version":1},"_legacy_meta":"plain text"}"#
    );
    let not_object = r#"{"_htknow_parse_assets":[1]}"#;
    assert_eq!(
        merge_custom_image_meta(Some(not_object), &[], "s", 1),
        r#"{"_htknow_parse_assets":{"custom_images":{"checked":true,"paths":[],"source":"s","updated_at":1},"version":1}}"#
    );
}

#[test]
fn merged_meta_reads_back() {
    let merged = merge_custom_image_meta(Some("{}"), &[" p.png".to_string()], "manual", 3);
    assert_eq!(extract_custom_image_paths_from_meta(Some(&merged)), Some(vec!["p.png".to_string()]));
}

#[test]
fn meta_objects_and_legacy_meta() {
    assert!(parse_meta_object(None).is_empty());
    assert!(parse_meta_object(Some("  ")).is_empty());
    let members = parse_meta_object(Some(r#"{"b":1,"a":2}"#));
    let keys: Vec<&str> = members.iter().map(|(k, _)| k.as_str()).collect();
    assert_eq!(keys, vec!["a", "b"]);
    let legacy = parse_meta_object(Some("[1,2]"));
    assert_eq!(legacy.len(), 1);
    assert_eq!(legacy[0].0, "_legacy_meta");
    assert_eq!(legacy[0].1, v("[1,2]"));
    let text = parse_meta_object(Some(" note "));
    assert_eq!(text[0].1, serde_json::Value::String("note".to_string()));
}

#[test]
fn member_reads_after_writes() {
    let mut ms: Vec<(String, serde_json::Value)> = vec![("a".to_string(), v("1")), ("c".to_string(), v("3"))];
    set_member_value(&mut ms, "b", v("2"));
    set_member_value(&mut ms, "a", v("10"));
    let keys: Vec<&str> = ms.iter().map(|(k, _)| k.as_str()).collect();
    assert_eq!(keys, vec!["a", "b", "c"]);
    assert_eq!(find_member(&ms, "a"), Some(0));
    assert_eq!(ms[0].1, v("10"));
    assert_eq!(find_member(&ms, "d"), None);
    let obj = v(r#"{"k":{"n":null}}"#);
    let inner = get_member(&obj, "k").unwrap();
    assert_eq!(get_member(&inner, "n"), Some(serde_json::Value::Null));
    assert_eq!(get_member(&v("[1]"), "k"), None);
    assert_eq!(text_of(&v(r#""s""#)), Some("s".to_string()));
    assert_eq!(text_of(&v("1.5")), None);
}

#[test]
fn ocr_payload_is_reencoded() {
    assert_eq!(ocr_payload("data:image/png;base64,aGVs bG8=\n"), Ok("aGVsbG8=".to_string()));
    assert_eq!(ocr_payload("!!!"), Err(OcrError::InvalidBase64));
}

#[test]
fn ocr_reply_needs_string_data() {
    let r = ocr_reply(r#"{"data":"  text "}"#.to_string()).unwrap();
    assert_eq!(r.description, "text");
    assert_eq!(r.raw_response, r#"{"data":"  text "}"#);
    assert_eq!(ocr_reply(r#"{"data":5}"#.to_string()).unwrap_err(), OcrError::MissingData);
    assert_eq!(ocr_reply("nope".to_string()).unwrap_err(), OcrError::InvalidJson);
    assert_eq!(OcrError::MissingData.message(), "OCR response is missing string field: data");
}

#[test]
fn image_references_in_text() {
    let text = "see /api/v1/knowledge/files/a.png) and <img src='/api/v1/knowledge/files/b.png'> \
                then /api/v1/knowledge/files/a.png again and /api/v1/knowledge/files/c.jpg>";
    assert_eq!(extract_image_paths_from_text(text), vec!["a.png", "b.png", "c.jpg"]);
    assert!(extract_image_paths_from_text("no references /api/v1/knowledge/files/ here").is_empty());
    let slices = vec![
        "x /api/v1/knowledge/files/a.png".to_string(),
        "/api/v1/knowledge/files/b.png /api/v1/knowledge/files/a.png".to_string(),
    ];
    assert_eq!(collect_image_references(&slices), vec!["a.png", "b.png"]);
}

#[test]
fn image_paths_come_from_the_first_recorded_source() {
    let rows = vec![Some(" p1.png ".to_string()), None, Some("  ".to_string()), Some("p2.png".to_string())];
    let meta = r#"{"_htknow_parse_assets":{"custom_images":{"checked":true,"paths":["m.png"]}}}"#;
    let slices = vec!["/api/v1/knowledge/files/s1.png /api/v1/knowledge/files/s2.png".to_string(), "/api/v1/knowledge/files/s1.png".to_string()];
    assert_eq!(file_image_paths(&rows, Some(meta), &slices), vec!["p1.png", "p2.png"]);
    assert_eq!(file_image_paths(&vec![], Some(meta), &slices), vec!["m.png"]);
    assert_eq!(file_image_paths(&vec![], Some("{}"), &slices), vec!["s1.png", "s2.png"]);
    assert_eq!(file_image_paths(&vec![None], None, &slices), Vec::<String>::new());
    let per_file = vec![vec!["a".to_string(), " b".to_string()], vec!["b".to_string(), "".to_string(), "c".to_string()]];
    assert_eq!(raw_image_paths(&per_file), vec!["a", "b", "c"]);
}

#[test]
fn file_update_texts_and_plan() {
    assert_eq!(tags_json(&vec!["a".to_string(), "q\"t".to_string()]), r#"["a","q\"t"]"#);
    assert_eq!(tags_json(&vec![]), "[]");
    assert_eq!(meta_json(&v(r#"{"b": [1, 2.5], "a": null}"#)), r#"{"a":null,"b":[1,2.5]}"#);
    let req = UpdateFileReq { slice_type: None, filename: None, tags: Some(vec![]), is_public: None, meta: Some(v("{}")) };
    let plan = req.plan(Some("storage")).unwrap();
    assert!(plan.set_tags && plan.set_meta && !plan.reset_parse && !plan.set_filename);
    let parse = UpdateFileReq { slice_type: Some("auto".to_string()), filename: None, tags: None, is_public: None, meta: None };
    assert!(parse.plan(Some("storage")).is_err());
    assert!(parse.plan(Some("analysis")).unwrap().reset_parse);
    let empty = UpdateFileReq { slice_type: None, filename: None, tags: None, is_public: None, meta: None };
    assert!(empty.plan(None).is_err());
}
