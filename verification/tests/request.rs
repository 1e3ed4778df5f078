use cursor_core::request::{MessageType, UserRequest};

fn sample(selection: Option<String>) -> UserRequest {
    UserRequest::new(
        "explain".to_string(),
        "/proj".to_string(),
        "main.rs".to_string(),
        "fn main() {}".to_string(),
        vec!["a".to_string(), "b".to_string()],
        vec!["c".to_string()],
        selection,
        MessageType::Freeform,
        7,
    )
}

#[test]
fn constructor_keeps_fields_verbatim() {
    let req = sample(Some("sel".to_string()));
    assert_eq!(req.message, "explain");
    assert_eq!(req.current_root_path, "/proj");
    assert_eq!(req.current_file_name, "main.rs");
    assert_eq!(req.current_file_contents, "fn main() {}");
    assert_eq!(req.preceding_code, vec!["a".to_string(), "b".to_string()]);
    assert_eq!(req.suffix_code, vec!["c".to_string()]);
    assert_eq!(req.current_selection, Some("sel".to_string()));
    assert!(req.copilot_code_blocks.is_empty());
    assert!(req.custom_code_blocks.is_empty());
    assert!(req.code_block_identifiers.is_empty());
    assert_eq!(req.message_type, MessageType::Freeform);
    assert_eq!(req.max_original_line, 7);
}

#[test]
fn body_uses_exact_wire_names_in_order() {
    let body = sample(Some("sel".to_string())).to_json_body();
    assert_eq!(
        body,
        "{\"message\":\"explain\",\"currentRootPath\":\"/proj\",\"currentFileName\":\"main.rs\",\"currentFileContents\":\"fn main() {}\",\"precedingCode\":[\"a\",\"b\"],\"suffixCode\":[\"c\"],\"currentSelection\":\"sel\",\"copilotCodeBlocks\":[],\"customCodeBlocks\":[],\"codeBlockIdentifiers\":[],\"msgType\":\"freeform\",\"maxOrigLine\":7}"
    );
}

#[test]
fn absent_selection_serializes_as_null_not_empty_string() {
    let none_body = sample(None).to_json_body();
    let empty_body = sample(Some(String::new())).to_json_body();
    assert!(none_body.contains("\"currentSelection\":null"));
    assert!(empty_body.contains("\"currentSelection\":\"\""));
    assert_ne!(none_body, empty_body);
}

#[test]
fn edit_message_type_spelled_edit() {
    let req = UserRequest::new(
        "m".to_string(),
        "r".to_string(),
        "f".to_string(),
        "c".to_string(),
        Vec::new(),
        Vec::new(),
        None,
        MessageType::Edit,
        0,
    );
    assert!(req.to_json_body().contains("\"msgType\":\"edit\""));
}

#[test]
fn strings_are_escaped() {
    let req = UserRequest::new(
        "q\" b\\ n\n r\r t\t u\u{1}".to_string(),
        String::new(),
        String::new(),
        String::new(),
        Vec::new(),
        Vec::new(),
        None,
        MessageType::Freeform,
        1,
    );
    let body = req.to_json_body();
    assert!(body.contains("\"message\":\"q\\\" b\\\\ n\\n r\\r t\\t u\\u0001\""));
}

#[test]
fn negative_and_extreme_max_line_values() {
    let mut req = sample(None);
    req.max_original_line = -123;
    assert!(req.to_json_body().ends_with("\"maxOrigLine\":-123}"));
    req.max_original_line = i32::MIN;
    assert!(req.to_json_body().ends_with("\"maxOrigLine\":-2147483648}"));
    req.max_original_line = i32::MAX;
    assert!(req.to_json_body().ends_with("\"maxOrigLine\":2147483647}"));
}

#[test]
fn body_parses_as_json_with_expected_values() {
    let mut req = sample(None);
    req.message = "caf\u{e9} \"quoted\"\nline\u{2} two".to_string();
    let body = req.to_json_body();
    let v: serde_json::Value = serde_json::from_str(&body).expect("body must be valid JSON");
    assert_eq!(
        v["message"].as_str().unwrap(),
        "caf\u{e9} \"quoted\"\nline\u{2} two"
    );
    assert_eq!(v["currentRootPath"].as_str().unwrap(), "/proj");
    assert_eq!(v["precedingCode"][0].as_str().unwrap(), "a");
    assert_eq!(v["precedingCode"][1].as_str().unwrap(), "b");
    assert_eq!(v["suffixCode"][0].as_str().unwrap(), "c");
    assert!(v["currentSelection"].is_null());
    assert_eq!(v["copilotCodeBlocks"].as_array().unwrap().len(), 0);
    assert_eq!(v["msgType"].as_str().unwrap(), "freeform");
    assert_eq!(v["maxOrigLine"].as_i64().unwrap(), 7);
}
