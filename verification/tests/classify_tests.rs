//! Response parsing and sanitising: fence stripping, confidence clamping,
//! the fail-safe relevance default, and the envelope handling around it.

use file_organiser::classify::{
    handle_api_response,
    milli_of_text,
    ocr_text_gate,
    parse_response,
    Classification,
    RateLimiter,
    ApiKeyStore,
    image_data_url,
};

fn confidence(c: &Classification) -> f64 {
    c.confidence_milli as f64 / 1000.0
}

#[test]
fn test_parse_clean_json() {
    let content = r#"{"is_relevant": true, "folder": "C:\\Year2\\ML", "confidence": 0.95, "reasoning": "Machine learning lecture"}"#;
    let result = parse_response(content).unwrap();
    assert!(result.is_relevant);
    assert_eq!(result.suggested_folder, "C:\\Year2\\ML");
    assert!((confidence(&result) - 0.95).abs() < 0.001);
    assert_eq!(result.reasoning, "Machine learning lecture");
}

#[test]
fn test_parse_markdown_json_block() {
    let content = "```json\n{\"is_relevant\": true, \"folder\": \"Math\", \"confidence\": 0.8, \"reasoning\": \"math notes\"}\n```";
    let result = parse_response(content).unwrap();
    assert!(result.is_relevant);
    assert_eq!(result.suggested_folder, "Math");
}

#[test]
fn test_parse_generic_code_block() {
    let content = "```\n{\"is_relevant\": false, \"folder\": \"\", \"confidence\": 0.0, \"reasoning\": \"meme image\"}\n```";
    let result = parse_response(content).unwrap();
    assert!(!result.is_relevant);
    assert_eq!(result.suggested_folder, "");
    assert!((confidence(&result) - 0.0).abs() < 0.001);
}

#[test]
fn test_parse_missing_is_relevant_defaults_to_false() {
    let content = r#"{"folder": "Physics", "confidence": 0.9, "reasoning": "physics homework"}"#;
    let result = parse_response(content).unwrap();
    assert!(!result.is_relevant);
    assert_eq!(result.suggested_folder, "Physics");
}

#[test]
fn test_parse_invalid_json_returns_error() {
    let content = "not json at all";
    let result = parse_response(content);
    assert!(result.is_err());
    assert!(result.unwrap_err().message().contains("Failed to parse GPT JSON response"));
}

#[test]
fn test_parse_json_with_extra_whitespace() {
    let content = "  \n  {\"is_relevant\": true, \"folder\": \"CS\", \"confidence\": 0.75, \"reasoning\": \"code file\"}  \n  ";
    let result = parse_response(content).unwrap();
    assert!(result.is_relevant);
    assert_eq!(result.suggested_folder, "CS");
}

#[test]
fn test_parse_json_with_text_before_code_block() {
    let content = "Here is the classification:\n```json\n{\"is_relevant\": true, \"folder\": \"OR\", \"confidence\": 0.85, \"reasoning\": \"operations research\"}\n```\nLet me know if you need more.";
    let result = parse_response(content).unwrap();
    assert_eq!(result.suggested_folder, "OR");
}

#[test]
fn test_parse_zero_confidence_not_relevant() {
    let content = r#"{"is_relevant": false, "folder": "", "confidence": 0, "reasoning": "game installer"}"#;
    let result = parse_response(content).unwrap();
    assert!(!result.is_relevant);
    assert_eq!(result.confidence_milli, 0);
}

#[test]
fn test_parse_confidence_boundary_values() {
    let content = r#"{"is_relevant": true, "folder": "ML", "confidence": 1.0, "reasoning": "perfect match"}"#;
    let result = parse_response(content).unwrap();
    assert!((confidence(&result) - 1.0).abs() < 0.001);

    let content = r#"{"is_relevant": true, "folder": "Math", "confidence": 0.5, "reasoning": "uncertain"}"#;
    let result = parse_response(content).unwrap();
    assert!((confidence(&result) - 0.5).abs() < 0.001);
}

#[test]
fn test_classification_clone() {
    let c = Classification {
        is_relevant: true,
        suggested_folder: "Physics".to_string(),
        confidence_milli: 850,
        reasoning: "physics material".to_string(),
    };
    let c2 = c.clone();
    assert_eq!(c.suggested_folder, c2.suggested_folder);
    assert_eq!(c.confidence_milli, c2.confidence_milli);
}

#[test]
fn test_parse_json_with_integer_confidence() {
    let content = r#"{"is_relevant": true, "folder": "ML", "confidence": 1, "reasoning": "obvious"}"#;
    let result = parse_response(content).unwrap();
    assert!((confidence(&result) - 1.0).abs() < 0.001);
}

#[test]
fn test_parse_nested_markdown_blocks() {
    let content = "Some text\n```json\n{\"is_relevant\": true, \"folder\": \"A\", \"confidence\": 0.7, \"reasoning\": \"first\"}\n```\nMore text\n```json\n{\"is_relevant\": true, \"folder\": \"B\", \"confidence\": 0.8, \"reasoning\": \"second\"}\n```";
    let result = parse_response(content).unwrap();
    assert_eq!(result.suggested_folder, "A");
}

#[test]
fn test_parse_empty_reasoning() {
    let content = r#"{"is_relevant": true, "folder": "ML", "confidence": 0.6, "reasoning": ""}"#;
    let result = parse_response(content).unwrap();
    assert_eq!(result.reasoning, "");
}

#[test]
fn test_parse_unicode_in_reasoning() {
    let content = r#"{"is_relevant": true, "folder": "Math", "confidence": 0.9, "reasoning": "Contains calculus formulas: ∫ and Σ"}"#;
    let result = parse_response(content).unwrap();
    assert!(result.reasoning.contains("∫"));
}

#[test]
fn test_parse_folder_with_backslashes() {
    let content = r#"{"is_relevant": true, "folder": "C:\\Users\\student\\Year2\\ML", "confidence": 0.95, "reasoning": "ml notes"}"#;
    let result = parse_response(content).unwrap();
    assert_eq!(result.suggested_folder, "C:\\Users\\student\\Year2\\ML");
}

#[test]
fn test_confidence_clamped_above_one() {
    let content = r#"{"is_relevant": true, "folder": "ML", "confidence": 3.5, "reasoning": "overshot"}"#;
    let result = parse_response(content).unwrap();
    assert_eq!(result.confidence_milli, 1000);
}

#[test]
fn test_confidence_clamped_below_zero() {
    let content = r#"{"is_relevant": false, "folder": "", "confidence": -0.5, "reasoning": "undershot"}"#;
    let result = parse_response(content).unwrap();
    assert_eq!(result.confidence_milli, 0);
}

#[test]
fn test_usable_folder_empty_when_not_relevant() {
    let content = r#"{"is_relevant": false, "folder": "Physics", "confidence": 0.9, "reasoning": "kept anyway"}"#;
    let result = parse_response(content).unwrap();
    assert_eq!(result.suggested_folder, "Physics");
    assert_eq!(result.usable_folder(), "");
}

#[test]
fn test_milli_of_text_values() {
    assert_eq!(milli_of_text("0.95"), 950);
    assert_eq!(milli_of_text("0.5"), 500);
    assert_eq!(milli_of_text("1"), 1000);
    assert_eq!(milli_of_text("1.0"), 1000);
    assert_eq!(milli_of_text("0"), 0);
    assert_eq!(milli_of_text("0.9999"), 999);
    assert_eq!(milli_of_text("-0.5"), 0);
    // The number rendering uses exponent forms only below 1e-5 or at 1e16
    // and beyond: tiny confidences clamp to zero, huge ones to one.
    assert_eq!(milli_of_text("1e-7"), 0);
    assert_eq!(milli_of_text("1.5e-7"), 0);
    assert_eq!(milli_of_text("-1e-7"), 0);
    assert_eq!(milli_of_text("4e16"), 1000);
}

#[test]
fn test_parse_tiny_confidence_clamps_low() {
    let content = r#"{"is_relevant": true, "folder": "ML", "confidence": 1e-7, "reasoning": "barely"}"#;
    let result = parse_response(content).unwrap();
    assert_eq!(result.confidence_milli, 0);
}

#[test]
fn test_handle_api_response_non_success_status() {
    let result = handle_api_response(429, "{}");
    assert!(result.unwrap_err().message().contains("429"));
}

#[test]
fn test_handle_api_response_no_choices() {
    let body = r#"{"choices": []}"#;
    let result = handle_api_response(200, body);
    assert!(result.unwrap_err().message().contains("no choices"));
}

#[test]
fn test_handle_api_response_first_choice_parsed() {
    let body = r#"{"choices": [{"message": {"content": "{\"is_relevant\": true, \"folder\": \"ML\", \"confidence\": 0.7, \"reasoning\": \"ok\"}"}}]}"#;
    let result = handle_api_response(200, body).unwrap();
    assert!(result.is_relevant);
    assert_eq!(result.suggested_folder, "ML");
    assert_eq!(result.confidence_milli, 700);
}

#[test]
fn test_rate_limiter_spacing() {
    let mut gate = RateLimiter::new();
    assert_eq!(gate.delay_before_call(10_000), 0);
    // The first call's slot was 10000; a call 100 ms later waits out the rest.
    assert_eq!(gate.delay_before_call(10_100), 400);
    // That call fires at 10500; a call at 10600 waits until 11000.
    assert_eq!(gate.delay_before_call(10_600), 400);
    assert_eq!(gate.delay_before_call(12_000), 0);
}

#[test]
fn test_api_key_store() {
    let mut store = ApiKeyStore::new();
    assert!(store.get_stored_api_key().is_err());
    store.set_api_key("SECRET-REDACTED".to_string());
    assert_eq!(store.get_stored_api_key().unwrap(), "SECRET-REDACTED");
    assert_eq!(store.get_api_key(), "SECRET-REDACTED");
}

#[test]
fn test_ocr_gate_insufficient_text() {
    assert_eq!(ocr_text_gate("tiny".to_string()).unwrap_err(), "OCR_INSUFFICIENT_TEXT");
    let long = "plenty of extracted characters".to_string();
    assert_eq!(ocr_text_gate(long.clone()).unwrap(), long);
}

#[test]
fn test_image_data_url_encodes() {
    let bytes = vec![1u8, 2, 3];
    let url = image_data_url(&bytes, "/tmp/shot.png").unwrap();
    assert_eq!(url, "data:image/png;base64,AQID");
}

#[test]
fn test_image_data_url_too_large() {
    let bytes = vec![0u8; 20 * 1024 * 1024 + 1];
    let err = image_data_url(&bytes, "/tmp/big.jpg").unwrap_err();
    assert!(err.message().contains("Image file too large"));
    assert!(err.message().contains("20.0 MB"));
}
