//! The prompt builder: one text per mode, with folders and corrections
//! appended.

use file_organiser::prompt::{build_prompt, PromptMode};

#[test]
fn test_build_prompt_filename_only() {
    let folders = vec!["ML".to_string(), "Physics".to_string()];
    let corrections: Vec<String> = vec![];
    let prompt = build_prompt("lecture_notes.pdf", &folders, &corrections, PromptMode::FilenameOnly);

    assert!(prompt.contains("Filename: lecture_notes.pdf"));
    assert!(prompt.contains("ML\nPhysics"));
    assert!(prompt.contains("Given a filename"));
    assert!(!prompt.contains("Extracted text content"));
    assert!(!prompt.contains("Look at the image content"));
}

#[test]
fn test_build_prompt_vision_mode() {
    let folders = vec!["OR".to_string()];
    let corrections: Vec<String> = vec![];
    let prompt = build_prompt("screenshot.png", &folders, &corrections, PromptMode::Vision);

    assert!(prompt.contains("Look at the image content"));
    assert!(prompt.contains("Filename: screenshot.png"));
    assert!(!prompt.contains("Extracted text content"));
}

#[test]
fn test_build_prompt_text_content_mode() {
    let folders = vec!["Math".to_string()];
    let corrections: Vec<String> = vec![];
    let text = "Integration by parts formula...".to_string();
    let prompt = build_prompt("tutorial3.pdf", &folders, &corrections, PromptMode::TextContent(text));

    assert!(prompt.contains("Extracted text content"));
    assert!(prompt.contains("Integration by parts formula"));
    assert!(prompt.contains("PRIORITIZE THIS for classification"));
    assert!(prompt.contains("based PRIMARILY on the extracted text content"));
}

#[test]
fn test_build_prompt_with_corrections() {
    let folders = vec!["ML".to_string()];
    let corrections = vec![
        "\"romer_model.pdf\" → AI suggested ML, but user moved to Econ".to_string(),
    ];
    let prompt = build_prompt("test.pdf", &folders, &corrections, PromptMode::FilenameOnly);

    assert!(prompt.contains("Learn from these past corrections"));
    assert!(prompt.contains("romer_model.pdf"));
}

#[test]
fn test_build_prompt_no_corrections() {
    let folders = vec!["ML".to_string()];
    let corrections: Vec<String> = vec![];
    let prompt = build_prompt("test.pdf", &folders, &corrections, PromptMode::FilenameOnly);

    assert!(!prompt.contains("Learn from these past corrections"));
}

#[test]
fn test_build_prompt_empty_folders() {
    let folders: Vec<String> = vec![];
    let corrections: Vec<String> = vec![];
    let prompt = build_prompt("test.pdf", &folders, &corrections, PromptMode::FilenameOnly);

    assert!(prompt.contains("Available course folders:"));
    assert!(prompt.contains("Filename: test.pdf"));
}

#[test]
fn test_build_prompt_special_characters_in_filename() {
    let folders = vec!["ML".to_string()];
    let corrections: Vec<String> = vec![];
    let prompt = build_prompt("lecture (2) [final].pdf", &folders, &corrections, PromptMode::FilenameOnly);

    assert!(prompt.contains("Filename: lecture (2) [final].pdf"));
}
