//! Text utilities and the extraction helpers built on them.

use file_organiser::classify::pdf_text_excerpt;
use file_organiser::errors::{ClassifierError, DbError};
use file_organiser::text::{contains, excerpt, find_sub, normalize_ws, trim_str, u64_to_string};
use file_organiser::trusted::current_timestamp_ms;

#[test]
fn test_normalize_ws_collapses_runs() {
    assert_eq!(normalize_ws("  one   two\n\tthree  "), "one two three");
    assert_eq!(normalize_ws("\n\t  \n"), "");
    assert_eq!(normalize_ws("solid"), "solid");
}

#[test]
fn test_excerpt_caps_length() {
    let long = "word ".repeat(200);
    let cut = excerpt(&long, 500);
    assert_eq!(cut.chars().count(), 499);
    assert!(cut.starts_with("word word"));
    assert_eq!(excerpt("  a \n b  ", 500), "a b");
}

#[test]
fn test_trim_and_find() {
    assert_eq!(trim_str("  edge \u{00A0}"), "edge");
    assert_eq!(find_sub("abcabc", "cab"), Some(2));
    assert_eq!(find_sub("abc", "zz"), None);
    assert!(contains("path/../up", ".."));
    assert!(!contains("path/./same", ".."));
}

#[test]
fn test_u64_rendering() {
    assert_eq!(u64_to_string(0), "0");
    assert_eq!(u64_to_string(9041), "9041");
    assert_eq!(u64_to_string(u64::MAX), "18446744073709551615");
}

#[test]
fn test_pdf_excerpt_condenses_extracted_text() {
    let text = "  Problem   Set 2\n\nIntegration  by parts  ".to_string();
    let out = pdf_text_excerpt(Ok(text)).unwrap();
    assert_eq!(out, "Problem Set 2 Integration by parts");
}

#[test]
fn test_pdf_excerpt_surfaces_extraction_failure() {
    let err = pdf_text_excerpt(Err("bad xref table".to_string())).unwrap_err();
    assert_eq!(err.message(), "Failed to extract PDF text: bad xref table");
}

#[test]
fn test_pdf_extraction_of_junk_reports_error() {
    // The real document parser refuses non-PDF bytes; the library turns the
    // refusal into the extraction error.
    let junk = b"this is not a pdf";
    let outcome = pdf_extract::extract_text_from_mem(junk).map_err(|e| e.to_string());
    let err = pdf_text_excerpt(outcome).unwrap_err();
    assert!(err.message().contains("Failed to extract PDF text"));
}

#[test]
fn test_error_messages() {
    let e = ClassifierError::ApiStatus(500);
    assert_eq!(e.message(), "OpenAI API error (status 500)");
    let e = DbError::QueryFailed("boom".to_string());
    assert_eq!(e.message(), "Database query failed: boom");
}

#[test]
fn test_clock_reads_after_epoch() {
    assert!(current_timestamp_ms() > 0);
}
