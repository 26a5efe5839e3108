use carrot::{is_known_format, RecipeError};

#[test]
fn error_keeps_its_message() {
    let error = RecipeError::new("something broke".to_string());
    assert_eq!(error.message(), "something broke");
    assert_eq!(error.describe(), "Recipe parsing error: something broke");
}

#[test]
fn request_failure_message() {
    let error = RecipeError::request_failed("connection refused");
    assert_eq!(error.message(), "HTTP request failed: connection refused");
    assert_eq!(error.describe(), "Recipe parsing error: HTTP request failed: connection refused");
}

#[test]
fn status_failure_message() {
    let error = RecipeError::http_status("404 Not Found");
    assert_eq!(error.message(), "HTTP error: 404 Not Found");
    assert_eq!(error.describe(), "Recipe parsing error: HTTP error: 404 Not Found");
}

#[test]
fn empty_message() {
    let error = RecipeError::new(String::new());
    assert_eq!(error.message(), "");
    assert_eq!(error.describe(), "Recipe parsing error: ");
}

#[test]
fn unknown_format_message() {
    let error = RecipeError::unknown_format("pdf");
    assert_eq!(error.message(), "Unknown format: pdf");
    assert_eq!(error.describe(), "Recipe parsing error: Unknown format: pdf");
    assert_eq!(RecipeError::unknown_format("").message(), "Unknown format: ");
}

#[test]
fn known_formats() {
    for format in ["markdown", "text", "html", "json", "raw"] {
        assert!(is_known_format(format), "{}", format);
    }
    for format in ["", "pdf", "Markdown", "JSON", "raw ", " text", "htm", "markdown,text", "xml"] {
        assert!(!is_known_format(format), "{}", format);
    }
}
