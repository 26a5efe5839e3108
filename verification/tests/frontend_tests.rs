use carrot::cli::{block_for, report, Block, TEXT_WIDTH};
use carrot::frontend::{
    parse_html, parse_html_debug, proxy_url, recipe_from_proxy_body, recipe_from_reply,
};

#[test]
fn pasted_html_is_rendered_as_text() {
    let html = "<ul><li>2 cups flour</li><li>1 tsp salt</li></ul>";
    assert_eq!(parse_html(html), "2 cups flour\n1 tsp salt");
    assert_eq!(parse_html(""), "");
}

#[test]
fn debug_view_is_a_notice() {
    assert_eq!(parse_html_debug("<p>anything at all</p>"), "Debug mode not implemented yet");
    assert_eq!(parse_html_debug(""), "Debug mode not implemented yet");
}

#[test]
fn proxy_address() {
    assert_eq!(proxy_url("https%3A%2F%2Fexample.com%2Fa%3Fb%3D1"), "/proxy?url=https%3A%2F%2Fexample.com%2Fa%3Fb%3D1");
    assert_eq!(proxy_url(""), "/proxy?url=");
}

#[test]
fn reply_with_contents_is_parsed() {
    let body = "{\"contents\":\"<p>Hello world</p><p>Second line</p>\",\"status\":{\"http_code\":200}}";
    assert_eq!(recipe_from_proxy_body(body, "text"), Ok("Hello world\nSecond line".to_string()));
    assert_eq!(
        recipe_from_proxy_body(body, "json"),
        Ok("JSON format not yet implemented".to_string())
    );
}

#[test]
fn reply_contents_are_unescaped() {
    let body = "{\"contents\":\"<p class=\\\"a\\\">Tab\\there \\u00e9</p>\"}";
    assert_eq!(recipe_from_proxy_body(body, "html"), Ok("Tab\there \u{e9}".to_string()));
}

#[test]
fn reply_without_contents_is_an_error() {
    let missing = Err("No contents field in proxy response".to_string());
    assert_eq!(recipe_from_proxy_body("{\"status\":1}", "text"), missing);
    assert_eq!(recipe_from_proxy_body("{\"contents\":5}", "text"), missing);
    assert_eq!(recipe_from_proxy_body("{\"contents\":null}", "text"), missing);
    assert_eq!(recipe_from_proxy_body("[1,2]", "text"), missing);
    assert_eq!(recipe_from_proxy_body("\"contents\"", "text"), missing);
}

#[test]
fn reply_that_is_no_json_is_an_error() {
    for body in ["not json", "", "{\"contents\":", "{'contents':'x'}"] {
        let why = serde_json::from_str::<serde_json::Value>(body).unwrap_err();
        assert_eq!(
            recipe_from_proxy_body(body, "text"),
            Err(format!("JSON parse error: {}", why))
        );
    }
    assert_eq!(
        recipe_from_proxy_body("not json", "text"),
        Err("JSON parse error: expected ident at line 1 column 2".to_string())
    );
}

#[test]
fn unpacked_reply_by_case() {
    assert_eq!(
        recipe_from_reply(&Ok(Some("<p>Hello world</p>".to_string())), "markdown"),
        Ok("Hello world".to_string())
    );
    assert_eq!(
        recipe_from_reply(&Ok(None), "markdown"),
        Err("No contents field in proxy response".to_string())
    );
    assert_eq!(
        recipe_from_reply(&Err("bad input".to_string()), "markdown"),
        Err("JSON parse error: bad input".to_string())
    );
}

#[test]
fn block_by_format() {
    assert_eq!(block_for("markdown"), Block::Parsed);
    assert_eq!(block_for("text"), Block::Parsed);
    assert_eq!(block_for("raw"), Block::Raw);
    assert_eq!(block_for("json"), Block::Fallback);
    assert_eq!(block_for("html"), Block::Fallback);
    assert_eq!(block_for(""), Block::Fallback);
    assert_eq!(block_for("Markdown"), Block::Fallback);
    assert_eq!(block_for("raw "), Block::Fallback);
}

#[test]
fn report_by_format() {
    assert_eq!(report("markdown", "<p>x</p>", "x\n"), "\n--- PARSED RECIPE ---\n\nx\n\n");
    assert_eq!(report("text", "<p>x</p>", "x\n"), "\n--- PARSED RECIPE ---\n\nx\n\n");
    assert_eq!(report("raw", "<p>x</p>", "x\n"), "\n--- RAW HTML ---\n\n<p>x</p>\n");
    assert_eq!(
        report("pdf", "<p>x</p>", "x\n"),
        "Unknown format: pdf. Using markdown.\n\n--- PARSED RECIPE ---\n\nx\n\n"
    );
    assert_eq!(report("raw", "", ""), "\n--- RAW HTML ---\n\n\n");
}

#[test]
fn report_holds_the_wrapped_text_it_is_given() {
    assert_eq!(TEXT_WIDTH, 80);
    let html = "<h1>Bread</h1><p>Mix flour and salt.</p><ul><li>2 cups flour</li></ul>";
    let text = html2text::from_read(html.as_bytes(), TEXT_WIDTH);
    assert!(text.contains("Mix flour and salt."));
    assert_eq!(report("markdown", html, &text), format!("\n--- PARSED RECIPE ---\n\n{}\n", text));
    assert_eq!(report("raw", html, &text), format!("\n--- RAW HTML ---\n\n{}\n", html));
    assert_eq!(
        report("other", html, &text),
        format!("Unknown format: other. Using markdown.\n\n--- PARSED RECIPE ---\n\n{}\n", text)
    );
}

#[test]
fn report_with_an_empty_format() {
    assert_eq!(
        report("", "<p>x</p>", "x\n"),
        "Unknown format: . Using markdown.\n\n--- PARSED RECIPE ---\n\nx\n\n"
    );
}
