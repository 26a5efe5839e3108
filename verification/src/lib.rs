//! Turns the HTML of a web page into a list of text fragments, each with the
//! chain of elements that contain it, or into plain text with one fragment
//! per line.
//!
//! - [`dom`] holds the document tree.
//! - [`parse`] builds that tree from HTML text.
//! - [`walk`] defines the breadth-first walk and runs it.
//! - [`html_parser`] holds the records and the two entry points on HTML text.
//! - [`laws`] states what holds of every walk.
//! - [`frontend`] and [`cli`] hold what the two front ends do with a page.
//! - [`text`] holds the character-level rules (white space, trimming, joining).

use vstd::prelude::*;
use vstd::string::StringExecFns;

pub mod cli;
pub mod dom;
pub mod frontend;
pub mod html_parser;
pub mod laws;
pub mod parse;
pub mod text;
pub mod walk;

use crate::dom::{Dom, Tree};
use crate::html_parser::{flatten, flattened, HtmlParser};
use crate::parse::{parseable, parsed_document};
use crate::walk::fragments;

verus! {

/// Why a recipe could not be fetched or parsed.
#[derive(Debug)]
pub struct RecipeError {
    message: String,
}

impl View for RecipeError {
    type V = Seq<char>;

    closed spec fn view(&self) -> Seq<char> {
        self.message@
    }
}

impl RecipeError {
    /// An error with the given message.
    pub fn new(message: String) -> (error: RecipeError)
        ensures
            error@ == message@,
    {
        RecipeError { message }
    }

    /// The error for a request that could not be made or answered; `detail`
    /// says what went wrong.
    pub fn request_failed(detail: &str) -> (error: RecipeError)
        ensures
            error@ == "HTTP request failed: "@ + detail@,
    {
        let mut message = String::from_str("HTTP request failed: ");
        message.append(detail);
        RecipeError { message }
    }

    /// The error for an answer whose status is not a success; `status` is the
    /// status as text.
    pub fn http_status(status: &str) -> (error: RecipeError)
        ensures
            error@ == "HTTP error: "@ + status@,
    {
        let mut message = String::from_str("HTTP error: ");
        message.append(status);
        RecipeError { message }
    }

    /// The error for a format that is not one of the known ones.
    pub fn unknown_format(format: &str) -> (error: RecipeError)
        ensures
            error@ == "Unknown format: "@ + format@,
    {
        let mut message = String::from_str("Unknown format: ");
        message.append(format);
        RecipeError { message }
    }

    /// The message.
    pub fn message(&self) -> (message: &str)
        ensures
            message@ == self@,
    {
        self.message.as_str()
    }

    /// The error as shown to a user.
    pub fn describe(&self) -> (text: String)
        ensures
            text@ == "Recipe parsing error: "@ + self@,
    {
        let mut text = String::from_str("Recipe parsing error: ");
        text.append(self.message.as_str());
        text
    }
}

/// Whether `format` is one of the known formats: `markdown`, `text`, `html`,
/// `json` and `raw`. A caller that wants an unknown format reported, instead
/// of rendered as text, asks here first.
pub fn is_known_format(format: &str) -> (known: bool)
    ensures
        known == (format@ == "markdown"@ || format@ == "text"@ || format@ == "html"@ || format@
            == "json"@ || format@ == "raw"@),
{
    *format == *"markdown" || *format == *"text" || *format == *"html" || *format == *"json"
        || *format == *"raw"
}

/// The notice that stands in for the JSON format.
pub open spec fn json_notice() -> Seq<char> {
    "JSON format not yet implemented"@
}

/// A document rendered in a format: `"json"` gives a fixed notice, every
/// other format gives the recorded texts, one per line.
pub open spec fn rendered(tree: Tree, format: Seq<char>) -> Seq<char> {
    if format == "json"@ {
        json_notice()
    } else {
        flattened(fragments(tree))
    }
}

/// Parses `html` and renders it in the given format: `"json"` is not
/// available yet and gives a fixed notice; every other format, known or not,
/// gives the recorded texts, one per line. The page is parsed for every
/// format but `"json"`, so only there its length does not matter.
pub fn parse_recipe_from_content(html: &str, format: &str) -> (out: String)
    requires
        format@ != "json"@ ==> parseable(html@),
    ensures
        out@ == rendered(parsed_document(html@), format@),
{
    proof {
        reveal_strlit("html");
        reveal_strlit("json");
        assert("html"@[0] != "json"@[0]);
    }
    if *format == *"html" {
        let text_chunks = HtmlParser::parse_html_to_text_with_parents(html);
        flatten(&text_chunks)
    } else if *format == *"json" {
        String::from_str("JSON format not yet implemented")
    } else {
        HtmlParser::html_to_text(html)
    }
}

/// Renders a document that is already parsed in the given format.
pub fn recipe_from_dom(dom: &Dom, format: &str) -> (out: String)
    requires
        dom.wf(),
    ensures
        out@ == rendered(dom.tree(), format@),
{
    if *format == *"json" {
        String::from_str("JSON format not yet implemented")
    } else {
        HtmlParser::dom_to_text(dom)
    }
}

} // verus!
