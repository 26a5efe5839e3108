//! Text extraction from HTML: the records, and the flattening of records into
//! plain text.

use crate::dom::Dom;
use crate::parse::{parse_document, parseable, parsed_document};
use crate::text::{join, joined, string_views};
use crate::walk::{fragments, walk};
use vstd::prelude::*;

verus! {

/// A piece of text together with the chain of elements that contain it.
#[derive(Debug, Clone)]
pub struct TextWithParent {
    /// The text, without leading or trailing white space.
    pub text: String,
    /// The segments of the containing elements, outermost first, joined by
    /// `" > "`.
    pub parent_path: String,
    /// Reserved; always empty.
    pub parent_classes: Vec<String>,
    /// Reserved; always absent.
    pub parent_id: Option<String>,
}

/// A record as a mathematical value.
pub struct Fragment {
    pub text: Seq<char>,
    pub parent_path: Seq<char>,
    pub parent_classes: Seq<Seq<char>>,
    pub parent_id: Option<Seq<char>>,
}

impl View for TextWithParent {
    type V = Fragment;

    open spec fn view(&self) -> Fragment {
        Fragment {
            text: self.text@,
            parent_path: self.parent_path@,
            parent_classes: string_views(self.parent_classes@),
            parent_id: match self.parent_id {
                Some(id) => Some(id@),
                None => None,
            },
        }
    }
}

/// The values of a sequence of records.
pub open spec fn fragment_views(records: Seq<TextWithParent>) -> Seq<Fragment> {
    records.map_values(|r: TextWithParent| r@)
}

/// The texts of a sequence of records.
pub open spec fn fragment_texts(fragments: Seq<Fragment>) -> Seq<Seq<char>> {
    fragments.map_values(|f: Fragment| f.text)
}

/// The texts of the records, in order, one per line: a single line feed
/// stands between each two neighbours and nowhere else.
pub open spec fn flattened(fragments: Seq<Fragment>) -> Seq<char> {
    joined(fragment_texts(fragments), "\n"@)
}

/// Flattens records into plain text, one record per line.
pub fn flatten(records: &Vec<TextWithParent>) -> (out: String)
    ensures
        out@ == flattened(fragment_views(records@)),
{
    let mut texts: Vec<String> = Vec::new();
    for i in 0..records.len()
        invariant
            string_views(texts@) == fragment_texts(fragment_views(records@)).take(i as int),
    {
        let ghost before = texts@;
        let text = records[i].text.clone();
        texts.push(text);
        assert(string_views(texts@) =~= string_views(before).push(text@));
    }
    assert(fragment_texts(fragment_views(records@)).take(records@.len() as int)
        =~= fragment_texts(fragment_views(records@)));
    join(&texts, "\n")
}

/// Extracts text from HTML and keeps, for each piece of text, the elements
/// that contain it.
pub struct HtmlParser;

impl HtmlParser {
    /// Parses `html_content` and returns one record for each text node whose
    /// trimmed text has at least three characters, in breadth-first order.
    pub fn parse_html_to_text_with_parents(html_content: &str) -> (found: Vec<TextWithParent>)
        requires
            parseable(html_content@),
        ensures
            fragment_views(found@) == fragments(parsed_document(html_content@)),
    {
        let dom = parse_document(html_content);
        HtmlParser::text_with_parents(&dom)
    }

    /// The records of a document that is already parsed.
    pub fn text_with_parents(dom: &Dom) -> (found: Vec<TextWithParent>)
        requires
            dom.wf(),
        ensures
            fragment_views(found@) == fragments(dom.tree()),
    {
        walk(dom)
    }

    /// Parses `html_content` and returns its recorded texts, one per line.
    pub fn html_to_text(html_content: &str) -> (text: String)
        requires
            parseable(html_content@),
        ensures
            text@ == flattened(fragments(parsed_document(html_content@))),
    {
        let text_chunks = HtmlParser::parse_html_to_text_with_parents(html_content);
        flatten(&text_chunks)
    }

    /// The recorded texts of a document that is already parsed, one per line.
    pub fn dom_to_text(dom: &Dom) -> (text: String)
        requires
            dom.wf(),
        ensures
            text@ == flattened(fragments(dom.tree())),
    {
        let text_chunks = HtmlParser::text_with_parents(dom);
        flatten(&text_chunks)
    }
}

} // verus!
