//! What the command line prints for a fetched page.
//!
//! The caller turns the page into wrapped plain text; which block is printed
//! depends on the format that was asked for.

use vstd::prelude::*;
use vstd::string::StringExecFns;

verus! {

/// The width, in columns, to which the caller wraps the text.
pub const TEXT_WIDTH: usize = 80;

/// What is printed for a format.
#[derive(Debug, PartialEq, Eq, Clone, Copy)]
pub enum Block {
    /// The wrapped text, for `markdown` and `text`.
    Parsed,
    /// The HTML as it was fetched, for `raw`.
    Raw,
    /// A warning and then the wrapped text, for every other format.
    Fallback,
}

/// The block that is printed for `format`.
pub open spec fn spec_block_for(format: Seq<char>) -> Block {
    if format == "markdown"@ || format == "text"@ {
        Block::Parsed
    } else if format == "raw"@ {
        Block::Raw
    } else {
        Block::Fallback
    }
}

/// The report for a page: the block for `format`, filled with the page's
/// HTML or its wrapped text.
pub open spec fn spec_report(format: Seq<char>, html: Seq<char>, text: Seq<char>) -> Seq<char> {
    match spec_block_for(format) {
        Block::Parsed => "\n--- PARSED RECIPE ---\n\n"@ + text + "\n"@,
        Block::Raw => "\n--- RAW HTML ---\n\n"@ + html + "\n"@,
        Block::Fallback => "Unknown format: "@ + format + ". Using markdown.\n"@
            + "\n--- PARSED RECIPE ---\n\n"@ + text + "\n"@,
    }
}

/// The block that is printed for `format`.
pub fn block_for(format: &str) -> (block: Block)
    ensures
        block == spec_block_for(format@),
{
    if *format == *"markdown" || *format == *"text" {
        Block::Parsed
    } else if *format == *"raw" {
        Block::Raw
    } else {
        Block::Fallback
    }
}

/// The report for a page whose wrapped text is `text`.
pub fn report(format: &str, html: &str, text: &str) -> (out: String)
    ensures
        out@ == spec_report(format@, html@, text@),
{
    let mut out = String::new();
    match block_for(format) {
        Block::Parsed => {
            out.append("\n--- PARSED RECIPE ---\n\n");
            out.append(text);
        },
        Block::Raw => {
            out.append("\n--- RAW HTML ---\n\n");
            out.append(html);
        },
        Block::Fallback => {
            out.append("Unknown format: ");
            out.append(format);
            out.append(". Using markdown.\n");
            out.append("\n--- PARSED RECIPE ---\n\n");
            out.append(text);
        },
    }
    out.append("\n");
    out
}

} // verus!
