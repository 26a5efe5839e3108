//! What the browser front end needs besides fetching: parsing pasted HTML,
//! and unpacking the reply of the fetch proxy, which wraps the page in JSON.

use crate::parse::{is_parseable, parseable, parsed_document};
use crate::{parse_recipe_from_content, rendered};
use vstd::prelude::*;
use vstd::string::StringExecFns;

verus! {

/// What a JSON text holds under a key: `Ok(Some(text))` where `body` is a
/// JSON value with the string `text` under `key`, `Ok(None)` where it is JSON
/// without such a string, and `Err(why)` where it is no JSON at all, with
/// the parser's own words.
pub uninterp spec fn json_string_at(body: Seq<char>, key: Seq<char>) -> Result<
    Option<Seq<char>>,
    Seq<char>,
>;

/// The mathematical value of an unpacked reply.
pub open spec fn reply_view(reply: Result<Option<String>, String>) -> Result<
    Option<Seq<char>>,
    Seq<char>,
> {
    match reply {
        Ok(Some(html)) => Ok(Some(html@)),
        Ok(None) => Ok(None),
        Err(why) => Err(why@),
    }
}

/// Calls `serde_json::from_str` for a `serde_json::Value`, then reads the
/// value at `key` as a string. A text that is no JSON gives the error's
/// `Display` text.
#[verifier::external_body]
fn read_json_string(body: &str, key: &str) -> (reply: Result<Option<String>, String>)
    ensures
        reply_view(reply) == json_string_at(body@, key@),
{
    serde_json::from_str::<serde_json::Value>(body)
        .map(|value| value[key].as_str().map(|text| text.to_string()))
        .map_err(|error| error.to_string())
}

/// What the proxy's reply holds: the page stands under the key `contents`.
pub open spec fn proxy_contents(body: Seq<char>) -> Result<Option<Seq<char>>, Seq<char>> {
    json_string_at(body, "contents"@)
}

/// Whether a page can be rendered in a format: it is short enough for the
/// parser, or the format is `json`, for which no page is parsed.
pub open spec fn renderable(html: Seq<char>, format: Seq<char>) -> bool {
    format == "json"@ || parseable(html)
}

/// What the front end shows for an unpacked reply: the page rendered in the
/// given format, or why there is no page.
pub open spec fn reply_output(
    reply: Result<Option<Seq<char>>, Seq<char>>,
    format: Seq<char>,
) -> Result<Seq<char>, Seq<char>> {
    match reply {
        Ok(Some(html)) => Ok(rendered(parsed_document(html), format)),
        Ok(None) => Err("No contents field in proxy response"@),
        Err(why) => Err("JSON parse error: "@ + why),
    }
}

/// The mathematical value of an outcome.
pub open spec fn outcome_view(outcome: Result<String, String>) -> Result<Seq<char>, Seq<char>> {
    match outcome {
        Ok(text) => Ok(text@),
        Err(why) => Err(why@),
    }
}

/// Parses pasted HTML and renders it in the default format.
pub fn parse_html(html: &str) -> (out: String)
    requires
        parseable(html@),
    ensures
        out@ == rendered(parsed_document(html@), "markdown"@),
{
    parse_recipe_from_content(html, "markdown")
}

/// The debug view, which is not available yet: a fixed notice.
pub fn parse_html_debug(_html: &str) -> (out: String)
    ensures
        out@ == "Debug mode not implemented yet"@,
{
    String::from_str("Debug mode not implemented yet")
}

/// The address at which the proxy fetches a page; `encoded_url` is the
/// page's address, percent-encoded.
pub fn proxy_url(encoded_url: &str) -> (url: String)
    ensures
        url@ == "/proxy?url="@ + encoded_url@,
{
    let mut url = String::from_str("/proxy?url=");
    url.append(encoded_url);
    url
}

/// Renders an unpacked reply of the proxy in the given format.
pub fn recipe_from_reply(reply: &Result<Option<String>, String>, format: &str) -> (outcome: Result<
    String,
    String,
>)
    requires
        reply matches Ok(Some(html)) ==> renderable(html@, format@),
    ensures
        outcome_view(outcome) == reply_output(reply_view(*reply), format@),
{
    match reply {
        Ok(Some(html)) => Ok(parse_recipe_from_content(html.as_str(), format)),
        Ok(None) => Err(String::from_str("No contents field in proxy response")),
        Err(why) => {
            let mut message = String::from_str("JSON parse error: ");
            message.append(why.as_str());
            Err(message)
        },
    }
}

/// What the front end shows for the body of the proxy's reply: the same as
/// for the unpacked reply, but a page that is too long to be rendered is
/// reported instead.
pub open spec fn body_output(body: Seq<char>, format: Seq<char>) -> Result<Seq<char>, Seq<char>> {
    match proxy_contents(body) {
        Ok(Some(html)) if !renderable(html, format) => Err("Page too large"@),
        reply => reply_output(reply, format),
    }
}

/// Unpacks the body of the proxy's reply and renders the page in it.
pub fn recipe_from_proxy_body(body: &str, format: &str) -> (outcome: Result<String, String>)
    ensures
        outcome_view(outcome) == body_output(body@, format@),
{
    let reply = read_json_string(body, "contents");
    let fits = match &reply {
        Ok(Some(html)) => *format == *"json" || is_parseable(html.as_str()),
        _ => true,
    };
    if fits {
        recipe_from_reply(&reply, format)
    } else {
        Err(String::from_str("Page too large"))
    }
}

} // verus!
