use carrot::dom::{Attribute, Dom, NodeKind};
use carrot::html_parser::{HtmlParser, TextWithParent};
use carrot::parse::{is_parseable, parse_document, MAX_HTML_CHARS};
use carrot::walk::{find_attribute, path_segment, walk, MIN_TEXT_LEN};
use carrot::recipe_from_dom;

fn element(name: &str, attrs: &[(&str, &str)]) -> NodeKind {
    NodeKind::Element {
        name: name.to_string(),
        attrs: attrs
            .iter()
            .map(|(n, v)| Attribute { name: n.to_string(), value: v.to_string() })
            .collect(),
    }
}

fn text(s: &str) -> NodeKind {
    NodeKind::Text(s.to_string())
}

fn pairs(records: &[TextWithParent]) -> Vec<(String, String)> {
    records.iter().map(|r| (r.text.clone(), r.parent_path.clone())).collect()
}

fn pair(text: &str, path: &str) -> (String, String) {
    (text.to_string(), path.to_string())
}

#[test]
fn new_document_holds_only_its_root() {
    let dom = Dom::new();
    assert_eq!(dom.len(), 1);
    assert!(matches!(dom.kind(0), NodeKind::Document));
    assert!(dom.children(0).is_empty());
    assert!(walk(&dom).is_empty());
}

#[test]
fn append_child_returns_the_next_index() {
    let mut dom = Dom::new();
    assert_eq!(dom.append_child(0, element("div", &[])), Some(1));
    assert_eq!(dom.append_child(0, element("p", &[])), Some(2));
    assert_eq!(dom.append_child(1, text("inside div")), Some(3));
    assert_eq!(dom.len(), 4);
    assert_eq!(dom.children(0), &vec![1, 2]);
    assert_eq!(dom.children(1), &vec![3]);
    assert!(dom.children(2).is_empty());
    assert!(matches!(dom.kind(3), NodeKind::Text(t) if t == "inside div"));
}

#[test]
fn append_child_to_a_missing_parent_changes_nothing() {
    let mut dom = Dom::new();
    assert_eq!(dom.append_child(1, text("nowhere")), None);
    assert_eq!(dom.append_child(7, text("nowhere")), None);
    assert_eq!(dom.len(), 1);
    assert!(dom.children(0).is_empty());
}

#[test]
fn walk_of_a_hand_built_document() {
    let mut dom = Dom::new();
    let html = dom.append_child(0, element("html", &[])).unwrap();
    let body = dom.append_child(html, element("body", &[])).unwrap();
    let div = dom.append_child(body, element("div", &[("id", "x"), ("class", "a b")])).unwrap();
    let p = dom.append_child(div, element("p", &[])).unwrap();
    dom.append_child(p, text("Hello world")).unwrap();
    let found = walk(&dom);
    assert_eq!(pairs(&found), vec![pair("Hello world", "html > body > div#x.a > p")]);
    assert!(found[0].parent_classes.is_empty());
    assert_eq!(found[0].parent_id, None);
}

#[test]
fn walk_is_breadth_first_on_a_hand_built_document() {
    let mut dom = Dom::new();
    let left = dom.append_child(0, element("div", &[])).unwrap();
    let b = dom.append_child(left, element("b", &[])).unwrap();
    let i = dom.append_child(b, element("i", &[])).unwrap();
    dom.append_child(i, text("Deep")).unwrap();
    let right = dom.append_child(0, element("div", &[])).unwrap();
    let span = dom.append_child(right, element("span", &[])).unwrap();
    dom.append_child(span, text("First")).unwrap();
    dom.append_child(0, text("Top text")).unwrap();
    assert_eq!(
        pairs(&walk(&dom)),
        vec![pair("Top text", ""), pair("First", "div > span"), pair("Deep", "div > b > i")]
    );
}

#[test]
fn children_added_out_of_order_keep_their_place_under_the_parent() {
    let mut dom = Dom::new();
    let a = dom.append_child(0, element("a", &[])).unwrap();
    let b = dom.append_child(0, element("b", &[])).unwrap();
    dom.append_child(b, text("under b first")).unwrap();
    dom.append_child(a, text("under a later")).unwrap();
    dom.append_child(b, text("under b second")).unwrap();
    assert_eq!(
        pairs(&walk(&dom)),
        vec![pair("under a later", "a"), pair("under b first", "b"), pair("under b second", "b")]
    );
}

#[test]
fn text_at_the_root_has_an_empty_path() {
    let dom = Dom::with_root(text("  lonely text  "));
    assert_eq!(pairs(&walk(&dom)), vec![pair("lonely text", "")]);
}

#[test]
fn the_walk_does_not_look_below_a_text_node() {
    let mut dom = Dom::new();
    let t = dom.append_child(0, text("outer text")).unwrap();
    dom.append_child(t, text("hidden text")).unwrap();
    assert_eq!(pairs(&walk(&dom)), vec![pair("outer text", "")]);
}

#[test]
fn other_nodes_hand_their_path_on_unchanged() {
    let mut dom = Dom::new();
    let div = dom.append_child(0, element("div", &[])).unwrap();
    let other = dom.append_child(div, NodeKind::Other).unwrap();
    dom.append_child(other, text("below other")).unwrap();
    let doc = dom.append_child(div, NodeKind::Document).unwrap();
    dom.append_child(doc, text("below document")).unwrap();
    assert_eq!(pairs(&walk(&dom)), vec![pair("below other", "div"), pair("below document", "div")]);
}

#[test]
fn records_need_three_characters_after_trimming() {
    assert_eq!(MIN_TEXT_LEN, 3);
    let mut dom = Dom::new();
    let p = dom.append_child(0, element("p", &[])).unwrap();
    for s in ["", " ", "a", "ab", "  ab  ", "abc", " abc ", "a c", "\u{e9}\u{e9}", "\u{e9}\u{e9}\u{e9}"] {
        dom.append_child(p, text(s)).unwrap();
    }
    let texts: Vec<String> = walk(&dom).into_iter().map(|r| r.text).collect();
    assert_eq!(texts, vec!["abc", "abc", "a c", "\u{e9}\u{e9}\u{e9}"]);
}

#[test]
fn path_segment_formula() {
    let attrs = |items: &[(&str, &str)]| -> Vec<Attribute> {
        items.iter().map(|(n, v)| Attribute { name: n.to_string(), value: v.to_string() }).collect()
    };
    assert_eq!(path_segment("div", &attrs(&[])), "div");
    assert_eq!(path_segment("div", &attrs(&[("id", "x")])), "div#x");
    assert_eq!(path_segment("div", &attrs(&[("class", "a b")])), "div.a");
    assert_eq!(path_segment("div", &attrs(&[("id", "x"), ("class", "a b")])), "div#x.a");
    assert_eq!(path_segment("div", &attrs(&[("class", "a b"), ("id", "x")])), "div#x.a");
    assert_eq!(path_segment("ul", &attrs(&[("class", "  wide\tlist ")])), "ul.wide");
    assert_eq!(path_segment("ul", &attrs(&[("class", "")])), "ul");
    assert_eq!(path_segment("ul", &attrs(&[("class", " \n")])), "ul");
    assert_eq!(path_segment("p", &attrs(&[("id", "")])), "p#");
    assert_eq!(path_segment("p", &attrs(&[("href", "x"), ("ID", "y"), ("data-id", "z")])), "p");
    assert_eq!(path_segment("p", &attrs(&[("id", "first"), ("id", "second")])), "p#first");
    assert_eq!(path_segment("", &attrs(&[("id", "x")])), "#x");
}

#[test]
fn find_attribute_takes_the_first_match() {
    let attrs = vec![
        Attribute { name: "class".to_string(), value: "a".to_string() },
        Attribute { name: "id".to_string(), value: "one".to_string() },
        Attribute { name: "id".to_string(), value: "two".to_string() },
    ];
    assert_eq!(find_attribute(&attrs, "id"), Some(&"one".to_string()));
    assert_eq!(find_attribute(&attrs, "class"), Some(&"a".to_string()));
    assert_eq!(find_attribute(&attrs, "href"), None);
    assert_eq!(find_attribute(&Vec::new(), "id"), None);
}

#[test]
fn empty_segments_still_count_in_the_path() {
    let mut dom = Dom::new();
    let unnamed = dom.append_child(0, element("", &[])).unwrap();
    let p = dom.append_child(unnamed, element("p", &[])).unwrap();
    dom.append_child(unnamed, text("directly below")).unwrap();
    dom.append_child(p, text("one deeper")).unwrap();
    assert_eq!(pairs(&walk(&dom)), vec![pair("directly below", ""), pair("one deeper", " > p")]);
}

#[test]
fn parsed_document_has_the_tree_of_the_text() {
    let dom = parse_document("<p id=\"a\" class=\"b c\">Hi <!-- note --><b>there</b></p>");
    assert!(matches!(dom.kind(0), NodeKind::Document));
    assert_eq!(dom.children(0).len(), 1);
    let html = dom.children(0)[0];
    assert!(matches!(dom.kind(html), NodeKind::Element { name, .. } if name == "html"));
    let names: Vec<String> = dom
        .children(html)
        .iter()
        .map(|&c| match dom.kind(c) {
            NodeKind::Element { name, .. } => name.clone(),
            _ => String::new(),
        })
        .collect();
    assert_eq!(names, vec!["head", "body"]);
    let body = dom.children(html)[1];
    let p = dom.children(body)[0];
    match dom.kind(p) {
        NodeKind::Element { name, attrs } => {
            assert_eq!(name, "p");
            let got: Vec<(&str, &str)> =
                attrs.iter().map(|a| (a.name.as_str(), a.value.as_str())).collect();
            assert_eq!(got, vec![("id", "a"), ("class", "b c")]);
        }
        _ => panic!("p is an element"),
    }
    let kids = dom.children(p);
    assert_eq!(kids.len(), 3);
    assert!(matches!(dom.kind(kids[0]), NodeKind::Text(t) if t == "Hi "));
    assert!(matches!(dom.kind(kids[1]), NodeKind::Other));
    assert!(matches!(dom.kind(kids[2]), NodeKind::Element { name, .. } if name == "b"));
    let inner = dom.children(kids[2]);
    assert!(matches!(dom.kind(inner[0]), NodeKind::Text(t) if t == "there"));
    assert_eq!(dom.len(), 9);
}

#[test]
fn parsing_then_walking_is_the_one_step_entry_point() {
    let html = "<div id=\"x\"><p>Hello world</p><span>more text</span></div>";
    let dom = parse_document(html);
    assert_eq!(
        pairs(&HtmlParser::text_with_parents(&dom)),
        pairs(&HtmlParser::parse_html_to_text_with_parents(html))
    );
    assert_eq!(HtmlParser::dom_to_text(&dom), HtmlParser::html_to_text(html));
    assert_eq!(HtmlParser::dom_to_text(&dom), "Hello world\nmore text");
}

#[test]
fn doctype_counts_as_other() {
    let dom = parse_document("<!DOCTYPE html><html></html>");
    let kinds: Vec<bool> =
        dom.children(0).iter().map(|&c| matches!(dom.kind(c), NodeKind::Other)).collect();
    assert_eq!(kinds, vec![true, false]);
}

#[test]
fn rendering_a_document_by_format() {
    let mut dom = Dom::new();
    let ul = dom.append_child(0, element("ul", &[])).unwrap();
    for s in ["2 cups flour", "1 tsp salt"] {
        let li = dom.append_child(ul, element("li", &[])).unwrap();
        dom.append_child(li, text(s)).unwrap();
    }
    assert_eq!(recipe_from_dom(&dom, "html"), "2 cups flour\n1 tsp salt");
    assert_eq!(recipe_from_dom(&dom, "markdown"), "2 cups flour\n1 tsp salt");
    assert_eq!(recipe_from_dom(&dom, "json"), "JSON format not yet implemented");
    assert_eq!(recipe_from_dom(&Dom::new(), "text"), "");
}

#[test]
fn a_deep_document_is_walked_without_recursion() {
    let mut dom = Dom::new();
    let mut parent = 0;
    for _ in 0..2000 {
        parent = dom.append_child(parent, element("div", &[])).unwrap();
    }
    dom.append_child(parent, text("bottom")).unwrap();
    let found = walk(&dom);
    assert_eq!(found.len(), 1);
    assert_eq!(found[0].text, "bottom");
    assert_eq!(found[0].parent_path.matches("div").count(), 2000);
}

#[test]
fn the_parser_limit_counts_characters() {
    assert_eq!(MAX_HTML_CHARS, 0x1000_0000);
    assert!(is_parseable(""));
    assert!(is_parseable("<p>Hello world</p>"));
    assert!(is_parseable(&"\u{1F600}".repeat(1000)));
}
