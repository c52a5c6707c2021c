use page_harvest::readable::{extract_readable_text, PageNode};

fn text(t: &str) -> PageNode {
    PageNode::Text(t.to_string())
}

fn element(name: &str, children: Vec<PageNode>) -> PageNode {
    PageNode::Element { name: name.to_string(), children }
}

#[test]
fn title_and_content_are_separated() {
    let page = element(
        "html",
        vec![
            element("head", vec![element("title", vec![text("My "), element("b", vec![text("page")])])]),
            element("body", vec![text("Hello "), element("p", vec![text("world")]), PageNode::Other]),
        ],
    );
    let r = extract_readable_text(&page);
    assert_eq!(r.title.as_deref(), Some("My page"));
    assert_eq!(r.content, "Hello world");
}

#[test]
fn scripts_and_styles_are_skipped() {
    let page = element(
        "html",
        vec![
            element("style", vec![text("p { color: red }")]),
            element("body", vec![text("a"), element("script", vec![text("alert(1)")]), text("b")]),
        ],
    );
    let r = extract_readable_text(&page);
    assert_eq!(r.title, None);
    assert_eq!(r.content, "ab");
}

#[test]
fn second_title_is_content() {
    let page = element(
        "html",
        vec![element("title", vec![text("One")]), element("title", vec![text("Two")])],
    );
    let r = extract_readable_text(&page);
    assert_eq!(r.title.as_deref(), Some("One"));
    assert_eq!(r.content, "Two");
}

#[test]
fn empty_title_is_still_a_title() {
    let page = element("html", vec![element("title", vec![]), text("x")]);
    let r = extract_readable_text(&page);
    assert_eq!(r.title.as_deref(), Some(""));
    assert_eq!(r.content, "x");
}

#[test]
fn bare_text_root() {
    let r = extract_readable_text(&text("only"));
    assert_eq!(r.content, "only");
    let r = extract_readable_text(&PageNode::Other);
    assert_eq!(r.content, "");
}
