use habr_reader::content::{
    contents_from_events, extract_content_from_html, get_element_text, parse_content_recursively,
    ArticleContent, DisplayTextType, TextType,
};
use habr_reader::html::{build_nodes, HtmlAttr, HtmlElement, HtmlEvent, HtmlNode};

fn element(name: &str, attrs: Vec<(&str, &str)>, children: Vec<HtmlNode>) -> HtmlElement {
    HtmlElement {
        name: name.to_string(),
        attrs: attrs
            .into_iter()
            .map(|(n, v)| HtmlAttr { namespace: String::new(), name: n.to_string(), value: v.to_string() })
            .collect(),
        children,
    }
}

fn text(t: &str) -> HtmlNode {
    HtmlNode::Text(t.to_string())
}

fn describe(c: &[ArticleContent]) -> Vec<String> {
    c.iter()
        .map(|c| match c {
            ArticleContent::Image(src) => format!("img:{src}"),
            ArticleContent::Text(t, TextType::Common) => format!("p:{t}"),
            ArticleContent::Text(t, TextType::Header(n)) => format!("h{n}:{t}"),
        })
        .collect()
}

#[test]
fn display_type_of_text_types() {
    assert_eq!(TextType::Common.into_display(), DisplayTextType::Common);
    assert_eq!(TextType::Header(1).into_display(), DisplayTextType::H1);
    assert_eq!(TextType::Header(2).into_display(), DisplayTextType::H2);
    assert_eq!(TextType::Header(3).into_display(), DisplayTextType::H3);
    assert_eq!(TextType::Header(4).into_display(), DisplayTextType::H4);
    assert_eq!(TextType::Header(5).into_display(), DisplayTextType::Common);
    assert_eq!(TextType::Header(0).into_display(), DisplayTextType::Common);
}

#[test]
fn element_text_trims_and_joins_descendant_text() {
    let e = element(
        "p",
        vec![],
        vec![text("  Hello "), HtmlNode::Element(element("b", vec![], vec![text("\nworld\n")])), text(" !")],
    );
    assert_eq!(get_element_text(&e), "Hello world !");
}

#[test]
fn element_text_keeps_blank_pieces_as_empty() {
    let e = element("p", vec![], vec![text("a"), text("   "), text("b")]);
    assert_eq!(get_element_text(&e), "a  b");
    let empty = element("p", vec![], vec![]);
    assert_eq!(get_element_text(&empty), "");
}

#[test]
fn try_from_recognised_elements() {
    let img = element("img", vec![("alt", "x"), ("src", "pic.png")], vec![]);
    assert!(matches!(ArticleContent::try_from(&img), Ok(ArticleContent::Image(s)) if s == "pic.png"));
    let p = element("p", vec![], vec![text(" para ")]);
    assert!(matches!(ArticleContent::try_from(&p), Ok(ArticleContent::Text(t, TextType::Common)) if t == "para"));
    for (name, level) in [("h2", 2u8), ("h3", 3), ("h4", 4)] {
        let h = element(name, vec![], vec![text("head")]);
        assert!(matches!(ArticleContent::try_from(&h), Ok(ArticleContent::Text(t, TextType::Header(l))) if t == "head" && l == level));
    }
}

#[test]
fn try_from_refuses_other_elements() {
    let img = element("img", vec![("alt", "x")], vec![]);
    assert!(ArticleContent::try_from(&img).is_err());
    let namespaced = HtmlElement {
        name: "img".to_string(),
        attrs: vec![HtmlAttr { namespace: "http://www.w3.org/1999/xlink".to_string(), name: "src".to_string(), value: "a".to_string() }],
        children: vec![],
    };
    assert!(ArticleContent::try_from(&namespaced).is_err());
    for name in ["h1", "h5", "div", "span", "P"] {
        let e = element(name, vec![], vec![text("t")]);
        assert!(ArticleContent::try_from(&e).is_err());
    }
}

#[test]
fn content_comes_in_document_order() {
    let tree = element(
        "html",
        vec![],
        vec![
            HtmlNode::Element(element("h2", vec![], vec![text("Intro")])),
            HtmlNode::Element(element(
                "div",
                vec![],
                vec![
                    HtmlNode::Element(element("p", vec![], vec![text("one"), HtmlNode::Element(element("img", vec![("src", "inner.png")], vec![]))])),
                    HtmlNode::Element(element("img", vec![("src", "b.png")], vec![])),
                ],
            )),
            text("loose"),
            HtmlNode::Element(element("h4", vec![], vec![text("End")])),
        ],
    );
    let c = parse_content_recursively(&tree);
    assert_eq!(describe(&c), vec!["h2:Intro", "p:one", "img:inner.png", "img:b.png", "h4:End"]);
}

#[test]
fn build_nodes_rebuilds_the_walk() {
    let events = vec![
        HtmlEvent::OpenOther,
        HtmlEvent::OpenElement("html".to_string(), vec![]),
        HtmlEvent::OpenElement("p".to_string(), vec![]),
        HtmlEvent::OpenText("hi".to_string()),
        HtmlEvent::Close,
        HtmlEvent::Close,
        HtmlEvent::OpenText("tail".to_string()),
        HtmlEvent::Close,
        HtmlEvent::Close,
        HtmlEvent::Close,
    ];
    let (forest, end) = build_nodes(&events, 0);
    assert_eq!(end, events.len());
    assert_eq!(forest.len(), 1);
    match &forest[0] {
        HtmlNode::Other(cs) => {
            assert_eq!(cs.len(), 1);
            match &cs[0] {
                HtmlNode::Element(html) => {
                    assert_eq!(html.name, "html");
                    assert_eq!(html.children.len(), 2);
                    assert!(matches!(&html.children[1], HtmlNode::Text(t) if t == "tail"));
                }
                _ => panic!("expected the html element"),
            }
        }
        _ => panic!("expected the root"),
    }
}

#[test]
fn contents_from_events_reads_the_root_element() {
    let events = vec![
        HtmlEvent::OpenOther,
        HtmlEvent::OpenElement("html".to_string(), vec![]),
        HtmlEvent::OpenElement("h3".to_string(), vec![]),
        HtmlEvent::OpenText(" Sub ".to_string()),
        HtmlEvent::Close,
        HtmlEvent::Close,
        HtmlEvent::Close,
        HtmlEvent::Close,
    ];
    assert_eq!(describe(&contents_from_events(&events)), vec!["h3:Sub"]);
}

#[test]
fn contents_from_events_without_root_element() {
    let events = vec![HtmlEvent::OpenOther, HtmlEvent::OpenText("x".to_string()), HtmlEvent::Close, HtmlEvent::Close];
    assert!(contents_from_events(&events).is_empty());
    assert!(contents_from_events(&Vec::new()).is_empty());
}

#[test]
fn extract_content_from_real_html() {
    let html = "<p> Hello <b>world</b> </p><h2>Title</h2><img src=\"a.png\"><img alt=\"none\"><h1>Big</h1><div><h3>Sub</h3><p>in div</p></div><h4>Four</h4>";
    let c = extract_content_from_html(html);
    assert_eq!(
        describe(&c),
        vec!["p:Hello world ", "h2:Title", "img:a.png", "h3:Sub", "p:in div", "h4:Four"]
    );
}

#[test]
fn extract_content_from_empty_html() {
    assert!(extract_content_from_html("").is_empty());
    assert!(extract_content_from_html("just text").is_empty());
}

#[test]
fn extract_content_nested_paragraph_text() {
    let c = extract_content_from_html("<p>a<span> b </span><img src=\"x\">c</p>");
    assert_eq!(describe(&c), vec!["p:a b c", "img:x"]);
}

#[test]
fn extracted_headers_have_levels_two_to_four() {
    let c = extract_content_from_html("<h1>a</h1><h2>b</h2><h3>c</h3><h4>d</h4><h5>e</h5><h6>f</h6>");
    for item in &c {
        if let ArticleContent::Text(_, TextType::Header(n)) = item {
            assert!((2..=4).contains(n));
        }
    }
    assert_eq!(describe(&c), vec!["h2:b", "h3:c", "h4:d"]);
}
