//! Article content: the paragraphs, headers and images of an article body,
//! extracted from its HTML.
use vstd::prelude::*;

use crate::html::{
    build_nodes, collect_texts, events_view, find_attr, find_first_element, fragment_events,
    html_fragment_events, lemma_element_children_view, lemma_other_children_view, node_children,
    nodes_texts, nodes_view, parse_nodes, root_element, strings_view, ElementView, EventView,
    HtmlElement, HtmlEvent, HtmlNode, NodeView,
};
use crate::text::{join, join_strings, str_equal, trim, trimmed};

verus! {

/// The kind of a piece of article text.
#[derive(Debug, Clone, Copy, PartialEq, Eq, Structural)]
pub enum TextType {
    /// A header of the given level.
    Header(u8),
    /// An ordinary paragraph.
    Common,
}

/// The text kinds that the article view can display.
#[derive(Debug, Clone, Copy, PartialEq, Eq, Structural)]
pub enum DisplayTextType {
    Common,
    H1,
    H2,
    H3,
    H4,
}

/// The display kind of a text kind: headers of levels 1 to 4 keep their level,
/// every other text is displayed as common text.
pub open spec fn spec_display_text_type(t: TextType) -> DisplayTextType {
    match t {
        TextType::Common => DisplayTextType::Common,
        TextType::Header(1) => DisplayTextType::H1,
        TextType::Header(2) => DisplayTextType::H2,
        TextType::Header(3) => DisplayTextType::H3,
        TextType::Header(4) => DisplayTextType::H4,
        TextType::Header(_) => DisplayTextType::Common,
    }
}

impl TextType {
    /// The display kind of this text kind.
    pub fn into_display(self) -> (r: DisplayTextType)
        ensures
            r == spec_display_text_type(self),
    {
        match self {
            TextType::Common => DisplayTextType::Common,
            TextType::Header(1) => DisplayTextType::H1,
            TextType::Header(2) => DisplayTextType::H2,
            TextType::Header(3) => DisplayTextType::H3,
            TextType::Header(4) => DisplayTextType::H4,
            _ => DisplayTextType::Common,
        }
    }
}

/// A piece of article content: an image by its source URL, or a text of some
/// kind.
#[derive(Debug)]
pub enum ArticleContent {
    Image(String),
    Text(String, TextType),
}

pub enum ContentView {
    Image(Seq<char>),
    Text(Seq<char>, TextType),
}

impl View for ArticleContent {
    type V = ContentView;

    open spec fn view(&self) -> ContentView {
        match self {
            ArticleContent::Image(src) => ContentView::Image(src@),
            ArticleContent::Text(t, k) => ContentView::Text(t@, *k),
        }
    }
}

pub open spec fn contents_view(s: Seq<ArticleContent>) -> Seq<ContentView> {
    s.map_values(|c: ArticleContent| c@)
}

/// The text of an element: the text of every text node under it, each with
/// its surrounding whitespace removed, joined with single spaces.
pub open spec fn element_text(e: ElementView) -> Seq<char> {
    join(nodes_texts(e.children).map_values(|t: Seq<char>| trimmed(t)), " "@)
}

/// The content that an element stands for by itself: an `img` element with a
/// `src` attribute is an image; a `p` element is common text; `h2`, `h3` and
/// `h4` elements are headers of their level. Other elements stand for none.
pub open spec fn element_content(e: ElementView) -> Option<ContentView> {
    if e.name == "img"@ {
        match find_attr(e.attrs, "src"@) {
            Some(src) => Some(ContentView::Image(src)),
            None => None,
        }
    } else if e.name == "p"@ {
        Some(ContentView::Text(element_text(e), TextType::Common))
    } else if e.name == "h2"@ {
        Some(ContentView::Text(element_text(e), TextType::Header(2)))
    } else if e.name == "h3"@ {
        Some(ContentView::Text(element_text(e), TextType::Header(3)))
    } else if e.name == "h4"@ {
        Some(ContentView::Text(element_text(e), TextType::Header(4)))
    } else {
        None
    }
}

/// The content of an element and of all elements under it, in document
/// order: the element's own content comes before that of its descendants.
pub open spec fn element_contents(e: ElementView) -> Seq<ContentView>
    decreases e,
{
    let own = match element_content(e) {
        Some(c) => seq![c],
        None => Seq::empty(),
    };
    own + children_contents(e.children)
}

/// The content of the elements among `ns` and under them, in document order.
pub open spec fn children_contents(ns: Seq<NodeView>) -> Seq<ContentView>
    decreases ns,
{
    if ns.len() == 0 {
        Seq::empty()
    } else {
        let last = match ns[ns.len() - 1] {
            NodeView::Element(c) => element_contents(c),
            _ => Seq::empty(),
        };
        children_contents(ns.subrange(0, ns.len() - 1)) + last
    }
}

/// The content of a parsed fragment: that of its root element and of all
/// elements under it.
pub open spec fn fragment_contents(evs: Seq<EventView>) -> Seq<ContentView> {
    match root_element(evs) {
        Some(e) => element_contents(e),
        None => Seq::empty(),
    }
}

/// Every header among `s` has level 2, 3 or 4.
pub open spec fn headers_in_range(s: Seq<ContentView>) -> bool {
    forall|i: int|
        0 <= i < s.len() ==> (#[trigger] s[i] matches ContentView::Text(_, TextType::Header(n))
            ==> 2 <= n <= 4)
}

proof fn lemma_headers_in_range_concat(a: Seq<ContentView>, b: Seq<ContentView>)
    requires
        headers_in_range(a),
        headers_in_range(b),
    ensures
        headers_in_range(a + b),
{
    assert forall|i: int| 0 <= i < (a + b).len() implies (#[trigger] (a + b)[i] matches ContentView::Text(
        _,
        TextType::Header(n),
    ) ==> 2 <= n <= 4) by {
        if i < a.len() {
            assert((a + b)[i] == a[i]);
        } else {
            assert((a + b)[i] == b[i - a.len()]);
        }
    }
}

/// Content extraction yields headers of levels 2, 3 and 4 only: whatever the
/// element, every header in its content has one of these levels.
pub proof fn lemma_element_header_levels(e: ElementView)
    ensures
        headers_in_range(element_contents(e)),
    decreases e,
{
    lemma_children_header_levels(e.children);
    let own = match element_content(e) {
        Some(c) => seq![c],
        None => Seq::<ContentView>::empty(),
    };
    assert(headers_in_range(own));
    lemma_headers_in_range_concat(own, children_contents(e.children));
}

/// Every header in the content of a fragment has level 2, 3 or 4.
pub proof fn lemma_fragment_header_levels(evs: Seq<EventView>)
    ensures
        headers_in_range(fragment_contents(evs)),
{
    if let Some(e) = root_element(evs) {
        lemma_element_header_levels(e);
    }
}

/// Every header in the content of a sequence of sibling nodes has level 2, 3
/// or 4.
pub proof fn lemma_children_header_levels(ns: Seq<NodeView>)
    ensures
        headers_in_range(children_contents(ns)),
    decreases ns,
{
    if ns.len() > 0 {
        lemma_children_header_levels(ns.subrange(0, ns.len() - 1));
        let last = match ns[ns.len() - 1] {
            NodeView::Element(c) => element_contents(c),
            _ => Seq::<ContentView>::empty(),
        };
        if let NodeView::Element(c) = ns[ns.len() - 1] {
            lemma_element_header_levels(c);
        }
        lemma_headers_in_range_concat(children_contents(ns.subrange(0, ns.len() - 1)), last);
    }
}

/// The text of an element: the text nodes under it, each trimmed, joined
/// with single spaces.
pub fn get_element_text(element: &HtmlElement) -> (r: String)
    ensures
        r@ == element_text(element@),
{
    let mut texts: Vec<String> = Vec::new();
    proof {
        lemma_element_children_view(*element);
    }
    collect_texts(&element.children, &mut texts);
    assert(strings_view(texts@) =~= nodes_texts(element@.children));
    let ghost all = strings_view(texts@);
    let mut pieces: Vec<String> = Vec::new();
    let mut i: usize = 0;
    while i < texts.len()
        invariant
            all == strings_view(texts@),
            i <= texts@.len(),
            pieces@.len() == i,
            forall|k: int| 0 <= k < i ==> #[trigger] pieces@[k]@ == trimmed(all[k]),
        decreases texts@.len() - i,
    {
        pieces.push(trim(texts[i].as_str()));
        i = i + 1;
    }
    assert(strings_view(pieces@) =~= all.map_values(|t: Seq<char>| trimmed(t)));
    join_strings(&pieces, " ")
}

impl ArticleContent {
    /// The content that `element` stands for by itself, or `Err` where it
    /// stands for none.
    pub fn try_from(element: &HtmlElement) -> (r: Result<ArticleContent, ()>)
        ensures
            match r {
                Ok(c) => element_content(element@) == Some(c@),
                Err(_) => element_content(element@) is None,
            },
    {
        let name = element.name.as_str();
        if str_equal(name, "img") {
            match element.attr("src") {
                Some(src) => Ok(ArticleContent::Image(src)),
                None => Err(()),
            }
        } else if str_equal(name, "p") {
            Ok(ArticleContent::Text(get_element_text(element), TextType::Common))
        } else if str_equal(name, "h2") {
            Ok(ArticleContent::Text(get_element_text(element), TextType::Header(2)))
        } else if str_equal(name, "h3") {
            Ok(ArticleContent::Text(get_element_text(element), TextType::Header(3)))
        } else if str_equal(name, "h4") {
            Ok(ArticleContent::Text(get_element_text(element), TextType::Header(4)))
        } else {
            Err(())
        }
    }
}

/// The content of `element` and of all elements under it, in document order.
pub fn parse_content_recursively(element: &HtmlElement) -> (r: Vec<ArticleContent>)
    ensures
        contents_view(r@) == element_contents(element@),
    decreases element,
{
    let mut res: Vec<ArticleContent> = Vec::new();
    if let Ok(c) = ArticleContent::try_from(element) {
        res.push(c);
    }
    let ghost own = contents_view(res@);
    assert(own =~= match element_content(element@) {
        Some(c) => seq![c],
        None => Seq::<ContentView>::empty(),
    });
    proof {
        lemma_element_children_view(*element);
    }
    let ghost ns = nodes_view(element.children@);
    let mut i: usize = 0;
    while i < element.children.len()
        invariant
            ns == nodes_view(element.children@),
            i <= element.children@.len(),
            contents_view(res@) == own + children_contents(ns.subrange(0, i as int)),
        decreases element.children@.len() - i,
    {
        let ghost before = contents_view(res@);
        assert(ns.subrange(0, i + 1).subrange(0, i as int) =~= ns.subrange(0, i as int));
        assert(ns.subrange(0, i + 1)[i as int] == element.children@[i as int]@);
        match &element.children[i] {
            HtmlNode::Element(child) => {
                assert(decreases_to!(element => child));
                let mut sub = parse_content_recursively(child);
                res.append(&mut sub);
                assert(contents_view(res@) =~= before + element_contents(child@));
            },
            _ => {
                assert(contents_view(res@) =~= before + Seq::<ContentView>::empty());
            },
        }
        assert(contents_view(res@) =~= own + children_contents(ns.subrange(0, i + 1)));
        i = i + 1;
    }
    assert(ns.subrange(0, i as int) =~= ns);
    res
}

/// The content of a fragment given by the events of a walk over its tree.
pub fn contents_from_events(events: &Vec<HtmlEvent>) -> (r: Vec<ArticleContent>)
    ensures
        contents_view(r@) == fragment_contents(events_view(events@)),
{
    let (forest, _end) = build_nodes(events, 0);
    if forest.len() == 0 {
        return Vec::new();
    }
    let ghost root = forest@[0]@;
    assert(parse_nodes(events_view(events@), 0).0[0] == root);
    let found = match &forest[0] {
        HtmlNode::Element(e) => {
            proof {
                lemma_element_children_view(*e);
            }
            find_first_element(&e.children)
        },
        HtmlNode::Other(cs) => {
            proof {
                lemma_other_children_view(*cs);
            }
            find_first_element(cs)
        },
        HtmlNode::Text(_) => {
            assert(node_children(root) =~= Seq::<NodeView>::empty());
            None
        },
    };
    match found {
        Some(e) => parse_content_recursively(e),
        None => Vec::new(),
    }
}

/// The content of an HTML fragment: the content of its `<html>` root element
/// and of all elements under it, in document order.
pub fn extract_content_from_html(text: &str) -> (r: Vec<ArticleContent>)
    ensures
        contents_view(r@) == fragment_contents(html_fragment_events(text@)),
{
    let events = fragment_events(text);
    contents_from_events(&events)
}

/// Header levels 1 to 4 are displayed at their level, and every other text,
/// common text included, as common text.
pub proof fn lemma_display_text_type(t: TextType)
    ensures
        spec_display_text_type(t) == DisplayTextType::H1 <==> t == TextType::Header(1),
        spec_display_text_type(t) == DisplayTextType::H2 <==> t == TextType::Header(2),
        spec_display_text_type(t) == DisplayTextType::H3 <==> t == TextType::Header(3),
        spec_display_text_type(t) == DisplayTextType::H4 <==> t == TextType::Header(4),
        spec_display_text_type(t) == DisplayTextType::Common <==> !(t matches TextType::Header(n)
            && 1 <= n <= 4),
{
}

/// Headers and paragraphs get the same text: that of every text node under
/// the element, in document order, each without surrounding whitespace,
/// joined with single spaces.
pub proof fn lemma_text_of_paragraphs_and_headers(e: ElementView)
    ensures
        e.name == "p"@ ==> element_content(e) == Some(
            ContentView::Text(
                join(nodes_texts(e.children).map_values(|t: Seq<char>| trimmed(t)), seq![' ']),
                TextType::Common,
            ),
        ),
        e.name == "h2"@ ==> element_content(e) == Some(
            ContentView::Text(
                join(nodes_texts(e.children).map_values(|t: Seq<char>| trimmed(t)), seq![' ']),
                TextType::Header(2),
            ),
        ),
        e.name == "h3"@ ==> element_content(e) == Some(
            ContentView::Text(
                join(nodes_texts(e.children).map_values(|t: Seq<char>| trimmed(t)), seq![' ']),
                TextType::Header(3),
            ),
        ),
        e.name == "h4"@ ==> element_content(e) == Some(
            ContentView::Text(
                join(nodes_texts(e.children).map_values(|t: Seq<char>| trimmed(t)), seq![' ']),
                TextType::Header(4),
            ),
        ),
{
    reveal_strlit("img");
    reveal_strlit("p");
    reveal_strlit("h2");
    reveal_strlit("h3");
    reveal_strlit("h4");
    reveal_strlit(" ");
    assert("img"@.len() == 3);
    assert("p"@.len() == 1);
    assert("h2"@.len() == 2 && "h2"@[1] == '2');
    assert("h3"@.len() == 2 && "h3"@[1] == '3');
    assert("h4"@.len() == 2 && "h4"@[1] == '4');
    assert(" "@ =~= seq![' ']);
    let texts = nodes_texts(e.children);
    assert(texts.map_values(|t: Seq<char>| trimmed(t)) =~= nodes_texts(e.children).map_values(
        |t: Seq<char>| trimmed(t),
    ));
    assert(element_text(e) == join(texts.map_values(|t: Seq<char>| trimmed(t)), seq![' ']));
}

/// The content of sibling nodes is the content of each, in order: the
/// content of an element and of the elements under it, none for other nodes.
pub proof fn lemma_children_contents_add(a: Seq<NodeView>, b: Seq<NodeView>)
    ensures
        children_contents(a + b) == children_contents(a) + children_contents(b),
    decreases b.len(),
{
    if b.len() == 0 {
        assert(a + b =~= a);
        assert(children_contents(a) + children_contents(b) =~= children_contents(a));
    } else {
        let bi = b.subrange(0, b.len() - 1);
        lemma_children_contents_add(a, bi);
        let ab = a + b;
        assert(ab.subrange(0, ab.len() - 1) =~= a + bi);
        assert(ab[ab.len() - 1] == b[b.len() - 1]);
    }
}

/// The content under one node: an element's own content first, then that of
/// its children in order; no content for text and other nodes.
pub proof fn lemma_node_contents(n: NodeView)
    ensures
        n matches NodeView::Element(e) ==> children_contents(seq![n]) == (match element_content(e) {
            Some(c) => seq![c],
            None => Seq::<ContentView>::empty(),
        }) + children_contents(e.children),
        !(n is Element) ==> children_contents(seq![n]) == Seq::<ContentView>::empty(),
        children_contents(Seq::empty()) == Seq::<ContentView>::empty(),
{
    let s = seq![n];
    assert(s.subrange(0, 0) =~= Seq::<NodeView>::empty());
    assert(children_contents(Seq::<NodeView>::empty()) == Seq::<ContentView>::empty());
    assert(s[0] == n);
    if let NodeView::Element(e) = n {
        assert(children_contents(s) =~= element_contents(e));
    } else {
        assert(children_contents(s) =~= Seq::<ContentView>::empty());
    }
}

/// An `img` element is an image exactly where it has a `src` attribute without
/// a namespace, whose value is its source; elements other than `img`, `p`,
/// `h2`, `h3` and `h4` are no content.
pub proof fn lemma_images_and_other_elements(e: ElementView)
    ensures
        e.name == "img"@ ==> element_content(e) == match find_attr(e.attrs, "src"@) {
            Some(v) => Some(ContentView::Image(v)),
            None => None,
        },
        e.name != "img"@ && e.name != "p"@ && e.name != "h2"@ && e.name != "h3"@ && e.name
            != "h4"@ ==> element_content(e) is None,
{
}

} // verus!
