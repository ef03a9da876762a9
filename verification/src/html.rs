//! A document tree for HTML fragments, built from the open/close events of a
//! depth-first walk over the tree that the HTML parser produces.
use ego_tree::iter::Edge;
use scraper::Node;
use vstd::prelude::*;

verus! {

/// An attribute of an element: its namespace (empty for ordinary HTML
/// attributes), its local name and its value.
pub struct HtmlAttr {
    pub namespace: String,
    pub name: String,
    pub value: String,
}

pub struct AttrView {
    pub namespace: Seq<char>,
    pub name: Seq<char>,
    pub value: Seq<char>,
}

impl View for HtmlAttr {
    type V = AttrView;

    open spec fn view(&self) -> AttrView {
        AttrView { namespace: self.namespace@, name: self.name@, value: self.value@ }
    }
}

/// One step of a depth-first walk: a node is opened (an element with its name
/// and attributes, a text node, or any other node), or the last opened node is
/// closed.
pub enum HtmlEvent {
    OpenElement(String, Vec<HtmlAttr>),
    OpenText(String),
    OpenOther,
    Close,
}

pub enum EventView {
    OpenElement(Seq<char>, Seq<AttrView>),
    OpenText(Seq<char>),
    OpenOther,
    Close,
}

pub open spec fn attrs_view(attrs: Seq<HtmlAttr>) -> Seq<AttrView> {
    attrs.map_values(|a: HtmlAttr| a@)
}

impl View for HtmlEvent {
    type V = EventView;

    open spec fn view(&self) -> EventView {
        match self {
            HtmlEvent::OpenElement(name, attrs) => EventView::OpenElement(name@, attrs_view(attrs@)),
            HtmlEvent::OpenText(t) => EventView::OpenText(t@),
            HtmlEvent::OpenOther => EventView::OpenOther,
            HtmlEvent::Close => EventView::Close,
        }
    }
}

pub open spec fn events_view(events: Seq<HtmlEvent>) -> Seq<EventView> {
    events.map_values(|e: HtmlEvent| e@)
}

/// A node of the document tree.
pub enum HtmlNode {
    Element(HtmlElement),
    Text(String),
    /// The document or fragment root, a comment, a doctype or a processing
    /// instruction, with its children.
    Other(Vec<HtmlNode>),
}

/// An element with its name, attributes and child nodes.
pub struct HtmlElement {
    pub name: String,
    pub attrs: Vec<HtmlAttr>,
    pub children: Vec<HtmlNode>,
}

pub enum NodeView {
    Element(ElementView),
    Text(Seq<char>),
    Other(Seq<NodeView>),
}

pub struct ElementView {
    pub name: Seq<char>,
    pub attrs: Seq<AttrView>,
    pub children: Seq<NodeView>,
}

impl HtmlNode {
    pub open spec fn node_view(self) -> NodeView
        decreases self,
    {
        match self {
            HtmlNode::Element(e) => NodeView::Element(e.element_view()),
            HtmlNode::Text(t) => NodeView::Text(t@),
            HtmlNode::Other(cs) => NodeView::Other(
                Seq::new(
                    cs@.len(),
                    |i: int|
                        if 0 <= i < cs@.len() {
                            cs@[i].node_view()
                        } else {
                            NodeView::Other(Seq::empty())
                        },
                ),
            ),
        }
    }
}

impl HtmlElement {
    pub open spec fn element_view(self) -> ElementView
        decreases self,
    {
        ElementView {
            name: self.name@,
            attrs: attrs_view(self.attrs@),
            children: Seq::new(
                self.children@.len(),
                |i: int|
                    if 0 <= i < self.children@.len() {
                        self.children@[i].node_view()
                    } else {
                        NodeView::Other(Seq::empty())
                    },
            ),
        }
    }
}

impl View for HtmlNode {
    type V = NodeView;

    open spec fn view(&self) -> NodeView {
        self.node_view()
    }
}

impl View for HtmlElement {
    type V = ElementView;

    open spec fn view(&self) -> ElementView {
        self.element_view()
    }
}

pub open spec fn nodes_view(nodes: Seq<HtmlNode>) -> Seq<NodeView> {
    nodes.map_values(|n: HtmlNode| n@)
}

/// The nodes that start at `pos`, up to the `Close` event that ends their
/// parent (or the end of the events), and the position of that event.
pub open spec fn parse_nodes(evs: Seq<EventView>, pos: int) -> (Seq<NodeView>, int)
    decreases evs.len() - pos, 1int,
{
    if pos < 0 || pos >= evs.len() || evs[pos] is Close {
        (Seq::empty(), pos)
    } else {
        let (node, next) = parse_node(evs, pos);
        if pos < next <= evs.len() {
            let (rest, end) = parse_nodes(evs, next);
            (seq![node] + rest, end)
        } else {
            (seq![node], next)
        }
    }
}

/// The node opened at `pos`, and the position just after its `Close` event.
pub open spec fn parse_node(evs: Seq<EventView>, pos: int) -> (NodeView, int)
    decreases evs.len() - pos, 0int,
{
    if pos < 0 || pos >= evs.len() {
        (NodeView::Other(Seq::empty()), pos + 1)
    } else {
        let (children, end) = parse_nodes(evs, pos + 1);
        let next = if end < evs.len() {
            end + 1
        } else {
            end
        };
        let node = match evs[pos] {
            EventView::OpenElement(name, attrs) => NodeView::Element(
                ElementView { name, attrs, children },
            ),
            EventView::OpenText(t) => NodeView::Text(t),
            _ => NodeView::Other(children),
        };
        (node, next)
    }
}

pub proof fn lemma_parse_positions(evs: Seq<EventView>, pos: int)
    requires
        0 <= pos <= evs.len(),
    ensures
        pos <= parse_nodes(evs, pos).1 <= evs.len(),
        pos < evs.len() ==> pos < parse_node(evs, pos).1 <= evs.len(),
    decreases evs.len() - pos,
{
    if pos < evs.len() {
        lemma_parse_positions(evs, pos + 1);
        let next = parse_node(evs, pos).1;
        if !(evs[pos] is Close) && pos < next <= evs.len() {
            lemma_parse_positions(evs, next);
        }
    }
}

/// The events of a depth-first walk over a node: its opening, the walk over
/// its children, and its closing.
pub open spec fn node_events(n: NodeView) -> Seq<EventView>
    decreases n,
{
    match n {
        NodeView::Element(e) => seq![EventView::OpenElement(e.name, e.attrs)] + nodes_events(
            e.children,
        ) + seq![EventView::Close],
        NodeView::Text(t) => seq![EventView::OpenText(t), EventView::Close],
        NodeView::Other(cs) => seq![EventView::OpenOther] + nodes_events(cs) + seq![EventView::Close],
    }
}

/// The events of depth-first walks over sibling nodes, one after the other.
pub open spec fn nodes_events(ns: Seq<NodeView>) -> Seq<EventView>
    decreases ns,
{
    if ns.len() == 0 {
        Seq::empty()
    } else {
        node_events(ns[0]) + nodes_events(ns.subrange(1, ns.len() as int))
    }
}

proof fn lemma_parse_walk_nodes(pre: Seq<EventView>, ns: Seq<NodeView>, tail: Seq<EventView>)
    requires
        tail.len() == 0 || tail[0] is Close,
    ensures
        parse_nodes(pre + nodes_events(ns) + tail, pre.len() as int) == (
            ns,
            (pre.len() + nodes_events(ns).len()) as int,
        ),
    decreases ns,
{
    let evs = pre + nodes_events(ns) + tail;
    if ns.len() == 0 {
        assert(evs =~= pre + tail);
        if tail.len() > 0 {
            assert(evs[pre.len() as int] == tail[0]);
        }
        assert(ns =~= Seq::<NodeView>::empty());
    } else {
        let first = ns[0];
        let rest = ns.subrange(1, ns.len() as int);
        let fe = node_events(first);
        let mid = nodes_events(rest) + tail;
        assert(evs =~= pre + fe + mid);
        lemma_parse_walk_node(pre, first, mid);
        lemma_node_events_open(first);
        assert(evs[pre.len() as int] == fe[0]);
        lemma_parse_walk_nodes(pre + fe, rest, tail);
        assert((pre + fe) + nodes_events(rest) + tail =~= evs);
        assert(seq![first] + rest =~= ns);
    }
}

proof fn lemma_node_events_open(n: NodeView)
    ensures
        node_events(n).len() > 0,
        !(node_events(n)[0] is Close),
{
}

proof fn lemma_parse_walk_node(pre: Seq<EventView>, n: NodeView, tail: Seq<EventView>)
    ensures
        parse_node(pre + node_events(n) + tail, pre.len() as int) == (
            n,
            (pre.len() + node_events(n).len()) as int,
        ),
    decreases n,
{
    let evs = pre + node_events(n) + tail;
    let p = pre.len() as int;
    match n {
        NodeView::Element(e) => {
            let open = seq![EventView::OpenElement(e.name, e.attrs)];
            let ce = nodes_events(e.children);
            assert(evs =~= (pre + open) + ce + (seq![EventView::Close] + tail));
            lemma_parse_walk_nodes(pre + open, e.children, seq![EventView::Close] + tail);
            assert(evs[p] == EventView::OpenElement(e.name, e.attrs));
        },
        NodeView::Text(t) => {
            assert(evs[p] == EventView::OpenText(t));
            assert(evs[p + 1] == EventView::Close);
        },
        NodeView::Other(cs) => {
            let open = seq![EventView::OpenOther];
            let ce = nodes_events(cs);
            assert(evs =~= (pre + open) + ce + (seq![EventView::Close] + tail));
            lemma_parse_walk_nodes(pre + open, cs, seq![EventView::Close] + tail);
            assert(evs[p] == EventView::OpenOther);
        },
    }
}

/// Building the tree undoes the walk: the nodes built from the events of a
/// depth-first walk over sibling nodes are those nodes, and building ends at
/// the end of the events.
pub proof fn lemma_build_undoes_walk(ns: Seq<NodeView>)
    ensures
        parse_nodes(nodes_events(ns), 0) == (ns, nodes_events(ns).len() as int),
{
    let e = Seq::<EventView>::empty();
    lemma_parse_walk_nodes(e, ns, e);
    assert(e + nodes_events(ns) + e =~= nodes_events(ns));
}

/// The text of the text nodes under a node, in document order.
pub open spec fn node_texts(n: NodeView) -> Seq<Seq<char>>
    decreases n,
{
    match n {
        NodeView::Text(t) => seq![t],
        NodeView::Element(e) => nodes_texts(e.children),
        NodeView::Other(cs) => nodes_texts(cs),
    }
}

/// The text of the text nodes under a sequence of sibling nodes, in document
/// order.
pub open spec fn nodes_texts(ns: Seq<NodeView>) -> Seq<Seq<char>>
    decreases ns,
{
    if ns.len() == 0 {
        Seq::empty()
    } else {
        nodes_texts(ns.subrange(0, ns.len() - 1)) + node_texts(ns[ns.len() - 1])
    }
}

/// The first attribute without a namespace whose name is `name`, by its value.
pub open spec fn find_attr(attrs: Seq<AttrView>, name: Seq<char>) -> Option<Seq<char>>
    decreases attrs.len(),
{
    if attrs.len() == 0 {
        None
    } else if attrs[0].namespace.len() == 0 && attrs[0].name == name {
        Some(attrs[0].value)
    } else {
        find_attr(attrs.drop_first(), name)
    }
}

pub open spec fn strings_view(s: Seq<String>) -> Seq<Seq<char>> {
    s.map_values(|t: String| t@)
}

/// The children of a node.
pub open spec fn node_children(n: NodeView) -> Seq<NodeView> {
    match n {
        NodeView::Element(e) => e.children,
        NodeView::Other(cs) => cs,
        NodeView::Text(_) => Seq::empty(),
    }
}

/// The first element among `nodes`.
pub open spec fn first_element(nodes: Seq<NodeView>) -> Option<ElementView>
    decreases nodes.len(),
{
    if nodes.len() == 0 {
        None
    } else if nodes[0] is Element {
        Some(nodes[0]->Element_0)
    } else {
        first_element(nodes.drop_first())
    }
}

/// The first element child of the tree's root: the `<html>` element of a
/// parsed fragment.
pub open spec fn root_element(evs: Seq<EventView>) -> Option<ElementView> {
    let forest = parse_nodes(evs, 0).0;
    if forest.len() == 0 {
        None
    } else {
        first_element(node_children(forest[0]))
    }
}

/// The open/close events of a depth-first walk over the tree that the HTML
/// parser builds for a fragment.
pub uninterp spec fn html_fragment_events(fragment: Seq<char>) -> Seq<EventView>;

/// Parses `fragment` with `scraper::Html::parse_fragment` and lists, in
/// order, the open and close edges of `ego_tree`'s `traverse` over the
/// resulting tree from its root: an element with its local name and its
/// attributes (namespace, local name, value), a text node with its text, any
/// other node without content. The contract names the result only: the HTML
/// parsing algorithm is not stated.
#[verifier::external_body]
pub(crate) fn fragment_events(fragment: &str) -> (events: Vec<HtmlEvent>)
    ensures
        events_view(events@) == html_fragment_events(fragment@),
{
    let html = scraper::Html::parse_fragment(fragment);
    html.tree.root().traverse().map(|edge| match edge {
        Edge::Open(node) => match node.value() {
            Node::Element(e) => HtmlEvent::OpenElement(e.name().to_string(), e.attrs.iter().map(|(q, v)| HtmlAttr { namespace: q.ns.to_string(), name: q.local.to_string(), value: v.to_string() }).collect()),
            Node::Text(t) => HtmlEvent::OpenText(t.text.to_string()),
            Node::Document | Node::Fragment | Node::Doctype(_) | Node::Comment(_) | Node::ProcessingInstruction(_) => HtmlEvent::OpenOther,
        },
        Edge::Close(_) => HtmlEvent::Close,
    }).collect()
}

pub(crate) fn clone_string(s: &String) -> (r: String)
    ensures
        r@ == s@,
{
    s.clone()
}

fn clone_attrs(attrs: &Vec<HtmlAttr>) -> (r: Vec<HtmlAttr>)
    ensures
        attrs_view(r@) == attrs_view(attrs@),
{
    let mut r: Vec<HtmlAttr> = Vec::new();
    let mut i: usize = 0;
    while i < attrs.len()
        invariant
            i <= attrs.len(),
            r@.len() == i,
            forall|k: int| 0 <= k < i ==> r@[k]@ == attrs@[k]@,
        decreases attrs.len() - i,
    {
        let a = &attrs[i];
        r.push(
            HtmlAttr {
                namespace: clone_string(&a.namespace),
                name: clone_string(&a.name),
                value: clone_string(&a.value),
            },
        );
        i = i + 1;
    }
    assert(attrs_view(r@) =~= attrs_view(attrs@));
    r
}

pub proof fn lemma_element_children_view(e: HtmlElement)
    ensures
        e@.children == nodes_view(e.children@),
{
    assert(e@.children =~= nodes_view(e.children@));
}

pub proof fn lemma_other_children_view(cs: Vec<HtmlNode>)
    ensures
        HtmlNode::Other(cs)@ == NodeView::Other(nodes_view(cs@)),
{
    let v = HtmlNode::Other(cs)@;
    assert(v->Other_0 =~= nodes_view(cs@));
}

/// Builds the nodes that start at `pos`, up to the `Close` event of their
/// parent or the end of the events; returns them with that event's position.
pub fn build_nodes(events: &Vec<HtmlEvent>, pos: usize) -> (res: (Vec<HtmlNode>, usize))
    requires
        pos <= events@.len(),
    ensures
        nodes_view(res.0@) == parse_nodes(events_view(events@), pos as int).0,
        res.1 == parse_nodes(events_view(events@), pos as int).1,
    decreases events@.len() - pos, 1int,
{
    let ghost evs = events_view(events@);
    let mut nodes: Vec<HtmlNode> = Vec::new();
    let mut i: usize = pos;
    proof {
        lemma_parse_positions(evs, pos as int);
    }
    while i < events.len() && !matches!(events[i], HtmlEvent::Close)
        invariant
            evs == events_view(events@),
            pos <= i <= events@.len(),
            pos <= parse_nodes(evs, i as int).1 <= events@.len(),
            parse_nodes(evs, pos as int).0 == nodes_view(nodes@) + parse_nodes(evs, i as int).0,
            parse_nodes(evs, pos as int).1 == parse_nodes(evs, i as int).1,
        decreases events@.len() - i,
    {
        let (node, next) = build_node(events, i);
        proof {
            lemma_parse_positions(evs, i as int);
            lemma_parse_positions(evs, next as int);
            assert(evs[i as int] == events@[i as int]@);
            let (rest, end) = parse_nodes(evs, next as int);
            assert(parse_nodes(evs, i as int).0 == seq![node@] + rest);
            assert(nodes_view(nodes@.push(node)) =~= nodes_view(nodes@) + seq![node@]);
        }
        nodes.push(node);
        i = next;
    }
    proof {
        if i < events.len() {
            assert(evs[i as int] == events@[i as int]@);
        }
        assert(parse_nodes(evs, i as int).0 =~= Seq::<NodeView>::empty());
        assert(nodes_view(nodes@) + Seq::<NodeView>::empty() =~= nodes_view(nodes@));
    }
    (nodes, i)
}

/// Builds the node opened at `pos`; returns it with the position just after
/// its `Close` event.
pub fn build_node(events: &Vec<HtmlEvent>, pos: usize) -> (res: (HtmlNode, usize))
    requires
        pos < events@.len(),
    ensures
        res.0@ == parse_node(events_view(events@), pos as int).0,
        res.1 == parse_node(events_view(events@), pos as int).1,
    decreases events@.len() - pos, 0int,
{
    let ghost evs = events_view(events@);
    let n = events.len();
    let (children, end) = build_nodes(events, pos + 1);
    let next = if end < n {
        end + 1
    } else {
        end
    };
    assert(evs[pos as int] == events@[pos as int]@);
    let node = match &events[pos] {
        HtmlEvent::OpenElement(name, attrs) => {
            let e = HtmlElement { name: clone_string(name), attrs: clone_attrs(attrs), children };
            proof {
                lemma_element_children_view(e);
            }
            HtmlNode::Element(e)
        },
        HtmlEvent::OpenText(t) => HtmlNode::Text(clone_string(t)),
        _ => {
            proof {
                lemma_other_children_view(children);
            }
            HtmlNode::Other(children)
        },
    };
    (node, next)
}

/// Appends to `out` the text of the text nodes under `nodes`, in document order.
pub fn collect_texts(nodes: &Vec<HtmlNode>, out: &mut Vec<String>)
    ensures
        strings_view(final(out)@) == strings_view(old(out)@) + nodes_texts(nodes_view(nodes@)),
    decreases nodes@,
{
    let ghost ns = nodes_view(nodes@);
    let ghost start = strings_view(out@);
    let mut i: usize = 0;
    while i < nodes.len()
        invariant
            ns == nodes_view(nodes@),
            i <= nodes@.len(),
            strings_view(out@) == start + nodes_texts(ns.subrange(0, i as int)),
        decreases nodes@.len() - i,
    {
        let ghost before = strings_view(out@);
        let ghost piece = node_texts(nodes@[i as int]@);
        assert(ns.subrange(0, i + 1).subrange(0, i as int) =~= ns.subrange(0, i as int));
        assert(ns.subrange(0, i + 1)[i as int] == nodes@[i as int]@);
        assert(nodes_texts(ns.subrange(0, i + 1)) == nodes_texts(ns.subrange(0, i as int)) + piece);
        match &nodes[i] {
            HtmlNode::Text(t) => {
                out.push(clone_string(t));
                assert(strings_view(out@) =~= before + seq![t@]);
            },
            HtmlNode::Element(e) => {
                assert(decreases_to!(nodes@ => e.children@));
                proof {
                    lemma_element_children_view(*e);
                }
                collect_texts(&e.children, out);
                assert(strings_view(out@) == before + piece);
            },
            HtmlNode::Other(cs) => {
                assert(decreases_to!(nodes@ => cs@));
                proof {
                    lemma_other_children_view(*cs);
                }
                collect_texts(cs, out);
                assert(strings_view(out@) == before + piece);
            },
        }
        assert(strings_view(out@) =~= start + nodes_texts(ns.subrange(0, i + 1)));
        i = i + 1;
    }
    assert(ns.subrange(0, i as int) =~= ns);
}

impl HtmlElement {
    /// The value of the attribute without a namespace named `name`.
    pub fn attr(&self, name: &str) -> (r: Option<String>)
        ensures
            match r {
                Some(v) => find_attr(self@.attrs, name@) == Some(v@),
                None => find_attr(self@.attrs, name@) is None,
            },
    {
        let ghost attrs = self@.attrs;
        let mut i: usize = 0;
        assert(attrs.skip(0) =~= attrs);
        while i < self.attrs.len()
            invariant
                attrs == attrs_view(self.attrs@),
                i <= self.attrs@.len(),
                find_attr(attrs, name@) == find_attr(attrs.skip(i as int), name@),
            decreases self.attrs@.len() - i,
        {
            let a = &self.attrs[i];
            assert(attrs.skip(i as int)[0] == a@);
            if a.namespace.as_str().unicode_len() == 0 && crate::text::str_equal(a.name.as_str(), name) {
                return Some(clone_string(&a.value));
            }
            assert(attrs.skip(i as int).drop_first() =~= attrs.skip(i + 1));
            i = i + 1;
        }
        None
    }
}

/// The first element among `nodes`.
pub fn find_first_element(nodes: &Vec<HtmlNode>) -> (r: Option<&HtmlElement>)
    ensures
        match r {
            Some(e) => first_element(nodes_view(nodes@)) == Some(e@),
            None => first_element(nodes_view(nodes@)) is None,
        },
{
    let ghost ns = nodes_view(nodes@);
    let mut i: usize = 0;
    assert(ns.skip(0) =~= ns);
    while i < nodes.len()
        invariant
            ns == nodes_view(nodes@),
            i <= nodes@.len(),
            first_element(ns) == first_element(ns.skip(i as int)),
        decreases nodes@.len() - i,
    {
        assert(ns.skip(i as int)[0] == nodes@[i as int]@);
        if let HtmlNode::Element(e) = &nodes[i] {
            return Some(e);
        }
        assert(ns.skip(i as int).drop_first() =~= ns.skip(i + 1));
        i = i + 1;
    }
    None
}

/// The text under sibling nodes is the text under each, in order: that of a
/// text node is its own text, that of an element or other node the text under
/// its children.
pub proof fn lemma_nodes_texts_add(a: Seq<NodeView>, b: Seq<NodeView>)
    ensures
        nodes_texts(a + b) == nodes_texts(a) + nodes_texts(b),
        nodes_texts(Seq::empty()) == Seq::<Seq<char>>::empty(),
        nodes_texts(seq![NodeView::Text(Seq::empty())]) == seq![Seq::<char>::empty()],
    decreases b.len(),
{
    let t = seq![NodeView::Text(Seq::<char>::empty())];
    assert(t.subrange(0, 0) =~= Seq::<NodeView>::empty());
    assert(nodes_texts(Seq::<NodeView>::empty()) == Seq::<Seq<char>>::empty());
    assert(t[0] == NodeView::Text(Seq::<char>::empty()));
    assert(node_texts(t[0]) == seq![Seq::<char>::empty()]);
    assert(nodes_texts(t) == nodes_texts(t.subrange(0, 0)) + node_texts(t[0]));
    assert(nodes_texts(t) =~= seq![Seq::<char>::empty()]);
    if b.len() == 0 {
        assert(a + b =~= a);
        assert(nodes_texts(a) + nodes_texts(b) =~= nodes_texts(a));
    } else {
        let bi = b.subrange(0, b.len() - 1);
        lemma_nodes_texts_add(a, bi);
        let ab = a + b;
        assert(ab.subrange(0, ab.len() - 1) =~= a + bi);
        assert(ab[ab.len() - 1] == b[b.len() - 1]);
    }
}

/// The text under a single node: a text node's own text, or the text under
/// the children of an element or other node.
pub proof fn lemma_node_texts(n: NodeView)
    ensures
        nodes_texts(seq![n]) == node_texts(n),
        n matches NodeView::Text(t) ==> node_texts(n) == seq![t],
        n matches NodeView::Element(e) ==> node_texts(n) == nodes_texts(e.children),
        n matches NodeView::Other(cs) ==> node_texts(n) == nodes_texts(cs),
{
    let s = seq![n];
    assert(s.subrange(0, 0) =~= Seq::<NodeView>::empty());
    assert(nodes_texts(Seq::<NodeView>::empty()) == Seq::<Seq<char>>::empty());
    assert(s[0] == n);
    assert(nodes_texts(s) == nodes_texts(s.subrange(0, 0)) + node_texts(s[0]));
    assert(nodes_texts(s) =~= node_texts(n));
}

/// The attribute lookup finds an attribute without a namespace and with the
/// name asked for, the first such; it finds none exactly where there is none.
pub proof fn lemma_find_attr(attrs: Seq<AttrView>, name: Seq<char>)
    ensures
        find_attr(attrs, name) is None <==> forall|i: int|
            0 <= i < attrs.len() ==> !(#[trigger] attrs[i].namespace.len() == 0 && attrs[i].name
                == name),
        find_attr(attrs, name) matches Some(v) ==> exists|i: int|
            0 <= i < attrs.len() && #[trigger] attrs[i].namespace.len() == 0 && attrs[i].name
                == name && attrs[i].value == v && forall|j: int|
                0 <= j < i ==> !(#[trigger] attrs[j].namespace.len() == 0 && attrs[j].name == name),
    decreases attrs.len(),
{
    if attrs.len() > 0 {
        let rest = attrs.drop_first();
        lemma_find_attr(rest, name);
        if attrs[0].namespace.len() == 0 && attrs[0].name == name {
        } else {
            assert forall|i: int| 0 < i < attrs.len() implies attrs[i] == rest[i - 1] by {}
            if let Some(v) = find_attr(attrs, name) {
                let i = choose|i: int|
                    0 <= i < rest.len() && #[trigger] rest[i].namespace.len() == 0 && rest[i].name
                        == name && rest[i].value == v && forall|j: int|
                        0 <= j < i ==> !(#[trigger] rest[j].namespace.len() == 0 && rest[j].name
                            == name);
                assert(attrs[i + 1] == rest[i]);
                assert forall|j: int| 0 <= j < i + 1 implies !(#[trigger] attrs[j].namespace.len()
                    == 0 && attrs[j].name == name) by {
                    if j > 0 {
                        assert(attrs[j] == rest[j - 1]);
                    }
                }
            } else {
                assert forall|i: int| 0 <= i < attrs.len() implies !(
                #[trigger] attrs[i].namespace.len() == 0 && attrs[i].name == name) by {
                    if i > 0 {
                        assert(attrs[i] == rest[i - 1]);
                    }
                }
            }
        }
    }
}

/// The first element among nodes is an element that stands among them with
/// no element before it; there is none exactly where no node is an element.
pub proof fn lemma_first_element(ns: Seq<NodeView>)
    ensures
        first_element(ns) is None <==> forall|i: int| 0 <= i < ns.len() ==> !(#[trigger] ns[i] is Element),
        first_element(ns) matches Some(e) ==> exists|i: int|
            0 <= i < ns.len() && #[trigger] ns[i] == NodeView::Element(e) && forall|j: int|
                0 <= j < i ==> !(#[trigger] ns[j] is Element),
    decreases ns.len(),
{
    if ns.len() > 0 {
        let rest = ns.drop_first();
        lemma_first_element(rest);
        if !(ns[0] is Element) {
            assert forall|i: int| 0 < i < ns.len() implies ns[i] == rest[i - 1] by {}
            if let Some(e) = first_element(ns) {
                let i = choose|i: int|
                    0 <= i < rest.len() && #[trigger] rest[i] == NodeView::Element(e) && forall|j: int|
                        0 <= j < i ==> !(#[trigger] rest[j] is Element);
                assert(ns[i + 1] == rest[i]);
                assert forall|j: int| 0 <= j < i + 1 implies !(#[trigger] ns[j] is Element) by {
                    if j > 0 {
                        assert(ns[j] == rest[j - 1]);
                    }
                }
            } else {
                assert forall|i: int| 0 <= i < ns.len() implies !(#[trigger] ns[i] is Element) by {
                    if i > 0 {
                        assert(ns[i] == rest[i - 1]);
                    }
                }
            }
        }
    }
}

} // verus!
