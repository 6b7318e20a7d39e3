//! The document tree that styles are resolved for.

use vstd::prelude::*;
use crate::css::views;
use crate::name_map::NameMap;
use crate::strings::{push_char, str_eq};

verus! {

/// The attributes of an element, by name.
pub type AttrsMap = NameMap<String>;

#[derive(Debug)]
pub struct CommentData {
    pub comment: String,
}

#[derive(Debug)]
pub struct ElementData {
    pub tag_name: String,
    pub attrs: AttrsMap,
}

#[derive(Debug)]
pub enum NodeType {
    Text(String),
    Element(ElementData),
    Comment(CommentData),
}

/// A node of the document tree, with its children in document order.
#[derive(Debug)]
pub struct Node {
    pub children: Vec<Node>,
    pub node_type: NodeType,
}

/// A text node holding `data`, without children.
pub fn text(data: String) -> (node: Node)
    ensures
        node.children@ == Seq::<Node>::empty(),
        node.node_type == NodeType::Text(data),
{
    Node { children: Vec::new(), node_type: NodeType::Text(data) }
}

/// An element node with the given tag name, attributes and children.
pub fn elem(tag_name: String, attrs: AttrsMap, children: Vec<Node>) -> (node: Node)
    ensures
        node.children == children,
        node.node_type == NodeType::Element(ElementData { tag_name, attrs }),
{
    Node { children, node_type: NodeType::Element(ElementData { tag_name, attrs }) }
}

/// A comment node holding `data`, without children.
pub fn comment(data: String) -> (node: Node)
    ensures
        node.children@ == Seq::<Node>::empty(),
        node.node_type == NodeType::Comment(CommentData { comment: data }),
{
    Node { children: Vec::new(), node_type: NodeType::Comment(CommentData { comment: data }) }
}

/// The pieces of `s` between occurrences of `sep`, in order. There is one
/// piece more than there are separators; a piece is empty where two
/// separators meet and where `s` begins or ends with one.
pub open spec fn split_on(s: Seq<char>, sep: char) -> Seq<Seq<char>>
    decreases s.len(),
{
    if s.len() == 0 {
        seq![Seq::<char>::empty()]
    } else {
        let before = split_on(s.drop_last(), sep);
        if s.last() == sep {
            before.push(Seq::<char>::empty())
        } else {
            before.update(before.len() - 1, before.last().push(s.last()))
        }
    }
}

/// What the style engine reads of an element: its tag name and its
/// attributes.
pub struct ElementView {
    pub tag_name: Seq<char>,
    pub attrs: Map<Seq<char>, Seq<char>>,
}

impl ElementView {
    /// The element's id: the value of its `id` attribute.
    pub open spec fn id(self) -> Option<Seq<char>> {
        if self.attrs.contains_key("id"@) {
            Some(self.attrs["id"@])
        } else {
            None
        }
    }

    /// The element's classes: the pieces of its `class` attribute between
    /// spaces.
    pub open spec fn classes(self) -> Set<Seq<char>> {
        if self.attrs.contains_key("class"@) {
            split_on(self.attrs["class"@], ' ').to_set()
        } else {
            Set::empty()
        }
    }
}

impl View for ElementData {
    type V = ElementView;

    open spec fn view(&self) -> ElementView {
        ElementView { tag_name: self.tag_name@, attrs: self.attrs@ }
    }
}

/// The pieces of `s` between spaces.
pub fn split_spaces(s: &str) -> (pieces: Vec<String>)
    ensures
        views(pieces@) == split_on(s@, ' '),
{
    let mut pieces: Vec<String> = Vec::new();
    let mut piece = String::new();
    assert(s@.take(0) =~= Seq::<char>::empty());
    assert(views(pieces@).push(piece@) =~= split_on(s@.take(0), ' '));
    for c in it: s.chars()
        invariant
            it.seq() == s@,
            views(pieces@).push(piece@) == split_on(s@.take(it.index() as int), ' '),
    {
        let ghost i = it.index() as int;
        proof {
            assert(s@.take(i + 1).drop_last() =~= s@.take(i));
            assert(s@.take(i + 1).last() == c);
        }
        if c == ' ' {
            pieces.push(piece);
            piece = String::new();
            assert(views(pieces@).push(piece@) =~= split_on(s@.take(i + 1), ' '));
        } else {
            push_char(&mut piece, c);
            assert(views(pieces@).push(piece@) =~= split_on(s@.take(i + 1), ' '));
        }
    }
    assert(s@.take(s@.len() as int) =~= s@);
    pieces.push(piece);
    assert(views(pieces@) =~= split_on(s@, ' '));
    pieces
}

/// Whether `name` is one of `names`.
pub fn contains_name(names: &Vec<String>, name: &str) -> (r: bool)
    ensures
        r == views(names@).contains(name@),
{
    let mut i: usize = 0;
    while i < names.len()
        invariant
            i <= names.len(),
            forall|k: int| 0 <= k < i ==> views(names@)[k] != name@,
        decreases names.len() - i,
    {
        if str_eq(names[i].as_str(), name) {
            assert(views(names@)[i as int] == name@);
            return true;
        }
        i += 1;
    }
    false
}

impl ElementData {
    /// The element's id, if it has an `id` attribute.
    pub fn id(&self) -> (r: Option<&String>)
        ensures
            match r {
                Some(id) => self@.id() == Some(id@),
                None => self@.id() is None,
            },
    {
        self.attrs.get("id")
    }

    /// The element's classes, each once.
    pub fn classes(&self) -> (r: Vec<String>)
        ensures
            views(r@).to_set() == self@.classes(),
            views(r@).no_duplicates(),
    {
        let mut out: Vec<String> = Vec::new();
        match self.attrs.get("class") {
            Some(classlist) => {
                let pieces = split_spaces(classlist.as_str());
                let mut i: usize = 0;
                while i < pieces.len()
                    invariant
                        i <= pieces.len(),
                        views(out@).no_duplicates(),
                        views(out@).to_set() == views(pieces@).take(i as int).to_set(),
                    decreases pieces.len() - i,
                {
                    let ghost before = views(out@);
                    proof {
                        assert(views(pieces@).take(i + 1) =~= views(pieces@).take(i as int).push(
                            pieces[i as int]@,
                        ));
                        views(pieces@).take(i as int).lemma_push_to_set_commute(pieces[i as int]@);
                    }
                    if !contains_name(&out, pieces[i].as_str()) {
                        out.push(pieces[i].clone());
                        proof {
                            assert(views(out@) =~= before.push(pieces[i as int]@));
                            before.lemma_push_to_set_commute(pieces[i as int]@);
                        }
                    } else {
                        assert(before.to_set().insert(pieces[i as int]@) =~= before.to_set());
                    }
                    i += 1;
                }
                assert(views(pieces@).take(pieces.len() as int) =~= views(pieces@));
            },
            None => {
                assert(views(out@).to_set() =~= Set::<Seq<char>>::empty());
            },
        }
        out
    }
}

/// What a node is, apart from its children.
pub enum NodeTypeView {
    Text(Seq<char>),
    Element(ElementView),
    Comment(Seq<char>),
}

/// A document tree as a mathematical value.
pub struct NodeView {
    pub children: Seq<NodeView>,
    pub node_type: NodeTypeView,
}

impl View for NodeType {
    type V = NodeTypeView;

    open spec fn view(&self) -> NodeTypeView {
        match *self {
            NodeType::Text(data) => NodeTypeView::Text(data@),
            NodeType::Element(elem) => NodeTypeView::Element(elem@),
            NodeType::Comment(data) => NodeTypeView::Comment(data.comment@),
        }
    }
}

/// The tree below `node`, with `node` as its root.
pub open spec fn node_view(node: Node) -> NodeView
    decreases node,
{
    NodeView {
        children: Seq::new(
            node.children.len() as nat,
            |i: int|
                if 0 <= i < node.children.len() {
                    node_view(node.children[i])
                } else {
                    NodeView { children: Seq::empty(), node_type: node.node_type@ }
                },
        ),
        node_type: node.node_type@,
    }
}

impl View for Node {
    type V = NodeView;

    open spec fn view(&self) -> NodeView {
        node_view(*self)
    }
}

} // verus!
