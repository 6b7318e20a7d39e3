//! The grammar of documents, and the parser that follows it.
//!
//! ```text
//! nodes     = node*
//! node      = comment | element | text
//! comment   = '<!--' (any character but '-')* '-->'
//! element   = '<' name attribute* '>' nodes '</' name '>'
//! attribute = name '=' quote (any character but that quote)* quote
//! text      = (any character but '<')+
//! ```
//!
//! A name is made of letters and digits. White space may stand before
//! each node and each attribute.

use vstd::prelude::*;
use crate::css::views;
use crate::dom::{comment, elem, text, AttrsMap, ElementView, Node, NodeTypeView, NodeView};
use crate::name_map::NameMap;
use crate::parser::{lemma_scan, scan, spec_starts_with, syntax_error, CharClass, ParseError, Parser};

verus! {

/// The value of an attribute written at `pos`: what stands between a
/// quote, single or double, and the next quote of the same kind.
pub open spec fn spec_parse_attr_value(s: Seq<char>, pos: int) -> Result<(Seq<char>, int), ParseError> {
    if !(0 <= pos < s.len() && (s[pos] == '"' || s[pos] == '\'')) {
        Err(syntax_error(pos))
    } else {
        let end = scan(s, pos + 1, CharClass::Except(s[pos]));
        if !(0 <= end < s.len()) {
            Err(syntax_error(end))
        } else {
            Ok((s.subrange(pos + 1, end), end + 1))
        }
    }
}

/// The attribute written at `pos`: a name, `=` and a quoted value.
pub open spec fn spec_parse_attr(s: Seq<char>, pos: int) -> Result<
    ((Seq<char>, Seq<char>), int),
    ParseError,
> {
    let name_end = scan(s, pos, CharClass::Alphanumeric);
    if !(0 <= name_end < s.len() && s[name_end] == '=') {
        Err(syntax_error(name_end))
    } else {
        match spec_parse_attr_value(s, name_end + 1) {
            Err(e) => Err(e),
            Ok((value, end)) => Ok(((s.subrange(pos, name_end), value), end)),
        }
    }
}

/// An attribute that is parsed ends after its start and within the text.
pub proof fn lemma_parse_attr_bounds(s: Seq<char>, pos: int)
    requires
        0 <= pos <= s.len(),
    ensures
        spec_parse_attr(s, pos) matches Ok((_, end)) ==> pos < end <= s.len(),
{
    lemma_scan(s, pos, CharClass::Alphanumeric);
    let name_end = scan(s, pos, CharClass::Alphanumeric);
    if name_end + 1 < s.len() {
        lemma_scan(s, name_end + 2, CharClass::Except(s[name_end + 1]));
    }
}

/// The attributes that `so_far` becomes by those written from `pos` up to
/// the `>` that ends the tag, and the position of that `>`. Of two
/// attributes of one name the later one stays.
pub open spec fn spec_parse_attributes_from(
    s: Seq<char>,
    pos: int,
    so_far: Map<Seq<char>, Seq<char>>,
) -> Result<(Map<Seq<char>, Seq<char>>, int), ParseError>
    decreases s.len() - pos,
{
    let p = scan(s, pos, CharClass::Whitespace);
    if !(0 <= pos <= p < s.len()) {
        Err(syntax_error(p))
    } else if s[p] == '>' {
        Ok((so_far, p))
    } else {
        match spec_parse_attr(s, p) {
            Err(e) => Err(e),
            Ok(((name, value), next)) => {
                proof {
                    lemma_parse_attr_bounds(s, p);
                }
                spec_parse_attributes_from(s, next, so_far.insert(name, value))
            },
        }
    }
}

/// The attributes written from `pos` up to the `>` that ends the tag.
pub open spec fn spec_parse_attributes(s: Seq<char>, pos: int) -> Result<
    (Map<Seq<char>, Seq<char>>, int),
    ParseError,
> {
    spec_parse_attributes_from(s, pos, Map::empty())
}

/// Attributes that are parsed end, at or after their start, at a `>` of
/// the text.
pub proof fn lemma_parse_attributes_bounds(
    s: Seq<char>,
    pos: int,
    so_far: Map<Seq<char>, Seq<char>>,
)
    requires
        0 <= pos <= s.len(),
    ensures
        spec_parse_attributes_from(s, pos, so_far) matches Ok((_, end)) ==> pos <= end < s.len()
            && s[end] == '>',
    decreases s.len() - pos,
{
    let p = scan(s, pos, CharClass::Whitespace);
    lemma_scan(s, pos, CharClass::Whitespace);
    if p < s.len() && s[p] != '>' {
        lemma_parse_attr_bounds(s, p);
        if let Ok(((name, value), next)) = spec_parse_attr(s, p) {
            lemma_parse_attributes_bounds(s, next, so_far.insert(name, value));
        }
    }
}

/// A node without children.
pub open spec fn leaf(node_type: NodeTypeView) -> NodeView {
    NodeView { children: Seq::empty(), node_type }
}

/// The text written at `pos`: everything up to the next `<`.
pub open spec fn spec_parse_text(s: Seq<char>, pos: int) -> (NodeView, int) {
    let end = scan(s, pos, CharClass::Except('<'));
    (leaf(NodeTypeView::Text(s.subrange(pos, end))), end)
}

/// The comment written at `pos`: `<!--`, characters other than `-`, and
/// `-->`.
pub open spec fn spec_parse_comment(s: Seq<char>, pos: int) -> Result<(NodeView, int), ParseError> {
    if !spec_starts_with(s, pos, "<!--"@) {
        Err(syntax_error(pos))
    } else {
        let start = pos + "<!--"@.len();
        let end = scan(s, start, CharClass::Except('-'));
        if !spec_starts_with(s, end, "-->"@) {
            Err(syntax_error(end))
        } else {
            Ok((leaf(NodeTypeView::Comment(s.subrange(start, end))), end + "-->"@.len()))
        }
    }
}

/// The nodes written from `pos` up to the end of the text or to the next
/// closing tag, with white space before each, and the position at which
/// they end. Every node ends after its start (`lemma_parse_node_advances`);
/// the definition tests this only to show that it terminates.
pub open spec fn spec_parse_nodes(s: Seq<char>, pos: int) -> Result<(Seq<NodeView>, int), ParseError>
    decreases s.len() - pos, 2int,
{
    let p = scan(s, pos, CharClass::Whitespace);
    if !(0 <= pos <= p < s.len()) || spec_starts_with(s, p, "</"@) {
        Ok((Seq::empty(), p))
    } else {
        match spec_parse_node(s, p) {
            Err(e) => Err(e),
            Ok((node, next)) => if !(p < next <= s.len()) {
                Err(syntax_error(p))
            } else {
                match spec_parse_nodes(s, next) {
                    Err(e) => Err(e),
                    Ok((rest, end)) => Ok((seq![node] + rest, end)),
                }
            },
        }
    }
}

/// The node written at `pos`: a comment where `<!` stands, an element
/// where another `<` stands, and a text elsewhere.
pub open spec fn spec_parse_node(s: Seq<char>, pos: int) -> Result<(NodeView, int), ParseError>
    decreases s.len() - pos, 1int,
{
    if spec_starts_with(s, pos, "<!"@) {
        spec_parse_comment(s, pos)
    } else if 0 <= pos < s.len() && s[pos] == '<' {
        spec_parse_element(s, pos)
    } else {
        Ok(spec_parse_text(s, pos))
    }
}

/// The element written at `pos`: an opening tag with a name and
/// attributes, the nodes inside, and the closing tag with the same name.
pub open spec fn spec_parse_element(s: Seq<char>, pos: int) -> Result<(NodeView, int), ParseError>
    decreases s.len() - pos, 0int,
{
    if !(0 <= pos < s.len() && s[pos] == '<') {
        Err(syntax_error(pos))
    } else {
        let name_end = scan(s, pos + 1, CharClass::Alphanumeric);
        let tag_name = s.subrange(pos + 1, name_end);
        match spec_parse_attributes(s, name_end) {
            Err(e) => Err(e),
            Ok((attrs, tag_end)) => {
                proof {
                    lemma_scan(s, pos + 1, CharClass::Alphanumeric);
                    lemma_parse_attributes_bounds(s, name_end, Map::empty());
                }
                match spec_parse_nodes(s, tag_end + 1) {
                    Err(e) => Err(e),
                    Ok((children, close)) => {
                        let name_start = close + "</"@.len();
                        let close_end = name_start + tag_name.len();
                        if !spec_starts_with(s, close, "</"@) {
                            Err(syntax_error(close))
                        } else if !spec_starts_with(s, name_start, tag_name) {
                            Err(syntax_error(name_start))
                        } else if !(0 <= close_end < s.len() && s[close_end] == '>') {
                            Err(syntax_error(close_end))
                        } else {
                            Ok(
                                (
                                    NodeView {
                                        children,
                                        node_type: NodeTypeView::Element(
                                            ElementView { tag_name, attrs },
                                        ),
                                    },
                                    close_end + 1,
                                ),
                            )
                        }
                    },
                }
            },
        }
    }
}

/// The document that `source` holds: its only node if it has exactly
/// one at its top, and else an element `html` around the nodes at its
/// top.
pub open spec fn spec_parse_document(source: Seq<char>) -> Result<NodeView, ParseError> {
    match spec_parse_nodes(source, 0) {
        Err(e) => Err(e),
        Ok((nodes, _)) => if nodes.len() == 1 {
            Ok(nodes[0])
        } else {
            Ok(
                NodeView {
                    children: nodes,
                    node_type: NodeTypeView::Element(
                        ElementView { tag_name: "html"@, attrs: Map::empty() },
                    ),
                },
            )
        },
    }
}

/// The three statements below, proved together: for nodes where `which`
/// is 2, for one node where it is 1, for an element where it is 0.
proof fn lemma_bounds(s: Seq<char>, pos: int, which: int)
    requires
        0 <= pos <= s.len(),
        0 <= which <= 2,
    ensures
        which == 2 ==> (spec_parse_nodes(s, pos) matches Ok((_, end)) ==> pos <= end <= s.len()),
        which == 1 && pos < s.len() ==> (spec_parse_node(s, pos) matches Ok((_, end)) ==> pos < end
            <= s.len()),
        which == 0 ==> (spec_parse_element(s, pos) matches Ok((_, end)) ==> pos < end <= s.len()),
    decreases s.len() - pos, which,
{
    reveal_strlit("<!--");
    reveal_strlit("-->");
    reveal_strlit("<!");
    reveal_strlit("</");
    if which == 2 {
        let p = scan(s, pos, CharClass::Whitespace);
        lemma_scan(s, pos, CharClass::Whitespace);
        if p < s.len() && !spec_starts_with(s, p, "</"@) {
            lemma_bounds(s, p, 1);
            if let Ok((_, next)) = spec_parse_node(s, p) {
                lemma_bounds(s, next, 2);
            }
        }
    } else if which == 1 {
        if pos < s.len() {
            if spec_starts_with(s, pos, "<!"@) {
                if spec_starts_with(s, pos, "<!--"@) {
                    lemma_scan(s, pos + 4, CharClass::Except('-'));
                }
            } else if s[pos] == '<' {
                lemma_bounds(s, pos, 0);
            } else {
                lemma_scan(s, pos + 1, CharClass::Except('<'));
            }
        }
    } else {
        if pos < s.len() && s[pos] == '<' {
            let name_end = scan(s, pos + 1, CharClass::Alphanumeric);
            lemma_scan(s, pos + 1, CharClass::Alphanumeric);
            lemma_parse_attributes_bounds(s, name_end, Map::empty());
            if let Ok((_, tag_end)) = spec_parse_attributes(s, name_end) {
                lemma_bounds(s, tag_end + 1, 2);
            }
        }
    }
}

/// Nodes that are parsed end at or after their start and within the
/// text.
pub proof fn lemma_parse_nodes_bounds(s: Seq<char>, pos: int)
    requires
        0 <= pos <= s.len(),
    ensures
        spec_parse_nodes(s, pos) matches Ok((_, end)) ==> pos <= end <= s.len(),
{
    lemma_bounds(s, pos, 2);
}

/// A node that is parsed before the end of the text ends after its start
/// and within the text. So the test on its end in `spec_parse_nodes`,
/// which shows that the definition terminates, never fails.
pub proof fn lemma_parse_node_advances(s: Seq<char>, pos: int)
    requires
        0 <= pos < s.len(),
    ensures
        spec_parse_node(s, pos) matches Ok((_, end)) ==> pos < end <= s.len(),
{
    lemma_bounds(s, pos, 1);
}

/// An element that is parsed ends after its start and within the text.
pub proof fn lemma_parse_element_advances(s: Seq<char>, pos: int)
    requires
        0 <= pos <= s.len(),
    ensures
        spec_parse_element(s, pos) matches Ok((_, end)) ==> pos < end <= s.len(),
{
    lemma_bounds(s, pos, 0);
}

impl Parser {
    /// Parses the name of a tag or of an attribute: letters and digits.
    pub fn parse_name(&mut self) -> (name: String)
        requires
            old(self).wf(),
        ensures
            final(self).wf(),
            final(self).input == old(self).input,
            final(self).pos == scan(old(self).input@, old(self).pos as int, CharClass::Alphanumeric),
            name@ == old(self).input@.subrange(old(self).pos as int, final(self).pos as int),
    {
        self.consume_while(CharClass::Alphanumeric)
    }

    /// Parses a quoted value.
    pub fn parse_attr_value(&mut self) -> (r: Result<String, ParseError>)
        requires
            old(self).wf(),
        ensures
            final(self).wf(),
            final(self).input == old(self).input,
            match spec_parse_attr_value(old(self).input@, old(self).pos as int) {
                Ok((v, end)) => r is Ok && r->Ok_0@ == v && final(self).pos == end,
                Err(e) => r == Err::<String, ParseError>(e),
            },
    {
        if self.eof() {
            return Err(ParseError::Syntax { offset: self.pos });
        }
        let open_quote = self.next_char();
        if !(open_quote == '"' || open_quote == '\'') {
            return Err(ParseError::Syntax { offset: self.pos });
        }
        self.pos += 1;
        let value = self.consume_while(CharClass::Except(open_quote));
        if self.eof() {
            return Err(ParseError::Syntax { offset: self.pos });
        }
        self.pos += 1;
        Ok(value)
    }

    /// Parses one attribute: `name="value"`.
    pub fn parse_attr(&mut self) -> (r: Result<(String, String), ParseError>)
        requires
            old(self).wf(),
        ensures
            final(self).wf(),
            final(self).input == old(self).input,
            match spec_parse_attr(old(self).input@, old(self).pos as int) {
                Ok((v, end)) => {
                    &&& r is Ok
                    &&& r->Ok_0.0@ == v.0
                    &&& r->Ok_0.1@ == v.1
                    &&& final(self).pos == end
                },
                Err(e) => r == Err::<(String, String), ParseError>(e),
            },
    {
        let name = self.parse_name();
        self.expect_char('=')?;
        let value = self.parse_attr_value()?;
        Ok((name, value))
    }

    /// Parses the attributes of a tag, up to the `>` that ends it.
    pub fn parse_attributes(&mut self) -> (r: Result<AttrsMap, ParseError>)
        requires
            old(self).wf(),
        ensures
            final(self).wf(),
            final(self).input == old(self).input,
            match spec_parse_attributes(old(self).input@, old(self).pos as int) {
                Ok((v, end)) => r is Ok && r->Ok_0@ == v && final(self).pos == end,
                Err(e) => r == Err::<AttrsMap, ParseError>(e),
            },
    {
        let ghost s = self.input@;
        let ghost start = self.pos as int;
        let mut attributes: AttrsMap = NameMap::new();
        assert(attributes@ =~= Map::empty());
        loop
            invariant
                self.wf(),
                self.input == old(self).input,
                s == self.input@,
                start == old(self).pos,
                attributes.wf(),
                spec_parse_attributes(s, start) == spec_parse_attributes_from(
                    s,
                    self.pos as int,
                    attributes@,
                ),
            decreases self.input.len() - self.pos,
        {
            proof {
                lemma_scan(s, self.pos as int, CharClass::Whitespace);
            }
            self.consume_whitespace();
            if self.eof() {
                return Err(ParseError::Syntax { offset: self.pos });
            }
            if self.next_char() == '>' {
                return Ok(attributes);
            }
            proof {
                lemma_parse_attr_bounds(s, self.pos as int);
            }
            let (name, value) = self.parse_attr()?;
            attributes.insert(name, value);
        }
    }

    /// Parses a text: everything up to the next `<`.
    pub fn parse_text(&mut self) -> (node: Node)
        requires
            old(self).wf(),
        ensures
            final(self).wf(),
            final(self).input == old(self).input,
            node@ == spec_parse_text(old(self).input@, old(self).pos as int).0,
            final(self).pos == spec_parse_text(old(self).input@, old(self).pos as int).1,
    {
        let node = text(self.consume_while(CharClass::Except('<')));
        assert(node@.children =~= Seq::<NodeView>::empty());
        node
    }

    /// Parses a comment: `<!--`, characters other than `-`, `-->`.
    pub fn parse_comment(&mut self) -> (r: Result<Node, ParseError>)
        requires
            old(self).wf(),
        ensures
            final(self).wf(),
            final(self).input == old(self).input,
            match spec_parse_comment(old(self).input@, old(self).pos as int) {
                Ok((v, end)) => r is Ok && r->Ok_0@ == v && final(self).pos == end,
                Err(e) => r == Err::<Node, ParseError>(e),
            },
    {
        self.expect("<!--")?;
        let data = self.consume_while(CharClass::Except('-'));
        self.expect("-->")?;
        let node = comment(data);
        assert(node@.children =~= Seq::<NodeView>::empty());
        Ok(node)
    }

    /// Parses nodes up to the end of the text or to the next closing
    /// tag.
    pub fn parse_nodes(&mut self) -> (r: Result<Vec<Node>, ParseError>)
        requires
            old(self).wf(),
        ensures
            final(self).wf(),
            final(self).input == old(self).input,
            match spec_parse_nodes(old(self).input@, old(self).pos as int) {
                Ok((v, end)) => r is Ok && views(r->Ok_0@) == v && final(self).pos == end,
                Err(e) => r == Err::<Vec<Node>, ParseError>(e),
            },
        decreases old(self).input.len() - old(self).pos, 2int,
    {
        let ghost s = self.input@;
        let ghost start = self.pos as int;
        let mut nodes: Vec<Node> = Vec::new();
        assert(views(nodes@) =~= Seq::<NodeView>::empty());
        loop
            invariant
                self.wf(),
                self.input == old(self).input,
                s == self.input@,
                start == old(self).pos,
                start <= self.pos,
                spec_parse_nodes(s, start) == (match spec_parse_nodes(s, self.pos as int) {
                    Ok((rest, end)) => Ok((views(nodes@) + rest, end)),
                    Err(e) => Err(e),
                }),
            decreases self.input.len() - self.pos,
        {
            let ghost done = views(nodes@);
            proof {
                lemma_scan(s, self.pos as int, CharClass::Whitespace);
            }
            self.consume_whitespace();
            if self.eof() || self.starts_with("</") {
                assert(done + Seq::<NodeView>::empty() =~= done);
                return Ok(nodes);
            }
            proof {
                lemma_parse_node_advances(s, self.pos as int);
            }
            let node = self.parse_node()?;
            nodes.push(node);
            proof {
                assert(views(nodes@) =~= done.push(node@));
                match spec_parse_nodes(s, self.pos as int) {
                    Ok((rest, end)) => {
                        assert(done + (seq![node@] + rest) =~= views(nodes@) + rest);
                    },
                    Err(e) => {},
                }
            }
        }
    }

    /// Parses one node: a comment, an element or a text.
    pub fn parse_node(&mut self) -> (r: Result<Node, ParseError>)
        requires
            old(self).wf(),
        ensures
            final(self).wf(),
            final(self).input == old(self).input,
            match spec_parse_node(old(self).input@, old(self).pos as int) {
                Ok((v, end)) => r is Ok && r->Ok_0@ == v && final(self).pos == end,
                Err(e) => r == Err::<Node, ParseError>(e),
            },
        decreases old(self).input.len() - old(self).pos, 1int,
    {
        if self.starts_with("<!") {
            self.parse_comment()
        } else if !self.eof() && self.next_char() == '<' {
            self.parse_element()
        } else {
            Ok(self.parse_text())
        }
    }

    /// Parses an element: its opening tag, the nodes inside, and its
    /// closing tag.
    pub fn parse_element(&mut self) -> (r: Result<Node, ParseError>)
        requires
            old(self).wf(),
        ensures
            final(self).wf(),
            final(self).input == old(self).input,
            match spec_parse_element(old(self).input@, old(self).pos as int) {
                Ok((v, end)) => r is Ok && r->Ok_0@ == v && final(self).pos == end,
                Err(e) => r == Err::<Node, ParseError>(e),
            },
        decreases old(self).input.len() - old(self).pos, 0int,
    {
        let ghost s = self.input@;
        self.expect_char('<')?;
        proof {
            lemma_scan(s, self.pos as int, CharClass::Alphanumeric);
        }
        let tag_name = self.parse_name();
        proof {
            lemma_parse_attributes_bounds(s, self.pos as int, Map::empty());
        }
        let attrs = self.parse_attributes()?;
        self.expect_char('>')?;
        let children = self.parse_nodes()?;
        self.expect("</")?;
        self.expect(tag_name.as_str())?;
        self.expect_char('>')?;
        let node = elem(tag_name, attrs, children);
        assert(node@.children =~= views(children@));
        Ok(node)
    }

    /// Parses a document and returns its root: the only node at its top,
    /// or an element `html` around the nodes at its top where they are
    /// none or several.
    pub fn parse(source: String) -> (r: Result<Node, ParseError>)
        ensures
            match spec_parse_document(source@) {
                Ok(v) => r is Ok && r->Ok_0@ == v,
                Err(e) => r == Err::<Node, ParseError>(e),
            },
    {
        let mut parser = Parser::new(source.as_str());
        let mut nodes = parser.parse_nodes()?;
        if nodes.len() == 1 {
            let ghost all = views(nodes@);
            let node = nodes.remove(0);
            assert(all[0] == node@);
            Ok(node)
        } else {
            let attrs: AttrsMap = NameMap::new();
            assert(attrs@ =~= Map::empty());
            let node = elem(String::from_str("html"), attrs, nodes);
            assert(node@.children =~= views(nodes@));
            Ok(node)
        }
    }
}

} // verus!
