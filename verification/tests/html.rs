use css_cascade::css::{parse, Origin, Value};
use css_cascade::dom::{Node, NodeType};
use css_cascade::parser::{ParseError, Parser};
use css_cascade::style::style_tree;

fn tag(node: &Node) -> &str {
    match &node.node_type {
        NodeType::Element(e) => e.tag_name.as_str(),
        _ => panic!("not an element"),
    }
}

fn text_of(node: &Node) -> &str {
    match &node.node_type {
        NodeType::Text(t) => t.as_str(),
        _ => panic!("not a text"),
    }
}

#[test]
fn parses_nested_elements_with_attributes() {
    let root = Parser::parse(
        "<div id=\"main\" class='a b'>\n  <p>Hello <em>world</em>!</p>\n  <!-- note --></div>"
            .to_string(),
    )
    .unwrap();
    assert_eq!(tag(&root), "div");
    match &root.node_type {
        NodeType::Element(e) => {
            assert_eq!(e.attrs.len(), 2);
            assert_eq!(e.id(), Some(&"main".to_string()));
            assert_eq!(e.attrs.get("class"), Some(&"a b".to_string()));
        },
        _ => unreachable!(),
    }
    assert_eq!(root.children.len(), 2);
    let p = &root.children[0];
    assert_eq!(tag(p), "p");
    assert_eq!(p.children.len(), 3);
    assert_eq!(text_of(&p.children[0]), "Hello ");
    assert_eq!(tag(&p.children[1]), "em");
    assert_eq!(text_of(&p.children[1].children[0]), "world");
    assert_eq!(text_of(&p.children[2]), "!");
    match &root.children[1].node_type {
        NodeType::Comment(c) => assert_eq!(c.comment, " note "),
        _ => panic!("not a comment"),
    }
}

#[test]
fn several_top_nodes_get_a_root() {
    let root = Parser::parse("<p></p><p></p>".to_string()).unwrap();
    assert_eq!(tag(&root), "html");
    assert_eq!(root.children.len(), 2);
    let empty = Parser::parse("  ".to_string()).unwrap();
    assert_eq!(tag(&empty), "html");
    assert_eq!(empty.children.len(), 0);
    let only_text = Parser::parse("hello".to_string()).unwrap();
    assert_eq!(text_of(&only_text), "hello");
}

#[test]
fn a_later_attribute_replaces_an_earlier_one_of_its_name() {
    let root = Parser::parse("<a x=\"1\" y=\"2\" x=\"3\"></a>".to_string()).unwrap();
    match &root.node_type {
        NodeType::Element(e) => {
            assert_eq!(e.attrs.len(), 2);
            assert_eq!(e.attrs.get("x"), Some(&"3".to_string()));
            assert_eq!(e.attrs.get("y"), Some(&"2".to_string()));
        },
        _ => unreachable!(),
    }
}

#[test]
fn malformed_documents_fail_at_the_offending_character() {
    let at = |source: &str| match Parser::parse(source.to_string()) {
        Err(e) => e,
        Ok(_) => panic!("parsed"),
    };
    assert_eq!(at("<p>"), ParseError::Syntax { offset: 3 });
    assert_eq!(at("<p></q>"), ParseError::Syntax { offset: 5 });
    assert_eq!(at("<p></p"), ParseError::Syntax { offset: 6 });
    assert_eq!(at("<p x></p>"), ParseError::Syntax { offset: 4 });
    assert_eq!(at("<p x=1></p>"), ParseError::Syntax { offset: 5 });
    assert_eq!(at("<p x=\"1></p>"), ParseError::Syntax { offset: 12 });
    assert_eq!(at("<p x='1\"></p>"), ParseError::Syntax { offset: 13 });
    assert_eq!(at("<!- x -->"), ParseError::Syntax { offset: 0 });
    assert_eq!(at("<!-- a-b -->"), ParseError::Syntax { offset: 6 });
    assert_eq!(at("<!-- a"), ParseError::Syntax { offset: 6 });
    assert_eq!(at("<p"), ParseError::Syntax { offset: 2 });
}

#[test]
fn what_follows_a_stray_closing_tag_is_not_read() {
    let root = Parser::parse("<p></p></div><b></b>".to_string()).unwrap();
    assert_eq!(tag(&root), "p");
}

#[test]
fn a_parsed_document_is_styled() {
    let root = Parser::parse(
        "<div class=\"box\"><p style=\"color: red;\">hi</p><p>there</p></div>".to_string(),
    )
    .unwrap();
    let sheets = [parse(".box { color: blue; } p { margin: 1px; }".to_string(), Origin::Author).unwrap()];
    let tree = style_tree(&root, &sheets);
    assert_eq!(tree.value("color"), Some(Value::Keyword("blue".to_string())));
    assert_eq!(tree.children[0].value("color"), Some(Value::Keyword("red".to_string())));
    assert_eq!(tree.children[0].children[0].value("color"), Some(Value::Keyword("red".to_string())));
    assert_eq!(tree.children[1].value("color"), Some(Value::Keyword("blue".to_string())));
}
