use css_cascade::css::{
    parse, Color, Declaration, Number, Origin, Rule, Selector, SimpleSelector, Stylesheet, Unit, Value,
};
use css_cascade::dom::{comment, contains_name, elem, split_spaces, text, AttrsMap, ElementData, NodeType};
use css_cascade::name_map::NameMap;
use css_cascade::parser::{is_digit, is_whitespace, valid_identifier_char, CharClass, ParseError, Parser};
use css_cascade::style::matching_rules;
use css_cascade::syntax::{hex_digit, insert_selector, is_px, specificity_lt};

fn tag(name: &str) -> Selector {
    Selector::Simple(SimpleSelector { tag_name: Some(name.to_string()), id: None, class: vec![] })
}

fn class(name: &str) -> Selector {
    Selector::Simple(SimpleSelector { tag_name: None, id: None, class: vec![name.to_string()] })
}

#[test]
fn a_name_map_keeps_one_value_per_name() {
    let mut map: NameMap<String> = NameMap::new();
    assert_eq!(map.len(), 0);
    assert_eq!(map.get("a"), None);
    assert!(!map.contains_key("a"));
    assert_eq!(map.insert("a".to_string(), "1".to_string()), None);
    assert_eq!(map.insert("b".to_string(), "2".to_string()), None);
    assert_eq!(map.insert("a".to_string(), "3".to_string()), Some("1".to_string()));
    assert_eq!(map.len(), 2);
    assert_eq!(map.get("a"), Some(&"3".to_string()));
    assert_eq!(map.get("b"), Some(&"2".to_string()));
    assert!(map.contains_key("b"));
    assert_eq!(map.find("a"), Some(0));
    assert_eq!(map.find("b"), Some(1));
    assert_eq!(map.find("c"), None);
    assert_eq!(map.name_at(1), "b");
    assert_eq!(map.value_at(0), "3");
}

#[test]
fn node_constructors_build_what_they_are_given() {
    let t = text("hello".to_string());
    assert!(t.children.is_empty());
    assert!(matches!(&t.node_type, NodeType::Text(s) if s == "hello"));
    let c = comment("note".to_string());
    assert!(c.children.is_empty());
    assert!(matches!(&c.node_type, NodeType::Comment(d) if d.comment == "note"));
    let mut attrs = AttrsMap::new();
    attrs.insert("id".to_string(), "x".to_string());
    let e = elem("div".to_string(), attrs, vec![t, c]);
    assert_eq!(e.children.len(), 2);
    match &e.node_type {
        NodeType::Element(data) => {
            assert_eq!(data.tag_name, "div");
            assert_eq!(data.attrs.get("id"), Some(&"x".to_string()));
        },
        _ => panic!("not an element"),
    }
}

#[test]
fn splitting_keeps_empty_pieces() {
    assert_eq!(split_spaces("a b"), vec!["a".to_string(), "b".to_string()]);
    assert_eq!(split_spaces(""), vec![String::new()]);
    assert_eq!(split_spaces(" a  "), vec!["", "a", "", ""].iter().map(|s| s.to_string()).collect::<Vec<_>>());
    assert_eq!(split_spaces("a\tb"), vec!["a\tb".to_string()]);
    let names = vec!["x".to_string(), "y".to_string()];
    assert!(contains_name(&names, "y"));
    assert!(!contains_name(&names, "z"));
}

#[test]
fn errors_tell_their_offset_and_their_kind() {
    let syntax = ParseError::Syntax { offset: 7 };
    let unit = ParseError::UnsupportedUnit { offset: 9 };
    assert_eq!(syntax.offset(), 7);
    assert_eq!(unit.offset(), 9);
    assert_eq!(syntax.message(), "unexpected character or end of input");
    assert_eq!(unit.message(), "lengths must be given in px");
}

#[test]
fn character_classes_hold_what_they_say() {
    for c in [' ', '\t', '\n', '\r', '\u{b}', '\u{c}', '\u{85}', '\u{a0}', '\u{1680}', '\u{2003}', '\u{2028}', '\u{3000}'] {
        assert!(is_whitespace(c), "{:?}", c);
    }
    for c in ['a', '0', '\u{200b}', '\u{feff}', '\u{1f}', '\u{e}'] {
        assert!(!is_whitespace(c), "{:?}", c);
    }
    for code in 0..0x3100u32 {
        if let Some(c) = char::from_u32(code) {
            assert_eq!(is_whitespace(c), c.is_whitespace(), "{:?}", c);
        }
    }
    for c in ['a', 'z', 'A', 'Z', '0', '9', '-', '_'] {
        assert!(valid_identifier_char(c));
        assert!(CharClass::Identifier.contains(c));
    }
    for c in [' ', '.', '#', '{', ':', 'é', '*'] {
        assert!(!valid_identifier_char(c));
    }
    assert!(is_digit('0') && is_digit('9') && !is_digit('a') && !is_digit('/') && !is_digit(':'));
    assert!(CharClass::Digit.contains('9'));
    assert!(CharClass::Alphanumeric.contains('q') && !CharClass::Alphanumeric.contains('-'));
    assert!(CharClass::Except('<').contains('a') && !CharClass::Except('<').contains('<'));
    assert!(CharClass::Whitespace.contains(' ') && !CharClass::Whitespace.contains('x'));
}

#[test]
fn hexadecimal_digits_have_their_values() {
    assert_eq!(hex_digit('0'), Some(0));
    assert_eq!(hex_digit('9'), Some(9));
    assert_eq!(hex_digit('a'), Some(10));
    assert_eq!(hex_digit('f'), Some(15));
    assert_eq!(hex_digit('A'), Some(10));
    assert_eq!(hex_digit('F'), Some(15));
    assert_eq!(hex_digit('g'), None);
    assert_eq!(hex_digit('G'), None);
    assert_eq!(hex_digit(' '), None);
    assert!(is_px("px") && is_px("PX") && !is_px("p") && !is_px("pxx") && !is_px("em") && !is_px(""));
}

#[test]
fn the_parts_of_the_grammar_parse_alone() {
    let mut p = Parser::new("12.50px rest");
    assert_eq!(
        p.parse_value(),
        Ok(Value::Length(Number { integer: "12".to_string(), fraction: "50".to_string() }, Unit::Px))
    );
    assert_eq!(p.pos, 7);
    let mut p = Parser::new("#010203");
    assert_eq!(p.parse_color(), Ok(Value::ColorValue(Color { r: 1, g: 2, b: 3, a: 255 })));
    let mut p = Parser::new("red");
    assert_eq!(p.parse_color(), Err(ParseError::Syntax { offset: 0 }));
    let mut p = Parser::new("inherit;");
    assert_eq!(p.parse_value(), Ok(Value::Inherit));
    let mut p = Parser::new("inherited;");
    assert_eq!(p.parse_value(), Ok(Value::Keyword("inherited".to_string())));
    let mut p = Parser::new(";");
    assert_eq!(p.parse_value(), Ok(Value::Keyword(String::new())));
    let mut p = Parser::new("");
    assert_eq!(p.parse_value(), Err(ParseError::Syntax { offset: 0 }));
    let mut p = Parser::new("9px");
    assert_eq!(
        p.parse_length(),
        Ok(Value::Length(Number { integer: "9".to_string(), fraction: String::new() }, Unit::Px))
    );
    let mut p = Parser::new("ff");
    assert_eq!(p.parse_hex_pair(), Ok(255));
    let mut p = Parser::new("#x.y z");
    assert_eq!(
        p.parse_simple_selector(),
        SimpleSelector { tag_name: None, id: Some("x".to_string()), class: vec!["y".to_string()] }
    );
    assert_eq!(p.pos, 4);
    let mut p = Parser::new("margin : 0px ;x");
    assert_eq!(
        p.parse_declaration(),
        Ok(Declaration {
            name: "margin".to_string(),
            value: Value::Length(Number { integer: "0".to_string(), fraction: String::new() }, Unit::Px),
            important: false,
        })
    );
    assert_eq!(p.pos, 14);
    let mut p = Parser::new("{ a: b; }");
    assert_eq!(p.parse_declarations().map(|d| d.len()), Ok(1));
    let mut p = Parser::new("a: b; }");
    assert_eq!(p.parse_declarations(), Err(ParseError::Syntax { offset: 0 }));
    let mut p = Parser::new("a , b{");
    assert_eq!(p.parse_selectors(), Ok(vec![tag("a"), tag("b")]));
    assert_eq!(p.pos, 5);
    let mut p = Parser::new("a{}");
    assert_eq!(p.parse_rule(), Ok(Rule { selectors: vec![tag("a")], declarations: vec![] }));
    let mut p = Parser::new("1.5");
    assert_eq!(p.parse_number(), Ok(Number { integer: "1".to_string(), fraction: "5".to_string() }));
    let mut p = Parser::new("pt");
    assert_eq!(p.parse_unit(), Err(ParseError::UnsupportedUnit { offset: 0 }));
}

#[test]
fn selectors_go_in_after_those_at_least_as_specific() {
    let mut sorted = vec![class("a"), tag("p")];
    insert_selector(&mut sorted, class("b"));
    assert_eq!(sorted, vec![class("a"), class("b"), tag("p")]);
    insert_selector(&mut sorted, tag("q"));
    assert_eq!(sorted, vec![class("a"), class("b"), tag("p"), tag("q")]);
    let mut empty: Vec<Selector> = vec![];
    insert_selector(&mut empty, tag("p"));
    assert_eq!(empty, vec![tag("p")]);
    assert!(specificity_lt((0, 9, 9), (1, 0, 0)));
    assert!(specificity_lt((0, 0, 1), (0, 1, 0)));
    assert!(specificity_lt((1, 2, 0), (1, 2, 1)));
    assert!(!specificity_lt((1, 2, 1), (1, 2, 1)));
    assert!(!specificity_lt((1, 0, 0), (0, 5, 1)));
}

#[test]
fn matching_rules_are_listed_in_order() {
    let sheet =
        parse("p { } div { } .c, p { } #x { } * { }".to_string(), Origin::Author).unwrap();
    let mut attrs = AttrsMap::new();
    attrs.insert("class".to_string(), "c".to_string());
    let elem = ElementData { tag_name: "p".to_string(), attrs };
    let matched = matching_rules(&elem, &sheet);
    let found: Vec<(usize, usize, usize)> = matched.iter().map(|m| m.0).collect();
    assert_eq!(found, vec![(0, 0, 1), (0, 1, 0), (0, 0, 0)]);
    assert!(std::ptr::eq(matched[0].1, &sheet.rules[0]));
    assert!(std::ptr::eq(matched[1].1, &sheet.rules[2]));
    assert!(std::ptr::eq(matched[2].1, &sheet.rules[4]));
}

#[test]
fn clones_are_equal_to_what_they_were_made_from() {
    let sheet: Stylesheet = parse(
        "a#b.c, d { e: f; g: 1.5px !important; h: #102030; i: inherit; }".to_string(),
        Origin::User,
    )
    .unwrap();
    let copy = sheet.clone();
    assert_eq!(copy, sheet);
    assert_eq!(copy.rules[0].clone(), sheet.rules[0]);
    assert_eq!(copy.rules[0].selectors[0].clone(), sheet.rules[0].selectors[0]);
    assert_eq!(copy.rules[0].declarations[1].clone(), sheet.rules[0].declarations[1]);
    assert_eq!(copy.rules[0].declarations[2].value.clone(), sheet.rules[0].declarations[2].value);
}
