use css_cascade::css::{
    default_user_agent_stylesheet, parse, Color, Declaration, Number, Origin, Selector,
    SimpleSelector, Unit, Value,
};
use css_cascade::parser::{ParseError, Parser};
use css_cascade::syntax::parse_style_attribute;

fn simple(tag: Option<&str>, id: Option<&str>, class: &[&str]) -> Selector {
    Selector::Simple(SimpleSelector {
        tag_name: tag.map(|t| t.to_string()),
        id: id.map(|i| i.to_string()),
        class: class.iter().map(|c| c.to_string()).collect(),
    })
}

fn keyword(name: &str, word: &str, important: bool) -> Declaration {
    Declaration { name: name.to_string(), value: Value::Keyword(word.to_string()), important }
}

#[test]
fn parses_a_rule_with_each_kind_of_value() {
    let sheet = parse(
        "div.note#main { color: #ff0080; margin: 12.5px; display: block; font: inherit; }"
            .to_string(),
        Origin::Author,
    )
    .unwrap();
    assert_eq!(sheet.origin, Origin::Author);
    assert_eq!(sheet.rules.len(), 1);
    let rule = &sheet.rules[0];
    assert_eq!(rule.selectors, vec![simple(Some("div"), Some("main"), &["note"])]);
    assert_eq!(
        rule.declarations,
        vec![
            Declaration {
                name: "color".to_string(),
                value: Value::ColorValue(Color { r: 255, g: 0, b: 128, a: 255 }),
                important: false,
            },
            Declaration {
                name: "margin".to_string(),
                value: Value::Length(
                    Number { integer: "12".to_string(), fraction: "5".to_string() },
                    Unit::Px,
                ),
                important: false,
            },
            keyword("display", "block", false),
            Declaration { name: "font".to_string(), value: Value::Inherit, important: false },
        ]
    );
}

#[test]
fn selectors_are_sorted_by_descending_specificity() {
    let sheet = parse("p, .a.b, #x, div.c, * { }".to_string(), Origin::User).unwrap();
    assert_eq!(
        sheet.rules[0].selectors,
        vec![
            simple(None, Some("x"), &[]),
            simple(None, None, &["a", "b"]),
            simple(Some("div"), None, &["c"]),
            simple(Some("p"), None, &[]),
            simple(None, None, &[]),
        ]
    );
}

#[test]
fn equally_specific_selectors_keep_their_order() {
    let sheet = parse("b, a, .y, .x { }".to_string(), Origin::User).unwrap();
    assert_eq!(
        sheet.rules[0].selectors,
        vec![
            simple(None, None, &["y"]),
            simple(None, None, &["x"]),
            simple(Some("b"), None, &[]),
            simple(Some("a"), None, &[]),
        ]
    );
}

#[test]
fn important_is_read_with_and_without_space() {
    let sheet = parse(
        "a { color: red !important; display: none!important ; margin: 1px; }".to_string(),
        Origin::Author,
    )
    .unwrap();
    let flags: Vec<bool> = sheet.rules[0].declarations.iter().map(|d| d.important).collect();
    assert_eq!(flags, vec![true, true, false]);
}

#[test]
fn important_must_match_completely_and_in_lower_case() {
    assert_eq!(
        parse("a { color: red !IMPORTANT; }".to_string(), Origin::Author),
        Err(ParseError::Syntax { offset: 15 })
    );
    assert_eq!(
        parse("a { color: red !importan; }".to_string(), Origin::Author),
        Err(ParseError::Syntax { offset: 15 })
    );
}

#[test]
fn px_is_recognised_in_any_case() {
    for unit in ["px", "PX", "Px", "pX"] {
        let sheet = parse(format!("a {{ width: 9{}; }}", unit), Origin::Author).unwrap();
        assert_eq!(
            sheet.rules[0].declarations[0].value,
            Value::Length(Number { integer: "9".to_string(), fraction: String::new() }, Unit::Px)
        );
    }
}

#[test]
fn other_units_are_unsupported() {
    assert_eq!(
        parse("a { width: 10em; }".to_string(), Origin::Author),
        Err(ParseError::UnsupportedUnit { offset: 13 })
    );
    assert_eq!(
        parse("a { width: 10; }".to_string(), Origin::Author),
        Err(ParseError::UnsupportedUnit { offset: 13 })
    );
    assert_eq!(
        parse("a { width: 50%; }".to_string(), Origin::Author),
        Err(ParseError::UnsupportedUnit { offset: 13 })
    );
}

#[test]
fn a_second_decimal_point_is_a_syntax_error() {
    assert_eq!(
        parse("a { width: 1.2.3px; }".to_string(), Origin::Author),
        Err(ParseError::Syntax { offset: 14 })
    );
    assert_eq!(
        parse("a { width: 1..3px; }".to_string(), Origin::Author),
        Err(ParseError::Syntax { offset: 13 })
    );
}

#[test]
fn a_number_may_end_in_its_decimal_point() {
    let sheet = parse("a { width: 7.px; }".to_string(), Origin::Author).unwrap();
    assert_eq!(
        sheet.rules[0].declarations[0].value,
        Value::Length(Number { integer: "7".to_string(), fraction: String::new() }, Unit::Px)
    );
}

#[test]
fn short_or_malformed_colors_are_syntax_errors() {
    assert_eq!(
        parse("a { color: #ff00; }".to_string(), Origin::Author),
        Err(ParseError::Syntax { offset: 16 })
    );
    assert_eq!(
        parse("a { color: #ff00g0; }".to_string(), Origin::Author),
        Err(ParseError::Syntax { offset: 16 })
    );
    assert_eq!(
        parse("a { color: #abcde".to_string(), Origin::Author),
        Err(ParseError::Syntax { offset: 17 })
    );
    assert_eq!(
        parse("a { color: #".to_string(), Origin::Author),
        Err(ParseError::Syntax { offset: 12 })
    );
}

#[test]
fn hex_digits_are_read_in_both_cases() {
    let sheet = parse("a { color: #AbCdEf; }".to_string(), Origin::Author).unwrap();
    assert_eq!(
        sheet.rules[0].declarations[0].value,
        Value::ColorValue(Color { r: 0xab, g: 0xcd, b: 0xef, a: 255 })
    );
}

#[test]
fn missing_delimiters_are_syntax_errors_at_their_place() {
    assert_eq!(
        parse("a { color red; }".to_string(), Origin::Author),
        Err(ParseError::Syntax { offset: 10 })
    );
    assert_eq!(
        parse("a { color: red }".to_string(), Origin::Author),
        Err(ParseError::Syntax { offset: 15 })
    );
    assert_eq!(
        parse("a { color: red;".to_string(), Origin::Author),
        Err(ParseError::Syntax { offset: 15 })
    );
    assert_eq!(parse("a b { }".to_string(), Origin::Author), Err(ParseError::Syntax { offset: 2 }));
    assert_eq!(parse("a".to_string(), Origin::Author), Err(ParseError::Syntax { offset: 1 }));
    assert_eq!(parse("a { color:".to_string(), Origin::Author), Err(ParseError::Syntax { offset: 10 }));
}

#[test]
fn no_part_of_a_malformed_stylesheet_is_returned() {
    let r = parse("a { color: red; } b { color }".to_string(), Origin::Author);
    assert_eq!(r, Err(ParseError::Syntax { offset: 28 }));
}

#[test]
fn offsets_count_characters() {
    assert_eq!(
        parse("é { color: réd; }".to_string(), Origin::Author),
        Err(ParseError::Syntax { offset: 0 })
    );
    assert_eq!(
        parse("a { color: r\u{e9}d; }".to_string(), Origin::Author),
        Err(ParseError::Syntax { offset: 12 })
    );
}

#[test]
fn empty_and_blank_texts_hold_no_rules() {
    assert_eq!(parse(String::new(), Origin::Author).unwrap().rules.len(), 0);
    assert_eq!(parse(" \n\t ".to_string(), Origin::Author).unwrap().rules.len(), 0);
    let sheet = parse("\n a { } \n\n b { }\n".to_string(), Origin::Author).unwrap();
    assert_eq!(sheet.rules.len(), 2);
}

#[test]
fn a_later_id_or_tag_replaces_an_earlier_one() {
    let sheet = parse("a#x#y*b.c { }".to_string(), Origin::Author).unwrap();
    assert_eq!(sheet.rules[0].selectors, vec![simple(Some("b"), Some("y"), &["c"])]);
}

#[test]
fn the_user_agent_stylesheet_has_its_five_rules() {
    let sheet = default_user_agent_stylesheet();
    assert_eq!(sheet.origin, Origin::UserAgent);
    assert_eq!(sheet.rules.len(), 5);
    let counts: Vec<usize> = sheet.rules.iter().map(|r| r.selectors.len()).collect();
    assert_eq!(counts, vec![2, 1, 8, 4, 2]);
    assert_eq!(sheet.rules[0].declarations, vec![keyword("display", "block", false)]);
    assert_eq!(sheet.rules[1].declarations, vec![keyword("display", "none", false)]);
    assert_eq!(sheet.rules[3].declarations, vec![keyword("display", "inline", false)]);
    assert_eq!(sheet.rules[3].selectors[0], simple(Some("span"), None, &[]));
}

#[test]
fn style_attributes_are_lists_of_declarations() {
    assert_eq!(
        parse_style_attribute("color: red; display: none !important;"),
        Some(vec![keyword("color", "red", false), keyword("display", "none", true)])
    );
    assert_eq!(parse_style_attribute(""), Some(vec![]));
    assert_eq!(parse_style_attribute("  "), Some(vec![]));
}

#[test]
fn malformed_style_attributes_give_none() {
    assert_eq!(parse_style_attribute("color: red"), None);
    assert_eq!(parse_style_attribute("color red;"), None);
    assert_eq!(parse_style_attribute("color: red; } p { color: blue;"), None);
    assert_eq!(parse_style_attribute("width: 3em;"), None);
    assert_eq!(parse_style_attribute("}"), None);
}

#[test]
fn cursor_primitives_move_as_they_say() {
    let mut p = Parser::new("ab  cd");
    assert!(!p.eof());
    assert_eq!(p.next_char(), 'a');
    assert_eq!(p.consume_char(), 'a');
    assert_eq!(p.parse_identifier(), "b".to_string());
    p.consume_whitespace();
    assert_eq!(p.pos, 4);
    assert!(p.starts_with("cd"));
    assert!(!p.starts_with("cde"));
    assert_eq!(p.expect_char('x'), Err(ParseError::Syntax { offset: 4 }));
    assert_eq!(p.pos, 4);
    assert_eq!(p.expect("cd"), Ok(()));
    assert!(p.eof());
    assert_eq!(p.expect("z"), Err(ParseError::Syntax { offset: 6 }));
}
