use css_cascade::css::{parse, Color, Number, Origin, Selector, SimpleSelector, Stylesheet, Unit, Value};
use css_cascade::dom::{comment, elem, text, AttrsMap, ElementData, Node, NodeType};
use css_cascade::style::{
    apply_inheritance, apply_initial_values, cascade_declarations, get_initial_value,
    is_inherited_property, key_le, match_rule, matches_simple_selector, priority_rank,
    specified_values, style_tree, CascadeKey, CascadedDeclaration, Display, PropertyMap,
};

fn attrs(pairs: &[(&str, &str)]) -> AttrsMap {
    let mut map = AttrsMap::new();
    for (name, value) in pairs {
        map.insert(name.to_string(), value.to_string());
    }
    map
}

fn element(tag: &str, pairs: &[(&str, &str)]) -> ElementData {
    ElementData { tag_name: tag.to_string(), attrs: attrs(pairs) }
}

fn sheet(source: &str, origin: Origin) -> Stylesheet {
    parse(source.to_string(), origin).unwrap()
}

fn keyword(word: &str) -> Value {
    Value::Keyword(word.to_string())
}

fn get(values: &PropertyMap, name: &str) -> Option<Value> {
    values.get(name).cloned()
}

fn selector(tag: Option<&str>, id: Option<&str>, class: &[&str]) -> SimpleSelector {
    SimpleSelector {
        tag_name: tag.map(|t| t.to_string()),
        id: id.map(|i| i.to_string()),
        class: class.iter().map(|c| c.to_string()).collect(),
    }
}

#[test]
fn an_id_outranks_any_number_of_classes_and_a_tag() {
    let with_id = Selector::Simple(selector(None, Some("x"), &[]));
    let without = Selector::Simple(selector(Some("div"), None, &["a", "b", "c", "d", "e"]));
    assert_eq!(with_id.specificity(), (1, 0, 0));
    assert_eq!(without.specificity(), (0, 5, 1));
    assert!(with_id.specificity() > without.specificity());
}

#[test]
fn priority_ranks_are_the_six_point_scale() {
    assert_eq!(priority_rank(Origin::UserAgent, false), 0);
    assert_eq!(priority_rank(Origin::User, false), 1);
    assert_eq!(priority_rank(Origin::Author, false), 2);
    assert_eq!(priority_rank(Origin::UserAgent, true), 3);
    assert_eq!(priority_rank(Origin::User, true), 4);
    assert_eq!(priority_rank(Origin::Author, true), 5);
}

#[test]
fn author_beats_user_agent_unless_the_user_agent_is_important() {
    let p = element("p", &[]);
    let ua = sheet("p { color: black; }", Origin::UserAgent);
    let author = sheet("p { color: blue; }", Origin::Author);
    let values = specified_values(&p, &[ua, author]);
    assert_eq!(get(&values, "color"), Some(keyword("blue")));

    let ua = sheet("p { color: black !important; }", Origin::UserAgent);
    let author = sheet("p { color: blue; }", Origin::Author);
    let values = specified_values(&p, &[ua, author]);
    assert_eq!(get(&values, "color"), Some(keyword("black")));
}

#[test]
fn the_order_of_the_stylesheets_does_not_decide_between_origins() {
    let p = element("p", &[]);
    let ua = sheet("p { color: black; }", Origin::UserAgent);
    let author = sheet("p { color: blue; }", Origin::Author);
    let values = specified_values(&p, &[author, ua]);
    assert_eq!(get(&values, "color"), Some(keyword("blue")));
}

#[test]
fn compound_selector_matches_only_the_element_it_describes() {
    let s = selector(Some("div"), Some("main"), &["container"]);
    let yes = element("div", &[("id", "main"), ("class", "container")]);
    let extra = element("div", &[("id", "main"), ("class", "wide container dark")]);
    let wrong_tag = element("span", &[("id", "main"), ("class", "container")]);
    let wrong_id = element("div", &[("id", "main2"), ("class", "container")]);
    let no_id = element("div", &[("class", "container")]);
    let wrong_class = element("div", &[("id", "main"), ("class", "containers")]);
    let no_class = element("div", &[("id", "main")]);
    assert!(matches_simple_selector(&yes, &s));
    assert!(matches_simple_selector(&extra, &s));
    assert!(!matches_simple_selector(&wrong_tag, &s));
    assert!(!matches_simple_selector(&wrong_id, &s));
    assert!(!matches_simple_selector(&no_id, &s));
    assert!(!matches_simple_selector(&wrong_class, &s));
    assert!(!matches_simple_selector(&no_class, &s));
    assert!(css_cascade::style::matches(&yes, &Selector::Simple(s)));
}

#[test]
fn the_universal_selector_matches_everything() {
    let s = selector(None, None, &[]);
    assert!(matches_simple_selector(&element("p", &[]), &s));
    assert!(matches_simple_selector(&element("", &[("class", "x")]), &s));
}

#[test]
fn classes_are_the_pieces_between_spaces() {
    let e = element("p", &[("class", "a  b a")]);
    let mut classes = e.classes();
    classes.sort();
    assert_eq!(classes, vec!["".to_string(), "a".to_string(), "b".to_string()]);
    assert_eq!(element("p", &[]).classes(), Vec::<String>::new());
    assert_eq!(element("p", &[("class", "")]).classes(), vec![String::new()]);
    assert_eq!(e.id(), None);
    assert_eq!(element("p", &[("id", "x")]).id(), Some(&"x".to_string()));
}

#[test]
fn a_rule_applies_with_its_most_specific_matching_selector() {
    let s = sheet("p, .highlight, #other { color: red; }", Origin::Author);
    let rule = &s.rules[0];
    let both = element("p", &[("class", "highlight")]);
    let tag_only = element("p", &[]);
    let neither = element("div", &[]);
    assert_eq!(match_rule(&both, rule).map(|m| m.0), Some((0, 1, 0)));
    assert_eq!(match_rule(&tag_only, rule).map(|m| m.0), Some((0, 0, 1)));
    assert!(match_rule(&neither, rule).is_none());
}

#[test]
fn a_class_beats_a_tag() {
    let p = element("p", &[("class", "highlight")]);
    let s = sheet("p { color: black; } .highlight { color: green; }", Origin::Author);
    let values = specified_values(&p, &[s]);
    assert_eq!(get(&values, "color"), Some(keyword("green")));
    let s = sheet(".highlight { color: green; } p { color: black; }", Origin::Author);
    let values = specified_values(&p, &[s]);
    assert_eq!(get(&values, "color"), Some(keyword("green")));
}

#[test]
fn among_equal_specificity_the_later_rule_wins() {
    let p = element("p", &[]);
    let s = sheet("p { color: black; } p { color: green; }", Origin::Author);
    let values = specified_values(&p, &[s]);
    assert_eq!(get(&values, "color"), Some(keyword("green")));
}

#[test]
fn the_rule_index_counts_within_each_stylesheet() {
    let p = element("p", &[]);
    let first = sheet("a { } b { } p { color: one; }", Origin::Author);
    let second = sheet("p { color: two; }", Origin::Author);
    let values = specified_values(&p, &[first, second]);
    assert_eq!(get(&values, "color"), Some(keyword("one")));
}

#[test]
fn properties_are_decided_one_by_one() {
    let p = element("p", &[("class", "c")]);
    let s = sheet(
        "p { color: black; margin: 1px; } .c { color: green; } p { margin: 2px; display: block; }",
        Origin::Author,
    );
    let values = specified_values(&p, &[s]);
    assert_eq!(values.len(), 3);
    assert_eq!(get(&values, "color"), Some(keyword("green")));
    assert_eq!(
        get(&values, "margin"),
        Some(Value::Length(Number { integer: "2".to_string(), fraction: String::new() }, Unit::Px))
    );
    assert_eq!(get(&values, "display"), Some(keyword("block")));
    assert_eq!(get(&values, "padding"), None);
}

#[test]
fn an_important_inline_declaration_beats_an_author_rule() {
    let p = element("p", &[("style", "color: red !important;")]);
    let s = sheet("p { color: blue; }", Origin::Author);
    let values = specified_values(&p, &[s]);
    assert_eq!(get(&values, "color"), Some(keyword("red")));
}

#[test]
fn an_inline_declaration_beats_author_rules_of_its_importance() {
    let s = sheet("p#x.a.b { color: blue; }", Origin::Author);
    let p = element("p", &[("id", "x"), ("class", "a b"), ("style", "color: red;")]);
    assert_eq!(get(&specified_values(&p, &[s]), "color"), Some(keyword("red")));

    let s = sheet("p#x.a.b { color: blue !important; }", Origin::Author);
    let p = element("p", &[("id", "x"), ("class", "a b"), ("style", "color: red !important;")]);
    assert_eq!(get(&specified_values(&p, &[s]), "color"), Some(keyword("red")));
}

#[test]
fn a_normal_inline_declaration_yields_to_important_rules() {
    let p = element("p", &[("style", "color: red;")]);
    for origin in [Origin::UserAgent, Origin::User, Origin::Author] {
        let s = sheet("p { color: blue !important; }", origin);
        assert_eq!(get(&specified_values(&p, &[s]), "color"), Some(keyword("blue")));
    }
}

#[test]
fn a_style_attribute_without_its_semicolon_is_malformed() {
    let p = element("p", &[("style", "color: red !important")]);
    let s = sheet("p { color: blue; }", Origin::Author);
    let values = specified_values(&p, &[s]);
    assert_eq!(get(&values, "color"), Some(keyword("blue")));
}

#[test]
fn a_malformed_style_attribute_leaves_rules_and_inheritance_alone() {
    let s = sheet("p { margin: 4px; } div { color: #102030; }", Origin::Author);
    let child = elem("p".to_string(), attrs(&[("style", "margin 9px")]), vec![]);
    let root = elem("div".to_string(), attrs(&[]), vec![child]);
    let sheets = [s];
    let tree = style_tree(&root, &sheets);
    let p = &tree.children[0];
    assert_eq!(
        p.value("margin"),
        Some(Value::Length(Number { integer: "4".to_string(), fraction: String::new() }, Unit::Px))
    );
    assert_eq!(p.value("color"), Some(Value::ColorValue(Color { r: 16, g: 32, b: 48, a: 255 })));
}

#[test]
fn color_is_inherited_through_elements_that_do_not_set_it() {
    let s = sheet("div { color: #0000ff; background: red; }", Origin::Author);
    let leaf = elem("span".to_string(), attrs(&[]), vec![text("hi".to_string())]);
    let middle = elem("p".to_string(), attrs(&[]), vec![leaf]);
    let root = elem("div".to_string(), attrs(&[]), vec![middle]);
    let sheets = [s];
    let tree = style_tree(&root, &sheets);
    let blue = Some(Value::ColorValue(Color { r: 0, g: 0, b: 255, a: 255 }));
    assert_eq!(tree.value("color"), blue);
    assert_eq!(tree.children[0].value("color"), blue);
    assert_eq!(tree.children[0].children[0].value("color"), blue);
    assert_eq!(tree.children[0].children[0].children[0].value("color"), blue);
    assert_eq!(tree.value("background"), Some(keyword("red")));
    assert_eq!(tree.children[0].value("background"), None);
}

#[test]
fn explicit_inherit_takes_the_parents_value() {
    let s = sheet(
        "div { color: #0000ff; border: thin; } p { color: green; border: inherit; } #x { color: inherit; }",
        Origin::Author,
    );
    let child = elem("p".to_string(), attrs(&[("id", "x")]), vec![]);
    let root = elem("div".to_string(), attrs(&[]), vec![child]);
    let sheets = [s];
    let tree = style_tree(&root, &sheets);
    let p = &tree.children[0];
    assert_eq!(p.value("color"), Some(Value::ColorValue(Color { r: 0, g: 0, b: 255, a: 255 })));
    assert_eq!(p.value("border"), Some(keyword("thin")));
}

#[test]
fn an_unmatched_element_still_has_its_initial_values() {
    let root = elem("section".to_string(), attrs(&[]), vec![]);
    let sheets = [sheet("p { display: block; }", Origin::Author)];
    let tree = style_tree(&root, &sheets);
    assert_eq!(tree.value("display"), Some(keyword("inline")));
    assert_eq!(tree.value("color"), Some(Value::ColorValue(Color { r: 0, g: 0, b: 0, a: 255 })));
    assert_eq!(
        tree.value("font-size"),
        Some(Value::Length(Number { integer: "16".to_string(), fraction: String::new() }, Unit::Px))
    );
    assert_eq!(tree.specified_values.len(), 3);
    assert_eq!(tree.display(), Display::Inline);
}

#[test]
fn text_and_comments_have_only_what_they_inherit() {
    let s = sheet("div { color: #010203; display: block; margin: 3px; }", Origin::Author);
    let root = elem(
        "div".to_string(),
        attrs(&[]),
        vec![text("t".to_string()), comment("c".to_string())],
    );
    let sheets = [s];
    let tree = style_tree(&root, &sheets);
    for child in &tree.children {
        assert_eq!(child.value("color"), Some(Value::ColorValue(Color { r: 1, g: 2, b: 3, a: 255 })));
        assert_eq!(child.value("display"), None);
        assert_eq!(child.value("margin"), None);
        assert_eq!(child.specified_values.len(), 2);
        assert_eq!(child.display(), Display::Inline);
    }
    let alone = text("t".to_string());
    let tree = style_tree(&alone, &sheets);
    assert_eq!(tree.specified_values.len(), 0);
}

#[test]
fn the_styled_tree_has_the_shape_of_the_document() {
    let root = elem(
        "div".to_string(),
        attrs(&[]),
        vec![
            elem("p".to_string(), attrs(&[]), vec![text("a".to_string()), text("b".to_string())]),
            comment("c".to_string()),
            elem("span".to_string(), attrs(&[]), vec![]),
        ],
    );
    let sheets: [Stylesheet; 0] = [];
    let tree = style_tree(&root, &sheets);
    fn same_shape(styled: &css_cascade::style::StyledNode, node: &Node) -> bool {
        std::ptr::eq(styled.node, node)
            && styled.children.len() == node.children.len()
            && styled.children.iter().zip(node.children.iter()).all(|(s, n)| same_shape(s, n))
    }
    assert!(same_shape(&tree, &root));
    assert!(matches!(tree.children[1].node.node_type, NodeType::Comment(_)));
}

#[test]
fn display_reads_the_keyword() {
    let sheets = [sheet(
        "div { display: block; } head { display: none; } b { display: flex; } i { display: 3px; }",
        Origin::Author,
    )];
    for (tag, expected) in [
        ("div", Display::Block),
        ("head", Display::NotDisplayed),
        ("b", Display::Inline),
        ("i", Display::Inline),
        ("u", Display::Inline),
    ] {
        let node = elem(tag.to_string(), attrs(&[]), vec![]);
        assert_eq!(style_tree(&node, &sheets).display(), expected);
    }
}

#[test]
fn lookup_falls_back_in_order() {
    let sheets = [sheet("p { margin: 1px; margin-left: 2px; }", Origin::Author)];
    let node = elem("p".to_string(), attrs(&[]), vec![]);
    let tree = style_tree(&node, &sheets);
    let px = |n: &str| Value::Length(Number { integer: n.to_string(), fraction: String::new() }, Unit::Px);
    let zero = px("0");
    assert_eq!(tree.lookup("margin-left", "margin", &zero), px("2"));
    assert_eq!(tree.lookup("margin-right", "margin", &zero), px("1"));
    assert_eq!(tree.lookup("padding-left", "padding", &zero), px("0"));
}

#[test]
fn the_inherited_properties_are_the_thirteen() {
    for name in [
        "color", "font-family", "font-size", "font-style", "font-weight", "line-height",
        "text-align", "text-decoration", "text-indent", "visibility", "white-space",
        "word-spacing", "letter-spacing",
    ] {
        assert!(is_inherited_property(name), "{}", name);
    }
    for name in ["display", "margin", "background", "", "Color", "colors"] {
        assert!(!is_inherited_property(name), "{}", name);
    }
}

#[test]
fn initial_values_are_as_tabled() {
    assert_eq!(get_initial_value("display"), keyword("inline"));
    assert_eq!(get_initial_value("color"), Value::ColorValue(Color { r: 0, g: 0, b: 0, a: 255 }));
    assert_eq!(
        get_initial_value("font-size"),
        Value::Length(Number { integer: "16".to_string(), fraction: String::new() }, Unit::Px)
    );
    assert_eq!(get_initial_value("font-weight"), keyword("normal"));
    assert_eq!(get_initial_value("font-style"), keyword("normal"));
    assert_eq!(get_initial_value("text-align"), keyword("left"));
    assert_eq!(get_initial_value("text-decoration"), keyword("none"));
    assert_eq!(get_initial_value("visibility"), keyword("visible"));
    assert_eq!(get_initial_value("white-space"), keyword("normal"));
    assert_eq!(get_initial_value("margin"), keyword("initial"));
}

#[test]
fn inheritance_copies_exactly_what_is_inherited() {
    let mut parent = PropertyMap::new();
    parent.insert("color".to_string(), keyword("red"));
    parent.insert("margin".to_string(), keyword("wide"));
    parent.insert("border".to_string(), keyword("thin"));
    parent.insert("font-size".to_string(), keyword("big"));
    let mut own = PropertyMap::new();
    own.insert("border".to_string(), Value::Inherit);
    own.insert("font-size".to_string(), keyword("small"));
    own.insert("padding".to_string(), Value::Inherit);
    apply_inheritance(&mut own, Some(&parent));
    assert_eq!(own.len(), 4);
    assert_eq!(get(&own, "color"), Some(keyword("red")));
    assert_eq!(get(&own, "margin"), None);
    assert_eq!(get(&own, "border"), Some(keyword("thin")));
    assert_eq!(get(&own, "font-size"), Some(keyword("small")));
    assert_eq!(get(&own, "padding"), Some(Value::Inherit));

    let mut alone = PropertyMap::new();
    alone.insert("color".to_string(), Value::Inherit);
    apply_inheritance(&mut alone, None);
    assert_eq!(get(&alone, "color"), Some(Value::Inherit));
    apply_initial_values(&mut alone);
    assert_eq!(alone.len(), 3);
    assert_eq!(get(&alone, "color"), Some(Value::Inherit));
    assert_eq!(get(&alone, "display"), Some(keyword("inline")));
}

#[test]
fn keys_are_ordered_rank_then_inline_then_specificity_then_index() {
    let key = |rank, inline, specificity, rule_index| CascadeKey { rank, inline, specificity, rule_index };
    let ordered = [
        key(0, false, (1, 9, 1), 9),
        key(2, false, (0, 0, 1), 5),
        key(2, false, (0, 1, 0), 0),
        key(2, false, (0, 1, 0), 1),
        key(2, false, (0, 1, 1), 0),
        key(2, false, (1, 0, 0), 0),
        key(2, true, (0, 0, 0), 0),
        key(3, false, (0, 0, 0), 0),
        key(5, false, (1, 7, 1), 3),
        key(5, true, (0, 0, 0), 0),
    ];
    for i in 0..ordered.len() {
        for j in 0..ordered.len() {
            assert_eq!(key_le(&ordered[i], &ordered[j]), i <= j, "{} {}", i, j);
        }
    }
}

#[test]
fn the_last_of_equal_candidates_wins() {
    let s = sheet("p { color: a; color: b; margin: c; }", Origin::Author);
    let declarations = &s.rules[0].declarations;
    let key = CascadeKey { rank: 2, inline: false, specificity: (0, 0, 1), rule_index: 0 };
    let low = CascadeKey { rank: 1, inline: false, specificity: (1, 1, 1), rule_index: 7 };
    let candidates = vec![
        CascadedDeclaration { declaration: &declarations[0], cascade_key: key },
        CascadedDeclaration { declaration: &declarations[1], cascade_key: key },
        CascadedDeclaration { declaration: &declarations[2], cascade_key: key },
        CascadedDeclaration { declaration: &declarations[0], cascade_key: low },
    ];
    let values = cascade_declarations(&candidates);
    assert_eq!(values.len(), 2);
    assert_eq!(get(&values, "color"), Some(keyword("b")));
    assert_eq!(get(&values, "margin"), Some(keyword("c")));
    assert_eq!(cascade_declarations(&vec![]).len(), 0);
}
