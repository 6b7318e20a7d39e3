//! What holds of the cascade whatever the document and the stylesheets
//! are.

use vstd::prelude::*;
use crate::css::{triple_lt, Origin, SelectorView, SimpleSelectorView, StylesheetView, ValueView};
use crate::dom::{split_on, ElementView, Node, NodeType};
use crate::parser::{lemma_scan, scan, spec_is_digit, CharClass};
use crate::style::{
    candidates, cascade, first_match, inline_candidates, inline_declarations, inline_key,
    is_style_tree, lemma_winner_is_candidate, node_values, rule_key, sheets_candidates,
    spec_apply_inheritance, spec_apply_initial_values, spec_is_inherited_property, spec_key_le,
    spec_matches, spec_matches_simple_selector, spec_priority_rank, spec_specified_values, winner,
    Candidate, CascadeKey, StyledNode,
};
use crate::syntax::{
    insert_by_specificity, lemma_parse_rule_bounds, sort_by_specificity, spec_parse_rule,
    spec_parse_number, spec_parse_rules, spec_parse_selector_list, spec_parse_style_attribute,
};

verus! {

/// A selector with an id is more specific than any selector without one,
/// however many classes the other has and whether or not it has a tag
/// name.
pub proof fn lemma_id_outranks(with_id: SelectorView, without_id: SelectorView)
    requires
        with_id->Simple_0.id is Some,
        without_id->Simple_0.id is None,
    ensures
        triple_lt(without_id.specificity(), with_id.specificity()),
{
}

/// A selector with a tag name, an id and a class matches exactly the
/// elements with that tag name and that id that have that class among
/// their classes.
pub proof fn lemma_compound_selector_matches(
    elem: ElementView,
    tag: Seq<char>,
    id: Seq<char>,
    class: Seq<char>,
)
    ensures
        spec_matches_simple_selector(
            elem,
            SimpleSelectorView { tag_name: Some(tag), id: Some(id), class: seq![class] },
        ) <==> elem.tag_name == tag && elem.id() == Some(id) && elem.classes().contains(class),
{
    let selector = SimpleSelectorView { tag_name: Some(tag), id: Some(id), class: seq![class] };
    assert(selector.class[0] == class);
}

/// A selector with a tag name matches no element with another tag name.
pub proof fn lemma_other_tag_never_matches(elem: ElementView, selector: SimpleSelectorView)
    requires
        selector.tag_name is Some,
        selector.tag_name != Some(elem.tag_name),
    ensures
        !spec_matches_simple_selector(elem, selector),
{
}

/// Among declarations of one rank, one of a rule that applies through a
/// class alone comes after one of a rule that applies through a tag name
/// alone, wherever the two rules stand.
pub proof fn lemma_class_outranks_tag(
    origin: Origin,
    important: bool,
    class_rule: int,
    tag_rule: int,
)
    requires
        0 <= class_rule <= usize::MAX,
        0 <= tag_rule <= usize::MAX,
    ensures
        spec_key_le(
            rule_key(origin, important, (0, 0, 1), tag_rule),
            rule_key(origin, important, (0, 1, 0), class_rule),
        ),
        !spec_key_le(
            rule_key(origin, important, (0, 1, 0), class_rule),
            rule_key(origin, important, (0, 0, 1), tag_rule),
        ),
{
}

/// The order of keys is total: of two keys one comes before the other,
/// or they are equal.
pub proof fn lemma_key_order_total(a: CascadeKey, b: CascadeKey)
    ensures
        spec_key_le(a, b) || spec_key_le(b, a),
        spec_key_le(a, b) && spec_key_le(b, a) ==> a == b,
        spec_key_le(a, a),
{
}

/// The order of keys is transitive.
pub proof fn lemma_key_order_transitive(a: CascadeKey, b: CascadeKey, c: CascadeKey)
    requires
        spec_key_le(a, b),
        spec_key_le(b, c),
    ensures
        spec_key_le(a, c),
{
}

/// Candidate `i` prevails: no candidate for the same property has a
/// greater key, and none with an equal key comes after it.
pub open spec fn prevails(candidates: Seq<Candidate>, i: int) -> bool {
    &&& 0 <= i < candidates.len()
    &&& forall|j: int|
        0 <= j < candidates.len() && (#[trigger] candidates[j]).name == candidates[i].name ==> {
            &&& spec_key_le(candidates[j].key, candidates[i].key)
            &&& candidates[j].key == candidates[i].key ==> j <= i
        }
}

/// The winner for a property is the candidate for it that prevails, and
/// there is a winner as soon as there is a candidate.
pub proof fn lemma_winner_prevails(candidates: Seq<Candidate>, name: Seq<char>)
    ensures
        match winner(candidates, name) {
            Some(i) => prevails(candidates, i) && candidates[i].name == name,
            None => forall|j: int| 0 <= j < candidates.len() ==> candidates[j].name != name,
        },
    decreases candidates.len(),
{
    lemma_winner_is_candidate(candidates, name);
    if candidates.len() > 0 {
        let before = candidates.drop_last();
        let last = candidates.len() - 1;
        lemma_winner_prevails(before, name);
        lemma_winner_is_candidate(before, name);
        match winner(candidates, name) {
            Some(i) => {
                assert forall|j: int|
                    0 <= j < candidates.len() && (#[trigger] candidates[j]).name
                        == candidates[i].name implies {
                    &&& spec_key_le(candidates[j].key, candidates[i].key)
                    &&& candidates[j].key == candidates[i].key ==> j <= i
                } by {
                    lemma_key_order_total(candidates[j].key, candidates[i].key);
                    if j < last {
                        assert(before[j] == candidates[j]);
                        match winner(before, name) {
                            Some(w) => {
                                assert(before[w] == candidates[w]);
                                if i == last {
                                    lemma_key_order_transitive(
                                        candidates[j].key,
                                        candidates[w].key,
                                        candidates[i].key,
                                    );
                                }
                            },
                            None => {},
                        }
                    } else if i < last {
                        assert(before[i] == candidates[i]);
                    }
                }
            },
            None => {},
        }
    }
}

/// Only one candidate for a property prevails, so the candidate that
/// prevails is the winner.
pub proof fn lemma_prevailing_wins(candidates: Seq<Candidate>, i: int)
    requires
        prevails(candidates, i),
    ensures
        winner(candidates, candidates[i].name) == Some(i),
        cascade(candidates).contains_key(candidates[i].name),
        cascade(candidates)[candidates[i].name] == candidates[i].value,
{
    let name = candidates[i].name;
    lemma_winner_prevails(candidates, name);
    let w = winner(candidates, name).unwrap();
    lemma_key_order_total(candidates[i].key, candidates[w].key);
}

/// The cascade gives a value to exactly the properties that have a
/// candidate, and the value is that of a candidate for the property.
pub proof fn lemma_cascade_domain(candidates: Seq<Candidate>, name: Seq<char>)
    ensures
        cascade(candidates).contains_key(name) <==> exists|j: int|
            0 <= j < candidates.len() && (#[trigger] candidates[j]).name == name,
{
    lemma_winner_prevails(candidates, name);
    if let Some(i) = winner(candidates, name) {
        assert(candidates[i].name == name);
    }
}

/// Between a declaration of the user agent and one of the author for the
/// same property, with no other candidate for it: the author's wins
/// where neither is important, and the user agent's wins where it is
/// important and the author's is not.
pub proof fn lemma_author_and_user_agent(
    candidates: Seq<Candidate>,
    user_agent: int,
    author: int,
    user_agent_important: bool,
)
    requires
        0 <= user_agent < candidates.len(),
        0 <= author < candidates.len(),
        candidates[user_agent].name == candidates[author].name,
        forall|j: int|
            0 <= j < candidates.len() && (#[trigger] candidates[j]).name
                == candidates[author].name ==> j == user_agent || j == author,
        candidates[user_agent].key.rank == spec_priority_rank(
            Origin::UserAgent,
            user_agent_important,
        ),
        candidates[author].key.rank == spec_priority_rank(Origin::Author, false),
    ensures
        cascade(candidates).contains_key(candidates[author].name),
        cascade(candidates)[candidates[author].name] == if user_agent_important {
            candidates[user_agent].value
        } else {
            candidates[author].value
        },
{
    if user_agent_important {
        assert(prevails(candidates, user_agent));
        lemma_prevailing_wins(candidates, user_agent);
    } else {
        assert(prevails(candidates, author));
        lemma_prevailing_wins(candidates, author);
    }
}

/// Where the key of a declaration of the `style` attribute stands: after
/// the key of every declaration of a rule that is no more important than
/// it, and, if it is not important itself, before the key of every
/// important declaration of a rule.
pub proof fn lemma_inline_key_placement(
    origin: Origin,
    important: bool,
    specificity: (nat, nat, nat),
    rule_index: int,
    inline_important: bool,
)
    ensures
        (inline_important || !important) ==> {
            &&& spec_key_le(
                rule_key(origin, important, specificity, rule_index),
                inline_key(inline_important),
            )
            &&& !spec_key_le(
                inline_key(inline_important),
                rule_key(origin, important, specificity, rule_index),
            )
        },
        (!inline_important && important) ==> {
            &&& spec_key_le(
                inline_key(inline_important),
                rule_key(origin, important, specificity, rule_index),
            )
            &&& !spec_key_le(
                rule_key(origin, important, specificity, rule_index),
                inline_key(inline_important),
            )
        },
{
}

/// An element whose `style` attribute is malformed has the values that
/// the rules of the stylesheets give it, as if it had no such attribute.
pub proof fn lemma_malformed_style_gives_nothing(elem: ElementView, sheets: Seq<StylesheetView>)
    requires
        elem.attrs.contains_key("style"@),
        spec_parse_style_attribute(elem.attrs["style"@]) is None,
    ensures
        spec_specified_values(elem, sheets) == cascade(
            sheets_candidates(elem, sheets, sheets.len() as int),
        ),
{
    assert(inline_candidates(inline_declarations(elem)) =~= Seq::<Candidate>::empty());
    assert(candidates(elem, sheets) =~= sheets_candidates(elem, sheets, sheets.len() as int));
}

/// A node takes its parent's value for a property that it inherits: one
/// for which it specifies `inherit`, or one that is inherited by default
/// and for which it specifies nothing.
pub proof fn lemma_inherited_value(
    own: Map<Seq<char>, ValueView>,
    parent: Map<Seq<char>, ValueView>,
    property: Seq<char>,
)
    requires
        parent.contains_key(property),
        (own.contains_key(property) && own[property] == ValueView::Inherit) || (!own.contains_key(
            property,
        ) && spec_is_inherited_property(property)),
    ensures
        spec_apply_inheritance(own, Some(parent)).contains_key(property),
        spec_apply_inheritance(own, Some(parent))[property] == parent[property],
        spec_apply_initial_values(spec_apply_inheritance(own, Some(parent)))[property]
            == parent[property],
{
}

/// In a styled tree, a child that is an element has its parent's color
/// if nothing specifies a color for it, and also if `color: inherit` is
/// what is specified for it.
pub proof fn lemma_color_is_inherited(
    styled: StyledNode,
    node: Node,
    sheets: Seq<StylesheetView>,
    parent: Option<Map<Seq<char>, ValueView>>,
    i: int,
)
    requires
        is_style_tree(styled, node, sheets, parent),
        0 <= i < node.children.len(),
        styled.specified_values@.contains_key("color"@),
        node.children[i].node_type matches NodeType::Element(elem) && ({
            let specified = spec_specified_values(elem@, sheets);
            !specified.contains_key("color"@) || specified["color"@] == ValueView::Inherit
        }),
    ensures
        styled.children[i].specified_values@.contains_key("color"@),
        styled.children[i].specified_values@["color"@] == styled.specified_values@["color"@],
{
    let child = styled.children[i];
    assert(is_style_tree(child, node.children[i], sheets, Some(styled.specified_values@)));
    if let NodeType::Element(elem) = node.children[i].node_type {
        lemma_inherited_value(
            spec_specified_values(elem@, sheets),
            styled.specified_values@,
            "color"@,
        );
    }
}

/// In a styled tree, a child that is a text or a comment has its
/// parent's color.
pub proof fn lemma_color_reaches_text(
    styled: StyledNode,
    node: Node,
    sheets: Seq<StylesheetView>,
    parent: Option<Map<Seq<char>, ValueView>>,
    i: int,
)
    requires
        is_style_tree(styled, node, sheets, parent),
        0 <= i < node.children.len(),
        styled.specified_values@.contains_key("color"@),
        !(node.children[i].node_type is Element),
    ensures
        styled.children[i].specified_values@.contains_key("color"@),
        styled.children[i].specified_values@["color"@] == styled.specified_values@["color"@],
{
    let child = styled.children[i];
    assert(is_style_tree(child, node.children[i], sheets, Some(styled.specified_values@)));
}

/// An element always has a value for `display`, for `color` and for
/// `font-size`. Where nothing specifies its `display`, it is `inline`.
pub proof fn lemma_element_has_its_initial_values(
    node: Node,
    sheets: Seq<StylesheetView>,
    parent: Option<Map<Seq<char>, ValueView>>,
)
    requires
        node.node_type is Element,
    ensures
        node_values(node, sheets, parent).contains_key("display"@),
        node_values(node, sheets, parent).contains_key("color"@),
        node_values(node, sheets, parent).contains_key("font-size"@),
        !spec_specified_values(node.node_type->Element_0@, sheets).contains_key("display"@)
            ==> node_values(node, sheets, parent)["display"@] == ValueView::Keyword("inline"@),
{
    reveal_strlit("display");
    reveal_strlit("color");
    reveal_strlit("font-family");
    reveal_strlit("font-size");
    reveal_strlit("font-style");
    reveal_strlit("font-weight");
    reveal_strlit("line-height");
    reveal_strlit("text-align");
    reveal_strlit("text-decoration");
    reveal_strlit("text-indent");
    reveal_strlit("visibility");
    reveal_strlit("white-space");
    reveal_strlit("word-spacing");
    reveal_strlit("letter-spacing");
    assert(!spec_is_inherited_property("display"@)) by {
        assert("display"@[0] == 'd');
        assert("display"@.len() == 7);
        assert("color"@.len() == 5);
        assert("font-family"@.len() == 11);
        assert("font-size"@.len() == 9);
        assert("font-style"@.len() == 10);
        assert("font-weight"@.len() == 11);
        assert("line-height"@.len() == 11);
        assert("text-align"@.len() == 10);
        assert("text-decoration"@.len() == 15);
        assert("text-indent"@.len() == 11);
        assert("visibility"@.len() == 10);
        assert("white-space"@.len() == 11);
        assert("word-spacing"@.len() == 12);
        assert("letter-spacing"@.len() == 14);
    }
}

/// The selectors stand in the order of descending specificity.
pub open spec fn descending(selectors: Seq<SelectorView>) -> bool {
    forall|i: int, j: int|
        0 <= i < j < selectors.len() ==> !triple_lt(
            (#[trigger] selectors[i]).specificity(),
            (#[trigger] selectors[j]).specificity(),
        )
}

/// Putting a selector into a descending list leaves the list descending,
/// and adds that selector to what the list holds.
pub proof fn lemma_insert_by_specificity(sorted: Seq<SelectorView>, selector: SelectorView)
    requires
        descending(sorted),
    ensures
        descending(insert_by_specificity(sorted, selector)),
        insert_by_specificity(sorted, selector).to_multiset() == sorted.to_multiset().insert(
            selector,
        ),
        insert_by_specificity(sorted, selector).len() == sorted.len() + 1,
    decreases sorted.len(),
{
    broadcast use vstd::seq_lib::group_to_multiset_ensures;

    let result = insert_by_specificity(sorted, selector);
    if sorted.len() > 0 && triple_lt(sorted.last().specificity(), selector.specificity()) {
        let front = sorted.drop_last();
        let inner = insert_by_specificity(front, selector);
        assert(descending(front)) by {
            assert forall|i: int, j: int| 0 <= i < j < front.len() implies !triple_lt(
                (#[trigger] front[i]).specificity(),
                (#[trigger] front[j]).specificity(),
            ) by {
                assert(front[i] == sorted[i] && front[j] == sorted[j]);
            }
        }
        lemma_insert_by_specificity(front, selector);
        assert(sorted =~= front.push(sorted.last()));
        assert forall|i: int, j: int| 0 <= i < j < result.len() implies !triple_lt(
            (#[trigger] result[i]).specificity(),
            (#[trigger] result[j]).specificity(),
        ) by {
            if j < inner.len() {
                assert(result[i] == inner[i] && result[j] == inner[j]);
            } else {
                assert(result[j] == sorted.last());
                assert(result[i] == inner[i]);
                assert(inner.to_multiset().count(inner[i]) > 0);
                if inner[i] != selector {
                    assert(front.to_multiset().count(inner[i]) > 0);
                    let k = choose|k: int| 0 <= k < front.len() && front[k] == inner[i];
                    assert(sorted[k] == inner[i]);
                    assert(!triple_lt(
                        sorted[k].specificity(),
                        sorted[sorted.len() - 1].specificity(),
                    ));
                }
            }
        }
    } else {
        assert forall|i: int, j: int| 0 <= i < j < result.len() implies !triple_lt(
            (#[trigger] result[i]).specificity(),
            (#[trigger] result[j]).specificity(),
        ) by {
            if j < sorted.len() {
                assert(result[i] == sorted[i] && result[j] == sorted[j]);
            } else if sorted.len() > 0 {
                assert(result[i] == sorted[i]);
                assert(!triple_lt(sorted[i].specificity(), sorted[sorted.len() - 1].specificity())
                    || i == sorted.len() - 1);
            }
        }
    }
}

/// Sorting gives a descending list that holds the same selectors, each
/// as often as the given list holds it.
pub proof fn lemma_sort_by_specificity(selectors: Seq<SelectorView>)
    ensures
        descending(sort_by_specificity(selectors)),
        sort_by_specificity(selectors).to_multiset() == selectors.to_multiset(),
        sort_by_specificity(selectors).len() == selectors.len(),
    decreases selectors.len(),
{
    broadcast use vstd::seq_lib::group_to_multiset_ensures;

    if selectors.len() > 0 {
        lemma_sort_by_specificity(selectors.drop_last());
        lemma_insert_by_specificity(sort_by_specificity(selectors.drop_last()), selectors.last());
        assert(selectors =~= selectors.drop_last().push(selectors.last()));
    }
}

/// In a descending list of selectors, the first that an element matches
/// is as specific as any that it matches.
pub proof fn lemma_first_match_is_most_specific(
    elem: ElementView,
    selectors: Seq<SelectorView>,
    from: int,
    j: int,
)
    requires
        descending(selectors),
        0 <= from <= j < selectors.len(),
        spec_matches(elem, selectors[j]),
    ensures
        first_match(elem, selectors, from) matches Some(i) && from <= i <= j && spec_matches(
            elem,
            selectors[i],
        ) && !triple_lt(selectors[i].specificity(), selectors[j].specificity()),
    decreases j - from,
{
    if !spec_matches(elem, selectors[from]) {
        lemma_first_match_is_most_specific(elem, selectors, from + 1, j);
    }
}

/// The selectors of a rule that is parsed stand in the order of
/// descending specificity.
pub proof fn lemma_parsed_selectors_descend(s: Seq<char>, pos: int)
    ensures
        spec_parse_rule(s, pos) matches Ok((rule, _)) ==> descending(rule.selectors),
{
    if let Ok((selectors, _)) = spec_parse_selector_list(s, pos) {
        lemma_sort_by_specificity(selectors);
    }
}

/// The selectors of every rule of a stylesheet that is parsed stand in
/// the order of descending specificity.
pub proof fn lemma_parsed_rules_descend(s: Seq<char>, pos: int)
    requires
        0 <= pos <= s.len(),
    ensures
        spec_parse_rules(s, pos) matches Ok(rules) ==> forall|k: int|
            0 <= k < rules.len() ==> descending((#[trigger] rules[k]).selectors),
    decreases s.len() - pos,
{
    let p = scan(s, pos, CharClass::Whitespace);
    lemma_scan(s, pos, CharClass::Whitespace);
    if p < s.len() {
        lemma_parsed_selectors_descend(s, p);
        lemma_parse_rule_bounds(s, p);
        if let Ok((rule, next)) = spec_parse_rule(s, p) {
            lemma_parsed_rules_descend(s, next);
            if let Ok(rest) = spec_parse_rules(s, next) {
                let rules = seq![rule] + rest;
                assert forall|k: int| 0 <= k < rules.len() implies descending(
                    (#[trigger] rules[k]).selectors,
                ) by {
                    if k > 0 {
                        assert(rules[k] == rest[k - 1]);
                    }
                }
            }
        }
    }
}

/// The pieces put together again, with `sep` between each two.
pub open spec fn join(pieces: Seq<Seq<char>>, sep: char) -> Seq<char>
    decreases pieces.len(),
{
    if pieces.len() == 0 {
        Seq::empty()
    } else if pieces.len() == 1 {
        pieces[0]
    } else {
        join(pieces.drop_last(), sep).push(sep) + pieces.last()
    }
}

/// Splitting a text gives at least one piece, no piece holds the
/// separator, and the pieces joined by the separator are the text.
pub proof fn lemma_split_on(s: Seq<char>, sep: char)
    ensures
        split_on(s, sep).len() >= 1,
        forall|k: int, i: int|
            0 <= k < split_on(s, sep).len() && 0 <= i < split_on(s, sep)[k].len() ==> (
            #[trigger] split_on(s, sep)[k][i]) != sep,
        join(split_on(s, sep), sep) == s,
    decreases s.len(),
{
    if s.len() == 0 {
        assert(join(split_on(s, sep), sep) =~= s);
    } else {
        let front = s.drop_last();
        let before = split_on(front, sep);
        lemma_split_on(front, sep);
        let pieces = split_on(s, sep);
        assert(s =~= front.push(s.last()));
        if s.last() == sep {
            assert(pieces.drop_last() =~= before);
            assert(join(pieces, sep) =~= s);
        } else {
            let last = before.len() - 1;
            assert(pieces.len() == before.len());
            if before.len() == 1 {
                assert(join(pieces, sep) =~= s);
            } else {
                assert(pieces.drop_last() =~= before.drop_last());
                assert(join(pieces, sep) =~= s);
            }
            assert forall|k: int, i: int|
                0 <= k < pieces.len() && 0 <= i < pieces[k].len() implies (#[trigger] pieces[k][i])
                != sep by {
                if k < last {
                    assert(pieces[k] == before[k]);
                    assert(before[k][i] != sep);
                } else if i < before[last].len() {
                    assert(before[last][i] != sep);
                }
            }
        }
    }
}

/// A number that is parsed is made of decimal digits, with at least one
/// before the decimal point where a digit stands at its start.
pub proof fn lemma_parsed_number_is_decimal(s: Seq<char>, pos: int)
    requires
        0 <= pos <= s.len(),
    ensures
        spec_parse_number(s, pos) matches Ok((number, _)) ==> {
            &&& forall|i: int|
                0 <= i < number.integer.len() ==> spec_is_digit(#[trigger] number.integer[i])
            &&& forall|i: int|
                0 <= i < number.fraction.len() ==> spec_is_digit(#[trigger] number.fraction[i])
            &&& pos < s.len() && spec_is_digit(s[pos]) ==> number.integer.len() >= 1
        },
{
    let point = scan(s, pos, CharClass::Digit);
    lemma_scan(s, pos, CharClass::Digit);
    if pos < s.len() && spec_is_digit(s[pos]) {
        lemma_scan(s, pos + 1, CharClass::Digit);
    }
    if point < s.len() && s[point] == '.' {
        lemma_scan(s, point + 1, CharClass::Digit);
    }
}

/// `sorted` with `candidate` put in after the candidates whose keys do
/// not exceed its key.
pub open spec fn insert_by_key(sorted: Seq<Candidate>, candidate: Candidate) -> Seq<Candidate>
    decreases sorted.len(),
{
    if sorted.len() > 0 && !spec_key_le(sorted.last().key, candidate.key) {
        insert_by_key(sorted.drop_last(), candidate).push(sorted.last())
    } else {
        sorted.push(candidate)
    }
}

/// The candidates in the order of ascending keys, with candidates of
/// equal keys in the order in which they stand in `candidates`.
pub open spec fn sort_by_key(candidates: Seq<Candidate>) -> Seq<Candidate>
    decreases candidates.len(),
{
    if candidates.len() == 0 {
        Seq::empty()
    } else {
        insert_by_key(sort_by_key(candidates.drop_last()), candidates.last())
    }
}

/// The map that the candidates make when each in turn overwrites what
/// the map holds for its property.
pub open spec fn overwrite_in_turn(candidates: Seq<Candidate>) -> Map<Seq<char>, ValueView>
    decreases candidates.len(),
{
    if candidates.len() == 0 {
        Map::empty()
    } else {
        overwrite_in_turn(candidates.drop_last()).insert(
            candidates.last().name,
            candidates.last().value,
        )
    }
}

/// The candidates stand in the order of ascending keys.
pub open spec fn ascending(candidates: Seq<Candidate>) -> bool {
    forall|i: int, j: int|
        0 <= i < j < candidates.len() ==> spec_key_le(
            (#[trigger] candidates[i]).key,
            (#[trigger] candidates[j]).key,
        )
}

/// The candidate that wins for `name`, if there is one.
pub open spec fn best(candidates: Seq<Candidate>, name: Seq<char>) -> Option<Candidate> {
    match winner(candidates, name) {
        Some(i) => Some(candidates[i]),
        None => None,
    }
}

/// Which candidate wins after one more candidate depends only on which
/// one won before.
proof fn lemma_best_push(candidates: Seq<Candidate>, next: Candidate, name: Seq<char>)
    ensures
        best(candidates.push(next), name) == if next.name != name {
            best(candidates, name)
        } else {
            match best(candidates, name) {
                Some(b) => if spec_key_le(b.key, next.key) {
                    Some(next)
                } else {
                    Some(b)
                },
                None => Some(next),
            }
        },
{
    let all = candidates.push(next);
    assert(all.drop_last() =~= candidates);
    lemma_winner_is_candidate(candidates, name);
    if let Some(i) = winner(candidates, name) {
        assert(all[i] == candidates[i]);
    }
}

/// Putting a candidate in by its key changes the winner as putting it
/// last does.
proof fn lemma_best_insert(sorted: Seq<Candidate>, candidate: Candidate, name: Seq<char>)
    ensures
        best(insert_by_key(sorted, candidate), name) == best(sorted.push(candidate), name),
    decreases sorted.len(),
{
    if sorted.len() > 0 && !spec_key_le(sorted.last().key, candidate.key) {
        let front = sorted.drop_last();
        let last = sorted.last();
        assert(sorted =~= front.push(last));
        lemma_best_insert(front, candidate, name);
        lemma_best_push(insert_by_key(front, candidate), last, name);
        lemma_best_push(front.push(candidate), last, name);
        lemma_best_push(front, candidate, name);
        lemma_best_push(front, last, name);
        lemma_best_push(sorted, candidate, name);
        lemma_key_order_total(last.key, candidate.key);
        if let Some(b) = best(front, name) {
            lemma_key_order_total(b.key, candidate.key);
            lemma_key_order_total(b.key, last.key);
            if spec_key_le(b.key, candidate.key) {
                lemma_key_order_transitive(b.key, candidate.key, last.key);
            }
        }
    }
}

/// Sorting the candidates by their keys changes no winner.
pub proof fn lemma_sorting_keeps_winners(candidates: Seq<Candidate>, name: Seq<char>)
    ensures
        best(sort_by_key(candidates), name) == best(candidates, name),
        cascade(sort_by_key(candidates)).contains_key(name) == cascade(candidates).contains_key(
            name,
        ),
        cascade(candidates).contains_key(name) ==> cascade(sort_by_key(candidates))[name]
            == cascade(candidates)[name],
    decreases candidates.len(),
{
    if candidates.len() > 0 {
        let front = candidates.drop_last();
        let last = candidates.last();
        assert(candidates =~= front.push(last));
        lemma_sorting_keeps_winners(front, name);
        lemma_best_insert(sort_by_key(front), last, name);
        lemma_best_push(sort_by_key(front), last, name);
        lemma_best_push(front, last, name);
    }
}

/// Putting a candidate into an ascending list by its key leaves the list
/// ascending.
proof fn lemma_insert_by_key_ascends(sorted: Seq<Candidate>, candidate: Candidate)
    requires
        ascending(sorted),
    ensures
        ascending(insert_by_key(sorted, candidate)),
        insert_by_key(sorted, candidate).len() == sorted.len() + 1,
        forall|k: int|
            0 <= k < insert_by_key(sorted, candidate).len() ==> (#[trigger] insert_by_key(
                sorted,
                candidate,
            )[k]) == candidate || exists|m: int|
                0 <= m < sorted.len() && sorted[m] == insert_by_key(sorted, candidate)[k],
    decreases sorted.len(),
{
    let result = insert_by_key(sorted, candidate);
    if sorted.len() > 0 && !spec_key_le(sorted.last().key, candidate.key) {
        let front = sorted.drop_last();
        let last = sorted.last();
        let inner = insert_by_key(front, candidate);
        assert(ascending(front)) by {
            assert forall|i: int, j: int| 0 <= i < j < front.len() implies spec_key_le(
                (#[trigger] front[i]).key,
                (#[trigger] front[j]).key,
            ) by {
                assert(front[i] == sorted[i] && front[j] == sorted[j]);
            }
        }
        lemma_insert_by_key_ascends(front, candidate);
        lemma_key_order_total(last.key, candidate.key);
        assert forall|k: int| 0 <= k < result.len() implies (#[trigger] result[k]) == candidate
            || exists|m: int| 0 <= m < sorted.len() && sorted[m] == result[k] by {
            if k < inner.len() {
                assert(result[k] == inner[k]);
                if inner[k] != candidate {
                    let m = choose|m: int| 0 <= m < front.len() && front[m] == inner[k];
                    assert(sorted[m] == result[k]);
                }
            } else {
                assert(sorted[sorted.len() - 1] == result[k]);
            }
        }
        assert forall|i: int, j: int| 0 <= i < j < result.len() implies spec_key_le(
            (#[trigger] result[i]).key,
            (#[trigger] result[j]).key,
        ) by {
            if j < inner.len() {
                assert(result[i] == inner[i] && result[j] == inner[j]);
            } else {
                assert(result[j] == last);
                assert(result[i] == inner[i]);
                if inner[i] != candidate {
                    let m = choose|m: int| 0 <= m < front.len() && front[m] == inner[i];
                    assert(sorted[m] == inner[i]);
                    if m < sorted.len() - 1 {
                        assert(spec_key_le(sorted[m].key, sorted[sorted.len() - 1].key));
                    }
                }
            }
        }
    } else {
        assert forall|k: int| 0 <= k < result.len() implies (#[trigger] result[k]) == candidate
            || exists|m: int| 0 <= m < sorted.len() && sorted[m] == result[k] by {
            if k < sorted.len() {
                assert(sorted[k] == result[k]);
            }
        }
        assert forall|i: int, j: int| 0 <= i < j < result.len() implies spec_key_le(
            (#[trigger] result[i]).key,
            (#[trigger] result[j]).key,
        ) by {
            if j < sorted.len() {
                assert(result[i] == sorted[i] && result[j] == sorted[j]);
            } else {
                assert(result[i] == sorted[i]);
                if i < sorted.len() - 1 {
                    assert(spec_key_le(sorted[i].key, sorted[sorted.len() - 1].key));
                    lemma_key_order_transitive(
                        sorted[i].key,
                        sorted[sorted.len() - 1].key,
                        candidate.key,
                    );
                }
            }
        }
    }
}

/// Sorting gives an ascending list.
pub proof fn lemma_sort_by_key_ascends(candidates: Seq<Candidate>)
    ensures
        ascending(sort_by_key(candidates)),
        sort_by_key(candidates).len() == candidates.len(),
    decreases candidates.len(),
{
    if candidates.len() > 0 {
        lemma_sort_by_key_ascends(candidates.drop_last());
        lemma_insert_by_key_ascends(sort_by_key(candidates.drop_last()), candidates.last());
    }
}

/// In an ascending list each candidate that overwrites the map wins, so
/// overwriting in turn resolves the cascade.
pub proof fn lemma_overwriting_ascending(sorted: Seq<Candidate>)
    requires
        ascending(sorted),
    ensures
        overwrite_in_turn(sorted) == cascade(sorted),
    decreases sorted.len(),
{
    if sorted.len() == 0 {
        assert(overwrite_in_turn(sorted) =~= cascade(sorted));
    } else {
        let front = sorted.drop_last();
        let last = sorted.last();
        assert(ascending(front)) by {
            assert forall|i: int, j: int| 0 <= i < j < front.len() implies spec_key_le(
                (#[trigger] front[i]).key,
                (#[trigger] front[j]).key,
            ) by {
                assert(front[i] == sorted[i] && front[j] == sorted[j]);
            }
        }
        lemma_overwriting_ascending(front);
        assert forall|name: Seq<char>|
            overwrite_in_turn(sorted).contains_key(name) == cascade(sorted).contains_key(name) && (
            cascade(sorted).contains_key(name) ==> overwrite_in_turn(sorted)[name] == cascade(
                sorted,
            )[name]) by {
            lemma_winner_is_candidate(front, name);
            if let Some(i) = winner(front, name) {
                assert(front[i] == sorted[i]);
                assert(spec_key_le(sorted[i].key, sorted[sorted.len() - 1].key));
            }
        }
        assert(overwrite_in_turn(sorted) =~= cascade(sorted));
    }
}

/// The cascade is what comes of sorting the candidates by their keys and
/// letting each in turn overwrite the value of its property.
pub proof fn lemma_cascade_sorts_and_overwrites(candidates: Seq<Candidate>)
    ensures
        overwrite_in_turn(sort_by_key(candidates)) == cascade(candidates),
{
    lemma_sort_by_key_ascends(candidates);
    lemma_overwriting_ascending(sort_by_key(candidates));
    let sorted = sort_by_key(candidates);
    assert forall|name: Seq<char>| #[trigger]
        cascade(sorted).dom().contains(name) <==> cascade(candidates).dom().contains(name) by {
        lemma_sorting_keeps_winners(candidates, name);
    }
    assert forall|name: Seq<char>| #[trigger]
        cascade(sorted).dom().contains(name) implies cascade(sorted)[name] == cascade(
        candidates,
    )[name] by {
        lemma_sorting_keeps_winners(candidates, name);
    }
    assert(cascade(sorted) =~= cascade(candidates));
}

} // verus!
