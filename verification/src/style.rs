//! Selector matching and the cascade: which declarations apply to an
//! element, and which of them wins for each property.

use vstd::prelude::*;
use crate::css::{
    specificity_view, triple_lt, views, Color, Declaration, DeclarationView, Number, NumberView,
    Origin, Rule, RuleView, Selector, SelectorView, SimpleSelector, SimpleSelectorView,
    Specificity, Stylesheet, StylesheetView, Unit, Value, ValueView,
};
use crate::syntax::{parse_style_attribute, spec_parse_style_attribute};
use crate::dom::{contains_name, ElementData, ElementView, Node, NodeType};
use crate::name_map::NameMap;
use crate::strings::str_eq;

verus! {

/// Property values by property name.
pub type PropertyMap = NameMap<Value>;

/// Whether the element meets every constraint of the simple selector: its
/// tag name if the selector has one, its id if the selector has one, and
/// each of the selector's classes.
pub open spec fn spec_matches_simple_selector(elem: ElementView, selector: SimpleSelectorView) -> bool {
    &&& selector.tag_name matches Some(tag) ==> elem.tag_name == tag
    &&& selector.id matches Some(id) ==> elem.id() == Some(id)
    &&& forall|k: int| 0 <= k < selector.class.len() ==> elem.classes().contains(#[trigger] selector.class[k])
}

/// Whether the element matches the selector.
pub open spec fn spec_matches(elem: ElementView, selector: SelectorView) -> bool {
    match selector {
        SelectorView::Simple(s) => spec_matches_simple_selector(elem, s),
    }
}

/// Whether the element meets every constraint of the simple selector.
pub fn matches_simple_selector(elem: &ElementData, selector: &SimpleSelector) -> (r: bool)
    ensures
        r == spec_matches_simple_selector(elem@, selector@),
{
    match &selector.tag_name {
        Some(tag) => {
            if !str_eq(elem.tag_name.as_str(), tag.as_str()) {
                return false;
            }
        },
        None => {},
    }
    match &selector.id {
        Some(id) => {
            match elem.id() {
                Some(own) => {
                    if !str_eq(own.as_str(), id.as_str()) {
                        return false;
                    }
                },
                None => {
                    return false;
                },
            }
        },
        None => {},
    }
    if selector.class.len() > 0 {
        let classes = elem.classes();
        let mut k: usize = 0;
        while k < selector.class.len()
            invariant
                k <= selector.class.len(),
                views(classes@).to_set() == elem@.classes(),
                forall|j: int| 0 <= j < k ==> elem@.classes().contains(#[trigger] selector@.class[j]),
            decreases selector.class.len() - k,
        {
            if !contains_name(&classes, selector.class[k].as_str()) {
                assert(!elem@.classes().contains(selector@.class[k as int]));
                return false;
            }
            assert(views(classes@).contains(selector@.class[k as int]));
            k += 1;
        }
    }
    true
}

/// Whether the element matches the selector.
pub fn matches(elem: &ElementData, selector: &Selector) -> (r: bool)
    ensures
        r == spec_matches(elem@, selector@),
{
    match selector {
        Selector::Simple(s) => matches_simple_selector(elem, s),
    }
}

/// The place of the first selector at or after `from` that the element
/// matches.
pub open spec fn first_match(elem: ElementView, selectors: Seq<SelectorView>, from: int) -> Option<int>
    decreases selectors.len() - from,
{
    if from >= selectors.len() {
        None
    } else if spec_matches(elem, selectors[from]) {
        Some(from)
    } else {
        first_match(elem, selectors, from + 1)
    }
}

/// The specificity with which the rule applies to the element: that of
/// the first of its selectors that the element matches. `None` if it
/// matches none.
pub open spec fn spec_match_rule(elem: ElementView, rule: RuleView) -> Option<(nat, nat, nat)> {
    match first_match(elem, rule.selectors, 0) {
        Some(i) => Some(rule.selectors[i].specificity()),
        None => None,
    }
}

/// A rule that applies to an element, with the specificity with which it
/// does.
pub type MatchedNode<'a> = (Specificity, &'a Rule);

/// The rule itself with the specificity of its first selector that the
/// element matches, if the element matches any.
pub fn match_rule<'a>(elem: &ElementData, rule: &'a Rule) -> (r: Option<MatchedNode<'a>>)
    ensures
        match r {
            Some((specificity, matched)) => {
                &&& spec_match_rule(elem@, rule@) == Some(specificity_view(specificity))
                &&& matched == rule
            },
            None => spec_match_rule(elem@, rule@) is None,
        },
{
    let mut i: usize = 0;
    while i < rule.selectors.len()
        invariant
            i <= rule.selectors.len(),
            first_match(elem@, rule@.selectors, 0) == first_match(elem@, rule@.selectors, i as int),
        decreases rule.selectors.len() - i,
    {
        if matches(elem, &rule.selectors[i]) {
            return Some((rule.selectors[i].specificity(), rule));
        }
        i += 1;
    }
    None
}

/// The places of the rules among the first `upto` of `rules` that apply
/// to the element, in order, each with the specificity with which its
/// rule applies.
pub open spec fn spec_matching_rules(elem: ElementView, rules: Seq<RuleView>, upto: int) -> Seq<
    ((nat, nat, nat), int),
>
    decreases upto,
{
    if upto <= 0 {
        Seq::empty()
    } else {
        let before = spec_matching_rules(elem, rules, upto - 1);
        match spec_match_rule(elem, rules[upto - 1]) {
            Some(specificity) => before.push((specificity, upto - 1)),
            None => before,
        }
    }
}

/// The rules of the stylesheet that apply to the element, in the order
/// of the stylesheet, each with the specificity with which it applies.
pub fn matching_rules<'a>(elem: &ElementData, stylesheet: &'a Stylesheet) -> (r: Vec<MatchedNode<'a>>)
    ensures
        r.len() == spec_matching_rules(elem@, stylesheet@.rules, stylesheet.rules.len() as int).len(),
        forall|k: int|
            0 <= k < r.len() ==> {
                let expected = spec_matching_rules(
                    elem@,
                    stylesheet@.rules,
                    stylesheet.rules.len() as int,
                )[k];
                &&& specificity_view((#[trigger] r[k]).0) == expected.0
                &&& 0 <= expected.1 < stylesheet.rules.len()
                &&& *r[k].1 == stylesheet.rules[expected.1]
            },
{
    let mut matched: Vec<MatchedNode<'a>> = Vec::new();
    let mut i: usize = 0;
    while i < stylesheet.rules.len()
        invariant
            i <= stylesheet.rules.len(),
            matched.len() == spec_matching_rules(elem@, stylesheet@.rules, i as int).len(),
            forall|k: int|
                0 <= k < matched.len() ==> {
                    let expected = spec_matching_rules(elem@, stylesheet@.rules, i as int)[k];
                    &&& specificity_view((#[trigger] matched[k]).0) == expected.0
                    &&& 0 <= expected.1 < stylesheet.rules.len()
                    &&& *matched[k].1 == stylesheet.rules[expected.1]
                },
        decreases stylesheet.rules.len() - i,
    {
        assert(stylesheet@.rules[i as int] == stylesheet.rules[i as int]@);
        match match_rule(elem, &stylesheet.rules[i]) {
            Some(found) => {
                matched.push(found);
            },
            None => {},
        }
        i += 1;
    }
    matched
}

/// The rank of a declaration by the origin of its stylesheet and its
/// `!important` flag: normal declarations rank 0 (user agent), 1 (user)
/// and 2 (author); important ones 3 (user agent), 4 (user) and 5
/// (author).
pub open spec fn spec_priority_rank(origin: Origin, important: bool) -> nat {
    match (origin, important) {
        (Origin::UserAgent, false) => 0,
        (Origin::User, false) => 1,
        (Origin::Author, false) => 2,
        (Origin::UserAgent, true) => 3,
        (Origin::User, true) => 4,
        (Origin::Author, true) => 5,
    }
}

/// The rank of a declaration by the origin of its stylesheet and its
/// `!important` flag.
pub fn priority_rank(origin: Origin, important: bool) -> (rank: u8)
    ensures
        rank == spec_priority_rank(origin, important),
{
    match (origin, important) {
        (Origin::UserAgent, false) => 0,
        (Origin::User, false) => 1,
        (Origin::Author, false) => 2,
        (Origin::UserAgent, true) => 3,
        (Origin::User, true) => 4,
        (Origin::Author, true) => 5,
    }
}

/// What decides between two declarations of one property. Keys are
/// ordered by rank first; within a rank a declaration of the element's
/// `style` attribute comes after every declaration of a rule; among
/// declarations of rules the specificity decides, and then the place of
/// the rule in its stylesheet.
#[derive(Debug, Clone, Copy, PartialEq, Eq)]
pub struct CascadeKey {
    pub rank: u8,
    pub inline: bool,
    pub specificity: Specificity,
    pub rule_index: usize,
}

/// `a` comes before `b` in the order of keys, or equals it.
pub open spec fn spec_key_le(a: CascadeKey, b: CascadeKey) -> bool {
    if a.rank != b.rank {
        a.rank < b.rank
    } else if a.inline != b.inline {
        b.inline
    } else if a.specificity != b.specificity {
        triple_lt(specificity_view(a.specificity), specificity_view(b.specificity))
    } else {
        a.rule_index <= b.rule_index
    }
}

/// Whether `a` comes before `b` in the order of keys, or equals it.
pub fn key_le(a: &CascadeKey, b: &CascadeKey) -> (r: bool)
    ensures
        r == spec_key_le(*a, *b),
{
    if a.rank != b.rank {
        a.rank < b.rank
    } else if a.inline != b.inline {
        b.inline
    } else if a.specificity.0 != b.specificity.0 {
        a.specificity.0 < b.specificity.0
    } else if a.specificity.1 != b.specificity.1 {
        a.specificity.1 < b.specificity.1
    } else if a.specificity.2 != b.specificity.2 {
        a.specificity.2 < b.specificity.2
    } else {
        a.rule_index <= b.rule_index
    }
}

/// The key of a declaration of a rule of a stylesheet.
pub open spec fn rule_key(
    origin: Origin,
    important: bool,
    specificity: (nat, nat, nat),
    rule_index: int,
) -> CascadeKey {
    CascadeKey {
        rank: spec_priority_rank(origin, important) as u8,
        inline: false,
        specificity: (specificity.0 as usize, specificity.1 as usize, specificity.2 as usize),
        rule_index: rule_index as usize,
    }
}

/// The key of a declaration of an element's `style` attribute: that of
/// the author's declarations of the same importance, and after each of
/// them.
pub open spec fn inline_key(important: bool) -> CascadeKey {
    CascadeKey {
        rank: spec_priority_rank(Origin::Author, important) as u8,
        inline: true,
        specificity: (0, 0, 0),
        rule_index: 0,
    }
}

/// A declaration that applies to an element, with its key.
pub struct CascadedDeclaration<'a> {
    pub declaration: &'a Declaration,
    pub cascade_key: CascadeKey,
}

/// A candidate for the value of a property.
pub struct Candidate {
    pub name: Seq<char>,
    pub value: ValueView,
    pub key: CascadeKey,
}

impl<'a> View for CascadedDeclaration<'a> {
    type V = Candidate;

    open spec fn view(&self) -> Candidate {
        Candidate {
            name: self.declaration.name@,
            value: self.declaration.value@,
            key: self.cascade_key,
        }
    }
}

/// The candidate that wins for `name` among `candidates`: one for that
/// property whose key no other candidate for it exceeds, and the last of
/// those where several have that key.
pub open spec fn winner(candidates: Seq<Candidate>, name: Seq<char>) -> Option<int>
    decreases candidates.len(),
{
    if candidates.len() == 0 {
        None
    } else {
        let last = candidates.len() - 1;
        let before = winner(candidates.drop_last(), name);
        if candidates[last].name != name {
            before
        } else {
            match before {
                Some(i) => if spec_key_le(candidates[i].key, candidates[last].key) {
                    Some(last)
                } else {
                    before
                },
                None => Some(last),
            }
        }
    }
}

/// The outcome of the cascade: each property that has a candidate, with
/// the value of the candidate that wins for it.
pub open spec fn cascade(candidates: Seq<Candidate>) -> Map<Seq<char>, ValueView> {
    Map::new(
        |name: Seq<char>| winner(candidates, name) is Some,
        |name: Seq<char>| candidates[winner(candidates, name).unwrap()].value,
    )
}

/// A winner is a candidate for the property it wins.
pub proof fn lemma_winner_is_candidate(candidates: Seq<Candidate>, name: Seq<char>)
    ensures
        match winner(candidates, name) {
            Some(i) => 0 <= i < candidates.len() && candidates[i].name == name,
            None => forall|j: int| 0 <= j < candidates.len() ==> candidates[j].name != name,
        },
    decreases candidates.len(),
{
    if candidates.len() > 0 {
        lemma_winner_is_candidate(candidates.drop_last(), name);
        if winner(candidates, name) is None {
            assert forall|j: int| 0 <= j < candidates.len() implies candidates[j].name != name by {
                if j < candidates.len() - 1 {
                    assert(candidates.drop_last()[j] == candidates[j]);
                }
            }
        }
    }
}

/// Resolves the cascade over `candidates`.
pub fn cascade_declarations(candidates: &Vec<CascadedDeclaration>) -> (values: PropertyMap)
    ensures
        values.wf(),
        values@ == cascade(views(candidates@)),
{
    let mut values: PropertyMap = NameMap::new();
    let mut keys: Vec<CascadeKey> = Vec::new();
    let ghost all = views(candidates@);
    let mut i: usize = 0;
    assert(all.take(0) =~= Seq::<Candidate>::empty());
    while i < candidates.len()
        invariant
            i <= candidates.len(),
            all == views(candidates@),
            values.wf(),
            keys.len() == values.names().len(),
            forall|n: Seq<char>| values.names().contains(n) <==> winner(all.take(i as int), n) is Some,
            forall|k: int| 0 <= k < keys.len() ==> {
                let w = winner(all.take(i as int), #[trigger] values.names()[k]);
                &&& w is Some
                &&& all[w.unwrap()].key == keys[k]
                &&& all[w.unwrap()].value == values.stored()[k]@
            },
        decreases candidates.len() - i,
    {
        let candidate = &candidates[i];
        let ghost before = all.take(i as int);
        let ghost after = all.take(i + 1);
        let ghost old_names = values.names();
        let ghost old_stored = values.stored();
        let ghost old_keys = keys@;
        proof {
            values.lemma_wf();
            assert(after.drop_last() =~= before);
            assert(after[i as int] == all[i as int]);
            assert(all[i as int] == candidate@);
            assert forall|n: Seq<char>| winner(before, n) is Some implies 0 <= (#[trigger] winner(
                before,
                n,
            )).unwrap() < i by {
                lemma_winner_is_candidate(before, n);
            }
        }
        let name = candidate.declaration.name.as_str();
        match values.find(name) {
            Some(k) => {
                proof {
                    crate::name_map::lemma_place_of(old_names, name@, k as int);
                }
                if key_le(&keys[k], &candidate.cascade_key) {
                    values.insert(candidate.declaration.name.clone(), candidate.declaration.value.clone());
                    keys.set(k, candidate.cascade_key);
                }
            },
            None => {
                values.insert(candidate.declaration.name.clone(), candidate.declaration.value.clone());
                keys.push(candidate.cascade_key);
            },
        }
        proof {
            values.lemma_wf();
            assert forall|n: Seq<char>| values.names().contains(n) <==> winner(after, n) is Some by {
                if n != name@ {
                    if old_names.contains(n) {
                        let j = choose|j: int| 0 <= j < old_names.len() && old_names[j] == n;
                        assert(values.names()[j] == n);
                    }
                    if values.names().contains(n) {
                        let j = choose|j: int| 0 <= j < values.names().len() && values.names()[j] == n;
                        assert(old_names[j] == n);
                    }
                } else {
                    if old_names.contains(n) {
                        let j = choose|j: int| 0 <= j < old_names.len() && old_names[j] == n;
                        assert(values.names()[j] == n);
                    } else {
                        assert(values.names()[old_names.len() as int] == n);
                    }
                }
            }
            assert forall|k: int| 0 <= k < keys.len() implies {
                let w = winner(after, #[trigger] values.names()[k]);
                &&& w is Some
                &&& all[w.unwrap()].key == keys[k]
                &&& all[w.unwrap()].value == values.stored()[k]@
            } by {
                if k < old_names.len() {
                    assert(old_names[k] == values.names()[k]);
                    let w = winner(before, old_names[k]);
                    assert(w is Some);
                    assert(before[w.unwrap()] == all[w.unwrap()]);
                    assert(after[w.unwrap()] == all[w.unwrap()]);
                }
            }
        }
        i += 1;
    }
    proof {
        assert(all.take(i as int) =~= all);
        values.lemma_wf();
        assert forall|n: Seq<char>| values@.contains_key(n) implies values@[n] == cascade(all)[n] by {
            let k = crate::name_map::place_of(values.names(), n);
            assert(0 <= k < values.names().len() && values.names()[k] == n);
        }
        assert(values@ =~= cascade(all));
    }
    values
}

/// The candidates that one rule gives for an element: each of its
/// declarations if the element matches the rule, and none if not.
pub open spec fn rule_candidates(elem: ElementView, rule: RuleView, origin: Origin, index: int) -> Seq<
    Candidate,
> {
    match spec_match_rule(elem, rule) {
        Some(specificity) => Seq::new(
            rule.declarations.len(),
            |k: int|
                Candidate {
                    name: rule.declarations[k].name,
                    value: rule.declarations[k].value,
                    key: rule_key(origin, rule.declarations[k].important, specificity, index),
                },
        ),
        None => Seq::empty(),
    }
}

/// The candidates that the first `upto` rules of a stylesheet give for an
/// element, in the order of the rules.
pub open spec fn sheet_candidates(elem: ElementView, sheet: StylesheetView, upto: int) -> Seq<
    Candidate,
>
    decreases upto,
{
    if upto <= 0 {
        Seq::empty()
    } else {
        sheet_candidates(elem, sheet, upto - 1) + rule_candidates(
            elem,
            sheet.rules[upto - 1],
            sheet.origin,
            upto - 1,
        )
    }
}

/// The candidates that the first `upto` stylesheets give for an element,
/// in the order of the stylesheets.
pub open spec fn sheets_candidates(elem: ElementView, sheets: Seq<StylesheetView>, upto: int) -> Seq<
    Candidate,
>
    decreases upto,
{
    if upto <= 0 {
        Seq::empty()
    } else {
        sheets_candidates(elem, sheets, upto - 1) + sheet_candidates(
            elem,
            sheets[upto - 1],
            sheets[upto - 1].rules.len() as int,
        )
    }
}

/// The declarations of the element's `style` attribute: none where it has
/// no such attribute, and none where the attribute is malformed.
pub open spec fn inline_declarations(elem: ElementView) -> Seq<DeclarationView> {
    if elem.attrs.contains_key("style"@) {
        match spec_parse_style_attribute(elem.attrs["style"@]) {
            Some(declarations) => declarations,
            None => Seq::empty(),
        }
    } else {
        Seq::empty()
    }
}

/// The candidates that the declarations of a `style` attribute make.
pub open spec fn inline_candidates(declarations: Seq<DeclarationView>) -> Seq<Candidate> {
    Seq::new(
        declarations.len(),
        |k: int|
            Candidate {
                name: declarations[k].name,
                value: declarations[k].value,
                key: inline_key(declarations[k].important),
            },
    )
}

/// All candidates for an element: those of the stylesheets in their
/// order, then those of its `style` attribute.
pub open spec fn candidates(elem: ElementView, sheets: Seq<StylesheetView>) -> Seq<Candidate> {
    sheets_candidates(elem, sheets, sheets.len() as int) + inline_candidates(
        inline_declarations(elem),
    )
}

/// The values that the stylesheets and the element's `style` attribute
/// specify for the element.
pub open spec fn spec_specified_values(elem: ElementView, sheets: Seq<StylesheetView>) -> Map<
    Seq<char>,
    ValueView,
> {
    cascade(candidates(elem, sheets))
}

/// Adds the candidates that `rule`, the rule at place `index` of a
/// stylesheet of the given origin, gives for the element.
fn push_rule_candidates<'a>(
    found: &mut Vec<CascadedDeclaration<'a>>,
    elem: &ElementData,
    rule: &'a Rule,
    origin: Origin,
    index: usize,
)
    ensures
        views(final(found)@) == views(old(found)@) + rule_candidates(
            elem@,
            rule@,
            origin,
            index as int,
        ),
{
    match match_rule(elem, rule) {
        Some((specificity, _)) => {
            let ghost before = views(found@);
            let ghost all = rule_candidates(elem@, rule@, origin, index as int);
            let mut k: usize = 0;
            assert(before + all.take(0) =~= before);
            while k < rule.declarations.len()
                invariant
                    k <= rule.declarations.len(),
                    all == rule_candidates(elem@, rule@, origin, index as int),
                    all.len() == rule.declarations.len(),
                    spec_match_rule(elem@, rule@) == Some(specificity_view(specificity)),
                    views(found@) == before + all.take(k as int),
                decreases rule.declarations.len() - k,
            {
                let declaration = &rule.declarations[k];
                let cascade_key = CascadeKey {
                    rank: priority_rank(origin, declaration.important),
                    inline: false,
                    specificity,
                    rule_index: index,
                };
                let ghost so_far = views(found@);
                found.push(CascadedDeclaration { declaration, cascade_key });
                proof {
                    assert(rule@.declarations[k as int] == declaration@);
                    assert(cascade_key == rule_key(
                        origin,
                        declaration.important,
                        specificity_view(specificity),
                        index as int,
                    ));
                    assert(views(found@) =~= so_far.push(all[k as int]));
                    assert(all.take(k + 1) =~= all.take(k as int).push(all[k as int]));
                }
                assert(views(found@) =~= before + all.take(k + 1));
                k += 1;
            }
            assert(all.take(k as int) =~= all);
        },
        None => {
            assert(views(found@) + Seq::<Candidate>::empty() =~= views(found@));
        },
    }
}

/// The values that the stylesheets and the element's own `style`
/// attribute specify for the element: for each property that any
/// declaration applying to the element names, the value of the
/// declaration that wins the cascade. A malformed `style` attribute
/// counts as an empty one.
pub fn specified_values(elem: &ElementData, stylesheets: &[Stylesheet]) -> (values: PropertyMap)
    ensures
        values.wf(),
        values@ == spec_specified_values(elem@, views(stylesheets@)),
{
    let ghost sheets = views(stylesheets@);
    let mut found: Vec<CascadedDeclaration> = Vec::new();
    let mut si: usize = 0;
    assert(views(found@) =~= sheets_candidates(elem@, sheets, 0));
    while si < stylesheets.len()
        invariant
            si <= stylesheets.len(),
            sheets == views(stylesheets@),
            views(found@) == sheets_candidates(elem@, sheets, si as int),
        decreases stylesheets.len() - si,
    {
        let stylesheet = &stylesheets[si];
        let ghost before = views(found@);
        let mut ri: usize = 0;
        assert(before + sheet_candidates(elem@, stylesheet@, 0) =~= before);
        while ri < stylesheet.rules.len()
            invariant
                ri <= stylesheet.rules.len(),
                views(found@) == before + sheet_candidates(elem@, stylesheet@, ri as int),
            decreases stylesheet.rules.len() - ri,
        {
            let ghost so_far = views(found@);
            push_rule_candidates(&mut found, elem, &stylesheet.rules[ri], stylesheet.origin, ri);
            assert(views(found@) =~= before + sheet_candidates(elem@, stylesheet@, ri + 1)) by {
                assert(stylesheet@.rules[ri as int] == stylesheet.rules[ri as int]@);
            }
            ri += 1;
        }
        assert(sheets[si as int] == stylesheet@);
        si += 1;
    }
    let style_declarations: Vec<Declaration> = match elem.attrs.get("style") {
        Some(style) => match parse_style_attribute(style.as_str()) {
            Some(declarations) => declarations,
            None => Vec::new(),
        },
        None => Vec::new(),
    };
    assert(views(style_declarations@) =~= inline_declarations(elem@));
    let ghost from_sheets = views(found@);
    let ghost from_style = inline_candidates(inline_declarations(elem@));
    let mut k: usize = 0;
    assert(from_sheets + from_style.take(0) =~= from_sheets);
    while k < style_declarations.len()
        invariant
            k <= style_declarations.len(),
            views(style_declarations@) == inline_declarations(elem@),
            from_style == inline_candidates(inline_declarations(elem@)),
            views(found@) == from_sheets + from_style.take(k as int),
        decreases style_declarations.len() - k,
    {
        let declaration = &style_declarations[k];
        let cascade_key = CascadeKey {
            rank: priority_rank(Origin::Author, declaration.important),
            inline: true,
            specificity: (0, 0, 0),
            rule_index: 0,
        };
        assert(views(style_declarations@)[k as int] == declaration@);
        let ghost so_far = views(found@);
        found.push(CascadedDeclaration { declaration, cascade_key });
        proof {
            assert(cascade_key == inline_key(declaration.important));
            assert(views(found@) =~= so_far.push(from_style[k as int]));
            assert(from_style.take(k + 1) =~= from_style.take(k as int).push(from_style[k as int]));
        }
        assert(views(found@) =~= from_sheets + from_style.take(k + 1));
        k += 1;
    }
    assert(from_style.take(k as int) =~= from_style);
    cascade_declarations(&found)
}

/// Whether a property is inherited by default: whether an element that
/// does not specify it takes its parent's value.
pub open spec fn spec_is_inherited_property(property: Seq<char>) -> bool {
    ||| property == "color"@
    ||| property == "font-family"@
    ||| property == "font-size"@
    ||| property == "font-style"@
    ||| property == "font-weight"@
    ||| property == "line-height"@
    ||| property == "text-align"@
    ||| property == "text-decoration"@
    ||| property == "text-indent"@
    ||| property == "visibility"@
    ||| property == "white-space"@
    ||| property == "word-spacing"@
    ||| property == "letter-spacing"@
}

/// Whether a property is inherited by default.
pub fn is_inherited_property(property: &str) -> (r: bool)
    ensures
        r == spec_is_inherited_property(property@),
{
    str_eq(property, "color") || str_eq(property, "font-family") || str_eq(property, "font-size")
        || str_eq(property, "font-style") || str_eq(property, "font-weight") || str_eq(
        property,
        "line-height",
    ) || str_eq(property, "text-align") || str_eq(property, "text-decoration") || str_eq(
        property,
        "text-indent",
    ) || str_eq(property, "visibility") || str_eq(property, "white-space") || str_eq(
        property,
        "word-spacing",
    ) || str_eq(property, "letter-spacing")
}

/// The value that a property has where nothing specifies it and nothing
/// is inherited.
pub open spec fn spec_initial_value(property: Seq<char>) -> ValueView {
    if property == "display"@ {
        ValueView::Keyword("inline"@)
    } else if property == "color"@ {
        ValueView::ColorValue(Color { r: 0, g: 0, b: 0, a: 255 })
    } else if property == "font-size"@ {
        ValueView::Length(NumberView { integer: "16"@, fraction: Seq::empty() }, Unit::Px)
    } else if property == "font-weight"@ {
        ValueView::Keyword("normal"@)
    } else if property == "font-style"@ {
        ValueView::Keyword("normal"@)
    } else if property == "text-align"@ {
        ValueView::Keyword("left"@)
    } else if property == "text-decoration"@ {
        ValueView::Keyword("none"@)
    } else if property == "visibility"@ {
        ValueView::Keyword("visible"@)
    } else if property == "white-space"@ {
        ValueView::Keyword("normal"@)
    } else {
        ValueView::Keyword("initial"@)
    }
}

/// The keyword `word` as a value.
fn keyword(word: &str) -> (value: Value)
    ensures
        value@ == ValueView::Keyword(word@),
{
    Value::Keyword(String::from_str(word))
}

/// The value that a property has where nothing specifies it and nothing
/// is inherited.
pub fn get_initial_value(property: &str) -> (value: Value)
    ensures
        value@ == spec_initial_value(property@),
{
    if str_eq(property, "display") {
        keyword("inline")
    } else if str_eq(property, "color") {
        Value::ColorValue(Color { r: 0, g: 0, b: 0, a: 255 })
    } else if str_eq(property, "font-size") {
        Value::Length(
            Number { integer: String::from_str("16"), fraction: String::new() },
            Unit::Px,
        )
    } else if str_eq(property, "font-weight") {
        keyword("normal")
    } else if str_eq(property, "font-style") {
        keyword("normal")
    } else if str_eq(property, "text-align") {
        keyword("left")
    } else if str_eq(property, "text-decoration") {
        keyword("none")
    } else if str_eq(property, "visibility") {
        keyword("visible")
    } else if str_eq(property, "white-space") {
        keyword("normal")
    } else {
        keyword("initial")
    }
}

/// Whether a node with the values `own` takes its parent's value for the
/// property: the parent has one, and the node either specifies
/// `inherit` for it, or specifies nothing for it while the property is
/// inherited by default.
pub open spec fn inherits(
    own: Map<Seq<char>, ValueView>,
    parent: Map<Seq<char>, ValueView>,
    property: Seq<char>,
) -> bool {
    &&& parent.contains_key(property)
    &&& if own.contains_key(property) {
        own[property] == ValueView::Inherit
    } else {
        spec_is_inherited_property(property)
    }
}

/// The values of a node after inheritance: its parent's value for each
/// property that it inherits, and its own value for every other.
pub open spec fn spec_apply_inheritance(
    own: Map<Seq<char>, ValueView>,
    parent: Option<Map<Seq<char>, ValueView>>,
) -> Map<Seq<char>, ValueView> {
    match parent {
        None => own,
        Some(parent) => Map::new(
            |property: Seq<char>| own.contains_key(property) || inherits(own, parent, property),
            |property: Seq<char>|
                if inherits(own, parent, property) {
                    parent[property]
                } else {
                    own[property]
                },
        ),
    }
}

/// Replaces in `values` the value of each property that is inherited by
/// that of the parent.
pub fn apply_inheritance(values: &mut PropertyMap, parent_values: Option<&PropertyMap>)
    ensures
        final(values).wf(),
        final(values)@ == spec_apply_inheritance(
            old(values)@,
            match parent_values {
                Some(parent) => Some(parent@),
                None => None,
            },
        ),
{
    proof {
        use_type_invariant(&*values);
    }
    match parent_values {
        Some(parent) => {
            let ghost own = values@;
            let ghost names = parent.names();
            let mut i: usize = 0;
            let n = parent.len();
            proof {
                parent.lemma_wf();
            }
            assert(values@ =~= own);
            while i < n
                invariant
                    i <= n,
                    n == parent.names().len(),
                    names == parent.names(),
                    parent.wf(),
                    values.wf(),
                    own == old(values)@,
                    forall|p: Seq<char>|
                        values@.contains_key(p) <==> own.contains_key(p) || (inherits(
                            own,
                            parent@,
                            p,
                        ) && names.take(i as int).contains(p)),
                    forall|p: Seq<char>| #[trigger]
                        values@.contains_key(p) ==> values@[p] == if inherits(own, parent@, p)
                            && names.take(i as int).contains(p) {
                            parent@[p]
                        } else {
                            own[p]
                        },
                decreases n - i,
            {
                let property = parent.name_at(i);
                let value = parent.value_at(i);
                let ghost before = values@;
                proof {
                    parent.lemma_wf();
                    crate::name_map::lemma_place_of(names, property@, i as int);
                    assert(names.take(i + 1) =~= names.take(i as int).push(property@));
                    assert(!names.take(i as int).contains(property@));
                    assert(parent@.contains_key(property@));
                    assert(parent@[property@] == value@);
                }
                let inherit = match values.get(property.as_str()) {
                    Some(Value::Inherit) => true,
                    Some(_) => false,
                    None => is_inherited_property(property.as_str()),
                };
                assert(inherit == inherits(own, parent@, property@));
                if inherit {
                    values.insert(property.clone(), value.clone());
                }
                proof {
                    assert forall|p: Seq<char>|
                        names.take(i + 1).contains(p) <==> names.take(i as int).contains(p) || p
                            == property@ by {
                        if names.take(i as int).contains(p) {
                            let j = choose|j: int|
                                0 <= j < names.take(i as int).len() && names.take(i as int)[j] == p;
                            assert(names.take(i + 1)[j] == p);
                        }
                        if p == property@ {
                            assert(names.take(i + 1)[i as int] == p);
                        }
                    }
                }
                i += 1;
            }
            proof {
                assert(names.take(n as int) =~= names);
                assert(values@ =~= spec_apply_inheritance(own, Some(parent@)));
            }
        },
        None => {},
    }
}

/// `values` with the initial value of `display`, of `color` and of
/// `font-size` wherever one of them has no value.
pub open spec fn spec_apply_initial_values(values: Map<Seq<char>, ValueView>) -> Map<
    Seq<char>,
    ValueView,
> {
    Map::new(
        |property: Seq<char>|
            values.contains_key(property) || property == "display"@ || property == "color"@
                || property == "font-size"@,
        |property: Seq<char>|
            if values.contains_key(property) {
                values[property]
            } else {
                spec_initial_value(property)
            },
    )
}

/// Gives `property` its initial value in `values` if it has no value.
fn apply_initial_value(values: &mut PropertyMap, property: &str)
    ensures
        final(values).wf(),
        final(values)@ == if old(values)@.contains_key(property@) {
            old(values)@
        } else {
            old(values)@.insert(property@, spec_initial_value(property@))
        },
{
    proof {
        use_type_invariant(&*values);
    }
    if !values.contains_key(property) {
        values.insert(String::from_str(property), get_initial_value(property));
    }
}

/// Gives `display`, `color` and `font-size` their initial values in
/// `values` wherever one of them has no value.
pub fn apply_initial_values(values: &mut PropertyMap)
    ensures
        final(values).wf(),
        final(values)@ == spec_apply_initial_values(old(values)@),
{
    apply_initial_value(values, "display");
    apply_initial_value(values, "color");
    apply_initial_value(values, "font-size");
    assert(values@ =~= spec_apply_initial_values(old(values)@));
}

/// A node of the document with the values of its properties, and its
/// children styled likewise, in document order.
#[derive(Debug)]
pub struct StyledNode<'a> {
    pub node: &'a Node,
    pub specified_values: PropertyMap,
    pub children: Vec<StyledNode<'a>>,
}

/// How an element takes part in layout.
#[derive(Debug, Clone, Copy, PartialEq, Eq, Structural)]
pub enum Display {
    Inline,
    Block,
    /// The element is left out of layout: `display: none`.
    NotDisplayed,
}

/// The values of a node whose parent has the values `parent`, or that has
/// no parent. An element has the values that are specified for it, then
/// what it inherits, then the initial values that must not be missing. A
/// text or a comment has only what it inherits.
pub open spec fn node_values(
    node: Node,
    sheets: Seq<StylesheetView>,
    parent: Option<Map<Seq<char>, ValueView>>,
) -> Map<Seq<char>, ValueView> {
    match node.node_type {
        NodeType::Element(elem) => spec_apply_initial_values(
            spec_apply_inheritance(spec_specified_values(elem@, sheets), parent),
        ),
        NodeType::Text(_) => spec_apply_inheritance(Map::empty(), parent),
        NodeType::Comment(_) => spec_apply_inheritance(Map::empty(), parent),
    }
}

/// Whether `styled` is the styled tree of `node` under the stylesheets,
/// for a parent with the values `parent`: it refers to `node`, holds the
/// values of `node`, and has for each child of `node`, in order, the
/// styled tree of that child with the values of `node` as its parent's.
pub open spec fn is_style_tree(
    styled: StyledNode,
    node: Node,
    sheets: Seq<StylesheetView>,
    parent: Option<Map<Seq<char>, ValueView>>,
) -> bool
    decreases styled,
{
    &&& *styled.node == node
    &&& styled.specified_values@ == node_values(node, sheets, parent)
    &&& styled.children.len() == node.children.len()
    &&& forall|i: int|
        0 <= i < styled.children.len() ==> is_style_tree(
            #[trigger] styled.children[i],
            node.children[i],
            sheets,
            Some(styled.specified_values@),
        )
}

/// The styled tree of `node`, for a parent with the given values.
pub fn style_tree_with_parent<'a>(
    node: &'a Node,
    stylesheets: &'a [Stylesheet],
    parent_values: Option<&PropertyMap>,
) -> (styled: StyledNode<'a>)
    ensures
        is_style_tree(
            styled,
            *node,
            views(stylesheets@),
            match parent_values {
                Some(parent) => Some(parent@),
                None => None,
            },
        ),
    decreases node,
{
    let specified_values = match &node.node_type {
        NodeType::Element(elem) => {
            let mut values = specified_values(elem, stylesheets);
            apply_inheritance(&mut values, parent_values);
            apply_initial_values(&mut values);
            values
        },
        NodeType::Text(_) => {
            let mut values: PropertyMap = NameMap::new();
            assert(values@ =~= Map::empty());
            apply_inheritance(&mut values, parent_values);
            values
        },
        NodeType::Comment(_) => {
            let mut values: PropertyMap = NameMap::new();
            assert(values@ =~= Map::empty());
            apply_inheritance(&mut values, parent_values);
            values
        },
    };
    let mut children: Vec<StyledNode<'a>> = Vec::new();
    let mut i: usize = 0;
    while i < node.children.len()
        invariant
            i <= node.children.len(),
            children.len() == i,
            forall|k: int|
                0 <= k < i ==> is_style_tree(
                    #[trigger] children[k],
                    node.children[k],
                    views(stylesheets@),
                    Some(specified_values@),
                ),
        decreases node.children.len() - i,
    {
        let child = style_tree_with_parent(&node.children[i], stylesheets, Some(&specified_values));
        children.push(child);
        i += 1;
    }
    StyledNode { node, specified_values, children }
}

/// The styled tree of the document with the root `root`: every node of
/// the document with the values of its properties under the stylesheets.
pub fn style_tree<'a>(root: &'a Node, stylesheets: &'a [Stylesheet]) -> (styled: StyledNode<'a>)
    ensures
        is_style_tree(styled, *root, views(stylesheets@), None),
{
    style_tree_with_parent(root, stylesheets, None)
}

/// What the `display` property with the given value means for layout:
/// the keywords `block` and `none` are themselves, and everything else,
/// as well as no value, is `inline`.
pub open spec fn spec_display(value: Option<ValueView>) -> Display {
    match value {
        Some(ValueView::Keyword(word)) => if word == "block"@ {
            Display::Block
        } else if word == "none"@ {
            Display::NotDisplayed
        } else {
            Display::Inline
        },
        _ => Display::Inline,
    }
}

/// The value stored under `name` in `values`, if there is one.
pub open spec fn spec_value(values: Map<Seq<char>, ValueView>, name: Seq<char>) -> Option<ValueView> {
    if values.contains_key(name) {
        Some(values[name])
    } else {
        None
    }
}

impl<'a> StyledNode<'a> {
    /// The value of the property `name`, if the node has one.
    pub fn value(&self, name: &str) -> (r: Option<Value>)
        ensures
            match r {
                Some(v) => spec_value(self.specified_values@, name@) == Some(v@),
                None => spec_value(self.specified_values@, name@) is None,
            },
    {
        match self.specified_values.get(name) {
            Some(v) => Some(v.clone()),
            None => None,
        }
    }

    /// The value of the property `name`; without one, that of
    /// `fallback_name`; without that either, `default`.
    pub fn lookup(&self, name: &str, fallback_name: &str, default: &Value) -> (r: Value)
        ensures
            r@ == match spec_value(self.specified_values@, name@) {
                Some(v) => v,
                None => match spec_value(self.specified_values@, fallback_name@) {
                    Some(v) => v,
                    None => default@,
                },
            },
    {
        match self.value(name) {
            Some(v) => v,
            None => match self.value(fallback_name) {
                Some(v) => v,
                None => default.clone(),
            },
        }
    }

    /// How the node takes part in layout, by its `display` property.
    pub fn display(&self) -> (r: Display)
        ensures
            r == spec_display(spec_value(self.specified_values@, "display"@)),
    {
        match self.specified_values.get("display") {
            Some(Value::Keyword(word)) => {
                if str_eq(word.as_str(), "block") {
                    Display::Block
                } else if str_eq(word.as_str(), "none") {
                    Display::NotDisplayed
                } else {
                    Display::Inline
                }
            },
            _ => Display::Inline,
        }
    }
}

} // verus!
