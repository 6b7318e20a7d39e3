//! The stylesheet data model: origins, rules, selectors, declarations and
//! values, each with the mathematical view that the contracts speak of.

use vstd::prelude::*;
use crate::parser::{ParseError, Parser};
use crate::syntax::spec_parse_rules;

verus! {

/// The views of the elements of `s`, in order.
pub open spec fn views<T: View>(s: Seq<T>) -> Seq<T::V> {
    Seq::new(s.len(), |i: int| s[i]@)
}

/// Where a stylesheet comes from. Origins are ordered
/// `UserAgent < User < Author`.
#[derive(Debug, Clone, Copy, PartialEq, Eq, Structural)]
pub enum Origin {
    UserAgent,
    User,
    Author,
}

/// The units a length can be given in.
#[derive(Debug, Clone, Copy, PartialEq, Eq, Structural)]
pub enum Unit {
    Px,
}

/// An RGBA color, each channel in `0..=255`.
#[derive(Debug, Clone, Copy, PartialEq, Eq, Structural)]
pub struct Color {
    pub r: u8,
    pub g: u8,
    pub b: u8,
    pub a: u8,
}

/// A non-negative decimal number, kept exactly as it was written: the
/// digits before the decimal point and the digits after it. Its value is
/// the number written `integer.fraction`.
#[derive(Debug, PartialEq, Eq)]
pub struct Number {
    pub integer: String,
    pub fraction: String,
}

pub struct NumberView {
    pub integer: Seq<char>,
    pub fraction: Seq<char>,
}

impl View for Number {
    type V = NumberView;

    open spec fn view(&self) -> NumberView {
        NumberView { integer: self.integer@, fraction: self.fraction@ }
    }
}

impl Clone for Number {
    fn clone(&self) -> (r: Self)
        ensures
            r == *self,
    {
        Number { integer: self.integer.clone(), fraction: self.fraction.clone() }
    }
}

/// The value of a declaration.
#[derive(Debug, PartialEq, Eq)]
pub enum Value {
    Keyword(String),
    Length(Number, Unit),
    ColorValue(Color),
    Inherit,
}

pub enum ValueView {
    Keyword(Seq<char>),
    Length(NumberView, Unit),
    ColorValue(Color),
    Inherit,
}

impl View for Value {
    type V = ValueView;

    open spec fn view(&self) -> ValueView {
        match *self {
            Value::Keyword(s) => ValueView::Keyword(s@),
            Value::Length(n, u) => ValueView::Length(n@, u),
            Value::ColorValue(c) => ValueView::ColorValue(c),
            Value::Inherit => ValueView::Inherit,
        }
    }
}

impl Clone for Value {
    fn clone(&self) -> (r: Self)
        ensures
            r == *self,
    {
        match self {
            Value::Keyword(s) => Value::Keyword(s.clone()),
            Value::Length(n, u) => Value::Length(n.clone(), *u),
            Value::ColorValue(c) => Value::ColorValue(*c),
            Value::Inherit => Value::Inherit,
        }
    }
}

/// One `name: value` pair of a rule, with its `!important` flag.
#[derive(Debug, PartialEq, Eq)]
pub struct Declaration {
    pub name: String,
    pub value: Value,
    pub important: bool,
}

pub struct DeclarationView {
    pub name: Seq<char>,
    pub value: ValueView,
    pub important: bool,
}

impl View for Declaration {
    type V = DeclarationView;

    open spec fn view(&self) -> DeclarationView {
        DeclarationView { name: self.name@, value: self.value@, important: self.important }
    }
}

impl Clone for Declaration {
    fn clone(&self) -> (r: Self)
        ensures
            r == *self,
    {
        Declaration {
            name: self.name.clone(),
            value: self.value.clone(),
            important: self.important,
        }
    }
}

/// A simple selector: an optional tag name, an optional id and any number
/// of class names, all of which an element must meet. Without a tag name
/// it matches any tag.
#[derive(Debug, PartialEq, Eq)]
pub struct SimpleSelector {
    pub tag_name: Option<String>,
    pub id: Option<String>,
    pub class: Vec<String>,
}

pub struct SimpleSelectorView {
    pub tag_name: Option<Seq<char>>,
    pub id: Option<Seq<char>>,
    pub class: Seq<Seq<char>>,
}

/// The view of an optional string.
pub open spec fn option_view(s: Option<String>) -> Option<Seq<char>> {
    match s {
        Some(s) => Some(s@),
        None => None,
    }
}

impl View for SimpleSelector {
    type V = SimpleSelectorView;

    open spec fn view(&self) -> SimpleSelectorView {
        SimpleSelectorView {
            tag_name: option_view(self.tag_name),
            id: option_view(self.id),
            class: views(self.class@),
        }
    }
}

impl Clone for SimpleSelector {
    fn clone(&self) -> (r: Self)
        ensures
            r@ == self@,
    {
        let r = SimpleSelector {
            tag_name: match &self.tag_name {
                Some(s) => Some(s.clone()),
                None => None,
            },
            id: match &self.id {
                Some(s) => Some(s.clone()),
                None => None,
            },
            class: self.class.clone(),
        };
        assert(views(r.class@) =~= views(self.class@));
        r
    }
}

/// A selector. Simple selectors are the only kind.
#[derive(Debug, PartialEq, Eq)]
pub enum Selector {
    Simple(SimpleSelector),
}

pub enum SelectorView {
    Simple(SimpleSelectorView),
}

impl View for Selector {
    type V = SelectorView;

    open spec fn view(&self) -> SelectorView {
        match *self {
            Selector::Simple(s) => SelectorView::Simple(s@),
        }
    }
}

impl Clone for Selector {
    fn clone(&self) -> (r: Self)
        ensures
            r@ == self@,
    {
        match self {
            Selector::Simple(s) => Selector::Simple(s.clone()),
        }
    }
}

/// How strongly a selector binds: the number of ids, of classes and of
/// tag names in it. Specificities are ordered lexicographically, and the
/// higher one wins.
pub type Specificity = (usize, usize, usize);

/// `a` comes strictly before `b` in the lexicographic order of triples.
pub open spec fn triple_lt(a: (nat, nat, nat), b: (nat, nat, nat)) -> bool {
    a.0 < b.0 || (a.0 == b.0 && (a.1 < b.1 || (a.1 == b.1 && a.2 < b.2)))
}

impl SelectorView {
    /// The specificity of the selector: `(ids, classes, tags)`.
    pub open spec fn specificity(self) -> (nat, nat, nat) {
        let SelectorView::Simple(s) = self;
        (
            if s.id is Some { 1nat } else { 0nat },
            s.class.len(),
            if s.tag_name is Some { 1nat } else { 0nat },
        )
    }
}

/// The specificity `s` as a triple of mathematical naturals.
pub open spec fn specificity_view(s: Specificity) -> (nat, nat, nat) {
    (s.0 as nat, s.1 as nat, s.2 as nat)
}

impl Selector {
    /// The specificity of the selector, which decides between rules that
    /// set the same property.
    pub fn specificity(&self) -> (r: Specificity)
        ensures
            specificity_view(r) == self@.specificity(),
    {
        match self {
            Selector::Simple(simple) => {
                let a: usize = if simple.id.is_some() { 1 } else { 0 };
                let b: usize = simple.class.len();
                let c: usize = if simple.tag_name.is_some() { 1 } else { 0 };
                (a, b, c)
            },
        }
    }
}

/// Selectors, with the declarations that apply to the elements they match.
#[derive(Debug, PartialEq, Eq)]
pub struct Rule {
    pub selectors: Vec<Selector>,
    pub declarations: Vec<Declaration>,
}

pub struct RuleView {
    pub selectors: Seq<SelectorView>,
    pub declarations: Seq<DeclarationView>,
}

impl View for Rule {
    type V = RuleView;

    open spec fn view(&self) -> RuleView {
        RuleView { selectors: views(self.selectors@), declarations: views(self.declarations@) }
    }
}

impl Clone for Rule {
    fn clone(&self) -> (r: Self)
        ensures
            r@ == self@,
    {
        let r = Rule { selectors: self.selectors.clone(), declarations: self.declarations.clone() };
        assert(views(r.selectors@) =~= views(self.selectors@));
        assert(views(r.declarations@) =~= views(self.declarations@));
        r
    }
}

/// The rules of one stylesheet, in source order, with the origin they all
/// share.
#[derive(Debug, PartialEq, Eq)]
pub struct Stylesheet {
    pub rules: Vec<Rule>,
    pub origin: Origin,
}

pub struct StylesheetView {
    pub rules: Seq<RuleView>,
    pub origin: Origin,
}

impl View for Stylesheet {
    type V = StylesheetView;

    open spec fn view(&self) -> StylesheetView {
        StylesheetView { rules: views(self.rules@), origin: self.origin }
    }
}

impl Clone for Stylesheet {
    fn clone(&self) -> (r: Self)
        ensures
            r@ == self@,
    {
        let r = Stylesheet { rules: self.rules.clone(), origin: self.origin };
        assert(views(r.rules@) =~= views(self.rules@));
        r
    }
}

/// The stylesheet of the given origin that `source` holds, or the error
/// at which it stops following the grammar.
pub open spec fn spec_parse(source: Seq<char>, origin: Origin) -> Result<StylesheetView, ParseError> {
    match spec_parse_rules(source, 0) {
        Ok(rules) => Ok(StylesheetView { rules, origin }),
        Err(e) => Err(e),
    }
}

/// Parses `source` as a stylesheet of the given origin. The text is
/// parsed as a whole: where any rule of it is malformed, the error is
/// returned and no stylesheet.
pub fn parse(source: String, origin: Origin) -> (r: Result<Stylesheet, ParseError>)
    ensures
        match spec_parse(source@, origin) {
            Ok(v) => r is Ok && r->Ok_0@ == v,
            Err(e) => r == Err::<Stylesheet, ParseError>(e),
        },
{
    let mut parser = Parser::new(source.as_str());
    match parser.parse_rules() {
        Ok(rules) => Ok(Stylesheet { rules, origin }),
        Err(e) => Err(e),
    }
}

/// The text of the user agent's stylesheet: how the common elements are
/// displayed.
pub const DEFAULT_USER_AGENT_CSS: &'static str =
    "html, body { display: block; } head { display: none; } \
     div, p, h1, h2, h3, h4, h5, h6 { display: block; } \
     span, a, em, strong { display: inline; } script, style { display: none; }";

/// The user agent's stylesheet: the rules that `DEFAULT_USER_AGENT_CSS`
/// holds, with the origin `UserAgent`.
pub fn default_user_agent_stylesheet() -> (sheet: Stylesheet)
    ensures
        sheet@.origin == Origin::UserAgent,
        sheet@.rules == match spec_parse_rules(DEFAULT_USER_AGENT_CSS@, 0) {
            Ok(rules) => rules,
            Err(_) => Seq::empty(),
        },
{
    let mut parser = Parser::new(DEFAULT_USER_AGENT_CSS);
    let rules = match parser.parse_rules() {
        Ok(rules) => rules,
        Err(_) => {
            let none: Vec<Rule> = Vec::new();
            assert(views(none@) =~= Seq::<RuleView>::empty());
            none
        },
    };
    Stylesheet { rules, origin: Origin::UserAgent }
}

} // verus!
