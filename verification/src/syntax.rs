//! The grammar of stylesheets, as functions from a text and a position to
//! what stands there, and the parser that follows it.
//!
//! ```text
//! stylesheet   = rule*
//! rule         = selectors declarations
//! selectors    = selector (',' selector)*
//! selector     = ('*' | tag | '#' id | '.' class)*
//! declarations = '{' declaration* '}'
//! declaration  = name ':' value '!important'? ';'
//! value        = length | color | keyword | 'inherit'
//! length       = digit+ ('.' digit*)? 'px'
//! color        = '#' hex hex hex hex hex hex
//! ```
//!
//! White space may stand between the parts of a rule and of a declaration.
//! `px` is read in upper and lower case; a keyword may be empty.

use vstd::prelude::*;
use crate::css::{
    specificity_view, triple_lt, views, Color, Declaration, DeclarationView, Number, NumberView,
    Rule, RuleView, Selector, SelectorView, SimpleSelector, SimpleSelectorView, Specificity, Unit,
    Value, ValueView,
};
use crate::parser::{
    lemma_scan, scan, spec_is_digit, spec_starts_with, spec_valid_identifier_char, syntax_error,
    CharClass, ParseError, Parser,
};

verus! {

/// Whether `c` is a hexadecimal digit.
pub open spec fn spec_is_hex_digit(c: char) -> bool {
    '0' <= c <= '9' || 'a' <= c <= 'f' || 'A' <= c <= 'F'
}

/// The number that the hexadecimal digit `c` stands for.
pub open spec fn spec_hex_value(c: char) -> int {
    if '0' <= c <= '9' {
        c as int - '0' as int
    } else if 'a' <= c <= 'f' {
        c as int - 'a' as int + 10
    } else {
        c as int - 'A' as int + 10
    }
}

/// The byte written as two hexadecimal digits at `pos`. Where a digit is
/// missing, the error is at the place where it should stand.
pub open spec fn spec_parse_hex_pair(s: Seq<char>, pos: int) -> Result<(u8, int), ParseError> {
    if !(0 <= pos < s.len() && spec_is_hex_digit(s[pos])) {
        Err(syntax_error(pos))
    } else if !(pos + 1 < s.len() && spec_is_hex_digit(s[pos + 1])) {
        Err(syntax_error(pos + 1))
    } else {
        Ok(((16 * spec_hex_value(s[pos]) + spec_hex_value(s[pos + 1])) as u8, pos + 2))
    }
}

/// The color written at `pos` as `#` and three pairs of hexadecimal
/// digits, for red, green and blue. It is opaque.
pub open spec fn spec_parse_color(s: Seq<char>, pos: int) -> Result<(ValueView, int), ParseError> {
    if !(0 <= pos < s.len() && s[pos] == '#') {
        Err(syntax_error(pos))
    } else {
        match spec_parse_hex_pair(s, pos + 1) {
            Err(e) => Err(e),
            Ok((r, after_red)) => match spec_parse_hex_pair(s, after_red) {
                Err(e) => Err(e),
                Ok((g, after_green)) => match spec_parse_hex_pair(s, after_green) {
                    Err(e) => Err(e),
                    Ok((b, end)) => Ok((ValueView::ColorValue(Color { r, g, b, a: 255 }), end)),
                },
            },
        }
    }
}

/// The number written at `pos`: digits, and at most one decimal point
/// among or after them. A second decimal point in the run is a syntax
/// error at that point.
pub open spec fn spec_parse_number(s: Seq<char>, pos: int) -> Result<(NumberView, int), ParseError> {
    let point = scan(s, pos, CharClass::Digit);
    if 0 <= point < s.len() && s[point] == '.' {
        let end = scan(s, point + 1, CharClass::Digit);
        if 0 <= end < s.len() && s[end] == '.' {
            Err(syntax_error(end))
        } else {
            Ok(
                (
                    NumberView {
                        integer: s.subrange(pos, point),
                        fraction: s.subrange(point + 1, end),
                    },
                    end,
                ),
            )
        }
    } else {
        Ok((NumberView { integer: s.subrange(pos, point), fraction: Seq::empty() }, point))
    }
}

/// Whether `unit` is `px`, in upper or lower case.
pub open spec fn spec_is_px(unit: Seq<char>) -> bool {
    &&& unit.len() == 2
    &&& (unit[0] == 'p' || unit[0] == 'P')
    &&& (unit[1] == 'x' || unit[1] == 'X')
}

/// The unit written at `pos`. An identifier other than `px`, or none at
/// all, is an unsupported unit.
pub open spec fn spec_parse_unit(s: Seq<char>, pos: int) -> Result<(Unit, int), ParseError> {
    let end = scan(s, pos, CharClass::Identifier);
    if spec_is_px(s.subrange(pos, end)) {
        Ok((Unit::Px, end))
    } else {
        Err(ParseError::UnsupportedUnit { offset: pos as usize })
    }
}

/// The length written at `pos`: a number and its unit.
pub open spec fn spec_parse_length(s: Seq<char>, pos: int) -> Result<(ValueView, int), ParseError> {
    match spec_parse_number(s, pos) {
        Err(e) => Err(e),
        Ok((number, p)) => match spec_parse_unit(s, p) {
            Err(e) => Err(e),
            Ok((unit, end)) => Ok((ValueView::Length(number, unit), end)),
        },
    }
}

/// The value written at `pos`: a length where a digit stands, a color
/// where `#` stands, and else the identifier that stands there, which is
/// a keyword unless it is `inherit`.
pub open spec fn spec_parse_value(s: Seq<char>, pos: int) -> Result<(ValueView, int), ParseError> {
    if !(0 <= pos < s.len()) {
        Err(syntax_error(pos))
    } else if spec_is_digit(s[pos]) {
        spec_parse_length(s, pos)
    } else if s[pos] == '#' {
        spec_parse_color(s, pos)
    } else {
        let end = scan(s, pos, CharClass::Identifier);
        let word = s.subrange(pos, end);
        if word == "inherit"@ {
            Ok((ValueView::Inherit, end))
        } else {
            Ok((ValueView::Keyword(word), end))
        }
    }
}

/// The declaration written at `pos`: a name, `:`, a value, `!important`
/// or not, and `;`, with white space allowed around each but the name's
/// start.
pub open spec fn spec_parse_declaration(s: Seq<char>, pos: int) -> Result<
    (DeclarationView, int),
    ParseError,
> {
    let name_end = scan(s, pos, CharClass::Identifier);
    let colon = scan(s, name_end, CharClass::Whitespace);
    if !(0 <= colon < s.len() && s[colon] == ':') {
        Err(syntax_error(colon))
    } else {
        match spec_parse_value(s, scan(s, colon + 1, CharClass::Whitespace)) {
            Err(e) => Err(e),
            Ok((value, value_end)) => {
                let p = scan(s, value_end, CharClass::Whitespace);
                let important = spec_starts_with(s, p, "!important"@);
                let semicolon = if important {
                    scan(s, p + "!important"@.len(), CharClass::Whitespace)
                } else {
                    p
                };
                if !(0 <= semicolon < s.len() && s[semicolon] == ';') {
                    Err(syntax_error(semicolon))
                } else {
                    Ok(
                        (
                            DeclarationView { name: s.subrange(pos, name_end), value, important },
                            semicolon + 1,
                        ),
                    )
                }
            },
        }
    }
}

/// The declarations written from `pos` up to the `}` that closes their
/// block, and the position after it.
pub open spec fn spec_parse_declaration_list(s: Seq<char>, pos: int) -> Result<
    (Seq<DeclarationView>, int),
    ParseError,
>
    decreases s.len() - pos,
{
    let p = scan(s, pos, CharClass::Whitespace);
    if !(0 <= pos <= p < s.len()) {
        Err(syntax_error(p))
    } else if s[p] == '}' {
        Ok((Seq::empty(), p + 1))
    } else {
        match spec_parse_declaration(s, p) {
            Err(e) => Err(e),
            Ok((declaration, next)) => {
                proof {
                    lemma_parse_declaration_bounds(s, p);
                }
                match spec_parse_declaration_list(s, next) {
                    Err(e) => Err(e),
                    Ok((rest, end)) => Ok((seq![declaration] + rest, end)),
                }
            },
        }
    }
}

/// The block of declarations written at `pos`: `{`, declarations, `}`.
pub open spec fn spec_parse_declarations(s: Seq<char>, pos: int) -> Result<
    (Seq<DeclarationView>, int),
    ParseError,
> {
    if !(0 <= pos < s.len() && s[pos] == '{') {
        Err(syntax_error(pos))
    } else {
        spec_parse_declaration_list(s, pos + 1)
    }
}

/// The selector without any constraint.
pub open spec fn universal_selector() -> SimpleSelectorView {
    SimpleSelectorView { tag_name: None, id: None, class: Seq::empty() }
}

/// The simple selector that `so_far` becomes by the parts written from
/// `pos` on: `#` and an identifier set the id, `.` and an identifier
/// add a class, an identifier sets the tag name, and `*` changes
/// nothing. The selector ends before the first character that starts
/// none of these.
pub open spec fn spec_parse_simple_selector_from(
    s: Seq<char>,
    pos: int,
    so_far: SimpleSelectorView,
) -> (SimpleSelectorView, int)
    decreases s.len() - pos,
{
    if !(0 <= pos < s.len()) {
        (so_far, pos)
    } else if s[pos] == '#' {
        let end = scan(s, pos + 1, CharClass::Identifier);
        proof {
            lemma_scan(s, pos + 1, CharClass::Identifier);
        }
        spec_parse_simple_selector_from(
            s,
            end,
            SimpleSelectorView { id: Some(s.subrange(pos + 1, end)), ..so_far },
        )
    } else if s[pos] == '.' {
        let end = scan(s, pos + 1, CharClass::Identifier);
        proof {
            lemma_scan(s, pos + 1, CharClass::Identifier);
        }
        spec_parse_simple_selector_from(
            s,
            end,
            SimpleSelectorView { class: so_far.class.push(s.subrange(pos + 1, end)), ..so_far },
        )
    } else if s[pos] == '*' {
        spec_parse_simple_selector_from(s, pos + 1, so_far)
    } else if spec_valid_identifier_char(s[pos]) {
        let end = scan(s, pos, CharClass::Identifier);
        proof {
            lemma_scan(s, pos + 1, CharClass::Identifier);
        }
        spec_parse_simple_selector_from(
            s,
            end,
            SimpleSelectorView { tag_name: Some(s.subrange(pos, end)), ..so_far },
        )
    } else {
        (so_far, pos)
    }
}

/// The simple selector written at `pos`.
pub open spec fn spec_parse_simple_selector(s: Seq<char>, pos: int) -> (SimpleSelectorView, int) {
    spec_parse_simple_selector_from(s, pos, universal_selector())
}

/// The selectors written at `pos`, separated by commas, in the order in
/// which they are written, and the position of the `{` that ends them.
pub open spec fn spec_parse_selector_list(s: Seq<char>, pos: int) -> Result<
    (Seq<SelectorView>, int),
    ParseError,
>
    decreases s.len() - pos,
{
    let (selector, selector_end) = spec_parse_simple_selector(s, pos);
    let p = scan(s, selector_end, CharClass::Whitespace);
    if !(0 <= pos <= p < s.len()) {
        Err(syntax_error(p))
    } else if s[p] == '{' {
        Ok((seq![SelectorView::Simple(selector)], p))
    } else if s[p] == ',' {
        proof {
            lemma_scan(s, p + 1, CharClass::Whitespace);
        }
        match spec_parse_selector_list(s, scan(s, p + 1, CharClass::Whitespace)) {
            Err(e) => Err(e),
            Ok((rest, end)) => Ok((seq![SelectorView::Simple(selector)] + rest, end)),
        }
    } else {
        Err(syntax_error(p))
    }
}

/// `sorted` with `selector` put in after the selectors that are at least
/// as specific as it is.
pub open spec fn insert_by_specificity(sorted: Seq<SelectorView>, selector: SelectorView) -> Seq<
    SelectorView,
>
    decreases sorted.len(),
{
    if sorted.len() > 0 && triple_lt(sorted.last().specificity(), selector.specificity()) {
        insert_by_specificity(sorted.drop_last(), selector).push(sorted.last())
    } else {
        sorted.push(selector)
    }
}

/// `selectors` in the order of descending specificity, with selectors of
/// equal specificity in the order in which they stand in `selectors`.
pub open spec fn sort_by_specificity(selectors: Seq<SelectorView>) -> Seq<SelectorView>
    decreases selectors.len(),
{
    if selectors.len() == 0 {
        Seq::empty()
    } else {
        insert_by_specificity(sort_by_specificity(selectors.drop_last()), selectors.last())
    }
}

/// The selectors of the rule written at `pos`, the most specific first,
/// and the position of the `{` that ends them.
pub open spec fn spec_parse_selectors(s: Seq<char>, pos: int) -> Result<
    (Seq<SelectorView>, int),
    ParseError,
> {
    match spec_parse_selector_list(s, pos) {
        Err(e) => Err(e),
        Ok((selectors, end)) => Ok((sort_by_specificity(selectors), end)),
    }
}

/// The rule written at `pos`: selectors and a block of declarations.
pub open spec fn spec_parse_rule(s: Seq<char>, pos: int) -> Result<(RuleView, int), ParseError> {
    match spec_parse_selectors(s, pos) {
        Err(e) => Err(e),
        Ok((selectors, brace)) => match spec_parse_declarations(s, brace) {
            Err(e) => Err(e),
            Ok((declarations, end)) => Ok((RuleView { selectors, declarations }, end)),
        },
    }
}

/// The rules written from `pos` to the end of the text, with white space
/// before, between and after them.
pub open spec fn spec_parse_rules(s: Seq<char>, pos: int) -> Result<Seq<RuleView>, ParseError>
    decreases s.len() - pos,
{
    let p = scan(s, pos, CharClass::Whitespace);
    if !(0 <= pos <= p < s.len()) {
        Ok(Seq::empty())
    } else {
        match spec_parse_rule(s, p) {
            Err(e) => Err(e),
            Ok((rule, next)) => {
                proof {
                    lemma_parse_rule_bounds(s, p);
                }
                match spec_parse_rules(s, next) {
                    Err(e) => Err(e),
                    Ok(rest) => Ok(seq![rule] + rest),
                }
            },
        }
    }
}

/// A value that is parsed ends at or after its start and within the
/// text.
pub proof fn lemma_parse_value_bounds(s: Seq<char>, pos: int)
    requires
        0 <= pos <= s.len(),
    ensures
        spec_parse_value(s, pos) matches Ok((_, end)) ==> pos <= end <= s.len(),
{
    lemma_scan(s, pos, CharClass::Identifier);
    lemma_scan(s, pos, CharClass::Digit);
    let point = scan(s, pos, CharClass::Digit);
    if point < s.len() {
        lemma_scan(s, point + 1, CharClass::Digit);
        lemma_scan(s, scan(s, point + 1, CharClass::Digit), CharClass::Identifier);
    }
    lemma_scan(s, point, CharClass::Identifier);
}

/// A declaration that is parsed ends after its start and within the text.
pub proof fn lemma_parse_declaration_bounds(s: Seq<char>, pos: int)
    requires
        0 <= pos <= s.len(),
    ensures
        spec_parse_declaration(s, pos) matches Ok((_, end)) ==> pos < end <= s.len(),
{
    let name_end = scan(s, pos, CharClass::Identifier);
    lemma_scan(s, pos, CharClass::Identifier);
    let colon = scan(s, name_end, CharClass::Whitespace);
    lemma_scan(s, name_end, CharClass::Whitespace);
    if colon < s.len() {
        let value_start = scan(s, colon + 1, CharClass::Whitespace);
        lemma_scan(s, colon + 1, CharClass::Whitespace);
        lemma_parse_value_bounds(s, value_start);
        if let Ok((_, value_end)) = spec_parse_value(s, value_start) {
            let p = scan(s, value_end, CharClass::Whitespace);
            lemma_scan(s, value_end, CharClass::Whitespace);
            if spec_starts_with(s, p, "!important"@) {
                lemma_scan(s, p + "!important"@.len(), CharClass::Whitespace);
            }
        }
    }
}

/// A list of declarations that is parsed ends after its start and within
/// the text.
pub proof fn lemma_parse_declaration_list_bounds(s: Seq<char>, pos: int)
    requires
        0 <= pos <= s.len(),
    ensures
        spec_parse_declaration_list(s, pos) matches Ok((_, end)) ==> pos < end <= s.len(),
    decreases s.len() - pos,
{
    let p = scan(s, pos, CharClass::Whitespace);
    lemma_scan(s, pos, CharClass::Whitespace);
    if p < s.len() && s[p] != '}' {
        lemma_parse_declaration_bounds(s, p);
        if let Ok((_, next)) = spec_parse_declaration(s, p) {
            lemma_parse_declaration_list_bounds(s, next);
        }
    }
}

/// A simple selector ends at or after its start and within the text.
pub proof fn lemma_parse_simple_selector_bounds(s: Seq<char>, pos: int, so_far: SimpleSelectorView)
    requires
        0 <= pos <= s.len(),
    ensures
        pos <= spec_parse_simple_selector_from(s, pos, so_far).1 <= s.len(),
    decreases s.len() - pos,
{
    if pos < s.len() {
        if s[pos] == '#' {
            let end = scan(s, pos + 1, CharClass::Identifier);
            lemma_scan(s, pos + 1, CharClass::Identifier);
            lemma_parse_simple_selector_bounds(
                s,
                end,
                SimpleSelectorView { id: Some(s.subrange(pos + 1, end)), ..so_far },
            );
        } else if s[pos] == '.' {
            let end = scan(s, pos + 1, CharClass::Identifier);
            lemma_scan(s, pos + 1, CharClass::Identifier);
            lemma_parse_simple_selector_bounds(
                s,
                end,
                SimpleSelectorView { class: so_far.class.push(s.subrange(pos + 1, end)), ..so_far },
            );
        } else if s[pos] == '*' {
            lemma_parse_simple_selector_bounds(s, pos + 1, so_far);
        } else if spec_valid_identifier_char(s[pos]) {
            let end = scan(s, pos, CharClass::Identifier);
            lemma_scan(s, pos + 1, CharClass::Identifier);
            lemma_parse_simple_selector_bounds(
                s,
                end,
                SimpleSelectorView { tag_name: Some(s.subrange(pos, end)), ..so_far },
            );
        }
    }
}

/// A list of selectors that is parsed ends, at or after its start, at a
/// `{` of the text.
pub proof fn lemma_parse_selector_list_bounds(s: Seq<char>, pos: int)
    requires
        0 <= pos <= s.len(),
    ensures
        spec_parse_selector_list(s, pos) matches Ok((_, end)) ==> pos <= end < s.len() && s[end]
            == '{',
    decreases s.len() - pos,
{
    let (selector, selector_end) = spec_parse_simple_selector(s, pos);
    lemma_parse_simple_selector_bounds(s, pos, universal_selector());
    let p = scan(s, selector_end, CharClass::Whitespace);
    lemma_scan(s, selector_end, CharClass::Whitespace);
    if p < s.len() && s[p] == ',' {
        lemma_scan(s, p + 1, CharClass::Whitespace);
        lemma_parse_selector_list_bounds(s, scan(s, p + 1, CharClass::Whitespace));
    }
}

/// A rule that is parsed ends after its start and within the text.
pub proof fn lemma_parse_rule_bounds(s: Seq<char>, pos: int)
    requires
        0 <= pos <= s.len(),
    ensures
        spec_parse_rule(s, pos) matches Ok((_, end)) ==> pos < end <= s.len(),
{
    lemma_parse_selector_list_bounds(s, pos);
    if let Ok((_, brace)) = spec_parse_selector_list(s, pos) {
        lemma_parse_declaration_list_bounds(s, brace + 1);
    }
}

/// The number that `c` stands for as a hexadecimal digit, if it is one.
pub fn hex_digit(c: char) -> (r: Option<u8>)
    ensures
        match r {
            Some(v) => spec_is_hex_digit(c) && v == spec_hex_value(c),
            None => !spec_is_hex_digit(c),
        },
{
    if '0' <= c && c <= '9' {
        Some((c as u32 - '0' as u32) as u8)
    } else if 'a' <= c && c <= 'f' {
        Some((c as u32 - 'a' as u32 + 10) as u8)
    } else if 'A' <= c && c <= 'F' {
        Some((c as u32 - 'A' as u32 + 10) as u8)
    } else {
        None
    }
}

/// Whether `unit` is `px`, in upper or lower case.
pub fn is_px(unit: &str) -> (r: bool)
    ensures
        r == spec_is_px(unit@),
{
    let chars = crate::strings::to_chars(unit);
    chars.len() == 2 && (chars[0] == 'p' || chars[0] == 'P') && (chars[1] == 'x' || chars[1] == 'X')
}

impl Parser {
    /// Parses two hexadecimal digits as one byte.
    pub fn parse_hex_pair(&mut self) -> (r: Result<u8, ParseError>)
        requires
            old(self).wf(),
        ensures
            final(self).wf(),
            final(self).input == old(self).input,
            match spec_parse_hex_pair(old(self).input@, old(self).pos as int) {
                Ok((v, end)) => r == Ok::<u8, ParseError>(v) && final(self).pos == end,
                Err(e) => r == Err::<u8, ParseError>(e),
            },
    {
        if self.eof() {
            return Err(ParseError::Syntax { offset: self.pos });
        }
        let high = match hex_digit(self.next_char()) {
            Some(v) => v,
            None => {
                return Err(ParseError::Syntax { offset: self.pos });
            },
        };
        self.pos += 1;
        if self.eof() {
            return Err(ParseError::Syntax { offset: self.pos });
        }
        let low = match hex_digit(self.next_char()) {
            Some(v) => v,
            None => {
                return Err(ParseError::Syntax { offset: self.pos });
            },
        };
        self.pos += 1;
        Ok(16 * high + low)
    }

    /// Parses a color: `#` and six hexadecimal digits.
    pub fn parse_color(&mut self) -> (r: Result<Value, ParseError>)
        requires
            old(self).wf(),
        ensures
            final(self).wf(),
            final(self).input == old(self).input,
            match spec_parse_color(old(self).input@, old(self).pos as int) {
                Ok((v, end)) => r is Ok && r->Ok_0@ == v && final(self).pos == end,
                Err(e) => r == Err::<Value, ParseError>(e),
            },
    {
        self.expect_char('#')?;
        let r = self.parse_hex_pair()?;
        let g = self.parse_hex_pair()?;
        let b = self.parse_hex_pair()?;
        Ok(Value::ColorValue(Color { r, g, b, a: 255 }))
    }

    /// Parses a number: digits with at most one decimal point.
    pub fn parse_number(&mut self) -> (r: Result<Number, ParseError>)
        requires
            old(self).wf(),
        ensures
            final(self).wf(),
            final(self).input == old(self).input,
            match spec_parse_number(old(self).input@, old(self).pos as int) {
                Ok((v, end)) => r is Ok && r->Ok_0@ == v && final(self).pos == end,
                Err(e) => r == Err::<Number, ParseError>(e),
            },
    {
        let integer = self.consume_while(CharClass::Digit);
        if !self.eof() && self.next_char() == '.' {
            self.pos += 1;
            let fraction = self.consume_while(CharClass::Digit);
            if !self.eof() && self.next_char() == '.' {
                return Err(ParseError::Syntax { offset: self.pos });
            }
            Ok(Number { integer, fraction })
        } else {
            Ok(Number { integer, fraction: String::new() })
        }
    }

    /// Parses the unit of a length.
    pub fn parse_unit(&mut self) -> (r: Result<Unit, ParseError>)
        requires
            old(self).wf(),
        ensures
            final(self).wf(),
            final(self).input == old(self).input,
            match spec_parse_unit(old(self).input@, old(self).pos as int) {
                Ok((v, end)) => r == Ok::<Unit, ParseError>(v) && final(self).pos == end,
                Err(e) => r == Err::<Unit, ParseError>(e),
            },
    {
        let start = self.pos;
        let unit = self.parse_identifier();
        if is_px(unit.as_str()) {
            Ok(Unit::Px)
        } else {
            Err(ParseError::UnsupportedUnit { offset: start })
        }
    }

    /// Parses a length: a number and its unit.
    pub fn parse_length(&mut self) -> (r: Result<Value, ParseError>)
        requires
            old(self).wf(),
        ensures
            final(self).wf(),
            final(self).input == old(self).input,
            match spec_parse_length(old(self).input@, old(self).pos as int) {
                Ok((v, end)) => r is Ok && r->Ok_0@ == v && final(self).pos == end,
                Err(e) => r == Err::<Value, ParseError>(e),
            },
    {
        let number = self.parse_number()?;
        let unit = self.parse_unit()?;
        Ok(Value::Length(number, unit))
    }

    /// Parses a value: a length, a color, a keyword or `inherit`.
    pub fn parse_value(&mut self) -> (r: Result<Value, ParseError>)
        requires
            old(self).wf(),
        ensures
            final(self).wf(),
            final(self).input == old(self).input,
            match spec_parse_value(old(self).input@, old(self).pos as int) {
                Ok((v, end)) => r is Ok && r->Ok_0@ == v && final(self).pos == end,
                Err(e) => r == Err::<Value, ParseError>(e),
            },
    {
        if self.eof() {
            return Err(ParseError::Syntax { offset: self.pos });
        }
        let c = self.next_char();
        if crate::parser::is_digit(c) {
            self.parse_length()
        } else if c == '#' {
            self.parse_color()
        } else {
            let keyword = self.parse_identifier();
            if crate::strings::str_eq(keyword.as_str(), "inherit") {
                Ok(Value::Inherit)
            } else {
                Ok(Value::Keyword(keyword))
            }
        }
    }
}

impl Parser {
    /// Parses a declaration: `name: value;` or `name: value !important;`.
    pub fn parse_declaration(&mut self) -> (r: Result<Declaration, ParseError>)
        requires
            old(self).wf(),
        ensures
            final(self).wf(),
            final(self).input == old(self).input,
            match spec_parse_declaration(old(self).input@, old(self).pos as int) {
                Ok((v, end)) => r is Ok && r->Ok_0@ == v && final(self).pos == end,
                Err(e) => r == Err::<Declaration, ParseError>(e),
            },
    {
        let name = self.parse_identifier();
        self.consume_whitespace();
        self.expect_char(':')?;
        self.consume_whitespace();
        let value = self.parse_value()?;
        self.consume_whitespace();
        let important = self.starts_with("!important");
        if important {
            let _ = self.expect("!important");
            self.consume_whitespace();
        }
        self.expect_char(';')?;
        Ok(Declaration { name, value, important })
    }

    /// Parses a block of declarations: `{`, declarations, `}`.
    pub fn parse_declarations(&mut self) -> (r: Result<Vec<Declaration>, ParseError>)
        requires
            old(self).wf(),
        ensures
            final(self).wf(),
            final(self).input == old(self).input,
            match spec_parse_declarations(old(self).input@, old(self).pos as int) {
                Ok((v, end)) => r is Ok && views(r->Ok_0@) == v && final(self).pos == end,
                Err(e) => r == Err::<Vec<Declaration>, ParseError>(e),
            },
    {
        self.expect_char('{')?;
        let ghost start = self.pos as int;
        let ghost s = self.input@;
        let mut declarations: Vec<Declaration> = Vec::new();
        assert(views(declarations@) =~= Seq::<DeclarationView>::empty());
        loop
            invariant
                self.wf(),
                self.input == old(self).input,
                s == self.input@,
                spec_parse_declarations(s, old(self).pos as int) == spec_parse_declaration_list(
                    s,
                    start,
                ),
                spec_parse_declaration_list(s, start) == (match spec_parse_declaration_list(
                    s,
                    self.pos as int,
                ) {
                    Ok((rest, end)) => Ok((views(declarations@) + rest, end)),
                    Err(e) => Err(e),
                }),
            decreases self.input.len() - self.pos,
        {
            let ghost before = self.pos as int;
            let ghost done = views(declarations@);
            self.consume_whitespace();
            proof {
                lemma_scan(s, before, CharClass::Whitespace);
            }
            if self.eof() {
                return Err(ParseError::Syntax { offset: self.pos });
            }
            if self.next_char() == '}' {
                self.pos += 1;
                assert(done + Seq::<DeclarationView>::empty() =~= done);
                return Ok(declarations);
            }
            let ghost at = self.pos as int;
            proof {
                lemma_parse_declaration_bounds(s, at);
            }
            let declaration = self.parse_declaration()?;
            declarations.push(declaration);
            proof {
                assert(views(declarations@) =~= done.push(declaration@));
                match spec_parse_declaration_list(s, self.pos as int) {
                    Ok((rest, end)) => {
                        assert(done + (seq![declaration@] + rest) =~= views(declarations@) + rest);
                    },
                    Err(e) => {},
                }
            }
        }
    }

    /// Parses a simple selector, such as `tag#id.class1.class2`.
    pub fn parse_simple_selector(&mut self) -> (selector: SimpleSelector)
        requires
            old(self).wf(),
        ensures
            final(self).wf(),
            final(self).input == old(self).input,
            selector@ == spec_parse_simple_selector(old(self).input@, old(self).pos as int).0,
            final(self).pos == spec_parse_simple_selector(old(self).input@, old(self).pos as int).1,
    {
        let mut selector = SimpleSelector { tag_name: None, id: None, class: Vec::new() };
        let ghost s = self.input@;
        assert(views(selector.class@) =~= Seq::<Seq<char>>::empty());
        while !self.eof()
            invariant
                self.wf(),
                self.input == old(self).input,
                s == self.input@,
                spec_parse_simple_selector(s, old(self).pos as int)
                    == spec_parse_simple_selector_from(s, self.pos as int, selector@),
            ensures
                selector@ == spec_parse_simple_selector(s, old(self).pos as int).0,
                self.pos == spec_parse_simple_selector(s, old(self).pos as int).1,
                self.wf(),
                self.input == old(self).input,
            decreases self.input.len() - self.pos,
        {
            let c = self.next_char();
            let ghost at = self.pos as int;
            let ghost so_far = selector@;
            proof {
                lemma_scan(s, at + 1, CharClass::Identifier);
            }
            if c == '#' {
                self.pos += 1;
                selector.id = Some(self.parse_identifier());
                assert(selector@ =~= SimpleSelectorView {
                    id: Some(s.subrange(at + 1, self.pos as int)),
                    ..so_far
                });
            } else if c == '.' {
                self.pos += 1;
                let class = self.parse_identifier();
                selector.class.push(class);
                assert(views(selector.class@) =~= so_far.class.push(class@));
                assert(selector@ =~= SimpleSelectorView {
                    class: so_far.class.push(s.subrange(at + 1, self.pos as int)),
                    ..so_far
                });
            } else if c == '*' {
                self.pos += 1;
            } else if crate::parser::valid_identifier_char(c) {
                selector.tag_name = Some(self.parse_identifier());
                assert(selector@ =~= SimpleSelectorView {
                    tag_name: Some(s.subrange(at, self.pos as int)),
                    ..so_far
                });
            } else {
                break;
            }
        }
        selector
    }
}

/// Whether specificity `a` is strictly lower than `b`.
pub fn specificity_lt(a: Specificity, b: Specificity) -> (r: bool)
    ensures
        r == triple_lt(specificity_view(a), specificity_view(b)),
{
    a.0 < b.0 || (a.0 == b.0 && (a.1 < b.1 || (a.1 == b.1 && a.2 < b.2)))
}

/// Inserting into a list whose end is less specific than the selector
/// leaves that end in place.
proof fn lemma_insert_by_specificity_split(sorted: Seq<SelectorView>, selector: SelectorView, j: int)
    requires
        0 <= j <= sorted.len(),
        forall|k: int| j <= k < sorted.len() ==> triple_lt(
            (#[trigger] sorted[k]).specificity(),
            selector.specificity(),
        ),
    ensures
        insert_by_specificity(sorted, selector) == insert_by_specificity(sorted.take(j), selector)
            + sorted.skip(j),
    decreases sorted.len() - j,
{
    if j == sorted.len() {
        assert(sorted.take(j) =~= sorted);
        assert(insert_by_specificity(sorted, selector) + sorted.skip(j) =~= insert_by_specificity(
            sorted,
            selector,
        ));
    } else {
        lemma_insert_by_specificity_split(sorted.drop_last(), selector, j);
        assert(sorted.drop_last().take(j) =~= sorted.take(j));
        assert(insert_by_specificity(sorted.take(j), selector) + sorted.skip(j) =~= (
        insert_by_specificity(sorted.take(j), selector) + sorted.drop_last().skip(j)).push(
            sorted.last(),
        ));
    }
}

/// Puts `selector` into `sorted` after the selectors that are at least as
/// specific as it is.
pub fn insert_selector(sorted: &mut Vec<Selector>, selector: Selector)
    ensures
        views(final(sorted)@) == insert_by_specificity(views(old(sorted)@), selector@),
{
    let specificity = selector.specificity();
    let mut j: usize = sorted.len();
    while j > 0 && specificity_lt(sorted[j - 1].specificity(), specificity)
        invariant
            j <= sorted.len(),
            sorted == old(sorted),
            specificity_view(specificity) == selector@.specificity(),
            forall|k: int| j <= k < sorted.len() ==> triple_lt(
                (#[trigger] views(sorted@)[k]).specificity(),
                selector@.specificity(),
            ),
        decreases j,
    {
        j -= 1;
    }
    proof {
        let before = views(sorted@);
        lemma_insert_by_specificity_split(before, selector@, j as int);
        if j > 0 {
            assert(before.take(j as int).last() == before[j - 1]);
        }
        assert(insert_by_specificity(before.take(j as int), selector@) == before.take(j as int).push(
            selector@,
        ));
    }
    sorted.insert(j, selector);
    assert(views(sorted@) =~= views(old(sorted)@).take(j as int).push(selector@) + views(
        old(sorted)@,
    ).skip(j as int));
}

impl Parser {
    /// Parses the selectors of a rule, separated by commas, up to the `{`
    /// that follows them, and returns them with the most specific first.
    pub fn parse_selectors(&mut self) -> (r: Result<Vec<Selector>, ParseError>)
        requires
            old(self).wf(),
        ensures
            final(self).wf(),
            final(self).input == old(self).input,
            match spec_parse_selectors(old(self).input@, old(self).pos as int) {
                Ok((v, end)) => r is Ok && views(r->Ok_0@) == v && final(self).pos == end,
                Err(e) => r == Err::<Vec<Selector>, ParseError>(e),
            },
    {
        let ghost s = self.input@;
        let ghost start = self.pos as int;
        let mut selectors: Vec<Selector> = Vec::new();
        let ghost mut parsed: Seq<SelectorView> = Seq::empty();
        assert(views(selectors@) =~= sort_by_specificity(parsed));
        loop
            invariant
                self.wf(),
                self.input == old(self).input,
                s == self.input@,
                start == old(self).pos,
                views(selectors@) == sort_by_specificity(parsed),
                spec_parse_selector_list(s, start) == (match spec_parse_selector_list(
                    s,
                    self.pos as int,
                ) {
                    Ok((rest, end)) => Ok((parsed + rest, end)),
                    Err(e) => Err(e),
                }),
            decreases self.input.len() - self.pos,
        {
            let ghost at = self.pos as int;
            let ghost done = parsed;
            let selector = Selector::Simple(self.parse_simple_selector());
            proof {
                lemma_parse_simple_selector_bounds(s, at, universal_selector());
                lemma_scan(s, self.pos as int, CharClass::Whitespace);
                parsed = done.push(selector@);
                assert(parsed.drop_last() =~= done);
            }
            insert_selector(&mut selectors, selector);
            self.consume_whitespace();
            if self.eof() {
                return Err(ParseError::Syntax { offset: self.pos });
            }
            let c = self.next_char();
            if c == '{' {
                assert(done + seq![selector@] =~= parsed);
                return Ok(selectors);
            } else if c == ',' {
                self.pos += 1;
                proof {
                    lemma_scan(s, self.pos as int, CharClass::Whitespace);
                }
                self.consume_whitespace();
                proof {
                    match spec_parse_selector_list(s, self.pos as int) {
                        Ok((rest, end)) => {
                            assert(done + (seq![selector@] + rest) =~= parsed + rest);
                        },
                        Err(e) => {},
                    }
                }
            } else {
                return Err(ParseError::Syntax { offset: self.pos });
            }
        }
    }

    /// Parses a rule: selectors and a block of declarations.
    pub fn parse_rule(&mut self) -> (r: Result<Rule, ParseError>)
        requires
            old(self).wf(),
        ensures
            final(self).wf(),
            final(self).input == old(self).input,
            match spec_parse_rule(old(self).input@, old(self).pos as int) {
                Ok((v, end)) => r is Ok && r->Ok_0@ == v && final(self).pos == end,
                Err(e) => r == Err::<Rule, ParseError>(e),
            },
    {
        let selectors = self.parse_selectors()?;
        let declarations = self.parse_declarations()?;
        Ok(Rule { selectors, declarations })
    }

    /// Parses rules up to the end of the text.
    pub fn parse_rules(&mut self) -> (r: Result<Vec<Rule>, ParseError>)
        requires
            old(self).wf(),
        ensures
            final(self).wf(),
            final(self).input == old(self).input,
            match spec_parse_rules(old(self).input@, old(self).pos as int) {
                Ok(v) => r is Ok && views(r->Ok_0@) == v,
                Err(e) => r == Err::<Vec<Rule>, ParseError>(e),
            },
    {
        let ghost s = self.input@;
        let ghost start = self.pos as int;
        let mut rules: Vec<Rule> = Vec::new();
        assert(views(rules@) =~= Seq::<RuleView>::empty());
        loop
            invariant
                self.wf(),
                self.input == old(self).input,
                s == self.input@,
                start == old(self).pos,
                spec_parse_rules(s, start) == (match spec_parse_rules(s, self.pos as int) {
                    Ok(rest) => Ok(views(rules@) + rest),
                    Err(e) => Err(e),
                }),
            decreases self.input.len() - self.pos,
        {
            let ghost done = views(rules@);
            proof {
                lemma_scan(s, self.pos as int, CharClass::Whitespace);
            }
            self.consume_whitespace();
            if self.eof() {
                assert(done + Seq::<RuleView>::empty() =~= done);
                return Ok(rules);
            }
            proof {
                lemma_parse_rule_bounds(s, self.pos as int);
            }
            let rule = self.parse_rule()?;
            rules.push(rule);
            proof {
                assert(views(rules@) =~= done.push(rule@));
                match spec_parse_rules(s, self.pos as int) {
                    Ok(rest) => {
                        assert(done + (seq![rule@] + rest) =~= views(rules@) + rest);
                    },
                    Err(e) => {},
                }
            }
        }
    }
}

/// The declarations that the text of a `style` attribute holds: those of
/// the block that the text makes between `{` and `}`, if such a block can
/// be parsed and nothing follows it. `None` if the text is malformed.
pub open spec fn spec_parse_style_attribute(style: Seq<char>) -> Option<Seq<DeclarationView>> {
    let text = seq!['{'] + style + seq!['}'];
    match spec_parse_declarations(text, 0) {
        Ok((declarations, end)) => if end == text.len() {
            Some(declarations)
        } else {
            None
        },
        Err(_) => None,
    }
}

/// Parses the text of a `style` attribute into its declarations. A
/// malformed text gives `None`.
pub fn parse_style_attribute(style: &str) -> (r: Option<Vec<Declaration>>)
    ensures
        match spec_parse_style_attribute(style@) {
            Some(v) => r is Some && views(r->Some_0@) == v,
            None => r is None,
        },
{
    let mut input: Vec<char> = Vec::new();
    input.push('{');
    let mut body = crate::strings::to_chars(style);
    input.append(&mut body);
    input.push('}');
    assert(input@ =~= seq!['{'] + style@ + seq!['}']);
    let mut parser = Parser { pos: 0, input };
    match parser.parse_declarations() {
        Ok(declarations) => if parser.eof() {
            Some(declarations)
        } else {
            None
        },
        Err(_) => None,
    }
}

} // verus!
