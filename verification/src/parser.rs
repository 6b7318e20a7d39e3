//! The text cursor that the parsers share: a position in a sequence of
//! characters, with the primitives that look at the input and move on.

use vstd::prelude::*;
use crate::strings::{from_chars, to_chars};

verus! {

/// Why a text could not be parsed, with the offset of the character at
/// which parsing stopped, counted in characters from the start of the
/// text. Where the text ended too early the offset is its length.
#[derive(Debug, Clone, Copy, PartialEq, Eq, Structural)]
pub enum ParseError {
    /// The text does not follow the grammar at `offset`.
    Syntax { offset: usize },
    /// A length is given in a unit other than pixels; the unit starts at
    /// `offset`.
    UnsupportedUnit { offset: usize },
}

impl ParseError {
    /// The offset at which parsing stopped.
    pub fn offset(&self) -> (r: usize)
        ensures
            r == match *self {
                ParseError::Syntax { offset } => offset,
                ParseError::UnsupportedUnit { offset } => offset,
            },
    {
        match self {
            ParseError::Syntax { offset } => *offset,
            ParseError::UnsupportedUnit { offset } => *offset,
        }
    }

    /// What went wrong, in words.
    pub open spec fn spec_message(self) -> Seq<char> {
        match self {
            ParseError::Syntax { .. } => "unexpected character or end of input"@,
            ParseError::UnsupportedUnit { .. } => "lengths must be given in px"@,
        }
    }

    /// What went wrong, in words.
    pub fn message(&self) -> (r: &'static str)
        ensures
            r@ == self.spec_message(),
    {
        match self {
            ParseError::Syntax { .. } => "unexpected character or end of input",
            ParseError::UnsupportedUnit { .. } => "lengths must be given in px",
        }
    }
}

/// The syntax error at position `pos`.
pub open spec fn syntax_error(pos: int) -> ParseError {
    ParseError::Syntax { offset: pos as usize }
}

/// A set of characters that a scan runs over.
#[derive(Debug, Clone, Copy, PartialEq, Eq, Structural)]
pub enum CharClass {
    /// White space.
    Whitespace,
    /// The characters of identifiers.
    Identifier,
    /// The decimal digits.
    Digit,
    /// The letters `a` to `z` and `A` to `Z` and the decimal digits.
    Alphanumeric,
    /// Every character but the given one.
    Except(char),
}

/// Whether `c` is white space: a character with the Unicode property
/// `White_Space`.
pub open spec fn spec_is_whitespace(c: char) -> bool {
    ||| '\u{9}' <= c <= '\u{d}'
    ||| c == ' '
    ||| c == '\u{85}'
    ||| c == '\u{a0}'
    ||| c == '\u{1680}'
    ||| '\u{2000}' <= c <= '\u{200a}'
    ||| c == '\u{2028}'
    ||| c == '\u{2029}'
    ||| c == '\u{202f}'
    ||| c == '\u{205f}'
    ||| c == '\u{3000}'
}

/// Whether `c` is white space.
pub fn is_whitespace(c: char) -> (r: bool)
    ensures
        r == spec_is_whitespace(c),
{
    ('\u{9}' <= c && c <= '\u{d}') || c == ' ' || c == '\u{85}' || c == '\u{a0}' || c == '\u{1680}'
        || ('\u{2000}' <= c && c <= '\u{200a}') || c == '\u{2028}' || c == '\u{2029}' || c
        == '\u{202f}' || c == '\u{205f}' || c == '\u{3000}'
}

/// Whether `c` is a decimal digit.
pub open spec fn spec_is_digit(c: char) -> bool {
    '0' <= c <= '9'
}

/// Whether `c` is a letter of the ASCII alphabet.
pub open spec fn spec_is_letter(c: char) -> bool {
    'a' <= c <= 'z' || 'A' <= c <= 'Z'
}

/// Whether `c` may stand in an identifier: a letter, a digit, `-` or `_`.
pub open spec fn spec_valid_identifier_char(c: char) -> bool {
    spec_is_letter(c) || spec_is_digit(c) || c == '-' || c == '_'
}

/// Whether `c` is a decimal digit.
pub fn is_digit(c: char) -> (r: bool)
    ensures
        r == spec_is_digit(c),
{
    '0' <= c && c <= '9'
}

/// Whether `c` may stand in an identifier.
pub fn valid_identifier_char(c: char) -> (r: bool)
    ensures
        r == spec_valid_identifier_char(c),
{
    ('a' <= c && c <= 'z') || ('A' <= c && c <= 'Z') || ('0' <= c && c <= '9') || c == '-' || c
        == '_'
}

impl CharClass {
    /// Whether `c` belongs to the class.
    pub open spec fn spec_contains(self, c: char) -> bool {
        match self {
            CharClass::Whitespace => spec_is_whitespace(c),
            CharClass::Identifier => spec_valid_identifier_char(c),
            CharClass::Digit => spec_is_digit(c),
            CharClass::Alphanumeric => spec_is_letter(c) || spec_is_digit(c),
            CharClass::Except(x) => c != x,
        }
    }

    /// Whether `c` belongs to the class.
    pub fn contains(&self, c: char) -> (r: bool)
        ensures
            r == self.spec_contains(c),
    {
        match self {
            CharClass::Whitespace => is_whitespace(c),
            CharClass::Identifier => valid_identifier_char(c),
            CharClass::Digit => is_digit(c),
            CharClass::Alphanumeric => ('a' <= c && c <= 'z') || ('A' <= c && c <= 'Z') || is_digit(
                c,
            ),
            CharClass::Except(x) => c != *x,
        }
    }
}

/// Where the longest run of characters of `class` that starts at `pos`
/// ends: the position of the first character at or after `pos` that is
/// not of the class, or the length of `s` if there is none.
pub open spec fn scan(s: Seq<char>, pos: int, class: CharClass) -> int
    decreases s.len() - pos,
{
    if 0 <= pos < s.len() && class.spec_contains(s[pos]) {
        scan(s, pos + 1, class)
    } else {
        pos
    }
}

/// A scan ends at or after its start and within the text, runs over
/// characters of the class only, and stops before a character that is
/// not of the class.
pub proof fn lemma_scan(s: Seq<char>, pos: int, class: CharClass)
    requires
        0 <= pos <= s.len(),
    ensures
        pos <= scan(s, pos, class) <= s.len(),
        forall|i: int| pos <= i < scan(s, pos, class) ==> class.spec_contains(#[trigger] s[i]),
        scan(s, pos, class) < s.len() ==> !class.spec_contains(s[scan(s, pos, class)]),
    decreases s.len() - pos,
{
    if pos < s.len() && class.spec_contains(s[pos]) {
        lemma_scan(s, pos + 1, class);
    }
}

/// Whether `literal` stands in `s` at `pos`.
pub open spec fn spec_starts_with(s: Seq<char>, pos: int, literal: Seq<char>) -> bool {
    &&& 0 <= pos
    &&& pos + literal.len() <= s.len()
    &&& s.subrange(pos, pos + literal.len()) == literal
}

/// A cursor into a text.
#[derive(Debug)]
pub struct Parser {
    pub pos: usize,
    pub input: Vec<char>,
}

impl Parser {
    /// The position lies within the text or at its end.
    pub open spec fn wf(&self) -> bool {
        self.pos <= self.input.len()
    }

    /// A cursor at the start of `source`.
    pub fn new(source: &str) -> (parser: Parser)
        ensures
            parser.wf(),
            parser.pos == 0,
            parser.input@ == source@,
    {
        Parser { pos: 0, input: to_chars(source) }
    }

    /// Whether all of the text is consumed.
    pub fn eof(&self) -> (r: bool)
        ensures
            r == (self.pos >= self.input.len()),
    {
        self.pos >= self.input.len()
    }

    /// The character at the cursor, which stays where it is.
    pub fn next_char(&self) -> (c: char)
        requires
            self.pos < self.input.len(),
        ensures
            c == self.input[self.pos as int],
    {
        self.input[self.pos]
    }

    /// Whether `literal` stands at the cursor.
    pub fn starts_with(&self, literal: &str) -> (r: bool)
        requires
            self.wf(),
        ensures
            r == spec_starts_with(self.input@, self.pos as int, literal@),
    {
        let wanted = to_chars(literal);
        if wanted.len() > self.input.len() - self.pos {
            return false;
        }
        let mut i: usize = 0;
        while i < wanted.len()
            invariant
                i <= wanted.len(),
                wanted@ == literal@,
                self.pos + wanted.len() <= self.input.len(),
                forall|k: int| 0 <= k < i ==> self.input[self.pos + k] == wanted[k],
            decreases wanted.len() - i,
        {
            if self.input[self.pos + i] != wanted[i] {
                assert(self.input@.subrange(self.pos as int, self.pos + wanted.len())[i as int]
                    != wanted@[i as int]);
                return false;
            }
            i += 1;
        }
        assert(self.input@.subrange(self.pos as int, self.pos + wanted.len()) =~= wanted@);
        true
    }

    /// Moves the cursor over the character it is at, and returns that
    /// character.
    pub fn consume_char(&mut self) -> (c: char)
        requires
            old(self).pos < old(self).input.len(),
        ensures
            c == old(self).input[old(self).pos as int],
            final(self).pos == old(self).pos + 1,
            final(self).input == old(self).input,
    {
        let c = self.input[self.pos];
        self.pos += 1;
        c
    }

    /// Moves the cursor over the longest run of characters of `class`
    /// that starts at it, and returns the run.
    pub fn consume_while(&mut self, class: CharClass) -> (run: String)
        requires
            old(self).wf(),
        ensures
            final(self).wf(),
            final(self).input == old(self).input,
            final(self).pos == scan(old(self).input@, old(self).pos as int, class),
            run@ == old(self).input@.subrange(old(self).pos as int, final(self).pos as int),
    {
        let start = self.pos;
        while self.pos < self.input.len() && class.contains(self.input[self.pos])
            invariant
                start <= self.pos <= self.input.len(),
                self.input == old(self).input,
                scan(self.input@, start as int, class) == scan(self.input@, self.pos as int, class),
            decreases self.input.len() - self.pos,
        {
            self.pos += 1;
        }
        from_chars(&self.input, start, self.pos)
    }

    /// Moves the cursor over the white space that it is at.
    pub fn consume_whitespace(&mut self)
        requires
            old(self).wf(),
        ensures
            final(self).wf(),
            final(self).input == old(self).input,
            final(self).pos == scan(old(self).input@, old(self).pos as int, CharClass::Whitespace),
    {
        while self.pos < self.input.len() && is_whitespace(self.input[self.pos])
            invariant
                old(self).pos <= self.pos <= self.input.len(),
                self.input == old(self).input,
                scan(self.input@, old(self).pos as int, CharClass::Whitespace) == scan(
                    self.input@,
                    self.pos as int,
                    CharClass::Whitespace,
                ),
            decreases self.input.len() - self.pos,
        {
            self.pos += 1;
        }
    }

    /// Moves the cursor over `c` if it is at `c`; else fails at the
    /// cursor, which stays where it is.
    pub fn expect_char(&mut self, c: char) -> (r: Result<(), ParseError>)
        requires
            old(self).wf(),
        ensures
            final(self).wf(),
            final(self).input == old(self).input,
            match r {
                Ok(_) => {
                    &&& old(self).pos < old(self).input.len()
                    &&& old(self).input[old(self).pos as int] == c
                    &&& final(self).pos == old(self).pos + 1
                },
                Err(e) => {
                    &&& !(old(self).pos < old(self).input.len() && old(self).input[old(
                        self,
                    ).pos as int] == c)
                    &&& e == syntax_error(old(self).pos as int)
                    &&& final(self).pos == old(self).pos
                },
            },
    {
        if self.pos < self.input.len() && self.input[self.pos] == c {
            self.pos += 1;
            Ok(())
        } else {
            Err(ParseError::Syntax { offset: self.pos })
        }
    }

    /// Moves the cursor over `literal` if it stands at the cursor; else
    /// fails at the cursor, which stays where it is.
    pub fn expect(&mut self, literal: &str) -> (r: Result<(), ParseError>)
        requires
            old(self).wf(),
        ensures
            final(self).wf(),
            final(self).input == old(self).input,
            match r {
                Ok(_) => {
                    &&& spec_starts_with(old(self).input@, old(self).pos as int, literal@)
                    &&& final(self).pos == old(self).pos + literal@.len()
                },
                Err(e) => {
                    &&& !spec_starts_with(old(self).input@, old(self).pos as int, literal@)
                    &&& e == syntax_error(old(self).pos as int)
                    &&& final(self).pos == old(self).pos
                },
            },
    {
        if self.starts_with(literal) {
            self.pos += literal.unicode_len();
            Ok(())
        } else {
            Err(ParseError::Syntax { offset: self.pos })
        }
    }

    /// Moves the cursor over the identifier that it is at, and returns
    /// the identifier, which is empty if the cursor is at none.
    pub fn parse_identifier(&mut self) -> (name: String)
        requires
            old(self).wf(),
        ensures
            final(self).wf(),
            final(self).input == old(self).input,
            final(self).pos == scan(old(self).input@, old(self).pos as int, CharClass::Identifier),
            name@ == old(self).input@.subrange(old(self).pos as int, final(self).pos as int),
    {
        self.consume_while(CharClass::Identifier)
    }
}

} // verus!
