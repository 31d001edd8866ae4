//! The errors of a parse: every line that fails the grammar, with its
//! number, or one structural fault of the whole file.

use vstd::prelude::*;

use crate::text::string_of;

verus! {

/// One line that fails the grammar: what was expected, and the line's number
/// (from 0, blank lines counted).
#[derive(Clone, Debug, Eq, PartialEq)]
pub struct ParseErrorInternal(pub String, pub u32);

impl View for ParseErrorInternal {
    type V = (Seq<char>, nat);

    open spec fn view(&self) -> (Seq<char>, nat) {
        (self.0@, self.1 as nat)
    }
}

/// The views of a list of line errors.
pub open spec fn errors_view(v: Seq<ParseErrorInternal>) -> Seq<(Seq<char>, nat)> {
    v.map_values(|e: ParseErrorInternal| e@)
}

/// Why a text is not a unit file.
#[derive(Debug)]
pub enum ParserError {
    /// Lines that match no form of the grammar, every one of them.
    ParseError(Vec<ParseErrorInternal>),
    /// The lines parse, but do not make a unit: no leading category, no
    /// directive, or a key repeated under different categories.
    UnitGrammarError(String),
}

/// The mathematical form of a [`ParserError`].
pub enum ParserErrorView {
    ParseError(Seq<(Seq<char>, nat)>),
    UnitGrammarError(Seq<char>),
}

impl View for ParserError {
    type V = ParserErrorView;

    open spec fn view(&self) -> ParserErrorView {
        match self {
            ParserError::ParseError(v) => ParserErrorView::ParseError(errors_view(v@)),
            ParserError::UnitGrammarError(m) => ParserErrorView::UnitGrammarError(m@),
        }
    }
}

/// The decimal digit `d`.
pub open spec fn digit_char(d: nat) -> char {
    if d == 0 {
        '0'
    } else if d == 1 {
        '1'
    } else if d == 2 {
        '2'
    } else if d == 3 {
        '3'
    } else if d == 4 {
        '4'
    } else if d == 5 {
        '5'
    } else if d == 6 {
        '6'
    } else if d == 7 {
        '7'
    } else if d == 8 {
        '8'
    } else {
        '9'
    }
}

/// `n` written in decimal, without leading zeros.
pub open spec fn decimal(n: nat) -> Seq<char>
    decreases n,
{
    if n < 10 {
        seq![digit_char(n)]
    } else {
        decimal(n / 10).push(digit_char(n % 10))
    }
}

fn digit(d: u32) -> (r: char)
    requires
        d < 10,
    ensures
        r == digit_char(d as nat),
{
    if d == 0 {
        '0'
    } else if d == 1 {
        '1'
    } else if d == 2 {
        '2'
    } else if d == 3 {
        '3'
    } else if d == 4 {
        '4'
    } else if d == 5 {
        '5'
    } else if d == 6 {
        '6'
    } else if d == 7 {
        '7'
    } else if d == 8 {
        '8'
    } else {
        '9'
    }
}

fn decimal_chars(n: u32) -> (r: Vec<char>)
    ensures
        r@ == decimal(n as nat),
    decreases n,
{
    if n < 10 {
        let mut v = Vec::new();
        v.push(digit(n));
        v
    } else {
        let mut v = decimal_chars(n / 10);
        v.push(digit(n % 10));
        v
    }
}

/// One line error as a bullet: `* line N: message` and a newline.
pub open spec fn error_bullet(e: (Seq<char>, nat)) -> Seq<char> {
    "* line "@ + decimal(e.1) + ": "@ + e.0 + "\n"@
}

/// The bullets of all the line errors, in order.
pub open spec fn format_errors(es: Seq<(Seq<char>, nat)>) -> Seq<char>
    decreases es.len(),
{
    if es.len() == 0 {
        seq![]
    } else {
        format_errors(es.drop_last()) + error_bullet(es.last())
    }
}

/// Writes every line error as a bullet of its own.
pub fn helper_format(errors: &Vec<ParseErrorInternal>) -> (r: String)
    ensures
        r@ == format_errors(errors_view(errors@)),
{
    let mut acc = String::new();
    for j in 0..errors.len()
        invariant
            acc@ == format_errors(errors_view(errors@).take(j as int)),
    {
        let err = &errors[j];
        let ghost before = acc@;
        acc.append("* line ");
        let digits = string_of(&decimal_chars(err.1));
        acc.append(digits.as_str());
        acc.append(": ");
        acc.append(err.0.as_str());
        acc.append("\n");
        proof {
            let es = errors_view(errors@).take(j + 1);
            assert(es.drop_last() =~= errors_view(errors@).take(j as int));
            assert(es.last() == err@);
            assert(acc@ =~= before + error_bullet(err@));
        }
    }
    assert(errors_view(errors@).take(errors.len() as int) =~= errors_view(errors@));
    acc
}

/// What a failed parse says first.
pub const PARSE_FAILED: &'static str = "Failed to parse the unit file";

/// What a structural fault says first.
pub const UNIT_MAKES_NO_SENSE: &'static str = "The unit file doesn't make sense";

/// The text that describes an error to a reader.
pub open spec fn error_message(e: ParserErrorView) -> Seq<char> {
    match e {
        ParserErrorView::ParseError(es) => PARSE_FAILED@ + ", errors:\n"@ + format_errors(es),
        ParserErrorView::UnitGrammarError(m) => UNIT_MAKES_NO_SENSE@ + ": "@ + m,
    }
}

impl ParserError {
    /// The error described for a reader: for line errors, one bullet each.
    pub fn message(&self) -> (r: String)
        ensures
            r@ == error_message(self@),
    {
        match self {
            ParserError::ParseError(errors) => {
                let mut m = String::from_str(PARSE_FAILED);
                m.append(", errors:\n");
                let list = helper_format(errors);
                m.append(list.as_str());
                m
            },
            ParserError::UnitGrammarError(err) => {
                let mut m = String::from_str(UNIT_MAKES_NO_SENSE);
                m.append(": ");
                m.append(err.as_str());
                m
            },
        }
    }
}

} // verus!
