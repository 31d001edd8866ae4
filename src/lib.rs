//! A parser and linter for systemd unit files.
//!
//! A unit file is read line by line: each line is a `[Category]` header, a
//! `# comment` or a `Key=value` directive. The directives are paired with the
//! category above them and indexed by key into a [`items::SystemdUnit`],
//! which lint rules then query.

use vstd::prelude::*;

pub mod errors;
pub mod items;
pub mod lint;
pub mod parser;
pub mod support;
pub mod text;

use crate::errors::{ParserError, ParserErrorView};
use crate::items::{unit_of_items, EntryView, SystemdUnit};
use crate::parser::{
    error_texts, is_blank, join_continued_lines, lemma_scan_of_valid_lines,
    lemma_scan_skips_blank_lines, lemma_without_continuations_len, line_item, lines_of,
    nonblank_lines, parse_unit, scan_errors, text_items, without_continuations,
};

verus! {

/// What parsing the text `s` gives: the unit, or every line that fails the
/// grammar, or else the structural fault of the lines.
pub open spec fn parse_text(s: Seq<char>) -> Result<Seq<EntryView>, ParserErrorView> {
    match text_items(without_continuations(s)) {
        Err(es) => Err(ParserErrorView::ParseError(es)),
        Ok(items) => match unit_of_items(items) {
            Ok(u) => Ok(u),
            Err(m) => Err(ParserErrorView::UnitGrammarError(m)),
        },
    }
}

/// Parses a unit file: joins continued lines, classifies every line, and
/// builds the unit. Grammar errors are reported, all of them, before any
/// structural fault is looked for.
pub fn parse_string(input: &str) -> (r: Result<SystemdUnit, ParserError>)
    requires
        input@.len() <= u32::MAX,
    ensures
        match parse_text(input@) {
            Ok(u) => r matches Ok(x) && x@ == u,
            Err(e) => r matches Err(x) && x@ == e,
        },
{
    let joined = join_continued_lines(input);
    proof {
        lemma_without_continuations_len(input@);
    }
    let units = match parse_unit(joined.as_str()) {
        Ok(items) => items,
        Err(errors) => return Err(ParserError::ParseError(errors)),
    };
    match SystemdUnit::new(&units) {
        Ok(u) => Ok(u),
        Err(m) => Err(ParserError::UnitGrammarError(m)),
    }
}

/// When every non-blank line of a text, continued lines joined, matches the
/// grammar, no line error is reported, and the scan returns one item for
/// each non-blank line.
pub proof fn lemma_grammatical_text_has_no_line_error(s: Seq<char>)
    requires
        forall|i: int|
            0 <= i < lines_of(without_continuations(s)).len() && !is_blank(
                #[trigger] lines_of(without_continuations(s))[i],
            ) ==> line_item(lines_of(without_continuations(s))[i]) is Some,
    ensures
        text_items(without_continuations(s)) matches Ok(items) && items.len() == nonblank_lines(
            lines_of(without_continuations(s)),
        ).len(),
        !(parse_text(s) matches Err(ParserErrorView::ParseError(_))),
{
    lemma_scan_of_valid_lines(lines_of(without_continuations(s)));
}

/// Parsing depends on the text alone: two units parsed from one text are
/// equal.
pub proof fn lemma_parse_is_deterministic(s: Seq<char>, u1: SystemdUnit, u2: SystemdUnit)
    requires
        parse_text(s) == Ok::<_, ParserErrorView>(u1@),
        parse_text(s) == Ok::<_, ParserErrorView>(u2@),
    ensures
        u1@ == u2@,
{
}

/// Blank lines do not matter. Two texts whose lines, continued lines joined,
/// agree once blank lines are dropped either both have line errors, with the
/// same messages in the same order and only the line numbers differing, or
/// neither has, and then both parse to the same result.
pub proof fn lemma_blank_lines_do_not_matter(a: Seq<char>, b: Seq<char>)
    requires
        nonblank_lines(lines_of(without_continuations(a))) == nonblank_lines(
            lines_of(without_continuations(b)),
        ),
    ensures
        (text_items(without_continuations(a)) is Ok) == (text_items(without_continuations(b)) is Ok),
        text_items(without_continuations(a)) is Ok ==> parse_text(a) == parse_text(b),
        parse_text(a) matches Err(ParserErrorView::ParseError(ea)) ==> parse_text(b) matches Err(
            ParserErrorView::ParseError(eb),
        ) && error_texts(ea) == error_texts(eb),
{
    let la = lines_of(without_continuations(a));
    let lb = lines_of(without_continuations(b));
    lemma_scan_skips_blank_lines(la);
    lemma_scan_skips_blank_lines(lb);
    assert(error_texts(scan_errors(la)).len() == scan_errors(la).len());
    assert(error_texts(scan_errors(lb)).len() == scan_errors(lb).len());
}

} // verus!
