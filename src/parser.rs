//! The line grammar of unit files and the scan that classifies every line of
//! a text, collecting all the lines that do not match.

use vstd::prelude::*;

use crate::errors::{errors_view, ParseErrorInternal};
use crate::items::{items_view, ItemView, SystemdItem};
use crate::text::{
    alphabetic, char_is_alphabetic, char_is_whitespace, chars_of, is_white_space, string_of,
};

verus! {

/// The kinds of characters that the grammar takes in runs.
#[derive(Clone, Copy)]
pub enum CharClass {
    /// Spaces and tabs.
    Blank,
    /// Spaces only.
    Space,
    /// The characters of a category name.
    CategoryName,
    /// The characters of a directive key.
    Key,
    /// The characters of a directive value.
    Value,
    /// Anything but a newline.
    LineBody,
}

/// Whether `c` belongs to class `k`.
pub open spec fn in_class(c: char, k: CharClass) -> bool {
    match k {
        CharClass::Blank => c == ' ' || c == '\t',
        CharClass::Space => c == ' ',
        CharClass::CategoryName => alphabetic(c) || c == '-',
        CharClass::Key => alphabetic(c) || c == '!' || c == '|' || c == '@',
        CharClass::Value => c != '\n' && c != '\r' && c != '#',
        CharClass::LineBody => c != '\n',
    }
}

fn class_member(c: char, k: CharClass) -> (r: bool)
    ensures
        r == in_class(c, k),
{
    match k {
        CharClass::Blank => c == ' ' || c == '\t',
        CharClass::Space => c == ' ',
        CharClass::CategoryName => c == '-' || char_is_alphabetic(c),
        CharClass::Key => c == '!' || c == '|' || c == '@' || char_is_alphabetic(c),
        CharClass::Value => c != '\n' && c != '\r' && c != '#',
        CharClass::LineBody => c != '\n',
    }
}

/// The end of the longest run of characters of class `k` that starts at `i`.
pub open spec fn span_end(l: Seq<char>, i: int, k: CharClass) -> int
    decreases l.len() - i,
{
    if 0 <= i < l.len() && in_class(l[i], k) {
        span_end(l, i + 1, k)
    } else {
        i
    }
}

fn skip_class(l: &Vec<char>, i: usize, k: CharClass) -> (r: usize)
    requires
        i <= l.len(),
    ensures
        r == span_end(l@, i as int, k),
        i <= r <= l.len(),
{
    let mut j = i;
    while j < l.len()
        invariant
            i <= j <= l.len(),
            span_end(l@, i as int, k) == span_end(l@, j as int, k),
        decreases l.len() - j,
    {
        if !class_member(l[j], k) {
            return j;
        }
        j = j + 1;
    }
    j
}

/// The first index in `[a, b)` that does not hold white space, or `b`.
pub open spec fn trim_start(l: Seq<char>, a: int, b: int) -> int
    decreases b - a,
{
    if a < b && is_white_space(l[a]) {
        trim_start(l, a + 1, b)
    } else {
        a
    }
}

/// The end of `[a, b)` once trailing white space is dropped.
pub open spec fn trim_end(l: Seq<char>, a: int, b: int) -> int
    decreases b - a,
{
    if a < b && is_white_space(l[b - 1]) {
        trim_end(l, a, b - 1)
    } else {
        b
    }
}

/// `l[a..b]` without white space at either end.
pub open spec fn trimmed(l: Seq<char>, a: int, b: int) -> Seq<char> {
    let s = trim_start(l, a, b);
    l.subrange(s, trim_end(l, s, b))
}

/// A line that holds nothing but white space.
pub open spec fn is_blank(l: Seq<char>) -> bool {
    trim_start(l, 0, l.len() as int) == l.len()
}

fn trim_bounds(l: &Vec<char>, a: usize, b: usize) -> (r: (usize, usize))
    requires
        a <= b <= l.len(),
    ensures
        r.0 == trim_start(l@, a as int, b as int),
        r.1 == trim_end(l@, r.0 as int, b as int),
        a <= r.0 <= r.1 <= b,
{
    let mut s = a;
    while s < b
        invariant
            a <= s <= b <= l.len(),
            trim_start(l@, a as int, b as int) == trim_start(l@, s as int, b as int),
        ensures
            a <= s <= b,
            trim_start(l@, a as int, b as int) == s,
        decreases b - s,
    {
        if !char_is_whitespace(l[s]) {
            break;
        }
        s = s + 1;
    }
    let mut e = b;
    while e > s
        invariant
            a <= s <= e <= b <= l.len(),
            trim_end(l@, s as int, b as int) == trim_end(l@, s as int, e as int),
        ensures
            s <= e <= b,
            trim_end(l@, s as int, b as int) == e,
        decreases e - s,
    {
        if !char_is_whitespace(l[e - 1]) {
            break;
        }
        e = e - 1;
    }
    (s, e)
}

/// A category header: `[`, optional spaces, a name, optional spaces, `]`,
/// after optional blanks. Gives the end of what it consumed and the item.
pub open spec fn category_step(l: Seq<char>) -> Option<(int, ItemView)> {
    let i0 = span_end(l, 0, CharClass::Blank);
    let i1 = span_end(l, i0 + 1, CharClass::Space);
    let i2 = span_end(l, i1, CharClass::CategoryName);
    let i3 = span_end(l, i2, CharClass::Space);
    if i0 < l.len() && l[i0] == '[' && i1 < i2 && i3 < l.len() && l[i3] == ']' {
        Some((i3 + 1, ItemView::Category(l.subrange(i1, i2))))
    } else {
        None
    }
}

/// A comment: `#` after optional blanks; the rest of the line, trimmed, is
/// its text.
pub open spec fn comment_step(l: Seq<char>) -> Option<(int, ItemView)> {
    let i0 = span_end(l, 0, CharClass::Blank);
    if i0 < l.len() && l[i0] == '#' {
        Some((l.len() as int, ItemView::Comment(trimmed(l, i0 + 1, l.len() as int))))
    } else {
        None
    }
}

/// A value that is empty is absent.
pub open spec fn value_of(v: Seq<char>) -> Option<Seq<char>> {
    if v.len() == 0 {
        None
    } else {
        Some(v)
    }
}

/// A directive: a key after optional blanks, optional spaces, `=`, optional
/// spaces, and a value that runs up to a newline, a carriage return or `#`;
/// the value is trimmed.
pub open spec fn directive_step(l: Seq<char>) -> Option<(int, ItemView)> {
    let i0 = span_end(l, 0, CharClass::Blank);
    let i1 = span_end(l, i0, CharClass::Key);
    let i2 = span_end(l, i1, CharClass::Space);
    let i3 = span_end(l, i2 + 1, CharClass::Space);
    let i4 = span_end(l, i3, CharClass::Value);
    if i0 < i1 && i2 < l.len() && l[i2] == '=' {
        Some((i4, ItemView::Directive(l.subrange(i0, i1), value_of(trimmed(l, i3, i4)))))
    } else {
        None
    }
}

/// The item of a step that leaves nothing but blanks behind it.
pub open spec fn completed(l: Seq<char>, step: Option<(int, ItemView)>) -> Option<ItemView> {
    match step {
        Some((e, item)) => if span_end(l, e, CharClass::Blank) == l.len() {
            Some(item)
        } else {
            None
        },
        None => None,
    }
}

/// The item of a whole line: the first of category, comment and directive
/// that takes the whole line, but for trailing blanks.
pub open spec fn line_item(l: Seq<char>) -> Option<ItemView> {
    if completed(l, category_step(l)) is Some {
        completed(l, category_step(l))
    } else if completed(l, comment_step(l)) is Some {
        completed(l, comment_step(l))
    } else {
        completed(l, directive_step(l))
    }
}

/// What a parse of `input` by one of the steps returns: the rest of the input
/// and the item when the step matches, else the message `expected`.
pub open spec fn step_outcome<'a>(
    input: Seq<char>,
    step: Option<(int, ItemView)>,
    expected: Seq<char>,
    r: Result<(&'a str, SystemdItem<'a>), String>,
) -> bool {
    match step {
        Some((e, item)) => r matches Ok((rest, it)) && rest@ == input.subrange(e, input.len() as int)
            && it@ == item,
        None => r matches Err(m) && m@ == expected,
    }
}

fn category_at<'a>(line: &'a str, l: &Vec<char>) -> (r: Option<(usize, SystemdItem<'a>)>)
    requires
        l@ == line@,
    ensures
        match category_step(l@) {
            Some((e, item)) => r matches Some((re, it)) && re == e && it@ == item,
            None => r is None,
        },
        r matches Some((re, _)) ==> re <= l.len(),
{
    let n = l.len();
    let i0 = skip_class(l, 0, CharClass::Blank);
    if i0 >= n || l[i0] != '[' {
        return None;
    }
    let i1 = skip_class(l, i0 + 1, CharClass::Space);
    let i2 = skip_class(l, i1, CharClass::CategoryName);
    let i3 = skip_class(l, i2, CharClass::Space);
    if i1 < i2 && i3 < n && l[i3] == ']' {
        Some((i3 + 1, SystemdItem::Category(line.substring_char(i1, i2))))
    } else {
        None
    }
}

fn comment_at<'a>(line: &'a str, l: &Vec<char>) -> (r: Option<(usize, SystemdItem<'a>)>)
    requires
        l@ == line@,
    ensures
        match comment_step(l@) {
            Some((e, item)) => r matches Some((re, it)) && re == e && it@ == item,
            None => r is None,
        },
        r matches Some((re, _)) ==> re <= l.len(),
{
    let n = l.len();
    let i0 = skip_class(l, 0, CharClass::Blank);
    if i0 < n && l[i0] == '#' {
        let (s, e) = trim_bounds(l, i0 + 1, n);
        Some((n, SystemdItem::Comment(line.substring_char(s, e))))
    } else {
        None
    }
}

fn directive_at<'a>(line: &'a str, l: &Vec<char>) -> (r: Option<(usize, SystemdItem<'a>)>)
    requires
        l@ == line@,
    ensures
        match directive_step(l@) {
            Some((e, item)) => r matches Some((re, it)) && re == e && it@ == item,
            None => r is None,
        },
        r matches Some((re, _)) ==> re <= l.len(),
{
    let n = l.len();
    let i0 = skip_class(l, 0, CharClass::Blank);
    let i1 = skip_class(l, i0, CharClass::Key);
    let i2 = skip_class(l, i1, CharClass::Space);
    if !(i0 < i1 && i2 < n && l[i2] == '=') {
        return None;
    }
    let i3 = skip_class(l, i2 + 1, CharClass::Space);
    let i4 = skip_class(l, i3, CharClass::Value);
    let (s, e) = trim_bounds(l, i3, i4);
    let key = line.substring_char(i0, i1);
    let value = if s < e {
        Some(line.substring_char(s, e))
    } else {
        None
    };
    Some((i4, SystemdItem::Directive(key, value)))
}

fn complete<'a>(l: &Vec<char>, step: Option<(usize, SystemdItem<'a>)>) -> (r: Option<
    SystemdItem<'a>,
>)
    requires
        step matches Some((e, _)) ==> e <= l.len(),
    ensures
        match step {
            Some((e, it)) => if span_end(l@, e as int, CharClass::Blank) == l.len() {
                r == Some(it)
            } else {
                r is None
            },
            None => r is None,
        },
{
    match step {
        Some((e, it)) => {
            if skip_class(l, e, CharClass::Blank) == l.len() {
                Some(it)
            } else {
                None
            }
        },
        None => None,
    }
}

/// The item of a whole line, if the line matches the grammar.
fn classify<'a>(line: &'a str, l: &Vec<char>) -> (r: Option<SystemdItem<'a>>)
    requires
        l@ == line@,
    ensures
        match line_item(l@) {
            Some(item) => r matches Some(it) && it@ == item,
            None => r is None,
        },
{
    if let Some(it) = complete(l, category_at(line, l)) {
        return Some(it);
    }
    if let Some(it) = complete(l, comment_at(line, l)) {
        return Some(it);
    }
    complete(l, directive_at(line, l))
}

/// The rest of `input` from character `e` on.
fn rest_from<'a>(input: &'a str, l: &Vec<char>, e: usize) -> (r: &'a str)
    requires
        l@ == input@,
        e <= l.len(),
    ensures
        r@ == input@.subrange(e as int, input@.len() as int),
{
    input.substring_char(e, l.len())
}

fn step_result<'a>(
    input: &'a str,
    l: &Vec<char>,
    step: Option<(usize, SystemdItem<'a>)>,
    expected: &str,
) -> (r: Result<(&'a str, SystemdItem<'a>), String>)
    requires
        l@ == input@,
        step matches Some((e, _)) ==> e <= l.len(),
    ensures
        match step {
            Some((e, it)) => r matches Ok((rest, item)) && rest@ == input@.subrange(
                e as int,
                input@.len() as int,
            ) && item == it,
            None => r matches Err(m) && m@ == expected@,
        },
{
    match step {
        Some((e, it)) => Ok((rest_from(input, l, e), it)),
        None => Err(String::from_str(expected)),
    }
}

/// What a failed category parse says.
pub const EXPECTED_CATEGORY: &'static str = "expected a [Category] header";

/// What a failed comment parse says.
pub const EXPECTED_COMMENT: &'static str = "expected a # comment";

/// What a failed directive parse says.
pub const EXPECTED_DIRECTIVE: &'static str = "expected a Key=value directive";

/// What a line that matches none of the three forms says.
pub const EXPECTED_LINE: &'static str = "expected a [Category] header, a # comment or a Key=value directive";

/// The whole of `input`, with nothing left after it.
pub fn take_whole_line<'a>(input: &'a str) -> (r: Result<(&'a str, &'a str), String>)
    ensures
        r matches Ok((rest, line)) && rest@.len() == 0 && line@ == input@,
{
    let n = input.unicode_len();
    Ok((input.substring_char(n, n), input))
}

/// Parses a category header at the start of `input`.
pub fn parse_category<'a>(input: &'a str) -> (r: Result<(&'a str, SystemdItem<'a>), String>)
    ensures
        step_outcome(input@, category_step(input@), EXPECTED_CATEGORY@, r),
{
    let l = chars_of(input);
    let step = category_at(input, &l);
    step_result(input, &l, step, EXPECTED_CATEGORY)
}

/// Parses a comment at the start of `input`.
pub fn parse_comment<'a>(input: &'a str) -> (r: Result<(&'a str, SystemdItem<'a>), String>)
    ensures
        step_outcome(input@, comment_step(input@), EXPECTED_COMMENT@, r),
{
    let l = chars_of(input);
    let step = comment_at(input, &l);
    step_result(input, &l, step, EXPECTED_COMMENT)
}

/// Parses a directive at the start of `input`.
pub fn parse_directive<'a>(input: &'a str) -> (r: Result<(&'a str, SystemdItem<'a>), String>)
    ensures
        step_outcome(input@, directive_step(input@), EXPECTED_DIRECTIVE@, r),
{
    let l = chars_of(input);
    let step = directive_at(input, &l);
    step_result(input, &l, step, EXPECTED_DIRECTIVE)
}

/// Parses one whole line; what is left is empty.
pub fn parse_line<'a>(input: &'a str) -> (r: Result<(&'a str, SystemdItem<'a>), String>)
    ensures
        match line_item(input@) {
            Some(item) => r matches Ok((rest, it)) && rest@.len() == 0 && it@ == item,
            None => r matches Err(m) && m@ == EXPECTED_LINE@,
        },
{
    let l = chars_of(input);
    match classify(input, &l) {
        Some(it) => Ok((rest_from(input, &l, l.len()), it)),
        None => Err(String::from_str(EXPECTED_LINE)),
    }
}

/// What follows the expectation in the message of a failing line.
pub const FOUND: &'static str = ", found: ";

/// The message of a line that fails the grammar.
pub open spec fn line_error(l: Seq<char>) -> Seq<char> {
    EXPECTED_LINE@ + FOUND@ + l
}

/// Line `i..j` of `s`, where `j` holds a newline: a carriage return before
/// the newline is not part of the line.
pub open spec fn line_at(s: Seq<char>, i: int, j: int) -> Seq<char> {
    if i < j && s[j - 1] == '\r' {
        s.subrange(i, j - 1)
    } else {
        s.subrange(i, j)
    }
}

/// The lines of `s` from position `i` on, where the current line started at
/// `start`. A last line without a newline counts; an empty one after the
/// final newline does not.
pub open spec fn lines_scan(s: Seq<char>, start: int, i: int) -> Seq<Seq<char>>
    decreases s.len() - i,
{
    if i >= s.len() {
        if start < s.len() {
            seq![s.subrange(start, s.len() as int)]
        } else {
            seq![]
        }
    } else if s[i] == '\n' {
        seq![line_at(s, start, i)] + lines_scan(s, i + 1, i + 1)
    } else {
        lines_scan(s, start, i + 1)
    }
}

/// The lines of a text, as `str::lines` splits them.
pub open spec fn lines_of(s: Seq<char>) -> Seq<Seq<char>> {
    lines_scan(s, 0, 0)
}

/// The items so far, after line `l`: blank lines and failing lines add none.
pub open spec fn items_step(prev: Seq<ItemView>, l: Seq<char>) -> Seq<ItemView> {
    if is_blank(l) {
        prev
    } else {
        match line_item(l) {
            Some(item) => prev.push(item),
            None => prev,
        }
    }
}

/// The line errors so far, after line `l` with number `k`.
pub open spec fn errors_step(prev: Seq<(Seq<char>, nat)>, l: Seq<char>, k: nat) -> Seq<
    (Seq<char>, nat),
> {
    if !is_blank(l) && line_item(l) is None {
        prev.push((line_error(l), k))
    } else {
        prev
    }
}

/// The items of the lines `ls`, in order.
pub open spec fn scan_items(ls: Seq<Seq<char>>) -> Seq<ItemView>
    decreases ls.len(),
{
    if ls.len() == 0 {
        seq![]
    } else {
        items_step(scan_items(ls.drop_last()), ls.last())
    }
}

/// The errors of the lines `ls`, in order, each with its line's index.
pub open spec fn scan_errors(ls: Seq<Seq<char>>) -> Seq<(Seq<char>, nat)>
    decreases ls.len(),
{
    if ls.len() == 0 {
        seq![]
    } else {
        errors_step(scan_errors(ls.drop_last()), ls.last(), (ls.len() - 1) as nat)
    }
}

/// The items of a text, or all its line errors if there are any.
pub open spec fn text_items(s: Seq<char>) -> Result<Seq<ItemView>, Seq<(Seq<char>, nat)>> {
    let ls = lines_of(s);
    if scan_errors(ls).len() == 0 {
        Ok(scan_items(ls))
    } else {
        Err(scan_errors(ls))
    }
}

/// Classifies the line `a..b` of `input`, which has number `k`, and records
/// its item or its error.
fn scan_line<'a>(
    input: &'a str,
    s: &Vec<char>,
    a: usize,
    b: usize,
    k: u32,
    items: &mut Vec<SystemdItem<'a>>,
    errors: &mut Vec<ParseErrorInternal>,
)
    requires
        s@ == input@,
        a <= b <= s.len(),
    ensures
        items_view(final(items)@) == items_step(items_view(old(items)@), s@.subrange(a as int, b as int)),
        errors_view(final(errors)@) == errors_step(
            errors_view(old(errors)@),
            s@.subrange(a as int, b as int),
            k as nat,
        ),
{
    let line = input.substring_char(a, b);
    let l = chars_of(line);
    let (t, _) = trim_bounds(&l, 0, l.len());
    if t == l.len() {
        return ;
    }
    match classify(line, &l) {
        Some(it) => {
            items.push(it);
            assert(items_view(items@) =~= items_view(old(items)@).push(it@));
        },
        None => {
            let mut m = String::from_str(EXPECTED_LINE);
            m.append(FOUND);
            m.append(line);
            let e = ParseErrorInternal(m, k);
            errors.push(e);
            assert(errors_view(errors@) =~= errors_view(old(errors)@).push(e@));
        },
    }
}

/// Classifies every line of `input`. Blank lines are skipped but counted in
/// the line numbers. Either every non-blank line matches the grammar and the
/// items come back in order, or every line that does not comes back with its
/// number.
pub fn parse_unit<'a>(input: &'a str) -> (r: Result<Vec<SystemdItem<'a>>, Vec<ParseErrorInternal>>)
    requires
        input@.len() <= u32::MAX,
    ensures
        match text_items(input@) {
            Ok(items) => r matches Ok(v) && items_view(v@) == items,
            Err(es) => r matches Err(v) && errors_view(v@) == es,
        },
{
    let s = chars_of(input);
    let n = s.len();
    let mut items: Vec<SystemdItem<'a>> = Vec::new();
    let mut errors: Vec<ParseErrorInternal> = Vec::new();
    let ghost mut done: Seq<Seq<char>> = seq![];
    let mut k: usize = 0;
    let mut start: usize = 0;
    let mut i: usize = 0;
    proof {
        assert(items_view(items@) =~= seq![]);
        assert(errors_view(errors@) =~= seq![]);
    }
    while i < n
        invariant
            s@ == input@,
            n == s.len(),
            n <= u32::MAX,
            start <= i <= n,
            k == done.len(),
            k <= start,
            lines_of(s@) == done + lines_scan(s@, start as int, i as int),
            items_view(items@) == scan_items(done),
            errors_view(errors@) == scan_errors(done),
        decreases n - i,
    {
        if s[i] == '\n' {
            let e = if start < i && s[i - 1] == '\r' {
                i - 1
            } else {
                i
            };
            let ghost line = line_at(s@, start as int, i as int);
            assert(s@.subrange(start as int, e as int) == line);
            scan_line(input, &s, start, e, k as u32, &mut items, &mut errors);
            proof {
                assert(done.push(line).drop_last() =~= done);
                assert(done.push(line) + lines_scan(s@, i + 1, i + 1) =~= done + (seq![line]
                    + lines_scan(s@, i + 1, i + 1)));
                done = done.push(line);
            }
            k = k + 1;
            start = i + 1;
        }
        i = i + 1;
    }
    if start < n {
        let ghost line = s@.subrange(start as int, n as int);
        scan_line(input, &s, start, n, k as u32, &mut items, &mut errors);
        proof {
            assert(done.push(line).drop_last() =~= done);
            assert(done + lines_scan(s@, start as int, n as int) =~= done.push(line));
            done = done.push(line);
        }
    } else {
        assert(done + lines_scan(s@, start as int, n as int) =~= done);
    }
    assert(lines_of(input@) == done);
    if errors.len() == 0 {
        Ok(items)
    } else {
        Err(errors)
    }
}

/// The text with every backslash that ends a line removed together with its
/// newline, so that the two lines read as one.
pub open spec fn without_continuations(s: Seq<char>) -> Seq<char>
    decreases s.len(),
{
    if s.len() < 2 {
        s
    } else if s[0] == '\\' && s[1] == '\n' {
        without_continuations(s.skip(2))
    } else {
        seq![s[0]] + without_continuations(s.drop_first())
    }
}

/// Joining lines never makes a text longer.
pub(crate) proof fn lemma_without_continuations_len(s: Seq<char>)
    ensures
        without_continuations(s).len() <= s.len(),
    decreases s.len(),
{
    if s.len() >= 2 {
        lemma_without_continuations_len(s.skip(2));
        lemma_without_continuations_len(s.drop_first());
    }
}

/// Joins the lines that end in a backslash with the line after them.
pub fn join_continued_lines(input: &str) -> (r: String)
    ensures
        r@ == without_continuations(input@),
{
    let s = chars_of(input);
    let n = s.len();
    let mut out: Vec<char> = Vec::new();
    let mut i: usize = 0;
    assert(s@.skip(0) =~= s@);
    while i < n
        invariant
            s@ == input@,
            n == s.len(),
            i <= n,
            out@ + without_continuations(s@.skip(i as int)) == without_continuations(s@),
        decreases n - i,
    {
        let ghost rest = s@.skip(i as int);
        if i + 1 < n && s[i] == '\\' && s[i + 1] == '\n' {
            assert(rest.skip(2) =~= s@.skip(i + 2));
            i = i + 2;
        } else {
            let ghost before = out@;
            out.push(s[i]);
            proof {
                if rest.len() >= 2 {
                    assert(rest.drop_first() =~= s@.skip(i + 1));
                    assert(before + (seq![s@[i as int]] + without_continuations(s@.skip(i + 1)))
                        =~= out@ + without_continuations(s@.skip(i + 1)));
                } else {
                    assert(s@.skip(i + 1) =~= seq![]);
                    assert(before + rest =~= out@ + without_continuations(s@.skip(i + 1)));
                }
            }
            i = i + 1;
        }
    }
    assert(s@.skip(n as int) =~= seq![]);
    assert(out@ + seq![] =~= out@);
    string_of(&out)
}

/// The lines that are not blank, in order.
pub open spec fn nonblank_lines(ls: Seq<Seq<char>>) -> Seq<Seq<char>> {
    ls.filter(|l: Seq<char>| !is_blank(l))
}

/// The texts of a list of line errors, without their numbers.
pub open spec fn error_texts(es: Seq<(Seq<char>, nat)>) -> Seq<Seq<char>> {
    es.map_values(|e: (Seq<char>, nat)| e.0)
}

proof fn lemma_nonblank_lines_step(ls: Seq<Seq<char>>)
    requires
        ls.len() > 0,
    ensures
        nonblank_lines(ls) == if is_blank(ls.last()) {
            nonblank_lines(ls.drop_last())
        } else {
            nonblank_lines(ls.drop_last()).push(ls.last())
        },
{
    reveal(Seq::filter);
}

/// When every non-blank line matches the grammar, no line fails, and every
/// non-blank line gives one item.
pub(crate) proof fn lemma_scan_of_valid_lines(ls: Seq<Seq<char>>)
    requires
        forall|i: int| 0 <= i < ls.len() && !is_blank(#[trigger] ls[i]) ==> line_item(ls[i]) is Some,
    ensures
        scan_errors(ls).len() == 0,
        scan_items(ls).len() == nonblank_lines(ls).len(),
    decreases ls.len(),
{
    if ls.len() > 0 {
        let t = ls.drop_last();
        assert forall|i: int| 0 <= i < t.len() && !is_blank(#[trigger] t[i]) implies line_item(
            t[i],
        ) is Some by {
            assert(t[i] == ls[i]);
        }
        lemma_scan_of_valid_lines(t);
        lemma_nonblank_lines_step(ls);
        assert(ls.last() == ls[ls.len() - 1]);
    }
}

/// Blank lines change neither the items nor whether and where, but for the
/// numbers, lines fail: the scan of the lines equals that of the non-blank
/// ones.
pub(crate) proof fn lemma_scan_skips_blank_lines(ls: Seq<Seq<char>>)
    ensures
        scan_items(ls) == scan_items(nonblank_lines(ls)),
        error_texts(scan_errors(ls)) == error_texts(scan_errors(nonblank_lines(ls))),
    decreases ls.len(),
{
    if ls.len() > 0 {
        let t = ls.drop_last();
        let l = ls.last();
        lemma_scan_skips_blank_lines(t);
        lemma_nonblank_lines_step(ls);
        let f = nonblank_lines(t);
        if !is_blank(l) {
            let g = f.push(l);
            assert(g.drop_last() =~= f);
            let a = scan_errors(t);
            let b = scan_errors(f);
            if line_item(l) is None {
                assert(error_texts(a.push((line_error(l), (ls.len() - 1) as nat))) =~= error_texts(
                    a,
                ).push(line_error(l)));
                assert(error_texts(b.push((line_error(l), (g.len() - 1) as nat))) =~= error_texts(
                    b,
                ).push(line_error(l)));
            }
        }
    }
}

} // verus!
