//! From a text to the pattern it denotes.
use vstd::prelude::*;
use crate::grammar::{
    bounds_at, class_at, class_end, decimal, digit_value, digits_end, escape_at, group_at,
    is_reserved, item_at, items_at, law_parsed_is_well_formed, loop_at,
    number_at,
    parse_text, pattern_written, primitive_at, sequence_at, ErrorView, MOST_REPEATS,
};
use crate::regex::{Pattern, PatternView, Primitive, PrimitiveView};
use crate::text::{char_at, chars_of, text_of};

verus! {

/// Why a text is no pattern.
#[derive(PartialEq, Debug)]
pub enum Error {
    /// A pattern was read, and this text, which starts with no line ending, stands behind
    /// it.
    UnTerminatedError(String),
    /// No pattern stands at the start of the text.
    ParseError,
}

impl View for Error {
    type V = ErrorView;

    open spec fn view(&self) -> ErrorView {
        match self {
            Error::UnTerminatedError(rest) => ErrorView::UnTerminatedError(rest@),
            Error::ParseError => ErrorView::ParseError,
        }
    }
}

impl Clone for Error {
    fn clone(&self) -> (copy: Self)
        ensures
            copy@ == self@,
    {
        match self {
            Error::UnTerminatedError(rest) => Error::UnTerminatedError(rest.clone()),
            Error::ParseError => Error::ParseError,
        }
    }
}

/// What `parse` gives, with pattern and error as their views.
pub open spec fn parsed_view(r: Result<Pattern, Error>) -> Result<PatternView, ErrorView> {
    match r {
        Ok(p) => Ok(p@),
        Err(e) => Err(e@),
    }
}

/// Reads the pattern that the text denotes. A line ending may stand behind the pattern,
/// and what follows the line ending is not read. Where no pattern stands at the start of
/// the text the error is `ParseError`; where anything else than a line ending stands behind
/// the pattern, the error is `UnTerminatedError` with what is left. The bounds of every
/// loop in a pattern that is read are ordered.
pub fn parse(s: &str) -> (r: Result<Pattern, Error>)
    ensures
        parsed_view(r) == parse_text(s@),
        r matches Ok(p) ==> pattern_written(p@) && p@.well_formed(),
{
    let chars = chars_of(s);
    let text = chars.as_slice();
    proof {
        law_parsed_is_well_formed(s@);
    }
    match parse_sequence(text, 0) {
        None => Err(Error::ParseError),
        Some((p, j)) => {
            if j == text.len() || text[j] == '\n' || text[j] == '\r' {
                Ok(p)
            } else {
                Err(Error::UnTerminatedError(text_of(text, j, text.len())))
            }
        },
    }
}

/// Whether the character never stands for itself in a pattern.
pub fn reserved(ch: char) -> (r: bool)
    ensures
        r == is_reserved(ch),
{
    match ch {
        '\r' | '\n' | '(' | ')' | '{' | '}' | '[' | ']' => true,
        _ => false,
    }
}

proof fn lemma_decimal_push(s: Seq<char>, i: int, j: int)
    requires
        0 <= i <= j < s.len(),
    ensures
        decimal(s.subrange(i, j + 1)) == 10 * decimal(s.subrange(i, j)) + digit_value(s[j]),
{
    assert(s.subrange(i, j + 1).drop_last() =~= s.subrange(i, j));
}

/// Reads one or more digits at `i` as a number; `None` where there is no digit or the number
/// does not fit in 64 bits.
pub fn parse_number(s: &[char], i: usize) -> (r: Option<(u64, usize)>)
    ensures
        r matches Some((n, j)) ==> i < j <= s.len() && number_at(s@, i as int) == Some(
            (n, j as int),
        ),
        r is None ==> number_at(s@, i as int) is None,
{
    if i >= s.len() {
        return None;
    }
    let mut j: usize = i;
    let mut n: u64 = 0;
    let mut fits = true;
    while j < s.len() && '0' <= s[j] && s[j] <= '9'
        invariant
            i <= j <= s.len(),
            digits_end(s@, i as int) == digits_end(s@, j as int),
            fits ==> n == decimal(s@.subrange(i as int, j as int)),
            !fits ==> decimal(s@.subrange(i as int, j as int)) > u64::MAX,
        decreases s.len() - j,
    {
        let d: u64 = s[j] as u64 - '0' as u64;
        proof {
            lemma_decimal_push(s@, i as int, j as int);
        }
        if fits && n <= (u64::MAX - d) / 10 {
            n = 10 * n + d;
        } else {
            fits = false;
        }
        j += 1;
    }
    if i < j && fits {
        Some((n, j))
    } else {
        None
    }
}

/// Reads the bounds of a repetition at `i`: `*`, `+`, `{n}` or `{n,m}`.
pub fn parse_bounds(s: &[char], i: usize) -> (r: Option<((u64, u64), usize)>)
    ensures
        r matches Some((b, j)) ==> i < j <= s.len() && bounds_at(s@, i as int) == Some(
            (b, j as int),
        ),
        r is None ==> bounds_at(s@, i as int) is None,
{
    if i >= s.len() {
        return None;
    }
    let c = s[i];
    if c == '*' {
        Some(((0, MOST_REPEATS), i + 1))
    } else if c == '+' {
        Some(((1, MOST_REPEATS), i + 1))
    } else if c == '{' {
        match parse_number(s, i + 1) {
            None => None,
            Some((from, j)) => {
                if j < s.len() && s[j] == '}' {
                    Some(((from, from), j + 1))
                } else if j < s.len() && s[j] == ',' {
                    match parse_number(s, j + 1) {
                        None => None,
                        Some((to, k)) => {
                            if k < s.len() && s[k] == '}' && from <= to {
                                Some(((from, to), k + 1))
                            } else {
                                None
                            }
                        },
                    }
                } else {
                    None
                }
            },
        }
    } else {
        None
    }
}

/// Reads `\b` at `i`.
pub fn parse_digit(s: &[char], i: usize) -> (r: Option<(Primitive, usize)>)
    ensures
        r matches Some((p, j)) ==> escape_at(s@, i as int, 'b') && p@ == PrimitiveView::Digit && j
            == i + 2,
        r is None ==> !escape_at(s@, i as int, 'b'),
{
    if i < s.len() && s.len() - i >= 2 && s[i] == '\\' && s[i + 1] == 'b' {
        Some((Primitive::Digit, i + 2))
    } else {
        None
    }
}

/// Reads `\w` at `i`.
pub fn parse_alphabetic(s: &[char], i: usize) -> (r: Option<(Primitive, usize)>)
    ensures
        r matches Some((p, j)) ==> escape_at(s@, i as int, 'w') && p@
            == PrimitiveView::Alphabetic && j == i + 2,
        r is None ==> !escape_at(s@, i as int, 'w'),
{
    if i < s.len() && s.len() - i >= 2 && s[i] == '\\' && s[i + 1] == 'w' {
        Some((Primitive::Alphabetic, i + 2))
    } else {
        None
    }
}

/// Reads a class at `i`: `[`, one or more characters other than `]`, and `]`.
pub fn parse_alt(s: &[char], i: usize) -> (r: Option<(Primitive, usize)>)
    ensures
        r matches Some((p, j)) ==> i < j <= s.len() && (class_at(s@, i as int) matches Some(
            (set, k),
        ) && p@ == PrimitiveView::Alt(set) && k == j),
        r is None ==> class_at(s@, i as int) is None,
{
    if i >= s.len() || s[i] != '[' {
        return None;
    }
    let mut j: usize = i + 1;
    while j < s.len() && s[j] != ']'
        invariant
            i < j <= s.len(),
            class_end(s@, i + 1) == class_end(s@, j as int),
        decreases s.len() - j,
    {
        j += 1;
    }
    if i + 1 < j && j < s.len() {
        Some((Primitive::Alt(text_of(s, i + 1, j)), j + 1))
    } else {
        None
    }
}

/// Reads at `i` one character that is not reserved.
pub fn parse_char(s: &[char], i: usize) -> (r: Option<(Primitive, usize)>)
    ensures
        r matches Some((p, j)) ==> i < s.len() && !is_reserved(s@[i as int]) && p@
            == PrimitiveView::Char(s@[i as int]) && j == i + 1,
        r is None ==> i >= s.len() || is_reserved(s@[i as int]),
{
    if i >= s.len() {
        return None;
    }
    let c = char_at(s, i);
    if !reserved(c) {
        Some((Primitive::Char(c), i + 1))
    } else {
        None
    }
}

/// Reads a group at `i`: `(`, a pattern, and `)`.
pub fn parse_group(s: &[char], i: usize) -> (r: Option<(Primitive, usize)>)
    ensures
        r matches Some((p, j)) ==> i < j <= s.len() && group_at(s@, i as int) == Some(
            (p@, j as int),
        ),
        r is None ==> group_at(s@, i as int) is None,
    decreases s.len() - i, 0nat,
{
    if i >= s.len() || s[i] != '(' {
        return None;
    }
    match parse_sequence(s, i + 1) {
        Some((p, j)) => {
            if j < s.len() && s[j] == ')' {
                Some((Primitive::Group(Box::new(p)), j + 1))
            } else {
                None
            }
        },
        None => None,
    }
}

/// Reads the atom at `i`: `\b`, `\w`, a group, a class, or a character that is not reserved,
/// tried in this order.
pub fn parse_primitive(s: &[char], i: usize) -> (r: Option<(Primitive, usize)>)
    ensures
        r matches Some((p, j)) ==> i < j <= s.len() && primitive_at(s@, i as int) == Some(
            (p@, j as int),
        ),
        r is None ==> primitive_at(s@, i as int) is None,
    decreases s.len() - i, 1nat,
{
    if let Some(found) = parse_digit(s, i) {
        return Some(found);
    }
    if let Some(found) = parse_alphabetic(s, i) {
        return Some(found);
    }
    if let Some(found) = parse_group(s, i) {
        return Some(found);
    }
    if let Some(found) = parse_alt(s, i) {
        return Some(found);
    }
    parse_char(s, i)
}

/// Reads the loop at `i`: an atom with bounds right behind it. Where no atom stands at `i`,
/// or no bounds stand behind the atom, there is no loop and nothing is read.
pub fn parse_loop(s: &[char], i: usize) -> (r: Option<(Pattern, usize)>)
    ensures
        r matches Some((p, j)) ==> i < j <= s.len() && p@ is Loop && loop_at(s@, i as int) == Some(
            (p@, j as int),
        ) && item_at(s@, i as int) == Some((p@, j as int)),
        r is None ==> loop_at(s@, i as int) is None,
        r is None <==> (primitive_at(s@, i as int) matches Some((w, j)) ==> bounds_at(s@, j)
            is None),
    decreases s.len() - i, 2nat,
{
    match parse_primitive(s, i) {
        None => None,
        Some((word, j)) => match parse_bounds(s, j) {
            Some(((from, to), k)) => Some((Pattern::Loop(Box::new(word), from, to), k)),
            None => None,
        },
    }
}

/// Reads the pattern at `i`: as many items as follow one another there, each of them a
/// loop or, where no loop stands, an atom alone. One item is the pattern itself, several
/// make a sequence, and none is no pattern.
pub fn parse_sequence(s: &[char], i: usize) -> (r: Option<(Pattern, usize)>)
    ensures
        r matches Some((p, j)) ==> i < j <= s.len() && sequence_at(s@, i as int) == Some(
            (p@, j as int),
        ),
        r is None ==> sequence_at(s@, i as int) is None,
    decreases s.len() - i, 5nat,
{
    if i > s.len() {
        return None;
    }
    let mut items: Vec<Box<Pattern>> = Vec::new();
    let mut at: usize = i;
    let ghost mut views: Seq<PatternView> = Seq::empty();
    loop
        invariant
            i <= at <= s.len(),
            views.len() > 0 ==> i < at,
            items.len() == views.len(),
            forall|n: int| 0 <= n < items.len() ==> (#[trigger] items[n])@ == views[n],
            items_at(s@, i as int) == (views + items_at(s@, at as int).0, items_at(s@, at as int).1),
        ensures
            items_at(s@, i as int) == (views, at as int),
        decreases s.len() - at,
    {
        let item = match parse_loop(s, at) {
            Some(found) => Some(found),
            None => match parse_primitive(s, at) {
                Some((word, j)) => Some((Pattern::Word(Box::new(word)), j)),
                None => None,
            },
        };
        match item {
            Some((p, j)) => {
                proof {
                    let rest = items_at(s@, j as int).0;
                    assert(views + (seq![p@] + rest) =~= views.push(p@) + rest);
                    views = views.push(p@);
                }
                items.push(Box::new(p));
                at = j;
            },
            None => {
                break ;
            },
        }
    }
    if items.len() == 0 {
        None
    } else if items.len() == 1 {
        match items.pop() {
            Some(only) => Some((*only, at)),
            None => None,
        }
    } else {
        let sequence = Pattern::Sequence(items);
        assert(sequence@ == PatternView::Sequence(views)) by {
            assert(sequence@->Sequence_0 =~= views);
        }
        Some((sequence, at))
    }
}

} // verus!
