//! What a text means as a pattern: the grammar, as functions on sequences of characters.
//!
//! Each `.._at(s, i)` reads `s` from position `i` and gives what it found together with the
//! position behind it, or `None` where nothing of that kind stands at `i`.
use vstd::prelude::*;
use crate::regex::{PatternView, PrimitiveView};

verus! {

/// How often `*` and `+` repeat at most.
pub const MOST_REPEATS: u64 = 100;

/// The characters that never stand for themselves.
pub open spec fn is_reserved(c: char) -> bool {
    c == '\r' || c == '\n' || c == '(' || c == ')' || c == '{' || c == '}' || c == '[' || c == ']'
}

pub open spec fn is_digit(c: char) -> bool {
    '0' <= c <= '9'
}

pub open spec fn digit_value(c: char) -> nat {
    (c as int - '0' as int) as nat
}

/// A backslash at `i` with `c` right behind it.
pub open spec fn escape_at(s: Seq<char>, i: int, c: char) -> bool {
    0 <= i && i + 1 < s.len() && s[i] == '\\' && s[i + 1] == c
}

/// Where the digits that start at `i` end.
pub open spec fn digits_end(s: Seq<char>, i: int) -> int
    decreases s.len() - i,
{
    if 0 <= i < s.len() && is_digit(s[i]) {
        digits_end(s, i + 1)
    } else {
        i
    }
}

/// The number that a text of digits denotes in base ten.
pub open spec fn decimal(digits: Seq<char>) -> nat
    decreases digits.len(),
{
    if digits.len() == 0 {
        0
    } else {
        10 * decimal(digits.drop_last()) + digit_value(digits.last())
    }
}

/// One or more digits at `i` whose number fits in 64 bits.
pub open spec fn number_at(s: Seq<char>, i: int) -> Option<(u64, int)> {
    let j = digits_end(s, i);
    let n = decimal(s.subrange(i, j));
    if 0 <= i < j && n <= u64::MAX {
        Some((n as u64, j))
    } else {
        None
    }
}

/// The bounds of a repetition written at `i`: `*` for none to `MOST_REPEATS`, `+` for one
/// to `MOST_REPEATS`, `{n}` for exactly `n`, or `{n,m}` with `n <= m`.
pub open spec fn bounds_at(s: Seq<char>, i: int) -> Option<((u64, u64), int)> {
    if !(0 <= i < s.len()) {
        None
    } else if s[i] == '*' {
        Some(((0, MOST_REPEATS), i + 1))
    } else if s[i] == '+' {
        Some(((1, MOST_REPEATS), i + 1))
    } else if s[i] == '{' {
        match number_at(s, i + 1) {
            None => None,
            Some((from, j)) => {
                if j < s.len() && s[j] == '}' {
                    Some(((from, from), j + 1))
                } else if j < s.len() && s[j] == ',' {
                    match number_at(s, j + 1) {
                        None => None,
                        Some((to, k)) => {
                            if k < s.len() && s[k] == '}' && from <= to {
                                Some(((from, to), k + 1))
                            } else {
                                None
                            }
                        },
                    }
                } else {
                    None
                }
            },
        }
    } else {
        None
    }
}

/// Where the characters other than `]` that start at `i` end.
pub open spec fn class_end(s: Seq<char>, i: int) -> int
    decreases s.len() - i,
{
    if 0 <= i < s.len() && s[i] != ']' {
        class_end(s, i + 1)
    } else {
        i
    }
}

/// A class at `i`: `[`, one or more characters other than `]`, and `]`.
pub open spec fn class_at(s: Seq<char>, i: int) -> Option<(Seq<char>, int)> {
    let j = class_end(s, i + 1);
    if 0 <= i < s.len() && s[i] == '[' && i + 1 < j < s.len() {
        Some((s.subrange(i + 1, j), j + 1))
    } else {
        None
    }
}

/// A group at `i`: `(`, a pattern, and `)`.
pub open spec fn group_at(s: Seq<char>, i: int) -> Option<(PrimitiveView, int)>
    decreases s.len() - i, 0nat,
{
    if 0 <= i < s.len() && s[i] == '(' {
        match sequence_at(s, i + 1) {
            Some((p, j)) => {
                if 0 <= j < s.len() && s[j] == ')' {
                    Some((PrimitiveView::Group(Box::new(p)), j + 1))
                } else {
                    None
                }
            },
            None => None,
        }
    } else {
        None
    }
}

/// The atom at `i`: `\b`, `\w`, a group, a class, or a character that is not reserved.
pub open spec fn primitive_at(s: Seq<char>, i: int) -> Option<(PrimitiveView, int)>
    decreases s.len() - i, 1nat,
{
    if !(0 <= i < s.len()) {
        None
    } else if escape_at(s, i, 'b') {
        Some((PrimitiveView::Digit, i + 2))
    } else if escape_at(s, i, 'w') {
        Some((PrimitiveView::Alphabetic, i + 2))
    } else if s[i] == '(' {
        group_at(s, i)
    } else if s[i] == '[' {
        match class_at(s, i) {
            Some((set, j)) => Some((PrimitiveView::Alt(set), j)),
            None => None,
        }
    } else if !is_reserved(s[i]) {
        Some((PrimitiveView::Char(s[i]), i + 1))
    } else {
        None
    }
}

/// The loop at `i`: an atom with bounds right behind it. An atom without bounds, or with a
/// brace behind it that opens no bounds, is no loop.
pub open spec fn loop_at(s: Seq<char>, i: int) -> Option<(PatternView, int)>
    decreases s.len() - i, 2nat,
{
    match primitive_at(s, i) {
        None => None,
        Some((w, j)) => match bounds_at(s, j) {
            Some(((from, to), k)) => Some((PatternView::Loop(w, from, to), k)),
            None => None,
        },
    }
}

/// The item at `i`: the loop that stands there, or else the atom alone.
pub open spec fn item_at(s: Seq<char>, i: int) -> Option<(PatternView, int)>
    decreases s.len() - i, 3nat,
{
    match loop_at(s, i) {
        Some(found) => Some(found),
        None => match primitive_at(s, i) {
            Some((w, j)) => Some((PatternView::Word(w), j)),
            None => None,
        },
    }
}

/// The items that follow one another from `i` on, as many as there are.
pub open spec fn items_at(s: Seq<char>, i: int) -> (Seq<PatternView>, int)
    decreases s.len() - i, 4nat,
{
    match item_at(s, i) {
        Some((p, j)) => {
            if i < j <= s.len() {
                let (rest, k) = items_at(s, j);
                (seq![p] + rest, k)
            } else {
                (Seq::empty(), i)
            }
        },
        None => (Seq::empty(), i),
    }
}

/// The pattern at `i`: the one item that stands there, or the sequence of several.
pub open spec fn sequence_at(s: Seq<char>, i: int) -> Option<(PatternView, int)>
    decreases s.len() - i, 5nat,
{
    let (items, j) = items_at(s, i);
    if items.len() == 0 {
        None
    } else if items.len() == 1 {
        Some((items[0], j))
    } else {
        Some((PatternView::Sequence(items), j))
    }
}

/// Why a text is no pattern.
pub enum ErrorView {
    /// A pattern was read, and this text, which starts with no line ending, stands behind
    /// it.
    UnTerminatedError(Seq<char>),
    /// No pattern stands at the start of the text.
    ParseError,
}

/// Whether the line is over: nothing is left, or what is left starts with a line ending,
/// `\n` or `\r`. What stands behind a line ending is not read.
pub open spec fn line_is_over(rest: Seq<char>) -> bool {
    rest.len() == 0 || rest[0] == '\n' || rest[0] == '\r'
}

/// What the whole text means: the pattern at its start, where the line is over behind
/// it.
pub open spec fn parse_text(s: Seq<char>) -> Result<PatternView, ErrorView> {
    match sequence_at(s, 0) {
        None => Err(ErrorView::ParseError),
        Some((p, j)) => {
            let rest = s.subrange(j, s.len() as int);
            if line_is_over(rest) {
                Ok(p)
            } else {
                Err(ErrorView::UnTerminatedError(rest))
            }
        },
    }
}

/// Whether an atom is such as a text can denote: its character is not reserved, its class
/// is not empty and holds no `]`, and it is no `Or`.
pub open spec fn primitive_written(w: PrimitiveView) -> bool
    decreases w,
{
    match w {
        PrimitiveView::Char(c) => !is_reserved(c),
        PrimitiveView::Digit => true,
        PrimitiveView::Alphabetic => true,
        PrimitiveView::Alt(set) => set.len() > 0 && !set.contains(']'),
        PrimitiveView::Group(p) => pattern_written(*p),
        PrimitiveView::Or(_, _) => false,
    }
}

/// Whether a pattern is such as a text can denote: its atoms are, the bounds of its loops
/// are ordered, and its sequences hold two items or more, none of them a sequence itself.
pub open spec fn pattern_written(p: PatternView) -> bool
    decreases p,
{
    match p {
        PatternView::Word(w) => primitive_written(w),
        PatternView::Loop(w, from, to) => from <= to && primitive_written(w),
        PatternView::Sequence(items) => items.len() >= 2 && forall|i: int|
            0 <= i < items.len() ==> !((#[trigger] items[i]) is Sequence) && pattern_written(
                items[i],
            ),
    }
}

/// A pattern such as a text can denote is well formed.
pub proof fn lemma_written_is_well_formed(p: PatternView)
    requires
        pattern_written(p),
    ensures
        p.well_formed(),
    decreases p,
{
    match p {
        PatternView::Word(w) => {
            lemma_written_atom_is_well_formed(w);
        },
        PatternView::Loop(w, _, _) => {
            lemma_written_atom_is_well_formed(w);
        },
        PatternView::Sequence(items) => {
            assert forall|i: int| 0 <= i < items.len() implies (#[trigger] items[i]).well_formed() by {
                lemma_written_is_well_formed(items[i]);
            }
        },
    }
}

/// An atom such as a text can denote is well formed.
pub proof fn lemma_written_atom_is_well_formed(w: PrimitiveView)
    requires
        primitive_written(w),
    ensures
        w.well_formed(),
    decreases w,
{
    match w {
        PrimitiveView::Group(p) => {
            lemma_written_is_well_formed(*p);
        },
        _ => {},
    }
}

/// An atom that is read ends behind where it starts and inside the text, and is such as a
/// text can denote.
pub proof fn lemma_primitive_at(s: Seq<char>, i: int)
    ensures
        primitive_at(s, i) matches Some((w, j)) ==> 0 <= i < j <= s.len() && primitive_written(w),
    decreases s.len() - i, 1nat,
{
    if 0 <= i < s.len() && !escape_at(s, i, 'b') && !escape_at(s, i, 'w') {
        if s[i] == '(' {
            lemma_group_at(s, i);
        } else if s[i] == '[' {
            lemma_class_end(s, i + 1);
        }
    }
}

/// The same of a group.
pub proof fn lemma_group_at(s: Seq<char>, i: int)
    ensures
        group_at(s, i) matches Some((w, j)) ==> 0 <= i < j <= s.len() && primitive_written(w),
    decreases s.len() - i, 0nat,
{
    if 0 <= i < s.len() && s[i] == '(' {
        lemma_sequence_at(s, i + 1);
    }
}

/// A class ends at or behind where it starts and inside the text, and holds no `]`.
pub proof fn lemma_class_end(s: Seq<char>, i: int)
    requires
        0 <= i,
    ensures
        i <= class_end(s, i),
        i <= s.len() ==> class_end(s, i) <= s.len(),
        forall|k: int| i <= k < class_end(s, i) ==> s[k] != ']',
    decreases s.len() - i,
{
    if i < s.len() && s[i] != ']' {
        lemma_class_end(s, i + 1);
    }
}

/// Digits end at or behind where they start and inside the text.
pub proof fn lemma_digits_end(s: Seq<char>, i: int)
    requires
        0 <= i,
    ensures
        i <= digits_end(s, i),
        i <= s.len() ==> digits_end(s, i) <= s.len(),
    decreases s.len() - i,
{
    if i < s.len() && is_digit(s[i]) {
        lemma_digits_end(s, i + 1);
    }
}

/// Bounds that are read end behind where they start and inside the text, and are ordered.
pub proof fn lemma_bounds_at(s: Seq<char>, i: int)
    ensures
        bounds_at(s, i) matches Some(((from, to), j)) ==> 0 <= i < j <= s.len() && from <= to,
{
    if 0 <= i < s.len() && s[i] == '{' {
        lemma_digits_end(s, i + 1);
        if let Some((from, j)) = number_at(s, i + 1) {
            lemma_digits_end(s, j + 1);
        }
    }
}

/// The same of an item.
pub proof fn lemma_item_at(s: Seq<char>, i: int)
    ensures
        item_at(s, i) matches Some((p, j)) ==> 0 <= i < j <= s.len() && pattern_written(p)
            && !(p is Sequence),
    decreases s.len() - i, 2nat,
{
    lemma_primitive_at(s, i);
    if let Some((w, j)) = primitive_at(s, i) {
        lemma_bounds_at(s, j);
    }
}

/// The items that are read end inside the text, none of them is empty or a sequence, and
/// each is such as a text can denote. They end where no further item stands.
pub proof fn lemma_items_at(s: Seq<char>, i: int)
    requires
        0 <= i <= s.len(),
    ensures
        i <= items_at(s, i).1 <= s.len(),
        items_at(s, i).0.len() > 0 ==> i < items_at(s, i).1,
        items_at(s, i).0.len() == 0 <==> item_at(s, i) is None,
        item_at(s, items_at(s, i).1) is None,
        forall|n: int|
            0 <= n < items_at(s, i).0.len() ==> !((#[trigger] items_at(s, i).0[n]) is Sequence)
                && pattern_written(items_at(s, i).0[n]),
    decreases s.len() - i, 3nat,
{
    lemma_item_at(s, i);
    if let Some((p, j)) = item_at(s, i) {
        lemma_items_at(s, j);
    }
}

/// The same of a pattern.
pub proof fn lemma_sequence_at(s: Seq<char>, i: int)
    requires
        0 <= i <= s.len(),
    ensures
        sequence_at(s, i) matches Some((p, j)) ==> i < j <= s.len() && pattern_written(p),
    decreases s.len() - i, 4nat,
{
    lemma_items_at(s, i);
}

/// Every pattern that a text denotes is well formed: the bounds of each loop are ordered.
/// Its sequences hold two items or more, its classes are not empty, its characters are
/// not reserved, and it holds no `Or`.
pub proof fn law_parsed_is_well_formed(s: Seq<char>)
    ensures
        parse_text(s) matches Ok(p) ==> pattern_written(p) && p.well_formed(),
{
    lemma_sequence_at(s, 0);
    if let Ok(p) = parse_text(s) {
        lemma_written_is_well_formed(p);
    }
}

/// A text is refused with `ParseError` exactly where no item stands at its start.
pub proof fn law_parse_error(s: Seq<char>)
    ensures
        parse_text(s) == Err::<PatternView, ErrorView>(ErrorView::ParseError) <==> item_at(s, 0)
            is None,
{
    lemma_items_at(s, 0);
}

/// What a text is refused with as left over is its end behind a pattern that was read: it
/// is not empty and starts with no line ending, and no item stands at its start.
pub proof fn law_what_is_left(s: Seq<char>, rest: Seq<char>)
    requires
        parse_text(s) == Err::<PatternView, ErrorView>(ErrorView::UnTerminatedError(rest)),
    ensures
        0 < rest.len() < s.len(),
        rest == s.subrange(s.len() - rest.len(), s.len() as int),
        !line_is_over(rest),
        sequence_at(s, 0) matches Some((p, j)) && j == s.len() - rest.len(),
        item_at(s, s.len() - rest.len()) is None,
{
    lemma_items_at(s, 0);
}

/// Bounds whose lower number lies above the upper are no bounds.
pub proof fn law_bounds_are_ordered(s: Seq<char>, i: int, from: u64, to: u64, j: int, k: int)
    requires
        0 <= i < s.len() && s[i] == '{',
        number_at(s, i + 1) == Some((from, j)),
        j < s.len() && s[j] == ',',
        number_at(s, j + 1) == Some((to, k)),
        from > to,
    ensures
        bounds_at(s, i) is None,
{
}

/// An atom at the start of the text with a brace behind it that opens no bounds is read
/// alone, and the text from the brace on is what is left.
pub proof fn law_brace_is_left(s: Seq<char>, w: PrimitiveView, j: int)
    requires
        primitive_at(s, 0) == Some((w, j)),
        j < s.len() && s[j] == '{',
        bounds_at(s, j) is None,
    ensures
        parse_text(s) == Err::<PatternView, ErrorView>(
            ErrorView::UnTerminatedError(s.subrange(j, s.len() as int)),
        ),
{
    lemma_primitive_at(s, 0);
    assert(item_at(s, j) is None);
    assert(items_at(s, 0).0 =~= seq![PatternView::Word(w)]);
}

} // verus!
