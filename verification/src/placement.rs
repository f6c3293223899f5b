//! A pattern is read the same wherever its text stands: behind other text, in
//! parentheses, before a line ending, or before another pattern.
use vstd::prelude::*;
use crate::grammar::{
    bounds_at, class_at, class_end, digits_end, escape_at, group_at, is_digit,
    item_at, items_at, lemma_digits_end, lemma_item_at, lemma_items_at, line_is_over,
    lemma_primitive_at, number_at, parse_text, primitive_at, sequence_at, ErrorView,
};
use crate::regex::{PatternView, PrimitiveView};

verus! {

/// A character at which every pattern ends: a closing parenthesis or the start of a line
/// ending.
pub open spec fn closes(c: char) -> bool {
    c == ')' || c == '\n' || c == '\r'
}

/// A character that, standing right behind the text `t`, could be read together with the
/// end of `t`: the start or the inside of a repetition, or the letter of an escape where
/// `t` ends in a backslash.
pub open spec fn goes_on(t: Seq<char>, c: char) -> bool {
    ||| c == '*' || c == '+' || c == '{' || c == '}' || c == ','
    ||| is_digit(c)
    ||| t.len() > 0 && t.last() == '\\' && (c == 'b' || c == 'w')
}

/// The text `t` stands in `s` from position `m` on, and `s` ends behind it or goes on with
/// a character that is not read together with the end of `t`.
#[verifier::opaque]
pub open spec fn stands_in(t: Seq<char>, s: Seq<char>, m: int) -> bool {
    &&& 0 <= m
    &&& m + t.len() <= s.len()
    &&& forall|i: int| 0 <= i < t.len() ==> s[m + i] == #[trigger] t[i]
    &&& m + t.len() < s.len() ==> !goes_on(t, s[m + t.len()])
}

/// No item is read at position `k` of `t`, wherever `t` stands, for a reason that can be
/// seen there: a closing parenthesis inside `t`, or the end of `t` with the end of `s` or a
/// character at which every pattern ends behind it.
pub open spec fn ends_at(t: Seq<char>, s: Seq<char>, m: int, k: int) -> bool {
    if k < t.len() {
        0 <= k && t[k] == ')'
    } else {
        k == t.len() && (m + t.len() < s.len() ==> closes(s[m + t.len()]))
    }
}

/// A result moved `m` positions to the right.
pub open spec fn moved<T>(found: Option<(T, int)>, m: int) -> Option<(T, int)> {
    match found {
        Some((value, j)) => Some((value, j + m)),
        None => None,
    }
}

pub proof fn lemma_digits_end_in(t: Seq<char>, s: Seq<char>, m: int, i: int)
    requires
        stands_in(t, s, m),
        0 <= i <= t.len(),
    ensures
        digits_end(s, i + m) == digits_end(t, i) + m,
    decreases t.len() - i,
{
    reveal(stands_in);
    if i < t.len() && is_digit(t[i]) {
        lemma_digits_end_in(t, s, m, i + 1);
    }
}

pub proof fn lemma_number_at_in(t: Seq<char>, s: Seq<char>, m: int, i: int)
    requires
        stands_in(t, s, m),
        0 <= i <= t.len(),
    ensures
        number_at(s, i + m) == moved(number_at(t, i), m),
{
    reveal(stands_in);
    lemma_digits_end_in(t, s, m, i);
    lemma_digits_end(t, i);
    let j = digits_end(t, i);
    assert(s.subrange(i + m, j + m) =~= t.subrange(i, j));
}

/// Bounds are read the same wherever the text stands.
pub proof fn lemma_bounds_at_in(t: Seq<char>, s: Seq<char>, m: int, i: int)
    requires
        stands_in(t, s, m),
        0 <= i <= t.len(),
    ensures
        bounds_at(s, i + m) == moved(bounds_at(t, i), m),
{
    reveal(stands_in);
    if i < t.len() && t[i] == '{' {
        lemma_number_at_in(t, s, m, i + 1);
        lemma_digits_end(t, i + 1);
        if let Some((from, j)) = number_at(t, i + 1) {
            if j < t.len() && t[j] == ',' {
                lemma_number_at_in(t, s, m, j + 1);
                lemma_digits_end(t, j + 1);
            }
        }
    }
}

pub proof fn lemma_class_end_in(t: Seq<char>, s: Seq<char>, m: int, i: int)
    requires
        stands_in(t, s, m),
        0 <= i <= t.len(),
        class_end(t, i) < t.len(),
    ensures
        class_end(s, i + m) == class_end(t, i) + m,
    decreases t.len() - i,
{
    reveal(stands_in);
    if i < t.len() && t[i] != ']' {
        lemma_class_end_in(t, s, m, i + 1);
    }
}

/// A class that is read in the text is read the same wherever the text stands.
pub proof fn lemma_class_at_in(t: Seq<char>, s: Seq<char>, m: int, i: int)
    requires
        stands_in(t, s, m),
        0 <= i <= t.len(),
        class_at(t, i) is Some,
    ensures
        class_at(s, i + m) == moved(class_at(t, i), m),
{
    reveal(stands_in);
    lemma_class_end_in(t, s, m, i + 1);
    let j = class_end(t, i + 1);
    assert(s.subrange(i + m + 1, j + m) =~= t.subrange(i + 1, j));
}

/// An atom that is read in the text is read the same wherever the text stands.
pub proof fn lemma_primitive_at_in(t: Seq<char>, s: Seq<char>, m: int, i: int)
    requires
        stands_in(t, s, m),
        0 <= i <= t.len(),
        primitive_at(t, i) is Some,
    ensures
        primitive_at(s, i + m) == moved(primitive_at(t, i), m),
    decreases t.len() - i, 1nat,
{
    reveal(stands_in);
    assert(s[m + i] == t[i]);
    if !escape_at(t, i, 'b') && !escape_at(t, i, 'w') {
        if t[i] == '(' {
            lemma_group_at_in(t, s, m, i);
        } else if t[i] == '[' {
            lemma_class_at_in(t, s, m, i);
        }
    }
}

/// The same of a group.
pub proof fn lemma_group_at_in(t: Seq<char>, s: Seq<char>, m: int, i: int)
    requires
        stands_in(t, s, m),
        0 <= i <= t.len(),
        group_at(t, i) is Some,
    ensures
        group_at(s, i + m) == moved(group_at(t, i), m),
    decreases t.len() - i, 0nat,
{
    reveal(stands_in);
    let (p, j) = sequence_at(t, i + 1)->0;
    assert(s[m + i] == t[i]);
    assert(s[m + j] == t[j]);
    lemma_sequence_at_in(t, s, m, i + 1);
}

/// The same of an item.
pub proof fn lemma_item_at_in(t: Seq<char>, s: Seq<char>, m: int, i: int)
    requires
        stands_in(t, s, m),
        0 <= i <= t.len(),
        item_at(t, i) is Some,
    ensures
        item_at(s, i + m) == moved(item_at(t, i), m),
    decreases t.len() - i, 2nat,
{
    lemma_primitive_at_in(t, s, m, i);
    lemma_primitive_at(t, i);
    let (w, j) = primitive_at(t, i)->0;
    lemma_bounds_at_in(t, s, m, j);
}

/// Where the items of the text end for a reason that can be seen there, no item is read
/// wherever the text stands.
pub proof fn lemma_no_item_in(t: Seq<char>, s: Seq<char>, m: int, k: int)
    requires
        stands_in(t, s, m),
        ends_at(t, s, m, k),
    ensures
        item_at(s, k + m) is None,
{
    reveal(stands_in);
    if k < t.len() {
        assert(s[m + k] == t[k]);
    }
}

/// Items that end for a reason that can be seen there are read the same wherever the
/// text stands.
pub proof fn lemma_items_at_in(t: Seq<char>, s: Seq<char>, m: int, i: int)
    requires
        stands_in(t, s, m),
        0 <= i <= t.len(),
        ends_at(t, s, m, items_at(t, i).1),
    ensures
        items_at(s, i + m) == (items_at(t, i).0, items_at(t, i).1 + m),
    decreases t.len() - i, 3nat,
{
    lemma_item_at(t, i);
    match item_at(t, i) {
        Some((p, j)) => {
            lemma_item_at_in(t, s, m, i);
            lemma_items_at_in(t, s, m, j);
        },
        None => {
            lemma_no_item_in(t, s, m, i);
        },
    }
}

/// A pattern that ends for a reason that can be seen there is read the same wherever the
/// text stands.
pub proof fn lemma_sequence_at_in(t: Seq<char>, s: Seq<char>, m: int, i: int)
    requires
        stands_in(t, s, m),
        0 <= i <= t.len(),
        sequence_at(t, i) matches Some((p, j)) && ends_at(t, s, m, j),
    ensures
        sequence_at(s, i + m) == moved(sequence_at(t, i), m),
    decreases t.len() - i, 4nat,
{
    lemma_items_at_in(t, s, m, i);
}

/// Items that reach the end of the text are read the same wherever the text stands, and
/// those that `s` holds behind the text follow them.
pub proof fn lemma_items_at_before(t: Seq<char>, s: Seq<char>, m: int, i: int)
    requires
        stands_in(t, s, m),
        0 <= i <= t.len(),
        items_at(t, i).1 == t.len(),
    ensures
        items_at(s, i + m) == (
            items_at(t, i).0 + items_at(s, m + t.len()).0,
            items_at(s, m + t.len()).1,
        ),
    decreases t.len() - i,
{
    lemma_item_at(t, i);
    match item_at(t, i) {
        Some((p, j)) => {
            lemma_item_at_in(t, s, m, i);
            lemma_items_at_before(t, s, m, j);
            let behind = items_at(s, m + t.len()).0;
            assert((seq![p] + items_at(t, j).0) + behind =~= seq![p] + (items_at(t, j).0 + behind));
        },
        None => {
            assert(Seq::<PatternView>::empty() + items_at(s, m + t.len()).0 =~= items_at(
                s,
                m + t.len(),
            ).0);
        },
    }
}

/// A text that is read to its end as one pattern denotes that pattern.
pub proof fn lemma_whole_text(s: Seq<char>, p: PatternView)
    requires
        sequence_at(s, 0) == Some((p, s.len() as int)),
    ensures
        parse_text(s) == Ok::<PatternView, ErrorView>(p),
{
}

/// A text stands at the start of itself with more behind it, if what is behind does not
/// start with a character that is read together with its end.
pub proof fn lemma_stands_at_start(t: Seq<char>, behind: Seq<char>)
    requires
        behind.len() > 0 ==> !goes_on(t, behind[0]),
    ensures
        stands_in(t, t + behind, 0),
{
    reveal(stands_in);
}

/// A text stands at the end of itself with more before it.
pub proof fn lemma_stands_at_end(before: Seq<char>, t: Seq<char>)
    ensures
        stands_in(t, before + t, before.len() as int),
{
    reveal(stands_in);
}

/// A text stands in its parentheses.
pub proof fn lemma_stands_in_parentheses(t: Seq<char>)
    ensures
        stands_in(t, seq!['('] + t + seq![')'], 1),
{
    reveal(stands_in);
}

/// A pattern at the start of a text behind which the line is over is what the text
/// denotes.
pub proof fn lemma_line_ending_in(t: Seq<char>, s: Seq<char>, p: PatternView)
    requires
        stands_in(t, s, 0),
        sequence_at(t, 0) == Some((p, t.len() as int)),
        line_is_over(s.subrange(t.len() as int, s.len() as int)),
    ensures
        parse_text(s) == Ok::<PatternView, ErrorView>(p),
{
    let behind = s.subrange(t.len() as int, s.len() as int);
    assert(ends_at(t, s, 0, t.len() as int)) by {
        reveal(stands_in);
        if behind.len() > 0 {
            assert(behind[0] == s[t.len() as int]);
        }
    }
    lemma_sequence_at_in(t, s, 0, 0);
}

/// A text that is one pattern from its start to its end denotes that pattern, and still
/// does with a line ending behind it, whatever follows the line ending.
pub proof fn law_line_ending(t: Seq<char>, p: PatternView, behind: Seq<char>)
    requires
        sequence_at(t, 0) == Some((p, t.len() as int)),
        line_is_over(behind),
    ensures
        parse_text(t) == Ok::<PatternView, ErrorView>(p),
        parse_text(t + behind) == Ok::<PatternView, ErrorView>(p),
{
    lemma_whole_text(t, p);
    lemma_stands_at_start(t, behind);
    assert((t + behind).subrange(t.len() as int, (t + behind).len() as int) =~= behind);
    lemma_line_ending_in(t, t + behind, p);
}

/// A pattern between an opening parenthesis at the start of the text and a closing one at
/// its end is read as the group of that pattern.
pub proof fn lemma_parentheses_around(t: Seq<char>, s: Seq<char>, p: PatternView)
    requires
        stands_in(t, s, 1),
        s.len() == t.len() + 2,
        s[0] == '(',
        s[s.len() - 1] == ')',
        sequence_at(t, 0) == Some((p, t.len() as int)),
    ensures
        parse_text(s) == Ok::<PatternView, ErrorView>(
            PatternView::Word(PrimitiveView::Group(Box::new(p))),
        ),
{
    let end = s.len() as int;
    let group = PatternView::Word(PrimitiveView::Group(Box::new(p)));
    lemma_sequence_at_in(t, s, 1, 0);
    assert(item_at(s, 0) == Some((group, end)));
    assert(items_at(s, 0).0 =~= seq![group]);
    lemma_whole_text(s, group);
}

/// A text that is one pattern from its start to its end denotes, when put in parentheses,
/// the group of that pattern.
pub proof fn law_parentheses(t: Seq<char>, p: PatternView)
    requires
        sequence_at(t, 0) == Some((p, t.len() as int)),
    ensures
        parse_text(seq!['('] + t + seq![')']) == Ok::<PatternView, ErrorView>(
            PatternView::Word(PrimitiveView::Group(Box::new(p))),
        ),
{
    let s = seq!['('] + t + seq![')'];
    lemma_stands_in_parentheses(t);
    assert(s[0] == '(' && s[s.len() - 1] == ')');
    lemma_parentheses_around(t, s, p);
}

/// Two texts of items, written one behind the other, are the items of the first followed
/// by the items of the second, unless the second starts with a character that is read
/// together with the end of the first.
pub proof fn law_items_follow(first: Seq<char>, second: Seq<char>)
    requires
        items_at(first, 0).1 == first.len(),
        items_at(second, 0).1 == second.len(),
        second.len() > 0 ==> !goes_on(first, second[0]),
    ensures
        items_at(first + second, 0) == (
            items_at(first, 0).0 + items_at(second, 0).0,
            (first + second).len() as int,
        ),
{
    let s = first + second;
    let m = first.len() as int;
    lemma_stands_at_start(first, second);
    lemma_stands_at_end(first, second);
    lemma_items_at_before(first, s, 0, 0);
    lemma_items_at_in(second, s, m, 0);
}

} // verus!
