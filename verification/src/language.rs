//! Which texts a pattern stands for.
use vstd::prelude::*;
use crate::grammar::is_digit;
use crate::regex::{PatternView, PrimitiveView};

verus! {

pub open spec fn is_lowercase(c: char) -> bool {
    'a' <= c <= 'z'
}

/// Whether `k` lies between the two bounds, both included.
pub open spec fn between(from: u64, k: nat, to: u64) -> bool {
    from <= k <= to
}

/// Whether the atom stands for the text.
pub open spec fn word_accepts(w: PrimitiveView, t: Seq<char>) -> bool
    decreases w, 0nat,
{
    match w {
        PrimitiveView::Char(c) => t =~= seq![c],
        PrimitiveView::Digit => t.len() == 1 && is_digit(t[0]),
        PrimitiveView::Alphabetic => t.len() == 1 && is_lowercase(t[0]),
        PrimitiveView::Alt(set) => {
            if set.len() == 0 {
                t.len() == 0
            } else {
                t.len() == 1 && set.contains(t[0])
            }
        },
        PrimitiveView::Group(p) => pattern_accepts(*p, t),
        PrimitiveView::Or(a, b) => pattern_accepts(*a, t) || pattern_accepts(*b, t),
    }
}

/// Whether the text is `k` texts one after another, each of which the atom stands for.
pub open spec fn repeat_accepts(w: PrimitiveView, k: nat, t: Seq<char>) -> bool
    decreases w, k + 1,
{
    if k == 0 {
        t.len() == 0
    } else {
        exists|cut: int|
            #![trigger t.subrange(0, cut)]
            0 <= cut <= t.len() && repeat_accepts(w, (k - 1) as nat, t.subrange(0, cut))
                && word_accepts(w, t.subrange(cut, t.len() as int))
    }
}

/// Whether the text is `n` texts one after another, which the first `n` of the patterns
/// stand for in their order.
pub open spec fn items_accept(items: Seq<PatternView>, n: nat, t: Seq<char>) -> bool
    decreases items, n + 1,
{
    if n == 0 || n > items.len() {
        t.len() == 0
    } else {
        exists|cut: int|
            #![trigger t.subrange(0, cut)]
            0 <= cut <= t.len() && items_accept(items, (n - 1) as nat, t.subrange(0, cut))
                && pattern_accepts(items[n - 1], t.subrange(cut, t.len() as int))
    }
}

/// Whether the pattern stands for the text.
pub open spec fn pattern_accepts(p: PatternView, t: Seq<char>) -> bool
    decreases p, 0nat,
{
    match p {
        PatternView::Word(w) => word_accepts(w, t),
        PatternView::Loop(w, from, to) => exists|k: nat|
            #[trigger] between(from, k, to) && repeat_accepts(w, k, t),
        PatternView::Sequence(items) => items_accept(items, items.len(), t),
    }
}

/// One more text that the atom stands for makes one more repetition.
pub proof fn lemma_repeat_accepts_push(w: PrimitiveView, k: nat, t: Seq<char>, last: Seq<char>)
    requires
        repeat_accepts(w, k, t),
        word_accepts(w, last),
    ensures
        repeat_accepts(w, k + 1, t + last),
{
    let whole = t + last;
    let cut = t.len() as int;
    assert(whole.subrange(0, cut) =~= t);
    assert(whole.subrange(cut, whole.len() as int) =~= last);
}

/// One more text that the next pattern stands for makes one more item.
pub proof fn lemma_items_accept_push(
    items: Seq<PatternView>,
    n: nat,
    t: Seq<char>,
    last: Seq<char>,
)
    requires
        n < items.len(),
        items_accept(items, n, t),
        pattern_accepts(items[n as int], last),
    ensures
        items_accept(items, n + 1, t + last),
{
    let whole = t + last;
    let cut = t.len() as int;
    assert(whole.subrange(0, cut) =~= t);
    assert(whole.subrange(cut, whole.len() as int) =~= last);
}

/// An atom that stands for texts of one character only.
pub open spec fn one_char(w: PrimitiveView) -> bool {
    match w {
        PrimitiveView::Char(_) => true,
        PrimitiveView::Digit => true,
        PrimitiveView::Alphabetic => true,
        PrimitiveView::Alt(set) => set.len() > 0,
        _ => false,
    }
}

/// `k` repetitions of an atom of one character are `k` characters, each of which the atom
/// stands for.
pub proof fn lemma_repeat_of_one_char(w: PrimitiveView, k: nat, t: Seq<char>)
    requires
        one_char(w),
        repeat_accepts(w, k, t),
    ensures
        t.len() == k,
        forall|i: int| 0 <= i < t.len() ==> word_accepts(w, seq![#[trigger] t[i]]),
    decreases k,
{
    if k > 0 {
        let cut = choose|cut: int|
            #![trigger t.subrange(0, cut)]
            0 <= cut <= t.len() && repeat_accepts(w, (k - 1) as nat, t.subrange(0, cut))
                && word_accepts(w, t.subrange(cut, t.len() as int));
        let front = t.subrange(0, cut);
        let last = t.subrange(cut, t.len() as int);
        lemma_repeat_of_one_char(w, (k - 1) as nat, front);
        assert forall|i: int| 0 <= i < t.len() implies word_accepts(w, seq![#[trigger] t[i]]) by {
            if i < cut {
                assert(front[i] == t[i]);
            }
        }
    }
}

/// A loop over an atom of one character stands only for texts whose length lies between
/// its bounds and whose every character the atom stands for.
pub proof fn law_loop_of_one_char(w: PrimitiveView, from: u64, to: u64, t: Seq<char>)
    requires
        one_char(w),
        pattern_accepts(PatternView::Loop(w, from, to), t),
    ensures
        from <= t.len() <= to,
        forall|i: int| 0 <= i < t.len() ==> word_accepts(w, seq![#[trigger] t[i]]),
{
    let k = choose|k: nat| #[trigger] between(from, k, to) && repeat_accepts(w, k, t);
    lemma_repeat_of_one_char(w, k, t);
}

/// A loop over the digit stands only for texts of digits, as many as its bounds allow: with
/// equal bounds, exactly that many.
pub proof fn law_loop_of_digits(from: u64, to: u64, t: Seq<char>)
    requires
        pattern_accepts(PatternView::Loop(PrimitiveView::Digit, from, to), t),
    ensures
        from <= t.len() <= to,
        from == to ==> t.len() == from,
        forall|i: int| 0 <= i < t.len() ==> is_digit(#[trigger] t[i]),
{
    law_loop_of_one_char(PrimitiveView::Digit, from, to, t);
    assert forall|i: int| 0 <= i < t.len() implies is_digit(#[trigger] t[i]) by {
        assert(word_accepts(PrimitiveView::Digit, seq![t[i]]));
    }
}

/// A class that is not empty stands only for one of its members, and a loop over it only
/// for texts of its members.
pub proof fn law_class_members(set: Seq<char>, from: u64, to: u64, t: Seq<char>)
    requires
        set.len() > 0,
        pattern_accepts(PatternView::Word(PrimitiveView::Alt(set)), t) || pattern_accepts(
            PatternView::Loop(PrimitiveView::Alt(set), from, to),
            t,
        ),
    ensures
        forall|i: int| 0 <= i < t.len() ==> set.contains(#[trigger] t[i]),
{
    if pattern_accepts(PatternView::Loop(PrimitiveView::Alt(set), from, to), t) {
        law_loop_of_one_char(PrimitiveView::Alt(set), from, to, t);
        assert forall|i: int| 0 <= i < t.len() implies set.contains(#[trigger] t[i]) by {
            assert(word_accepts(PrimitiveView::Alt(set), seq![t[i]]));
        }
    }
}

/// Parentheses change nothing: a group stands for what the pattern inside stands for.
pub proof fn law_group_accepts_the_same(p: PatternView, t: Seq<char>)
    ensures
        pattern_accepts(PatternView::Word(PrimitiveView::Group(Box::new(p))), t)
            == pattern_accepts(p, t),
{
    reveal_with_fuel(pattern_accepts, 2);
    reveal_with_fuel(word_accepts, 2);
}

} // verus!
