//! From a pattern and a seed to a text.
//!
//! The text is made by walking the pattern from left to right and from the outside in,
//! drawing from one random stream: a loop draws its count before its repetitions, and each
//! item of a sequence draws after the item before it. `pattern_made` says which draws are
//! made, in which order, and what text they give.
use vstd::prelude::*;
use vstd::string::StrSliceExecFns;
use rand_xoshiro::Xoshiro256StarStar;
use crate::language::{
    between, items_accept, lemma_items_accept_push, lemma_repeat_accepts_push, pattern_accepts,
    repeat_accepts, word_accepts,
};
use crate::random::{
    draw_even_chance, draw_u32, draw_u64, draw_u64_inclusive, even_chance, rng_state, seed_rng,
    seeded_state, uniform_u32, uniform_u64, uniform_u64_inclusive,
};
use crate::regex::{Pattern, PatternView, Primitive, PrimitiveView};

verus! {

/// A text that was made, and the state in which making it left the random stream.
pub struct Made {
    pub text: Seq<char>,
    pub state: Seq<u64>,
}

/// The digit that stands for a number below ten.
pub open spec fn digit_of(n: u32) -> char {
    ('0' as u32 + n) as char
}

/// The character with the given code.
pub open spec fn letter_of(n: u32) -> char {
    n as char
}

/// How often a loop with the given bounds repeats, and the state that finding out leaves.
/// A lower bound below the upper takes one draw between the two, both included. Equal
/// bounds take nothing from the stream, and neither do bounds out of order, which no
/// pattern that was read has: the loop then repeats as often as its lower bound says.
pub open spec fn count_drawn(state: Seq<u64>, from: u64, to: u64) -> (u64, Seq<u64>) {
    if from >= to {
        (from, state)
    } else if to < u64::MAX {
        uniform_u64(state, from, (to + 1) as u64)
    } else {
        uniform_u64_inclusive(state, from, to)
    }
}

/// What an atom makes from a state of the stream. The digit is drawn among `0` to `9` and
/// the letter among `a` to `z`, both ends included. A class of no member or of one draws
/// nothing.
pub open spec fn word_made(w: PrimitiveView, state: Seq<u64>) -> Made
    decreases w, 0nat,
{
    match w {
        PrimitiveView::Char(c) => Made { text: seq![c], state },
        PrimitiveView::Digit => {
            let (n, after) = uniform_u32(state, 0, 10);
            Made { text: seq![digit_of(n)], state: after }
        },
        PrimitiveView::Alphabetic => {
            let (n, after) = uniform_u32(state, 'a' as u32, ('z' as u32 + 1) as u32);
            Made { text: seq![letter_of(n)], state: after }
        },
        PrimitiveView::Alt(set) => {
            if set.len() <= 1 {
                Made { text: set, state }
            } else {
                let (n, after) = uniform_u64(state, 0, set.len() as u64);
                Made { text: seq![set[n as int]], state: after }
            }
        },
        PrimitiveView::Group(p) => pattern_made(*p, state),
        PrimitiveView::Or(a, b) => {
            let (first, after) = even_chance(state);
            if first {
                pattern_made(*a, after)
            } else {
                pattern_made(*b, after)
            }
        },
    }
}

/// What an atom makes when it is repeated `k` times, each time from where the stream was
/// left.
pub open spec fn repeat_made(w: PrimitiveView, k: nat, state: Seq<u64>) -> Made
    decreases w, k + 1,
{
    if k == 0 {
        Made { text: Seq::empty(), state }
    } else {
        let before = repeat_made(w, (k - 1) as nat, state);
        let last = word_made(w, before.state);
        Made { text: before.text + last.text, state: last.state }
    }
}

/// What the first `n` patterns of a sequence make one after another, each from where the
/// stream was left.
pub open spec fn items_made(items: Seq<PatternView>, n: nat, state: Seq<u64>) -> Made
    decreases items, n + 1,
{
    if n == 0 || n > items.len() {
        Made { text: Seq::empty(), state }
    } else {
        let before = items_made(items, (n - 1) as nat, state);
        let last = pattern_made(items[n - 1], before.state);
        Made { text: before.text + last.text, state: last.state }
    }
}

/// What a pattern makes from a state of the stream.
pub open spec fn pattern_made(p: PatternView, state: Seq<u64>) -> Made
    decreases p, 0nat,
{
    match p {
        PatternView::Word(w) => word_made(w, state),
        PatternView::Loop(w, from, to) => {
            let (k, after) = count_drawn(state, from, to);
            repeat_made(w, k as nat, after)
        },
        PatternView::Sequence(items) => items_made(items, items.len(), state),
    }
}

/// The text that a pattern makes from a seed.
pub open spec fn generated(p: PatternView, seed: u64) -> Seq<char> {
    pattern_made(p, seeded_state(seed)).text
}

/// The digit that stands for a number below ten.
pub fn digit_char(n: u32) -> (c: char)
    requires
        n < 10,
    ensures
        c == digit_of(n),
        '0' <= c <= '9',
        c as u32 - '0' as u32 == n,
{
    (('0' as u32 + n) as u8) as char
}

/// The lowercase letter with the given code.
pub fn letter_char(n: u32) -> (c: char)
    requires
        'a' as u32 <= n <= 'z' as u32,
    ensures
        c == letter_of(n),
        'a' <= c <= 'z',
        c as u32 == n,
{
    (n as u8) as char
}

/// The member of a class that a drawn number picks.
pub fn pick_member(set: &str, drawn: usize) -> (c: char)
    requires
        drawn < set@.len(),
    ensures
        c == set@[drawn as int],
{
    set.get_char(drawn)
}

/// How often a loop with the given bounds repeats: a number drawn between them, both
/// included, where the lower is below the upper, else the lower bound.
pub fn draw_count(rng: &mut Xoshiro256StarStar, from: u64, to: u64) -> (k: u64)
    ensures
        (k, rng_state(*final(rng))) == count_drawn(rng_state(*old(rng)), from, to),
        from <= to ==> from <= k <= to,
{
    if from >= to {
        from
    } else if to < u64::MAX {
        draw_u64(rng, from, to + 1)
    } else {
        draw_u64_inclusive(rng, from, to)
    }
}

/// Puts at the end of `out` what the atom makes, drawing from `rng`. What it makes is a
/// text that the atom stands for, if the atom is well formed.
pub fn generate_word(w: &Primitive, rng: &mut Xoshiro256StarStar, out: &mut String)
    ensures
        final(out)@ == old(out)@ + word_made(w@, rng_state(*old(rng))).text,
        rng_state(*final(rng)) == word_made(w@, rng_state(*old(rng))).state,
        w@.well_formed() ==> word_accepts(w@, word_made(w@, rng_state(*old(rng))).text),
    decreases w, 0nat,
{
    match w {
        Primitive::Char(c) => {
            out.push(*c);
        },
        Primitive::Digit => {
            let n: u32 = draw_u32(rng, 0, 10);
            out.push(digit_char(n));
        },
        Primitive::Alphabetic => {
            let n: u32 = draw_u32(rng, 'a' as u32, 'z' as u32 + 1);
            out.push(letter_char(n));
        },
        Primitive::Alt(set) => {
            let members = set.as_str();
            let n: usize = members.unicode_len();
            if n == 1 {
                out.push(pick_member(members, 0));
            } else if n > 1 {
                let drawn: u64 = draw_u64(rng, 0, n as u64);
                out.push(pick_member(members, drawn as usize));
            }
        },
        Primitive::Group(p) => {
            generate_from(p, rng, out);
        },
        Primitive::Or(a, b) => {
            let first = draw_even_chance(rng);
            generate_from(pick_branch(first, a, b), rng, out);
        },
    }
}

/// The pattern that a drawn choice picks: the first where `first` is true, else the
/// second.
pub fn pick_branch<'a>(first: bool, a: &'a Pattern, b: &'a Pattern) -> (picked: &'a Pattern)
    ensures
        first ==> *picked == *a,
        !first ==> *picked == *b,
{
    if first {
        a
    } else {
        b
    }
}

/// Puts at the end of `out` what the atom makes when it is repeated `k` times, drawing from
/// `rng`.
pub fn generate_repeated(w: &Primitive, k: u64, rng: &mut Xoshiro256StarStar, out: &mut String)
    ensures
        final(out)@ == old(out)@ + repeat_made(w@, k as nat, rng_state(*old(rng))).text,
        rng_state(*final(rng)) == repeat_made(w@, k as nat, rng_state(*old(rng))).state,
        w@.well_formed() ==> repeat_accepts(
            w@,
            k as nat,
            repeat_made(w@, k as nat, rng_state(*old(rng))).text,
        ),
    decreases w, 1nat,
{
    let ghost start = rng_state(*rng);
    let mut done: u64 = 0;
    while done < k
        invariant
            done <= k,
            out@ == old(out)@ + repeat_made(w@, done as nat, start).text,
            rng_state(*rng) == repeat_made(w@, done as nat, start).state,
            w@.well_formed() ==> repeat_accepts(
                w@,
                done as nat,
                repeat_made(w@, done as nat, start).text,
            ),
        decreases k - done,
    {
        let ghost before = repeat_made(w@, done as nat, start);
        generate_word(w, rng, out);
        proof {
            if w@.well_formed() {
                lemma_repeat_accepts_push(
                    w@,
                    done as nat,
                    before.text,
                    word_made(w@, before.state).text,
                );
            }
        }
        done += 1;
    }
}

/// Puts at the end of `out` what the pattern makes, drawing from `rng`. What it makes is
/// a text that the pattern stands for, if the pattern is well formed.
#[verifier::loop_isolation(false)]
pub fn generate_from(p: &Pattern, rng: &mut Xoshiro256StarStar, out: &mut String)
    ensures
        final(out)@ == old(out)@ + pattern_made(p@, rng_state(*old(rng))).text,
        rng_state(*final(rng)) == pattern_made(p@, rng_state(*old(rng))).state,
        p@.well_formed() ==> pattern_accepts(p@, pattern_made(p@, rng_state(*old(rng))).text),
    decreases p, 0nat,
{
    match p {
        Pattern::Word(w) => {
            generate_word(w, rng, out);
        },
        Pattern::Loop(w, from, to) => {
            let k: u64 = draw_count(rng, *from, *to);
            generate_repeated(w, k, rng, out);
            assert(*from <= *to ==> between(*from, k as nat, *to));
        },
        Pattern::Sequence(items) => {
            let ghost start = rng_state(*rng);
            let mut done: usize = 0;
            while done < items.len()
                invariant
                    done <= items.len(),
                    out@ == old(out)@ + items_made(p@->Sequence_0, done as nat, start).text,
                    rng_state(*rng) == items_made(p@->Sequence_0, done as nat, start).state,
                    p@.well_formed() ==> items_accept(
                        p@->Sequence_0,
                        done as nat,
                        items_made(p@->Sequence_0, done as nat, start).text,
                    ),
                decreases items.len() - done,
            {
                assert(p@->Sequence_0[done as int] == items[done as int]@);
                let ghost before = items_made(p@->Sequence_0, done as nat, start);
                generate_from(&items[done], rng, out);
                proof {
                    if p@.well_formed() {
                        lemma_items_accept_push(
                            p@->Sequence_0,
                            done as nat,
                            before.text,
                            pattern_made(items[done as int]@, before.state).text,
                        );
                    }
                }
                done += 1;
            }
        },
    }
}

/// Makes a text from the pattern. The text depends on the pattern and the seed alone: it
/// is what the pattern makes from the random stream that the seed starts. It is a text
/// that the pattern stands for, if the pattern is well formed, as every pattern that was
/// read is.
pub fn generate(p: Pattern, seed: u64) -> (text: String)
    ensures
        text@ == generated(p@, seed),
        p@.well_formed() ==> pattern_accepts(p@, text@),
{
    let mut rng = seed_rng(seed);
    let mut text = String::new();
    generate_from(&p, &mut rng, &mut text);
    text
}

/// Making a text is deterministic: two texts made from the same pattern and seed are the
/// same text.
pub proof fn law_same_seed_same_text(p: PatternView, seed: u64, first: Seq<char>, second: Seq<char>)
    requires
        first == generated(p, seed),
        second == generated(p, seed),
    ensures
        first == second,
{
}

/// A literal character makes itself, whatever the stream, and draws nothing.
pub proof fn law_char_makes_itself(c: char, state: Seq<u64>)
    ensures
        pattern_made(PatternView::Word(PrimitiveView::Char(c)), state) == (Made {
            text: seq![c],
            state,
        }),
{
}

/// Parentheses change nothing: a group makes what the pattern inside makes, from every
/// state of the stream, and leaves the stream as that pattern leaves it.
pub proof fn law_group_makes_the_same(p: PatternView, state: Seq<u64>)
    ensures
        pattern_made(PatternView::Word(PrimitiveView::Group(Box::new(p))), state) == pattern_made(
            p,
            state,
        ),
{
    reveal_with_fuel(pattern_made, 2);
    reveal_with_fuel(word_made, 2);
}

/// A sequence of two patterns makes what the first makes, followed by what the second
/// makes from where the first left the stream.
pub proof fn law_sequence_concatenates(a: PatternView, b: PatternView, state: Seq<u64>)
    ensures
        ({
            let first = pattern_made(a, state);
            let second = pattern_made(b, first.state);
            pattern_made(PatternView::Sequence(seq![a, b]), state) == (Made {
                text: first.text + second.text,
                state: second.state,
            })
        }),
{
    let items = seq![a, b];
    let first = pattern_made(a, state);
    reveal_with_fuel(items_made, 3);
    assert(items_made(items, 1, state) == first);
}

/// A sequence makes, item after item, what its items make, each from where the one before
/// left the stream.
pub proof fn law_sequence_step(items: Seq<PatternView>, n: nat, state: Seq<u64>)
    requires
        n < items.len(),
    ensures
        ({
            let before = items_made(items, n, state);
            let next = pattern_made(items[n as int], before.state);
            items_made(items, n + 1, state) == (Made {
                text: before.text + next.text,
                state: next.state,
            })
        }),
        items_made(items, 0, state) == (Made { text: Seq::empty(), state }),
        pattern_made(PatternView::Sequence(items), state) == items_made(items, items.len(), state),
{
}

/// A loop with equal bounds repeats exactly that often and draws nothing for the count.
pub proof fn law_fixed_count(w: PrimitiveView, n: u64, state: Seq<u64>)
    ensures
        pattern_made(PatternView::Loop(w, n, n), state) == repeat_made(w, n as nat, state),
{
}

/// What the first `n` patterns of a sequence make depends on those `n` alone.
pub proof fn lemma_items_made_of_prefix(
    items: Seq<PatternView>,
    others: Seq<PatternView>,
    n: nat,
    state: Seq<u64>,
)
    requires
        n <= items.len(),
        n <= others.len(),
        forall|i: int| 0 <= i < n ==> items[i] == others[i],
    ensures
        items_made(items, n, state) == items_made(others, n, state),
    decreases n,
{
    if n > 0 {
        lemma_items_made_of_prefix(items, others, (n - 1) as nat, state);
    }
}

/// One sequence behind another makes what the first makes, followed by what the second
/// makes from where the first left the stream.
pub proof fn lemma_items_made_append(
    front: Seq<PatternView>,
    back: Seq<PatternView>,
    n: nat,
    state: Seq<u64>,
)
    requires
        n <= back.len(),
    ensures
        ({
            let first = items_made(front, front.len(), state);
            let second = items_made(back, n, first.state);
            items_made(front + back, front.len() + n, state) == (Made {
                text: first.text + second.text,
                state: second.state,
            })
        }),
    decreases n,
{
    let all = front + back;
    let first = items_made(front, front.len(), state);
    if n == 0 {
        lemma_items_made_of_prefix(all, front, front.len(), state);
    } else {
        lemma_items_made_append(front, back, (n - 1) as nat, state);
        let before = items_made(back, (n - 1) as nat, first.state);
        let last = pattern_made(back[n - 1], before.state);
        assert((first.text + before.text) + last.text =~= first.text + (before.text + last.text));
    }
}

/// One item alone makes what the sequence of that one item makes.
pub proof fn lemma_single_item_made(items: Seq<PatternView>, state: Seq<u64>)
    requires
        items.len() == 1,
    ensures
        pattern_made(items[0], state) == items_made(items, 1, state),
{
    let one = pattern_made(items[0], state);
    reveal_with_fuel(items_made, 2);
}

} // verus!
