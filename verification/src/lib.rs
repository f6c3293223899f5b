//! Random texts from patterns.
//!
//! A pattern is written in a small language of literal characters, `\b` for a digit, `\w`
//! for a lowercase letter, classes in square brackets, groups in parentheses and
//! repetitions. `parser::parse` reads a pattern, and `generator::generate` makes a
//! text from it and a seed. The same pattern and seed always make the same text.
//!
//! The modules:
//! - `regex`: the syntax tree of a pattern and its mathematical view;
//! - `grammar`: which pattern a text denotes, as functions on sequences of characters;
//! - `parser`: the functions that read a text, each proved to read what `grammar` says;
//! - `placement`: that a pattern is read the same wherever its text stands;
//! - `language`: which texts a pattern stands for;
//! - `generator`: which text a pattern makes from a seed, and the functions that make it;
//! - `random`: the random stream, which is taken on trust from `rand` and `rand_xoshiro`;
//! - `text`: texts as vectors of characters.
use vstd::prelude::*;

pub mod generator;
pub mod grammar;
pub mod language;
pub mod parser;
pub mod placement;
pub mod random;
pub mod regex;
pub mod text;

use crate::generator::{
    generate, generated, items_made, law_group_makes_the_same, lemma_items_made_append,
    lemma_single_item_made, pattern_made,
};
use crate::grammar::{
    is_reserved, item_at, items_at, line_is_over, parse_text, sequence_at, ErrorView,
};
use crate::language::pattern_accepts;
use crate::parser::{parse, Error};
use crate::placement::{
    goes_on, law_items_follow, law_line_ending, law_parentheses, lemma_whole_text,
};
use crate::random::seeded_state;
use crate::regex::{PatternView, PrimitiveView};

verus! {

/// What reading a text as a pattern and making a text from it gives: the text made, or why
/// the first text is no pattern.
pub open spec fn run_text(s: Seq<char>, seed: u64) -> Result<Seq<char>, ErrorView> {
    match parse_text(s) {
        Ok(p) => Ok(generated(p, seed)),
        Err(e) => Err(e),
    }
}

/// What `run` gives, with text and error as their views.
pub open spec fn run_view(r: Result<String, Error>) -> Result<Seq<char>, ErrorView> {
    match r {
        Ok(text) => Ok(text@),
        Err(e) => Err(e@),
    }
}

/// Reads the text as a pattern and makes a text from it and the seed. The text made is one
/// that the pattern stands for.
pub fn run(s: String, seed: u64) -> (r: Result<String, Error>)
    ensures
        run_view(r) == run_text(s@, seed),
        r matches Ok(text) ==> parse_text(s@) matches Ok(p) && pattern_accepts(p, text@),
{
    match parse(s.as_str()) {
        Ok(p) => Ok(generate(p, seed)),
        Err(e) => Err(e),
    }
}

/// Reading and making are deterministic: two runs on the same text and seed end the same
/// way, with the same text made or the same error.
pub proof fn law_run_is_deterministic(
    text: Seq<char>,
    seed: u64,
    first: Result<String, Error>,
    second: Result<String, Error>,
)
    requires
        run_view(first) == run_text(text, seed),
        run_view(second) == run_text(text, seed),
    ensures
        run_view(first) == run_view(second),
{
}

/// A character that is not reserved is a pattern that makes that character, whatever the
/// seed.
pub proof fn law_literal_makes_itself(c: char, seed: u64)
    requires
        !is_reserved(c),
    ensures
        parse_text(seq![c]) == Ok::<PatternView, ErrorView>(
            PatternView::Word(PrimitiveView::Char(c)),
        ),
        run_text(seq![c], seed) == Ok::<Seq<char>, ErrorView>(seq![c]),
{
    let s = seq![c];
    let word = PatternView::Word(PrimitiveView::Char(c));
    assert(item_at(s, 0) == Some((word, 1int)));
    assert(items_at(s, 0).0 =~= seq![word]);
}

/// Parentheses change nothing: a text that is one pattern from its start to its end makes,
/// when put in parentheses, the same text from every seed.
pub proof fn law_group_is_transparent(t: Seq<char>, seed: u64)
    requires
        sequence_at(t, 0) matches Some((p, j)) && j == t.len(),
    ensures
        run_text(seq!['('] + t + seq![')'], seed) == run_text(t, seed),
        run_text(t, seed) is Ok,
{
    let (p, _) = sequence_at(t, 0)->0;
    law_parentheses(t, p);
    law_line_ending(t, p, Seq::empty());
    law_group_makes_the_same(p, seeded_state(seed));
}

/// A line ending behind a pattern changes nothing, and neither does what follows the line
/// ending: the text with them makes what the text without them makes, from every seed.
pub proof fn law_line_ending_is_ignored(t: Seq<char>, behind: Seq<char>, seed: u64)
    requires
        sequence_at(t, 0) matches Some((p, j)) && j == t.len(),
        line_is_over(behind),
    ensures
        run_text(t + behind, seed) == run_text(t, seed),
{
    let (p, _) = sequence_at(t, 0)->0;
    law_line_ending(t, p, behind);
}

/// Writing one pattern behind another concatenates what they make: the text of both makes
/// what the first makes, followed by what the second makes from where the first left the
/// random stream. This holds unless the second text starts with a character that is read
/// together with the end of the first.
pub proof fn law_patterns_follow(
    first: Seq<char>,
    second: Seq<char>,
    p: PatternView,
    q: PatternView,
    seed: u64,
)
    requires
        sequence_at(first, 0) == Some((p, first.len() as int)),
        sequence_at(second, 0) == Some((q, second.len() as int)),
        second.len() > 0 ==> !goes_on(first, second[0]),
    ensures
        ({
            let made_first = pattern_made(p, seeded_state(seed));
            let made_second = pattern_made(q, made_first.state);
            run_text(first + second, seed) == Ok::<Seq<char>, ErrorView>(
                made_first.text + made_second.text,
            )
        }),
{
    let s = first + second;
    let state = seeded_state(seed);
    let front = items_at(first, 0).0;
    let back = items_at(second, 0).0;
    law_items_follow(first, second);
    assert(parse_text(s) == Ok::<PatternView, ErrorView>(PatternView::Sequence(front + back))) by {
        lemma_whole_text(s, PatternView::Sequence(front + back));
    }
    lemma_items_made_append(front, back, back.len(), state);
    if front.len() == 1 {
        lemma_single_item_made(front, state);
    }
    if back.len() == 1 {
        lemma_single_item_made(back, items_made(front, front.len(), state).state);
    }
}

} // verus!
