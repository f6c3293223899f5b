//! The syntax tree of a pattern, and the mathematical values its contracts speak of.
use vstd::prelude::*;

verus! {

/// An atom of a pattern.
#[derive(PartialEq, Debug)]
pub enum Primitive {
    /// One given character.
    Char(char),
    /// One decimal digit.
    Digit,
    /// One lowercase letter.
    Alphabetic,
    /// One character out of those of the string; nothing where the string is empty.
    Alt(String),
    /// A pattern in parentheses.
    Group(Box<Pattern>),
    /// Either of two patterns.
    Or(Box<Pattern>, Box<Pattern>),
}

/// A pattern: one atom, an atom repeated, or patterns one after another.
#[derive(PartialEq, Debug)]
pub enum Pattern {
    Word(Box<Primitive>),
    /// The atom repeated some number of times between the two bounds, both included.
    Loop(Box<Primitive>, u64, u64),
    Sequence(Vec<Box<Pattern>>),
}

/// What a [`Primitive`] is, with its strings as sequences of characters.
pub enum PrimitiveView {
    Char(char),
    Digit,
    Alphabetic,
    Alt(Seq<char>),
    Group(Box<PatternView>),
    Or(Box<PatternView>, Box<PatternView>),
}

/// What a [`Pattern`] is, with its vector as a sequence.
pub enum PatternView {
    Word(PrimitiveView),
    Loop(PrimitiveView, u64, u64),
    Sequence(Seq<PatternView>),
}

impl Primitive {
    pub open spec fn model(&self) -> PrimitiveView
        decreases self,
    {
        match self {
            Primitive::Char(c) => PrimitiveView::Char(*c),
            Primitive::Digit => PrimitiveView::Digit,
            Primitive::Alphabetic => PrimitiveView::Alphabetic,
            Primitive::Alt(set) => PrimitiveView::Alt(set@),
            Primitive::Group(p) => PrimitiveView::Group(Box::new(p.model())),
            Primitive::Or(a, b) => PrimitiveView::Or(Box::new(a.model()), Box::new(b.model())),
        }
    }
}

impl Pattern {
    pub open spec fn model(&self) -> PatternView
        decreases self,
    {
        match self {
            Pattern::Word(w) => PatternView::Word(w.model()),
            Pattern::Loop(w, from, to) => PatternView::Loop(w.model(), *from, *to),
            Pattern::Sequence(items) => PatternView::Sequence(
                Seq::new(
                    items@.len(),
                    |i: int|
                        if 0 <= i < items@.len() {
                            items@[i].model()
                        } else {
                            arbitrary()
                        },
                ),
            ),
        }
    }
}

impl View for Primitive {
    type V = PrimitiveView;

    open spec fn view(&self) -> PrimitiveView {
        self.model()
    }
}

impl View for Pattern {
    type V = PatternView;

    open spec fn view(&self) -> PatternView {
        self.model()
    }
}

impl PrimitiveView {
    /// Every loop inside has its lower bound at or below its upper bound.
    pub open spec fn well_formed(self) -> bool
        decreases self,
    {
        match self {
            PrimitiveView::Group(p) => p.well_formed(),
            PrimitiveView::Or(a, b) => a.well_formed() && b.well_formed(),
            _ => true,
        }
    }
}

impl PatternView {
    /// Every loop inside has its lower bound at or below its upper bound.
    pub open spec fn well_formed(self) -> bool
        decreases self,
    {
        match self {
            PatternView::Word(w) => w.well_formed(),
            PatternView::Loop(w, from, to) => from <= to && w.well_formed(),
            PatternView::Sequence(items) => forall|i: int|
                0 <= i < items.len() ==> (#[trigger] items[i]).well_formed(),
        }
    }
}

impl Primitive {
    /// Whether every loop inside has its lower bound at or below its upper bound.
    pub fn is_well_formed(&self) -> (ok: bool)
        ensures
            ok == self@.well_formed(),
        decreases self,
    {
        match self {
            Primitive::Group(p) => p.is_well_formed(),
            Primitive::Or(a, b) => a.is_well_formed() && b.is_well_formed(),
            _ => true,
        }
    }
}

impl Pattern {
    /// Whether every loop inside has its lower bound at or below its upper bound.
    #[verifier::loop_isolation(false)]
    pub fn is_well_formed(&self) -> (ok: bool)
        ensures
            ok == self@.well_formed(),
        decreases self,
    {
        match self {
            Pattern::Word(w) => w.is_well_formed(),
            Pattern::Loop(w, from, to) => *from <= *to && w.is_well_formed(),
            Pattern::Sequence(items) => {
                let mut i: usize = 0;
                while i < items.len()
                    invariant
                        i <= items.len(),
                        forall|n: int| 0 <= n < i ==> (#[trigger] self@->Sequence_0[n]).well_formed(),
                    decreases items.len() - i,
                {
                    assert(self@->Sequence_0[i as int] == items[i as int]@);
                    if !items[i].is_well_formed() {
                        return false;
                    }
                    i += 1;
                }
                true
            },
        }
    }
}

impl Clone for Primitive {
    fn clone(&self) -> (copy: Self)
        ensures
            copy@ == self@,
    {
        self.duplicate()
    }
}

impl Clone for Pattern {
    fn clone(&self) -> (copy: Self)
        ensures
            copy@ == self@,
    {
        self.duplicate()
    }
}

impl Primitive {
    /// A copy of the atom.
    fn duplicate(&self) -> (copy: Primitive)
        ensures
            copy@ == self@,
        decreases self,
    {
        match self {
            Primitive::Char(c) => Primitive::Char(*c),
            Primitive::Digit => Primitive::Digit,
            Primitive::Alphabetic => Primitive::Alphabetic,
            Primitive::Alt(set) => Primitive::Alt(set.clone()),
            Primitive::Group(p) => Primitive::Group(Box::new(p.duplicate())),
            Primitive::Or(a, b) => Primitive::Or(Box::new(a.duplicate()), Box::new(b.duplicate())),
        }
    }
}

impl Pattern {
    /// A copy of the pattern.
    #[verifier::loop_isolation(false)]
    fn duplicate(&self) -> (copy: Pattern)
        ensures
            copy@ == self@,
        decreases self,
    {
        match self {
            Pattern::Word(w) => Pattern::Word(Box::new(w.duplicate())),
            Pattern::Loop(w, from, to) => Pattern::Loop(Box::new(w.duplicate()), *from, *to),
            Pattern::Sequence(items) => {
                let mut copies: Vec<Box<Pattern>> = Vec::new();
                let mut i: usize = 0;
                while i < items.len()
                    invariant
                        i <= items.len(),
                        copies.len() == i,
                        forall|n: int| 0 <= n < i ==> (#[trigger] copies[n])@ == items[n]@,
                    decreases items.len() - i,
                {
                    copies.push(Box::new(items[i].duplicate()));
                    i += 1;
                }
                let copy = Pattern::Sequence(copies);
                assert(copy@->Sequence_0 =~= self@->Sequence_0);
                copy
            },
        }
    }
}

} // verus!
