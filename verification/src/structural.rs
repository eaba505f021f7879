//! Structural combinators: run two or three parsers in order and combine
//! their values positionally.
//!
//! All of them short-circuit on the first failing sub-parser and report that
//! failure unchanged, at the position it occurred — which may lie past input
//! already consumed by earlier sub-parsers.

use crate::input::InputView;
use crate::outcome::Outcome;
use crate::outcome::SpecOutcome;
use crate::outcome::lemma_skip_skip;
use crate::parse::Parse;
use crate::parse::SpecParse;
use vstd::prelude::*;

verus! {

// ---------------------------------------------------------------------------
// Pair.
// ---------------------------------------------------------------------------

/// Runs two parsers in order and pairs their values.
pub struct PairOf<A, B> {
    /// The first parser.
    pub a: A,
    /// The second parser.
    pub b: B,
}

impl<A: SpecParse, B: SpecParse> SpecParse for PairOf<A, B> {
    type SV = (A::SV, B::SV);

    open spec fn spec_parse(&self, i: Seq<char>) -> SpecOutcome<(A::SV, B::SV)> {
        match self.a.spec_parse(i) {
            SpecOutcome::Found { used: u1, val: v1 } => match self.b.spec_parse(i.skip(u1)) {
                SpecOutcome::Found { used: u2, val: v2 } => SpecOutcome::Found {
                    used: u1 + u2,
                    val: (v1, v2),
                },
                SpecOutcome::Failed { at, kind } => SpecOutcome::Failed { at: u1 + at, kind },
            },
            SpecOutcome::Failed { at, kind } => SpecOutcome::Failed { at, kind },
        }
    }

    proof fn lemma_parse_bounds(&self, i: Seq<char>) {
        self.a.lemma_parse_bounds(i);
        if let SpecOutcome::Found { used: u1, .. } = self.a.spec_parse(i) {
            self.b.lemma_parse_bounds(i.skip(u1));
        }
    }
}

impl<A: Parse, B: Parse> Parse for PairOf<A, B> {
    type Out = (A::Out, B::Out);

    fn parse(&self, i: &InputView) -> (o: Outcome<(A::Out, B::Out)>) {
        proof {
            self.a.lemma_parse_bounds(i@);
            if let SpecOutcome::Found { used: u1, .. } = self.a.spec_parse(i@) {
                self.b.lemma_parse_bounds(i@.skip(u1));
                match self.b.spec_parse(i@.skip(u1)) {
                    SpecOutcome::Found { used: u2, .. } => lemma_skip_skip(i@, u1, u2),
                    SpecOutcome::Failed { at, .. } => lemma_skip_skip(i@, u1, at),
                }
            }
        }
        match self.a.parse(i) {
            Outcome::Success(rem1, v1) => match self.b.parse(&rem1) {
                Outcome::Success(rem2, v2) => Outcome::Success(rem2, (v1, v2)),
                Outcome::Failure(loc, k) => Outcome::Failure(loc, k),
            },
            Outcome::Failure(loc, k) => Outcome::Failure(loc, k),
        }
    }
}

/// Builds the pairing combinator over `a` and `b`.
pub fn pair<A, B>(a: A, b: B) -> (r: PairOf<A, B>)
    ensures
        r.a == a,
        r.b == b,
{
    PairOf { a, b }
}

// ---------------------------------------------------------------------------
// Trio.
// ---------------------------------------------------------------------------

/// Runs three parsers in order and gathers their values into a triple.
pub struct TrioOf<A, B, C> {
    /// The first parser.
    pub a: A,
    /// The second parser.
    pub b: B,
    /// The third parser.
    pub c: C,
}

impl<A: SpecParse, B: SpecParse, C: SpecParse> SpecParse for TrioOf<A, B, C> {
    type SV = (A::SV, B::SV, C::SV);

    open spec fn spec_parse(&self, i: Seq<char>) -> SpecOutcome<(A::SV, B::SV, C::SV)> {
        match self.a.spec_parse(i) {
            SpecOutcome::Found { used: u1, val: v1 } => match self.b.spec_parse(i.skip(u1)) {
                SpecOutcome::Found { used: u2, val: v2 } => match self.c.spec_parse(
                    i.skip(u1 + u2),
                ) {
                    SpecOutcome::Found { used: u3, val: v3 } => SpecOutcome::Found {
                        used: u1 + u2 + u3,
                        val: (v1, v2, v3),
                    },
                    SpecOutcome::Failed { at, kind } => SpecOutcome::Failed {
                        at: u1 + u2 + at,
                        kind,
                    },
                },
                SpecOutcome::Failed { at, kind } => SpecOutcome::Failed { at: u1 + at, kind },
            },
            SpecOutcome::Failed { at, kind } => SpecOutcome::Failed { at, kind },
        }
    }

    proof fn lemma_parse_bounds(&self, i: Seq<char>) {
        self.a.lemma_parse_bounds(i);
        if let SpecOutcome::Found { used: u1, .. } = self.a.spec_parse(i) {
            self.b.lemma_parse_bounds(i.skip(u1));
            if let SpecOutcome::Found { used: u2, .. } = self.b.spec_parse(i.skip(u1)) {
                self.c.lemma_parse_bounds(i.skip(u1 + u2));
            }
        }
    }
}

impl<A: Parse, B: Parse, C: Parse> Parse for TrioOf<A, B, C> {
    type Out = (A::Out, B::Out, C::Out);

    fn parse(&self, i: &InputView) -> (o: Outcome<(A::Out, B::Out, C::Out)>) {
        proof {
            self.a.lemma_parse_bounds(i@);
            if let SpecOutcome::Found { used: u1, .. } = self.a.spec_parse(i@) {
                self.b.lemma_parse_bounds(i@.skip(u1));
                match self.b.spec_parse(i@.skip(u1)) {
                    SpecOutcome::Found { used: u2, .. } => {
                        lemma_skip_skip(i@, u1, u2);
                        self.c.lemma_parse_bounds(i@.skip(u1 + u2));
                        match self.c.spec_parse(i@.skip(u1 + u2)) {
                            SpecOutcome::Found { used: u3, .. } => lemma_skip_skip(
                                i@,
                                u1 + u2,
                                u3,
                            ),
                            SpecOutcome::Failed { at, .. } => lemma_skip_skip(i@, u1 + u2, at),
                        }
                    },
                    SpecOutcome::Failed { at, .. } => lemma_skip_skip(i@, u1, at),
                }
            }
        }
        match self.a.parse(i) {
            Outcome::Success(rem1, v1) => match self.b.parse(&rem1) {
                Outcome::Success(rem2, v2) => match self.c.parse(&rem2) {
                    Outcome::Success(rem3, v3) => Outcome::Success(rem3, (v1, v2, v3)),
                    Outcome::Failure(loc, k) => Outcome::Failure(loc, k),
                },
                Outcome::Failure(loc, k) => Outcome::Failure(loc, k),
            },
            Outcome::Failure(loc, k) => Outcome::Failure(loc, k),
        }
    }
}

/// Builds the three-way combinator over `a`, `b` and `c`.
pub fn trio<A, B, C>(a: A, b: B, c: C) -> (r: TrioOf<A, B, C>)
    ensures
        r.a == a,
        r.b == b,
        r.c == c,
{
    TrioOf { a, b, c }
}

// ---------------------------------------------------------------------------
// Left.
// ---------------------------------------------------------------------------

/// Runs two parsers in order and keeps only the first value.
pub struct LeftOf<A, B> {
    /// The first parser, whose value is kept.
    pub a: A,
    /// The second parser, whose value is discarded.
    pub b: B,
}

impl<A: SpecParse, B: SpecParse> SpecParse for LeftOf<A, B> {
    type SV = A::SV;

    open spec fn spec_parse(&self, i: Seq<char>) -> SpecOutcome<A::SV> {
        match self.a.spec_parse(i) {
            SpecOutcome::Found { used: u1, val: v1 } => match self.b.spec_parse(i.skip(u1)) {
                SpecOutcome::Found { used: u2, .. } => SpecOutcome::Found {
                    used: u1 + u2,
                    val: v1,
                },
                SpecOutcome::Failed { at, kind } => SpecOutcome::Failed { at: u1 + at, kind },
            },
            SpecOutcome::Failed { at, kind } => SpecOutcome::Failed { at, kind },
        }
    }

    proof fn lemma_parse_bounds(&self, i: Seq<char>) {
        self.a.lemma_parse_bounds(i);
        if let SpecOutcome::Found { used: u1, .. } = self.a.spec_parse(i) {
            self.b.lemma_parse_bounds(i.skip(u1));
        }
    }
}

impl<A: Parse, B: Parse> Parse for LeftOf<A, B> {
    type Out = A::Out;

    fn parse(&self, i: &InputView) -> (o: Outcome<A::Out>) {
        proof {
            self.a.lemma_parse_bounds(i@);
            if let SpecOutcome::Found { used: u1, .. } = self.a.spec_parse(i@) {
                self.b.lemma_parse_bounds(i@.skip(u1));
                match self.b.spec_parse(i@.skip(u1)) {
                    SpecOutcome::Found { used: u2, .. } => lemma_skip_skip(i@, u1, u2),
                    SpecOutcome::Failed { at, .. } => lemma_skip_skip(i@, u1, at),
                }
            }
        }
        match self.a.parse(i) {
            Outcome::Success(rem1, v1) => match self.b.parse(&rem1) {
                Outcome::Success(rem2, _) => Outcome::Success(rem2, v1),
                Outcome::Failure(loc, k) => Outcome::Failure(loc, k),
            },
            Outcome::Failure(loc, k) => Outcome::Failure(loc, k),
        }
    }
}

/// Builds the keep-left combinator over `a` and `b`.
pub fn left<A, B>(a: A, b: B) -> (r: LeftOf<A, B>)
    ensures
        r.a == a,
        r.b == b,
{
    LeftOf { a, b }
}

// ---------------------------------------------------------------------------
// Right.
// ---------------------------------------------------------------------------

/// Runs two parsers in order and keeps only the second value.
pub struct RightOf<A, B> {
    /// The first parser, whose value is discarded.
    pub a: A,
    /// The second parser, whose value is kept.
    pub b: B,
}

impl<A: SpecParse, B: SpecParse> SpecParse for RightOf<A, B> {
    type SV = B::SV;

    open spec fn spec_parse(&self, i: Seq<char>) -> SpecOutcome<B::SV> {
        match self.a.spec_parse(i) {
            SpecOutcome::Found { used: u1, .. } => match self.b.spec_parse(i.skip(u1)) {
                SpecOutcome::Found { used: u2, val: v2 } => SpecOutcome::Found {
                    used: u1 + u2,
                    val: v2,
                },
                SpecOutcome::Failed { at, kind } => SpecOutcome::Failed { at: u1 + at, kind },
            },
            SpecOutcome::Failed { at, kind } => SpecOutcome::Failed { at, kind },
        }
    }

    proof fn lemma_parse_bounds(&self, i: Seq<char>) {
        self.a.lemma_parse_bounds(i);
        if let SpecOutcome::Found { used: u1, .. } = self.a.spec_parse(i) {
            self.b.lemma_parse_bounds(i.skip(u1));
        }
    }
}

impl<A: Parse, B: Parse> Parse for RightOf<A, B> {
    type Out = B::Out;

    fn parse(&self, i: &InputView) -> (o: Outcome<B::Out>) {
        proof {
            self.a.lemma_parse_bounds(i@);
            if let SpecOutcome::Found { used: u1, .. } = self.a.spec_parse(i@) {
                self.b.lemma_parse_bounds(i@.skip(u1));
                match self.b.spec_parse(i@.skip(u1)) {
                    SpecOutcome::Found { used: u2, .. } => lemma_skip_skip(i@, u1, u2),
                    SpecOutcome::Failed { at, .. } => lemma_skip_skip(i@, u1, at),
                }
            }
        }
        match self.a.parse(i) {
            Outcome::Success(rem1, _) => match self.b.parse(&rem1) {
                Outcome::Success(rem2, v2) => Outcome::Success(rem2, v2),
                Outcome::Failure(loc, k) => Outcome::Failure(loc, k),
            },
            Outcome::Failure(loc, k) => Outcome::Failure(loc, k),
        }
    }
}

/// Builds the keep-right combinator over `a` and `b`.
pub fn right<A, B>(a: A, b: B) -> (r: RightOf<A, B>)
    ensures
        r.a == a,
        r.b == b,
{
    RightOf { a, b }
}

// ---------------------------------------------------------------------------
// Middle.
// ---------------------------------------------------------------------------

/// Runs three parsers in order and keeps only the middle value.
pub struct MiddleOf<A, B, C> {
    /// The first parser, whose value is discarded.
    pub a: A,
    /// The second parser, whose value is kept.
    pub b: B,
    /// The third parser, whose value is discarded.
    pub c: C,
}

impl<A: SpecParse, B: SpecParse, C: SpecParse> SpecParse for MiddleOf<A, B, C> {
    type SV = B::SV;

    open spec fn spec_parse(&self, i: Seq<char>) -> SpecOutcome<B::SV> {
        match self.a.spec_parse(i) {
            SpecOutcome::Found { used: u1, .. } => match self.b.spec_parse(i.skip(u1)) {
                SpecOutcome::Found { used: u2, val: v2 } => match self.c.spec_parse(
                    i.skip(u1 + u2),
                ) {
                    SpecOutcome::Found { used: u3, .. } => SpecOutcome::Found {
                        used: u1 + u2 + u3,
                        val: v2,
                    },
                    SpecOutcome::Failed { at, kind } => SpecOutcome::Failed {
                        at: u1 + u2 + at,
                        kind,
                    },
                },
                SpecOutcome::Failed { at, kind } => SpecOutcome::Failed { at: u1 + at, kind },
            },
            SpecOutcome::Failed { at, kind } => SpecOutcome::Failed { at, kind },
        }
    }

    proof fn lemma_parse_bounds(&self, i: Seq<char>) {
        self.a.lemma_parse_bounds(i);
        if let SpecOutcome::Found { used: u1, .. } = self.a.spec_parse(i) {
            self.b.lemma_parse_bounds(i.skip(u1));
            if let SpecOutcome::Found { used: u2, .. } = self.b.spec_parse(i.skip(u1)) {
                self.c.lemma_parse_bounds(i.skip(u1 + u2));
            }
        }
    }
}

impl<A: Parse, B: Parse, C: Parse> Parse for MiddleOf<A, B, C> {
    type Out = B::Out;

    fn parse(&self, i: &InputView) -> (o: Outcome<B::Out>) {
        proof {
            self.a.lemma_parse_bounds(i@);
            if let SpecOutcome::Found { used: u1, .. } = self.a.spec_parse(i@) {
                self.b.lemma_parse_bounds(i@.skip(u1));
                match self.b.spec_parse(i@.skip(u1)) {
                    SpecOutcome::Found { used: u2, .. } => {
                        lemma_skip_skip(i@, u1, u2);
                        self.c.lemma_parse_bounds(i@.skip(u1 + u2));
                        match self.c.spec_parse(i@.skip(u1 + u2)) {
                            SpecOutcome::Found { used: u3, .. } => lemma_skip_skip(
                                i@,
                                u1 + u2,
                                u3,
                            ),
                            SpecOutcome::Failed { at, .. } => lemma_skip_skip(i@, u1 + u2, at),
                        }
                    },
                    SpecOutcome::Failed { at, .. } => lemma_skip_skip(i@, u1, at),
                }
            }
        }
        match self.a.parse(i) {
            Outcome::Success(rem1, _) => match self.b.parse(&rem1) {
                Outcome::Success(rem2, v2) => match self.c.parse(&rem2) {
                    Outcome::Success(rem3, _) => Outcome::Success(rem3, v2),
                    Outcome::Failure(loc, k) => Outcome::Failure(loc, k),
                },
                Outcome::Failure(loc, k) => Outcome::Failure(loc, k),
            },
            Outcome::Failure(loc, k) => Outcome::Failure(loc, k),
        }
    }
}

/// Builds the keep-middle combinator over `a`, `b` and `c`.
pub fn middle<A, B, C>(a: A, b: B, c: C) -> (r: MiddleOf<A, B, C>)
    ensures
        r.a == a,
        r.b == b,
        r.c == c,
{
    MiddleOf { a, b, c }
}

// ---------------------------------------------------------------------------
// Outer.
// ---------------------------------------------------------------------------

/// Runs three parsers in order and keeps the outer two values.
pub struct OuterOf<A, B, C> {
    /// The first parser, whose value is kept.
    pub a: A,
    /// The second parser, whose value is discarded.
    pub b: B,
    /// The third parser, whose value is kept.
    pub c: C,
}

impl<A: SpecParse, B: SpecParse, C: SpecParse> SpecParse for OuterOf<A, B, C> {
    type SV = (A::SV, C::SV);

    open spec fn spec_parse(&self, i: Seq<char>) -> SpecOutcome<(A::SV, C::SV)> {
        match self.a.spec_parse(i) {
            SpecOutcome::Found { used: u1, val: v1 } => match self.b.spec_parse(i.skip(u1)) {
                SpecOutcome::Found { used: u2, .. } => match self.c.spec_parse(i.skip(u1 + u2)) {
                    SpecOutcome::Found { used: u3, val: v3 } => SpecOutcome::Found {
                        used: u1 + u2 + u3,
                        val: (v1, v3),
                    },
                    SpecOutcome::Failed { at, kind } => SpecOutcome::Failed {
                        at: u1 + u2 + at,
                        kind,
                    },
                },
                SpecOutcome::Failed { at, kind } => SpecOutcome::Failed { at: u1 + at, kind },
            },
            SpecOutcome::Failed { at, kind } => SpecOutcome::Failed { at, kind },
        }
    }

    proof fn lemma_parse_bounds(&self, i: Seq<char>) {
        self.a.lemma_parse_bounds(i);
        if let SpecOutcome::Found { used: u1, .. } = self.a.spec_parse(i) {
            self.b.lemma_parse_bounds(i.skip(u1));
            if let SpecOutcome::Found { used: u2, .. } = self.b.spec_parse(i.skip(u1)) {
                self.c.lemma_parse_bounds(i.skip(u1 + u2));
            }
        }
    }
}

impl<A: Parse, B: Parse, C: Parse> Parse for OuterOf<A, B, C> {
    type Out = (A::Out, C::Out);

    fn parse(&self, i: &InputView) -> (o: Outcome<(A::Out, C::Out)>) {
        proof {
            self.a.lemma_parse_bounds(i@);
            if let SpecOutcome::Found { used: u1, .. } = self.a.spec_parse(i@) {
                self.b.lemma_parse_bounds(i@.skip(u1));
                match self.b.spec_parse(i@.skip(u1)) {
                    SpecOutcome::Found { used: u2, .. } => {
                        lemma_skip_skip(i@, u1, u2);
                        self.c.lemma_parse_bounds(i@.skip(u1 + u2));
                        match self.c.spec_parse(i@.skip(u1 + u2)) {
                            SpecOutcome::Found { used: u3, .. } => lemma_skip_skip(
                                i@,
                                u1 + u2,
                                u3,
                            ),
                            SpecOutcome::Failed { at, .. } => lemma_skip_skip(i@, u1 + u2, at),
                        }
                    },
                    SpecOutcome::Failed { at, .. } => lemma_skip_skip(i@, u1, at),
                }
            }
        }
        match self.a.parse(i) {
            Outcome::Success(rem1, v1) => match self.b.parse(&rem1) {
                Outcome::Success(rem2, _) => match self.c.parse(&rem2) {
                    Outcome::Success(rem3, v3) => Outcome::Success(rem3, (v1, v3)),
                    Outcome::Failure(loc, k) => Outcome::Failure(loc, k),
                },
                Outcome::Failure(loc, k) => Outcome::Failure(loc, k),
            },
            Outcome::Failure(loc, k) => Outcome::Failure(loc, k),
        }
    }
}

/// Builds the keep-outer combinator over `a`, `b` and `c`.
pub fn outer<A, B, C>(a: A, b: B, c: C) -> (r: OuterOf<A, B, C>)
    ensures
        r.a == a,
        r.b == b,
        r.c == c,
{
    OuterOf { a, b, c }
}

} // verus!
