//! Alternation combinators: ordered choice between parsers.

use crate::input::InputView;
use crate::outcome::Outcome;
use crate::outcome::ParserError;
use crate::outcome::SpecOutcome;
use crate::parse::Parse;
use crate::parse::SpecParse;
use vstd::prelude::*;

verus! {

// ---------------------------------------------------------------------------
// Either.
// ---------------------------------------------------------------------------

/// Tries the first parser; if it fails, tries the second on the original
/// input.  If both fail, the second failure is reported.
pub struct EitherOf<A, B> {
    /// The parser tried first.
    pub a: A,
    /// The parser tried second, on the original input.
    pub b: B,
}

impl<A: SpecParse, B: SpecParse<SV = A::SV>> SpecParse for EitherOf<A, B> {
    type SV = A::SV;

    open spec fn spec_parse(&self, i: Seq<char>) -> SpecOutcome<A::SV> {
        match self.a.spec_parse(i) {
            SpecOutcome::Found { used, val } => SpecOutcome::Found { used, val },
            SpecOutcome::Failed { .. } => self.b.spec_parse(i),
        }
    }

    proof fn lemma_parse_bounds(&self, i: Seq<char>) {
        self.a.lemma_parse_bounds(i);
        self.b.lemma_parse_bounds(i);
    }
}

impl<A: Parse, B: Parse<Out = A::Out> + SpecParse<SV = A::SV>> Parse for EitherOf<A, B> {
    type Out = A::Out;

    fn parse(&self, i: &InputView) -> (o: Outcome<A::Out>) {
        match self.a.parse(i) {
            Outcome::Success(rem, v) => Outcome::Success(rem, v),
            Outcome::Failure(_, _) => self.b.parse(i),
        }
    }
}

/// Builds the two-way ordered choice over `a` and `b`.
pub fn either<A, B>(a: A, b: B) -> (r: EitherOf<A, B>)
    ensures
        r.a == a,
        r.b == b,
{
    EitherOf { a, b }
}

// ---------------------------------------------------------------------------
// Choice.
// ---------------------------------------------------------------------------

/// Tries an ordered collection of same-typed parsers against the original
/// input and commits to the first success; if none succeeds, fails with
/// [`ParserError::Choice`], deliberately discarding the individual failures.
pub struct ChoiceOf<P> {
    /// The parsers, tried in order.
    pub ps: Vec<P>,
}

/// The outcome of trying the parsers of `ps` from position `k` onward
/// against the whole input `i`.
pub open spec fn choice_from<P: SpecParse>(ps: Seq<P>, k: int, i: Seq<char>) -> SpecOutcome<P::SV>
    decreases ps.len() - k,
{
    if 0 <= k < ps.len() {
        match ps[k].spec_parse(i) {
            SpecOutcome::Found { used, val } => SpecOutcome::Found { used, val },
            SpecOutcome::Failed { .. } => choice_from(ps, k + 1, i),
        }
    } else {
        SpecOutcome::Failed { at: 0, kind: ParserError::Choice }
    }
}

/// The offsets of [`choice_from`] stay inside the input.
proof fn lemma_choice_from_bounds<P: SpecParse>(ps: Seq<P>, k: int, i: Seq<char>)
    ensures
        crate::outcome::spec_in_bounds(choice_from(ps, k, i), i.len() as int),
    decreases ps.len() - k,
{
    if 0 <= k < ps.len() {
        ps[k].lemma_parse_bounds(i);
        lemma_choice_from_bounds(ps, k + 1, i);
    }
}

impl<P: SpecParse> SpecParse for ChoiceOf<P> {
    type SV = P::SV;

    open spec fn spec_parse(&self, i: Seq<char>) -> SpecOutcome<P::SV> {
        choice_from(self.ps@, 0, i)
    }

    proof fn lemma_parse_bounds(&self, i: Seq<char>) {
        lemma_choice_from_bounds(self.ps@, 0, i);
    }
}

impl<P: Parse> Parse for ChoiceOf<P> {
    type Out = P::Out;

    fn parse(&self, i: &InputView) -> (o: Outcome<P::Out>) {
        let n = self.ps.len();
        let mut k: usize = 0;
        while k < n
            invariant
                n == self.ps@.len(),
                k <= n,
                choice_from(self.ps@, 0, i@) == choice_from(self.ps@, k as int, i@),
            decreases n - k,
        {
            let p = &self.ps[k];
            match p.parse(i) {
                Outcome::Success(rem, v) => {
                    return Outcome::Success(rem, v);
                },
                Outcome::Failure(_, _) => {
                    k += 1;
                },
            }
        }
        proof {
            assert(i@.skip(0) =~= i@);
        }
        Outcome::Failure(i.duplicate(), ParserError::Choice)
    }
}

/// Builds the ordered choice over the parsers of `ps`.
pub fn choice<P>(ps: Vec<P>) -> (r: ChoiceOf<P>)
    ensures
        r.ps == ps,
{
    ChoiceOf { ps }
}

} // verus!
