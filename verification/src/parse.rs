//! The parser capability: one specification function and one run method.

use crate::input::InputView;
use crate::outcome::Outcome;
use crate::outcome::SpecOutcome;
use crate::outcome::outcome_matches;
use crate::outcome::spec_in_bounds;
use vstd::prelude::*;

verus! {

/// The specification side of a parser.
///
/// `spec_parse` is a total mathematical function from the input text to a
/// [`SpecOutcome`]; it fully determines what the parser does.  Every parser
/// must also prove `lemma_parse_bounds`: a success never consumes more than
/// the input holds, and a failure is always reported at a position inside the
/// input — the suffix invariant every combinator relies on.
pub trait SpecParse: Sized {
    /// The specification-level value domain of this parser.
    type SV;

    /// What this parser does on input text `i`.
    spec fn spec_parse(&self, i: Seq<char>) -> SpecOutcome<Self::SV>;

    /// Consumption and failure positions stay inside the input.
    proof fn lemma_parse_bounds(&self, i: Seq<char>)
        ensures
            spec_in_bounds(self.spec_parse(i), i.len() as int),
    ;
}

/// The executable side of a parser: running it agrees exactly with
/// [`SpecParse::spec_parse`] on the view of the input.
pub trait Parse: SpecParse {
    /// The executable value type; its deep view lives in `Self::SV`.
    type Out: DeepView<V = Self::SV>;

    /// Runs the parser on `i`.
    fn parse(&self, i: &InputView) -> (o: Outcome<Self::Out>)
        ensures
            outcome_matches(o, i@, self.spec_parse(i@)),
    ;
}

/// A total transformation of parsed values, used by the mapping combinator.
///
/// The specification function operates on the value's deep view, so a
/// transformation's effect can be stated inside parser specifications.
pub trait Transform {
    /// The value type consumed.
    type In: DeepView;

    /// The value type produced.
    type Out: DeepView;

    /// What the transformation does, on deep views.
    spec fn spec_apply(&self, a: <Self::In as DeepView>::V) -> <Self::Out as DeepView>::V;

    /// Applies the transformation.
    fn apply(&self, a: Self::In) -> (b: Self::Out)
        ensures
            b.deep_view() == self.spec_apply(a.deep_view()),
    ;
}

/// A transformation of parsed values that can fail, used by the fallible
/// mapping combinator.
pub trait TryTransform {
    /// The value type consumed.
    type In: DeepView;

    /// The value type produced on success.
    type Out: DeepView;

    /// What the transformation does, on deep views.
    spec fn spec_try(&self, a: <Self::In as DeepView>::V) -> Option<<Self::Out as DeepView>::V>;

    /// Applies the transformation, reporting failure as `None`.
    fn try_apply(&self, a: Self::In) -> (b: Option<Self::Out>)
        ensures
            match b {
                Some(x) => self.spec_try(a.deep_view()) == Some(x.deep_view()),
                None => self.spec_try(a.deep_view()) is None,
            },
    ;
}

/// A predicate over parsed values, used by the acceptance-gating combinator.
pub trait Accept {
    /// The value type tested.
    type In: DeepView;

    /// What the predicate holds of, on deep views.
    spec fn spec_accept(&self, v: <Self::In as DeepView>::V) -> bool;

    /// Tests the predicate.
    fn accept(&self, v: &Self::In) -> (b: bool)
        ensures
            b == self.spec_accept(v.deep_view()),
    ;
}

/// A predicate over single characters, used by the predicate-run primitive.
pub trait CharTest {
    /// What the predicate holds of.
    spec fn spec_test(&self, c: char) -> bool;

    /// Tests the predicate.
    fn test(&self, c: char) -> (b: bool)
        ensures
            b == self.spec_test(c),
    ;
}

} // verus!
