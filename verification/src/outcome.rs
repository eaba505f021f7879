//! The outcome model: what running a parser on an input view produces.

use crate::input::InputView;
use vstd::prelude::*;

verus! {

/// The closed set of failure kinds a parser can report.
///
/// A failure carries no message text; its position is the view stored in the
/// failure outcome itself.
#[derive(Clone, Copy, Debug, PartialEq, Eq, Structural)]
pub enum ParserError {
    Check,
    Choice,
    Eof,
    Tag,
    TakeWhile,
    MapRes,
}

/// The result of running a parser.
///
/// On success it holds the remaining input (a suffix of what was handed in)
/// and the parsed value; on failure it holds the view that was handed to
/// whichever parser reported the failure, and the failure kind.
pub enum Outcome<T> {
    Success(InputView, T),
    Failure(InputView, ParserError),
}

/// The specification-level counterpart of [`Outcome`].
///
/// Positions are tracked as character counts from the start of the input the
/// parser received: a success consumed `used` characters, a failure was
/// reported `at` characters in.
#[verifier::ext_equal]
pub enum SpecOutcome<V> {
    Found { used: int, val: V },
    Failed { at: int, kind: ParserError },
}

/// Every offset a spec outcome mentions stays within an input of length `n`.
pub open spec fn spec_in_bounds<V>(s: SpecOutcome<V>, n: int) -> bool {
    match s {
        SpecOutcome::Found { used, .. } => 0 <= used <= n,
        SpecOutcome::Failed { at, .. } => 0 <= at <= n,
    }
}

/// Skipping `a` characters and then `b` more is skipping `a + b` at once.
pub proof fn lemma_skip_skip(i: Seq<char>, a: int, b: int)
    requires
        0 <= a,
        0 <= b,
        a + b <= i.len(),
    ensures
        i.skip(a).skip(b) == i.skip(a + b),
{
    assert(i.skip(a).skip(b) =~= i.skip(a + b));
}

/// The executable outcome `o` agrees with the spec outcome `s` for input `i`.
pub open spec fn outcome_matches<T: DeepView>(
    o: Outcome<T>,
    i: Seq<char>,
    s: SpecOutcome<T::V>,
) -> bool {
    match s {
        SpecOutcome::Found { used, val } => {
            &&& o matches Outcome::Success(rem, v)
            &&& rem@ == i.skip(used)
            &&& v.deep_view() == val
        },
        SpecOutcome::Failed { at, kind } => {
            &&& o matches Outcome::Failure(loc, k)
            &&& loc@ == i.skip(at)
            &&& k == kind
        },
    }
}

} // verus!
