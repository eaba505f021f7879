//! Laws: properties that hold of the combinators for all inputs, stated and
//! proved once for every parser.

use crate::alternate::choice_from;
use crate::outcome::ParserError;
use crate::outcome::SpecOutcome;
use crate::parse::SpecParse;
use crate::parse::Transform;
use crate::primitive::Tag;
use crate::primitive::TakeUntil;
use crate::primitive::Whitespace;
use crate::repeat::ChainOf;
use crate::repeat::ManyOf;
use crate::repeat::many_used;
use crate::repeat::many_vals;
use crate::transform::Mapped;
use crate::transform::Optional;
use crate::transform::Recognized;
use vstd::prelude::*;

verus! {

/// `i` starts with the literal `t`.
pub open spec fn starts_with(i: Seq<char>, t: Seq<char>) -> bool {
    t.len() <= i.len() && i.take(t.len() as int) == t
}

/// Literal match, accepting side: on a literal followed by any suffix, the
/// literal parser succeeds, consumes exactly the literal, produces the
/// literal, and leaves exactly the suffix.
pub proof fn lemma_tag_match(p: Tag, rest: Seq<char>)
    ensures
        p.spec_parse(p.t@ + rest) == (SpecOutcome::Found {
            used: p.t@.len() as int,
            val: p.t@,
        }),
        (p.t@ + rest).skip(p.t@.len() as int) == rest,
{
    let i = p.t@ + rest;
    assert(i.take(p.t@.len() as int) =~= p.t@);
    assert(i.skip(p.t@.len() as int) =~= rest);
}

/// Literal match, rejecting side: on any input that does not start with the
/// literal, the literal parser fails with [`ParserError::Tag`] and the input
/// is left unconsumed.
pub proof fn lemma_tag_reject(p: Tag, i: Seq<char>)
    requires
        !starts_with(i, p.t@),
    ensures
        p.spec_parse(i) == (SpecOutcome::Failed::<Seq<char>> { at: 0, kind: ParserError::Tag }),
{
}

/// Consumption never exceeds the input: on success the remaining input is a
/// suffix of what was handed in, and on failure the reported position lies
/// inside it.  Holds for every parser of this library.
pub proof fn lemma_remaining_is_suffix<P: SpecParse>(p: P, i: Seq<char>)
    ensures
        (p.spec_parse(i) matches SpecOutcome::Found { used, .. } ==> 0 <= used <= i.len()
            && i.skip(used) == i.subrange(used, i.len() as int)),
        (p.spec_parse(i) matches SpecOutcome::Failed { at, .. } ==> 0 <= at <= i.len()),
{
    p.lemma_parse_bounds(i);
}

/// Raw-span recognition: on success, the recognised value is exactly the
/// first `used` characters of the input — the span the inner parser
/// consumed.
pub proof fn lemma_recognize_span<P: SpecParse>(p: P, i: Seq<char>)
    ensures
        ((Recognized { p }).spec_parse(i) matches SpecOutcome::Found { used, val } ==> val
            == i.take(used)),
{
}

/// Zero-or-more repetition never fails, whatever the inner parser and the
/// input.
pub proof fn lemma_many_never_fails<P: SpecParse>(p: P, i: Seq<char>)
    ensures
        ((ManyOf { p }).spec_parse(i) matches SpecOutcome::Found { .. }),
{
}

/// Zero-or-more repetition gathers one value per consecutive successful
/// application of the inner parser: a failing first application yields the
/// empty sequence, and a successful, consuming one prepends its value to the
/// repetition on the remaining input.
pub proof fn lemma_many_step<P: SpecParse>(p: P, i: Seq<char>)
    ensures
        (p.spec_parse(i) matches SpecOutcome::Failed { .. } ==> many_vals(p, i)
            == Seq::<P::SV>::empty() && many_used(p, i) == 0),
        (p.spec_parse(i) matches SpecOutcome::Found { used, val } ==> (0 < used <= i.len()
            ==> many_vals(p, i) == seq![val] + many_vals(p, i.skip(used)) && many_used(p, i)
                == used + many_used(p, i.skip(used)))),
{
}

/// Optionality never fails: an inner failure becomes an absent value with
/// the input left unconsumed.
pub proof fn lemma_opt_never_fails<P: SpecParse>(p: P, i: Seq<char>)
    ensures
        ((Optional { p }).spec_parse(i) matches SpecOutcome::Found { .. }),
        (p.spec_parse(i) matches SpecOutcome::Failed { .. } ==> (Optional { p }).spec_parse(i)
            matches SpecOutcome::Found { used, val } && used == 0 && val is None),
{
}

/// Find-until never fails: without an occurrence it succeeds with an empty
/// value and the whole input left unconsumed.
pub proof fn lemma_take_until_never_fails(p: TakeUntil, i: Seq<char>)
    ensures
        (p.spec_parse(i) matches SpecOutcome::Found { .. }),
        (crate::primitive::find_from(p.pat@, i, 0) is None ==> p.spec_parse(i)
            == (SpecOutcome::Found { used: 0int, val: Seq::<char>::empty() })),
{
}

/// The whitespace run never fails, whatever the input.
pub proof fn lemma_whitespace_never_fails(p: Whitespace, i: Seq<char>)
    ensures
        (p.spec_parse(i) matches SpecOutcome::Found { .. }),
{
}

/// Separator-delimited repetition never fails, whatever the separator, the
/// element parser and the input.
pub proof fn lemma_chain_never_fails<S: SpecParse, P: SpecParse>(sep: S, p: P, i: Seq<char>)
    ensures
        ((ChainOf { sep, p }).spec_parse(i) matches SpecOutcome::Found { .. }),
{
}

/// Mapping through a transformation that changes nothing is observably the
/// same parser: same successes, same consumption, same values, same
/// failures.
pub proof fn lemma_map_identity<A: DeepView, P: SpecParse<SV = A::V>, F: Transform<In = A, Out = A>>(
    p: P,
    f: F,
    i: Seq<char>,
)
    requires
        forall|m: A::V| #[trigger] f.spec_apply(m) == m,
    ensures
        (Mapped { p, f }).spec_parse(i) == p.spec_parse(i),
{
}

/// Ordered choice, rejecting side: when every alternative fails, the choice
/// fails with [`ParserError::Choice`] at the start of the input, discarding
/// the individual failure kinds.
pub proof fn lemma_choice_no_match<P: SpecParse>(ps: Seq<P>, k: int, i: Seq<char>)
    requires
        0 <= k <= ps.len(),
        forall|j: int|
            k <= j < ps.len() ==> ((#[trigger] ps[j].spec_parse(i)) matches SpecOutcome::Failed {
                ..
            }),
    ensures
        choice_from(ps, k, i) == (SpecOutcome::Failed::<P::SV> {
            at: 0,
            kind: ParserError::Choice,
        }),
    decreases ps.len() - k,
{
    if k < ps.len() {
        lemma_choice_no_match(ps, k + 1, i);
    }
}

/// Ordered choice, accepting side: the first alternative that succeeds
/// decides the outcome, and later alternatives are never consulted.
pub proof fn lemma_choice_first_match<P: SpecParse>(ps: Seq<P>, k: int, m: int, i: Seq<char>)
    requires
        0 <= k <= m < ps.len(),
        forall|j: int|
            k <= j < m ==> ((#[trigger] ps[j].spec_parse(i)) matches SpecOutcome::Failed { .. }),
        (ps[m].spec_parse(i) matches SpecOutcome::Found { .. }),
    ensures
        choice_from(ps, k, i) == ps[m].spec_parse(i),
    decreases ps.len() - k,
{
    if k < m {
        lemma_choice_first_match(ps, k + 1, m, i);
    }
}

} // verus!
