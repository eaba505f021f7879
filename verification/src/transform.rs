//! Transform combinators: take one parser, produce a parser with modified
//! output or failure behaviour.

use crate::input::InputView;
use crate::outcome::Outcome;
use crate::outcome::ParserError;
use crate::outcome::SpecOutcome;
use crate::outcome::lemma_skip_skip;
use crate::parse::Accept;
use crate::parse::Parse;
use crate::parse::SpecParse;
use crate::parse::Transform;
use crate::parse::TryTransform;
use core::marker::PhantomData;
use vstd::prelude::*;

verus! {

// ---------------------------------------------------------------------------
// Constant value.
// ---------------------------------------------------------------------------

/// Runs the inner parser and substitutes a fixed value on success.
pub struct Value<P, V> {
    /// The inner parser.
    pub p: P,
    /// The value substituted for every success.
    pub v: V,
}

impl<P: SpecParse, V: DeepView + Copy> SpecParse for Value<P, V> {
    type SV = V::V;

    open spec fn spec_parse(&self, i: Seq<char>) -> SpecOutcome<V::V> {
        match self.p.spec_parse(i) {
            SpecOutcome::Found { used, .. } => SpecOutcome::Found {
                used,
                val: self.v.deep_view(),
            },
            SpecOutcome::Failed { at, kind } => SpecOutcome::Failed { at, kind },
        }
    }

    proof fn lemma_parse_bounds(&self, i: Seq<char>) {
        self.p.lemma_parse_bounds(i);
    }
}

impl<P: Parse, V: DeepView + Copy> Parse for Value<P, V> {
    type Out = V;

    fn parse(&self, i: &InputView) -> (o: Outcome<V>) {
        match self.p.parse(i) {
            Outcome::Success(rem, _) => Outcome::Success(rem, self.v),
            Outcome::Failure(loc, k) => Outcome::Failure(loc, k),
        }
    }
}

/// Builds the constant-value combinator over `p`.
pub fn value<P, V: Copy>(p: P, v: V) -> (r: Value<P, V>)
    ensures
        r.p == p,
        r.v == v,
{
    Value { p, v }
}

// ---------------------------------------------------------------------------
// Mapping.
// ---------------------------------------------------------------------------

/// Runs the inner parser and applies a total transformation to its value.
pub struct Mapped<P, F> {
    /// The inner parser.
    pub p: P,
    /// The transformation applied to every successful value.
    pub f: F,
}

impl<P, F> SpecParse for Mapped<P, F> where
    P: SpecParse,
    F: Transform,
    F::In: DeepView<V = P::SV>,
 {
    type SV = <F::Out as DeepView>::V;

    open spec fn spec_parse(&self, i: Seq<char>) -> SpecOutcome<<F::Out as DeepView>::V> {
        match self.p.spec_parse(i) {
            SpecOutcome::Found { used, val } => SpecOutcome::Found {
                used,
                val: self.f.spec_apply(val),
            },
            SpecOutcome::Failed { at, kind } => SpecOutcome::Failed { at, kind },
        }
    }

    proof fn lemma_parse_bounds(&self, i: Seq<char>) {
        self.p.lemma_parse_bounds(i);
    }
}

impl<P, F> Parse for Mapped<P, F> where P: Parse, F: Transform<In = P::Out> {
    type Out = F::Out;

    fn parse(&self, i: &InputView) -> (o: Outcome<F::Out>) {
        match self.p.parse(i) {
            Outcome::Success(rem, v) => Outcome::Success(rem, self.f.apply(v)),
            Outcome::Failure(loc, k) => Outcome::Failure(loc, k),
        }
    }
}

/// Builds the mapping combinator over `p`.
pub fn map<P, F: Transform>(p: P, f: F) -> (r: Mapped<P, F>)
    ensures
        r.p == p,
        r.f == f,
{
    Mapped { p, f }
}

/// The transformation that hands every value back unchanged.
pub struct Identity<A> {
    /// Records the value type transformed.
    pub marker: PhantomData<A>,
}

impl<A: DeepView> Transform for Identity<A> {
    type In = A;

    type Out = A;

    open spec fn spec_apply(&self, a: A::V) -> A::V {
        a
    }

    fn apply(&self, a: A) -> (b: A) {
        a
    }
}

/// Builds the identity transformation.
pub fn identity<A>() -> Identity<A> {
    Identity { marker: PhantomData }
}

// ---------------------------------------------------------------------------
// Fallible mapping.
// ---------------------------------------------------------------------------

/// Runs the inner parser and applies a transformation that can fail; a
/// transformation failure rejects the input.
pub struct MappedRes<P, F> {
    /// The inner parser.
    pub p: P,
    /// The fallible transformation applied to every successful value.
    pub f: F,
}

impl<P, F> SpecParse for MappedRes<P, F> where
    P: SpecParse,
    F: TryTransform,
    F::In: DeepView<V = P::SV>,
 {
    type SV = <F::Out as DeepView>::V;

    open spec fn spec_parse(&self, i: Seq<char>) -> SpecOutcome<<F::Out as DeepView>::V> {
        match self.p.spec_parse(i) {
            SpecOutcome::Found { used, val } => match self.f.spec_try(val) {
                Some(b) => SpecOutcome::Found { used, val: b },
                None => SpecOutcome::Failed { at: used, kind: ParserError::MapRes },
            },
            SpecOutcome::Failed { at, kind } => SpecOutcome::Failed { at, kind },
        }
    }

    proof fn lemma_parse_bounds(&self, i: Seq<char>) {
        self.p.lemma_parse_bounds(i);
    }
}

impl<P, F> Parse for MappedRes<P, F> where P: Parse, F: TryTransform<In = P::Out> {
    type Out = F::Out;

    fn parse(&self, i: &InputView) -> (o: Outcome<F::Out>) {
        match self.p.parse(i) {
            Outcome::Success(rem, v) => match self.f.try_apply(v) {
                Some(b) => Outcome::Success(rem, b),
                None => Outcome::Failure(rem, ParserError::MapRes),
            },
            Outcome::Failure(loc, k) => Outcome::Failure(loc, k),
        }
    }
}

/// Builds the fallible-mapping combinator over `p`.
pub fn map_res<P, F: TryTransform>(p: P, f: F) -> (r: MappedRes<P, F>)
    ensures
        r.p == p,
        r.f == f,
{
    MappedRes { p, f }
}

// ---------------------------------------------------------------------------
// Optionality.
// ---------------------------------------------------------------------------

/// Runs the inner parser, turning its failure into an absent value.
pub struct Optional<P> {
    /// The inner parser.
    pub p: P,
}

impl<P: SpecParse> SpecParse for Optional<P> {
    type SV = Option<P::SV>;

    open spec fn spec_parse(&self, i: Seq<char>) -> SpecOutcome<Option<P::SV>> {
        match self.p.spec_parse(i) {
            SpecOutcome::Found { used, val } => SpecOutcome::Found { used, val: Some(val) },
            SpecOutcome::Failed { .. } => SpecOutcome::Found { used: 0, val: None },
        }
    }

    proof fn lemma_parse_bounds(&self, i: Seq<char>) {
        self.p.lemma_parse_bounds(i);
    }
}

impl<P: Parse> Parse for Optional<P> {
    type Out = Option<P::Out>;

    fn parse(&self, i: &InputView) -> (o: Outcome<Option<P::Out>>) {
        match self.p.parse(i) {
            Outcome::Success(rem, v) => Outcome::Success(rem, Some(v)),
            Outcome::Failure(_, _) => {
                proof {
                    assert(i@.skip(0) =~= i@);
                }
                Outcome::Success(i.duplicate(), None)
            },
        }
    }
}

/// Builds the optionality combinator over `p`.
pub fn opt<P>(p: P) -> (r: Optional<P>)
    ensures
        r.p == p,
{
    Optional { p }
}

// ---------------------------------------------------------------------------
// Predicate-gated acceptance.
// ---------------------------------------------------------------------------

/// Runs the inner parser and rejects values that fail a predicate.
pub struct Checked<P, F> {
    /// The inner parser.
    pub p: P,
    /// The predicate a successful value must pass.
    pub f: F,
}

impl<P, F> SpecParse for Checked<P, F> where
    P: SpecParse,
    F: Accept,
    F::In: DeepView<V = P::SV>,
 {
    type SV = P::SV;

    open spec fn spec_parse(&self, i: Seq<char>) -> SpecOutcome<P::SV> {
        match self.p.spec_parse(i) {
            SpecOutcome::Found { used, val } => {
                if self.f.spec_accept(val) {
                    SpecOutcome::Found { used, val }
                } else {
                    SpecOutcome::Failed { at: 0, kind: ParserError::Check }
                }
            },
            SpecOutcome::Failed { at, kind } => SpecOutcome::Failed { at, kind },
        }
    }

    proof fn lemma_parse_bounds(&self, i: Seq<char>) {
        self.p.lemma_parse_bounds(i);
    }
}

impl<P, F> Parse for Checked<P, F> where P: Parse, F: Accept<In = P::Out> {
    type Out = P::Out;

    fn parse(&self, i: &InputView) -> (o: Outcome<P::Out>) {
        match self.p.parse(i) {
            Outcome::Success(rem, v) => {
                if self.f.accept(&v) {
                    Outcome::Success(rem, v)
                } else {
                    proof {
                        assert(i@.skip(0) =~= i@);
                    }
                    Outcome::Failure(i.duplicate(), ParserError::Check)
                }
            },
            Outcome::Failure(loc, k) => Outcome::Failure(loc, k),
        }
    }
}

/// Accepts exactly the values of a given length.
pub struct LengthIs {
    /// The length accepted.
    pub n: usize,
}

impl Accept for LengthIs {
    type In = InputView;

    open spec fn spec_accept(&self, v: Seq<char>) -> bool {
        v.len() == self.n
    }

    fn accept(&self, v: &InputView) -> (b: bool) {
        v.length() == self.n
    }
}

// ---------------------------------------------------------------------------
// Non-consuming lookahead.
// ---------------------------------------------------------------------------

/// Runs the inner parser but consumes nothing on success.
pub struct Peeked<P> {
    /// The inner parser.
    pub p: P,
}

impl<P: SpecParse> SpecParse for Peeked<P> {
    type SV = P::SV;

    open spec fn spec_parse(&self, i: Seq<char>) -> SpecOutcome<P::SV> {
        match self.p.spec_parse(i) {
            SpecOutcome::Found { val, .. } => SpecOutcome::Found { used: 0, val },
            SpecOutcome::Failed { at, kind } => SpecOutcome::Failed { at, kind },
        }
    }

    proof fn lemma_parse_bounds(&self, i: Seq<char>) {
        self.p.lemma_parse_bounds(i);
    }
}

impl<P: Parse> Parse for Peeked<P> {
    type Out = P::Out;

    fn parse(&self, i: &InputView) -> (o: Outcome<P::Out>) {
        match self.p.parse(i) {
            Outcome::Success(_, v) => {
                proof {
                    assert(i@.skip(0) =~= i@);
                }
                Outcome::Success(i.duplicate(), v)
            },
            Outcome::Failure(loc, k) => Outcome::Failure(loc, k),
        }
    }
}

/// Builds the lookahead combinator over `p`.
pub fn peek<P>(p: P) -> (r: Peeked<P>)
    ensures
        r.p == p,
{
    Peeked { p }
}

// ---------------------------------------------------------------------------
// Raw-span recognition.
// ---------------------------------------------------------------------------

/// Runs the inner parser and produces the exact span it consumed instead of
/// its value.
pub struct Recognized<P> {
    /// The inner parser.
    pub p: P,
}

impl<P: SpecParse> SpecParse for Recognized<P> {
    type SV = Seq<char>;

    open spec fn spec_parse(&self, i: Seq<char>) -> SpecOutcome<Seq<char>> {
        match self.p.spec_parse(i) {
            SpecOutcome::Found { used, .. } => SpecOutcome::Found { used, val: i.take(used) },
            SpecOutcome::Failed { at, kind } => SpecOutcome::Failed { at, kind },
        }
    }

    proof fn lemma_parse_bounds(&self, i: Seq<char>) {
        self.p.lemma_parse_bounds(i);
    }
}

impl<P: Parse> Parse for Recognized<P> {
    type Out = InputView;

    fn parse(&self, i: &InputView) -> (o: Outcome<InputView>) {
        match self.p.parse(i) {
            Outcome::Success(rem, _) => {
                proof {
                    self.p.lemma_parse_bounds(i@);
                }
                let used = i.length() - rem.length();
                Outcome::Success(rem, i.first_n(used))
            },
            Outcome::Failure(loc, k) => Outcome::Failure(loc, k),
        }
    }
}

/// Builds the raw-span combinator over `p`.
pub fn recognize<P>(p: P) -> (r: Recognized<P>)
    ensures
        r.p == p,
{
    Recognized { p }
}

// ---------------------------------------------------------------------------
// Heap indirection.
// ---------------------------------------------------------------------------

/// Runs the inner parser and boxes its value.
pub struct Boxed<P> {
    /// The inner parser.
    pub p: P,
}

impl<P: SpecParse> SpecParse for Boxed<P> {
    type SV = P::SV;

    open spec fn spec_parse(&self, i: Seq<char>) -> SpecOutcome<P::SV> {
        self.p.spec_parse(i)
    }

    proof fn lemma_parse_bounds(&self, i: Seq<char>) {
        self.p.lemma_parse_bounds(i);
    }
}

impl<P: Parse> Parse for Boxed<P> {
    type Out = Box<P::Out>;

    fn parse(&self, i: &InputView) -> (o: Outcome<Box<P::Out>>) {
        match self.p.parse(i) {
            Outcome::Success(rem, v) => Outcome::Success(rem, Box::new(v)),
            Outcome::Failure(loc, k) => Outcome::Failure(loc, k),
        }
    }
}

/// Builds the boxing combinator over `p`.
pub fn boxed<P>(p: P) -> (r: Boxed<P>)
    ensures
        r.p == p,
{
    Boxed { p }
}

// ---------------------------------------------------------------------------
// A fallible transformation: decimal text to a 32-bit unsigned integer.
// ---------------------------------------------------------------------------

/// The value of `s` read as a decimal numeral.
pub open spec fn digits_value(s: Seq<char>) -> int
    decreases s.len(),
{
    if s.len() == 0 {
        0
    } else {
        digits_value(s.take(s.len() - 1)) * 10 + (s[s.len() - 1] as u32 - 48)
    }
}

/// Every character of `s` is a decimal digit.
pub open spec fn all_digits(s: Seq<char>) -> bool {
    forall|j: int| 0 <= j < s.len() ==> crate::primitive::is_digit_char(#[trigger] s[j])
}

/// Every prefix of an all-digit sequence is all digits.
proof fn lemma_all_digits_take(s: Seq<char>, k: int)
    requires
        all_digits(s),
        0 <= k <= s.len(),
    ensures
        all_digits(s.take(k)),
{
    assert forall|j: int| 0 <= j < s.take(k).len() implies crate::primitive::is_digit_char(
        #[trigger] s.take(k)[j],
    ) by {
        assert(s.take(k)[j] == s[j]);
    }
}

/// A numeral's value is non-negative.
proof fn lemma_digits_value_nonneg(s: Seq<char>)
    requires
        all_digits(s),
    ensures
        0 <= digits_value(s),
    decreases s.len(),
{
    if s.len() > 0 {
        lemma_all_digits_take(s, s.len() - 1);
        lemma_digits_value_nonneg(s.take(s.len() - 1));
        assert(48 <= s[s.len() - 1] as u32 && s[s.len() - 1] as u32 <= 57);
    }
}

/// Reading more digits never shrinks a numeral's value.
proof fn lemma_digits_prefix_le(s: Seq<char>, k: int)
    requires
        all_digits(s),
        0 <= k <= s.len(),
    ensures
        digits_value(s.take(k)) <= digits_value(s),
    decreases s.len() - k,
{
    if k < s.len() {
        lemma_digits_prefix_le(s, k + 1);
        lemma_all_digits_take(s, k);
        lemma_digits_value_nonneg(s.take(k));
        assert(s.take(k + 1).take(k) =~= s.take(k));
        assert(s.take(k + 1)[k] == s[k]);
        assert(48 <= s[k] as u32 && s[k] as u32 <= 57);
    } else {
        assert(s.take(k) =~= s);
    }
}

/// Reads a run of decimal digits as a 32-bit unsigned integer; fails on
/// empty input, on any non-digit, and on overflow.
pub struct ToU32;

impl TryTransform for ToU32 {
    type In = InputView;

    type Out = u32;

    open spec fn spec_try(&self, s: Seq<char>) -> Option<u32> {
        if s.len() > 0 && all_digits(s) && digits_value(s) <= u32::MAX {
            Some(digits_value(s) as u32)
        } else {
            None
        }
    }

    fn try_apply(&self, a: InputView) -> (b: Option<u32>) {
        let n = a.length();
        if n == 0 {
            return None;
        }
        let mut acc: u64 = 0;
        let mut k: usize = 0;
        while k < n
            invariant
                n == a@.len(),
                k <= n,
                all_digits(a@.take(k as int)),
                acc == digits_value(a@.take(k as int)),
                acc <= u32::MAX,
            decreases n - k,
        {
            let c = a.char_at(k);
            let u = c as u32;
            if u < 48 || u > 57 {
                proof {
                    assert(!crate::primitive::is_digit_char(a@[k as int]));
                }
                return None;
            }
            let d = (u - 48) as u64;
            let next = acc * 10 + d;
            proof {
                assert(a@.take(k + 1).take(k as int) =~= a@.take(k as int));
                assert(a@.take(k + 1)[k as int] == a@[k as int]);
                assert(all_digits(a@.take(k + 1)));
            }
            if next > 0xffff_ffff {
                proof {
                    if all_digits(a@) {
                        lemma_digits_prefix_le(a@, k + 1);
                    }
                }
                return None;
            }
            acc = next;
            k += 1;
        }
        proof {
            assert(a@.take(n as int) =~= a@);
        }
        Some(acc as u32)
    }
}

/// Builds the acceptance-gating combinator over `p`.
pub fn check<P, F>(p: P, f: F) -> (r: Checked<P, F>)
    ensures
        r.p == p,
        r.f == f,
{
    Checked { p, f }
}

} // verus!
