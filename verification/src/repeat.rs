//! Repetition combinators: zero-or-more application, separator-delimited
//! chains, and infix / prefix operator sequences.
//!
//! All repetition here is guarded for termination: an inner step that
//! succeeds without consuming any input ends the repetition instead of being
//! applied again forever on the same position.

use crate::input::InputView;
use crate::outcome::Outcome;
use crate::outcome::SpecOutcome;
use crate::outcome::lemma_skip_skip;
use crate::parse::Parse;
use crate::parse::SpecParse;
use crate::primitive::Whitespace;
use crate::primitive::WsTest;
use crate::primitive::lemma_scan_from;
use crate::primitive::scan_exec;
use crate::primitive::ws_len;
use crate::structural::RightOf;
use vstd::prelude::*;

verus! {

// ---------------------------------------------------------------------------
// Many.
// ---------------------------------------------------------------------------

/// Applies a parser repeatedly until it fails (or stops consuming); always
/// succeeds.
pub struct ManyOf<P> {
    /// The parser applied repeatedly.
    pub p: P,
}

/// The values gathered and the characters consumed by applying `p`
/// repeatedly from the front of `i`, stopping at the first failure or at the
/// first success that consumes nothing.
pub open spec fn many_from<P: SpecParse>(p: P, i: Seq<char>) -> (Seq<P::SV>, int)
    decreases i.len(),
{
    match p.spec_parse(i) {
        SpecOutcome::Found { used, val } => {
            if 0 < used <= i.len() {
                let r = many_from(p, i.skip(used));
                (seq![val] + r.0, used + r.1)
            } else {
                (Seq::empty(), 0)
            }
        },
        SpecOutcome::Failed { .. } => (Seq::empty(), 0),
    }
}

/// The values gathered by repeated application of `p` on `i`.
pub open spec fn many_vals<P: SpecParse>(p: P, i: Seq<char>) -> Seq<P::SV> {
    many_from(p, i).0
}

/// The characters consumed by repeated application of `p` on `i`.
pub open spec fn many_used<P: SpecParse>(p: P, i: Seq<char>) -> int {
    many_from(p, i).1
}

/// Repeated application never consumes more than the input holds.
pub proof fn lemma_many_from_bounds<P: SpecParse>(p: P, i: Seq<char>)
    ensures
        0 <= many_used(p, i) <= i.len(),
    decreases i.len(),
{
    if let SpecOutcome::Found { used, .. } = p.spec_parse(i) {
        if 0 < used <= i.len() {
            lemma_many_from_bounds(p, i.skip(used));
        }
    }
}

impl<P: SpecParse> SpecParse for ManyOf<P> {
    type SV = Seq<P::SV>;

    open spec fn spec_parse(&self, i: Seq<char>) -> SpecOutcome<Seq<P::SV>> {
        SpecOutcome::Found { used: many_used(self.p, i), val: many_vals(self.p, i) }
    }

    proof fn lemma_parse_bounds(&self, i: Seq<char>) {
        lemma_many_from_bounds(self.p, i);
    }
}

impl<P: Parse> Parse for ManyOf<P> {
    type Out = Vec<P::Out>;

    fn parse(&self, i: &InputView) -> (o: Outcome<Vec<P::Out>>) {
        let mut cur = i.duplicate();
        let mut vs: Vec<P::Out> = Vec::new();
        let ghost mut used: int = 0;
        proof {
            assert(cur@ =~= i@.skip(0));
            assert(vs.deep_view() =~= Seq::<P::SV>::empty());
            assert(Seq::<P::SV>::empty() + many_vals(self.p, cur@) =~= many_vals(self.p, cur@));
        }
        loop
            invariant
                0 <= used <= i@.len(),
                cur@ == i@.skip(used),
                many_vals(self.p, i@) == vs.deep_view() + many_vals(self.p, cur@),
                many_used(self.p, i@) == used + many_used(self.p, cur@),
            ensures
                0 <= used <= i@.len(),
                cur@ == i@.skip(used),
                many_vals(self.p, i@) == vs.deep_view(),
                many_used(self.p, i@) == used,
            decreases cur@.len(),
        {
            let cl = cur.length();
            match self.p.parse(&cur) {
                Outcome::Success(rem, v) => {
                    let rl = rem.length();
                    if rl < cl {
                        proof {
                            let u: int = cl - rl;
                            let dv = vs.deep_view();
                            self.p.lemma_parse_bounds(cur@);
                            if let SpecOutcome::Found { used: su, val: sv } = self.p.spec_parse(
                                cur@,
                            ) {
                                assert(su == u);
                                lemma_skip_skip(i@, used, u);
                                assert(dv + (seq![sv] + many_vals(self.p, rem@)) =~= dv.push(sv)
                                    + many_vals(self.p, rem@));
                            }
                        }
                        let ghost dv = vs.deep_view();
                        let ghost svg = v.deep_view();
                        vs.push(v);
                        proof {
                            assert(vs.deep_view() =~= dv.push(svg));
                            used = used + (cl - rl);
                        }
                        cur = rem;
                    } else {
                        proof {
                            assert(vs.deep_view() + many_vals(self.p, cur@) =~= vs.deep_view());
                        }
                        break ;
                    }
                },
                Outcome::Failure(_, _) => {
                    proof {
                        assert(vs.deep_view() + many_vals(self.p, cur@) =~= vs.deep_view());
                    }
                    break ;
                },
            }
        }
        Outcome::Success(cur, vs)
    }
}

/// Builds the zero-or-more combinator over `p`.
pub fn many<P>(p: P) -> (r: ManyOf<P>)
    ensures
        r.p == p,
{
    ManyOf { p }
}

// ---------------------------------------------------------------------------
// Chain.
// ---------------------------------------------------------------------------

/// Parses one or more instances of an element parser separated by a
/// separator parser, tolerating one trailing separator; never fails.
pub struct ChainOf<S, P> {
    /// The separator parser, whose values are discarded.
    pub sep: S,
    /// The element parser, whose values are gathered.
    pub p: P,
}

/// The element values gathered and the characters consumed by repeatedly
/// applying separator-then-element from the front of `i`, stopping at the
/// first failure or at the first round that consumes nothing.
pub open spec fn chain_rest<S: SpecParse, P: SpecParse>(sep: S, p: P, i: Seq<char>) -> (
    Seq<P::SV>,
    int,
)
    decreases i.len(),
{
    match sep.spec_parse(i) {
        SpecOutcome::Found { used: u1, .. } => match p.spec_parse(i.skip(u1)) {
            SpecOutcome::Found { used: u2, val } => {
                let t = u1 + u2;
                if 0 < t <= i.len() {
                    let r = chain_rest(sep, p, i.skip(t));
                    (seq![val] + r.0, t + r.1)
                } else {
                    (Seq::empty(), 0)
                }
            },
            SpecOutcome::Failed { .. } => (Seq::empty(), 0),
        },
        SpecOutcome::Failed { .. } => (Seq::empty(), 0),
    }
}

/// Chained repetition never consumes more than the input holds.
pub proof fn lemma_chain_rest_bounds<S: SpecParse, P: SpecParse>(sep: S, p: P, i: Seq<char>)
    ensures
        0 <= chain_rest(sep, p, i).1 <= i.len(),
    decreases i.len(),
{
    if let SpecOutcome::Found { used: u1, .. } = sep.spec_parse(i) {
        if let SpecOutcome::Found { used: u2, .. } = p.spec_parse(i.skip(u1)) {
            let t = u1 + u2;
            if 0 < t <= i.len() {
                lemma_chain_rest_bounds(sep, p, i.skip(t));
            }
        }
    }
}

impl<S: SpecParse, P: SpecParse> SpecParse for ChainOf<S, P> {
    type SV = Seq<P::SV>;

    open spec fn spec_parse(&self, i: Seq<char>) -> SpecOutcome<Seq<P::SV>> {
        match self.p.spec_parse(i) {
            SpecOutcome::Found { used: u0, val: v0 } => {
                let r = chain_rest(self.sep, self.p, i.skip(u0));
                let t = u0 + r.1;
                match self.sep.spec_parse(i.skip(t)) {
                    SpecOutcome::Found { used: u3, .. } => SpecOutcome::Found {
                        used: t + u3,
                        val: seq![v0] + r.0,
                    },
                    SpecOutcome::Failed { .. } => SpecOutcome::Found {
                        used: t,
                        val: seq![v0] + r.0,
                    },
                }
            },
            SpecOutcome::Failed { .. } => SpecOutcome::Found { used: 0, val: Seq::empty() },
        }
    }

    proof fn lemma_parse_bounds(&self, i: Seq<char>) {
        self.p.lemma_parse_bounds(i);
        if let SpecOutcome::Found { used: u0, .. } = self.p.spec_parse(i) {
            lemma_chain_rest_bounds(self.sep, self.p, i.skip(u0));
            let t = u0 + chain_rest(self.sep, self.p, i.skip(u0)).1;
            self.sep.lemma_parse_bounds(i.skip(t));
        }
    }
}

impl<S: Parse, P: Parse> Parse for ChainOf<S, P> {
    type Out = Vec<P::Out>;

    fn parse(&self, i: &InputView) -> (o: Outcome<Vec<P::Out>>) {
        proof {
            self.p.lemma_parse_bounds(i@);
        }
        match self.p.parse(i) {
            Outcome::Failure(_, _) => {
                let vs: Vec<P::Out> = Vec::new();
                proof {
                    assert(i@.skip(0) =~= i@);
                    assert(vs.deep_view() =~= Seq::<P::SV>::empty());
                }
                Outcome::Success(i.duplicate(), vs)
            },
            Outcome::Success(rem0, v0) => {
                let ghost u0: int = i@.len() - rem0@.len();
                let ghost sv0 = v0.deep_view();
                let mut vs: Vec<P::Out> = Vec::new();
                vs.push(v0);
                let mut cur = rem0;
                let ghost mut used: int = u0;
                proof {
                    assert(vs.deep_view() =~= seq![sv0]);
                    assert(seq![sv0] + chain_rest(self.sep, self.p, i@.skip(u0)).0 =~= vs.deep_view()
                        + chain_rest(self.sep, self.p, cur@).0);
                }
                loop
                    invariant
                        0 <= used <= i@.len(),
                        cur@ == i@.skip(used),
                        (self.p.spec_parse(i@) matches SpecOutcome::Found { used: w0, val: w0v }
                            && w0 == u0),
                        seq![sv0] + chain_rest(self.sep, self.p, i@.skip(u0)).0 == vs.deep_view()
                            + chain_rest(self.sep, self.p, cur@).0,
                        u0 + chain_rest(self.sep, self.p, i@.skip(u0)).1 == used + chain_rest(
                            self.sep,
                            self.p,
                            cur@,
                        ).1,
                    ensures
                        0 <= used <= i@.len(),
                        cur@ == i@.skip(used),
                        seq![sv0] + chain_rest(self.sep, self.p, i@.skip(u0)).0 == vs.deep_view(),
                        u0 + chain_rest(self.sep, self.p, i@.skip(u0)).1 == used,
                    decreases cur@.len(),
                {
                    let cl = cur.length();
                    proof {
                        self.sep.lemma_parse_bounds(cur@);
                    }
                    match self.sep.parse(&cur) {
                        Outcome::Failure(_, _) => {
                            proof {
                                assert(vs.deep_view() + chain_rest(self.sep, self.p, cur@).0
                                    =~= vs.deep_view());
                            }
                            break ;
                        },
                        Outcome::Success(r1, _) => {
                            proof {
                                if let SpecOutcome::Found { used: w1, .. } = self.sep.spec_parse(
                                    cur@,
                                ) {
                                    self.p.lemma_parse_bounds(cur@.skip(w1));
                                }
                            }
                            match self.p.parse(&r1) {
                                Outcome::Failure(_, _) => {
                                    proof {
                                        assert(vs.deep_view() + chain_rest(
                                            self.sep,
                                            self.p,
                                            cur@,
                                        ).0 =~= vs.deep_view());
                                    }
                                    break ;
                                },
                                Outcome::Success(r2, v) => {
                                    let r2l = r2.length();
                                    if r2l < cl {
                                        proof {
                                            let t: int = cl - r2l;
                                            let dv = vs.deep_view();
                                            let svg = v.deep_view();
                                            if let SpecOutcome::Found { used: w1, .. } = self
                                                .sep
                                                .spec_parse(cur@) {
                                                if let SpecOutcome::Found { used: w2, .. } = self
                                                    .p
                                                    .spec_parse(cur@.skip(w1)) {
                                                    lemma_skip_skip(cur@, w1, w2);
                                                    assert(w1 + w2 == t);
                                                    lemma_skip_skip(i@, used, t);
                                                    assert(dv + (seq![svg] + chain_rest(
                                                        self.sep,
                                                        self.p,
                                                        r2@,
                                                    ).0) =~= dv.push(svg) + chain_rest(
                                                        self.sep,
                                                        self.p,
                                                        r2@,
                                                    ).0);
                                                }
                                            }
                                        }
                                        let ghost dv = vs.deep_view();
                                        let ghost svg = v.deep_view();
                                        vs.push(v);
                                        proof {
                                            assert(vs.deep_view() =~= dv.push(svg));
                                            used = used + (cl - r2l);
                                        }
                                        cur = r2;
                                    } else {
                                        proof {
                                            assert(vs.deep_view() + chain_rest(
                                                self.sep,
                                                self.p,
                                                cur@,
                                            ).0 =~= vs.deep_view());
                                        }
                                        break ;
                                    }
                                },
                            }
                        },
                    }
                }
                proof {
                    self.sep.lemma_parse_bounds(cur@);
                    if let SpecOutcome::Found { used: u3, .. } = self.sep.spec_parse(cur@) {
                        lemma_skip_skip(i@, used, u3);
                    }
                }
                match self.sep.parse(&cur) {
                    Outcome::Success(r3, _) => Outcome::Success(r3, vs),
                    Outcome::Failure(_, _) => Outcome::Success(cur, vs),
                }
            },
        }
    }
}

/// Builds the separator-delimited repetition over separator `sep` and
/// element parser `p`.
pub fn chain<S, P>(sep: S, p: P) -> (r: ChainOf<S, P>)
    ensures
        r.sep == sep,
        r.p == p,
{
    ChainOf { sep, p }
}

// ---------------------------------------------------------------------------
// Infix.
// ---------------------------------------------------------------------------

/// Parses one operand, then zero or more repetitions of an operator (with
/// leading whitespace skipped) followed by an operand, keeping the operator
/// values.
pub struct InfixOf<P, O> {
    /// The operand parser.
    pub p: P,
    /// The operator parser; whitespace is skipped immediately before it.
    pub o: O,
}

/// The operator-operand pairs gathered and the characters consumed by
/// repeatedly applying whitespace-skip, operator, operand from the front of
/// `i`, stopping at the first failure or at the first round that consumes
/// nothing.
pub open spec fn infix_rest<O: SpecParse, P: SpecParse>(o: O, p: P, i: Seq<char>) -> (
    Seq<(O::SV, P::SV)>,
    int,
)
    decreases i.len(),
{
    let w1 = ws_len(i);
    match o.spec_parse(i.skip(w1)) {
        SpecOutcome::Found { used: u1, val: ov } => match p.spec_parse(i.skip(w1 + u1)) {
            SpecOutcome::Found { used: u2, val: pv } => {
                let t = w1 + u1 + u2;
                if 0 < t <= i.len() {
                    let r = infix_rest(o, p, i.skip(t));
                    (seq![(ov, pv)] + r.0, t + r.1)
                } else {
                    (Seq::empty(), 0)
                }
            },
            SpecOutcome::Failed { .. } => (Seq::empty(), 0),
        },
        SpecOutcome::Failed { .. } => (Seq::empty(), 0),
    }
}

/// Infix repetition never consumes more than the input holds.
pub proof fn lemma_infix_rest_bounds<O: SpecParse, P: SpecParse>(o: O, p: P, i: Seq<char>)
    ensures
        0 <= infix_rest(o, p, i).1 <= i.len(),
    decreases i.len(),
{
    let w1 = ws_len(i);
    if let SpecOutcome::Found { used: u1, .. } = o.spec_parse(i.skip(w1)) {
        if let SpecOutcome::Found { used: u2, .. } = p.spec_parse(i.skip(w1 + u1)) {
            let t = w1 + u1 + u2;
            if 0 < t <= i.len() {
                lemma_infix_rest_bounds(o, p, i.skip(t));
            }
        }
    }
}

impl<P: SpecParse, O: SpecParse> SpecParse for InfixOf<P, O> {
    type SV = (P::SV, Seq<(O::SV, P::SV)>);

    open spec fn spec_parse(&self, i: Seq<char>) -> SpecOutcome<(P::SV, Seq<(O::SV, P::SV)>)> {
        match self.p.spec_parse(i) {
            SpecOutcome::Found { used: u0, val: v0 } => {
                let r = infix_rest(self.o, self.p, i.skip(u0));
                SpecOutcome::Found { used: u0 + r.1, val: (v0, r.0) }
            },
            SpecOutcome::Failed { at, kind } => SpecOutcome::Failed { at, kind },
        }
    }

    proof fn lemma_parse_bounds(&self, i: Seq<char>) {
        self.p.lemma_parse_bounds(i);
        if let SpecOutcome::Found { used: u0, .. } = self.p.spec_parse(i) {
            lemma_infix_rest_bounds(self.o, self.p, i.skip(u0));
        }
    }
}

impl<P: Parse, O: Parse> Parse for InfixOf<P, O> {
    type Out = (P::Out, Vec<(O::Out, P::Out)>);

    fn parse(&self, i: &InputView) -> (o: Outcome<(P::Out, Vec<(O::Out, P::Out)>)>) {
        proof {
            self.p.lemma_parse_bounds(i@);
        }
        match self.p.parse(i) {
            Outcome::Failure(loc, k) => Outcome::Failure(loc, k),
            Outcome::Success(rem0, v0) => {
                let ghost u0: int = i@.len() - rem0@.len();
                let mut vs: Vec<(O::Out, P::Out)> = Vec::new();
                let mut cur = rem0;
                let ghost mut used: int = u0;
                proof {
                    assert(vs.deep_view() =~= Seq::<(O::SV, P::SV)>::empty());
                    assert(infix_rest(self.o, self.p, i@.skip(u0)).0 =~= vs.deep_view()
                        + infix_rest(self.o, self.p, cur@).0);
                }
                loop
                    invariant
                        0 <= used <= i@.len(),
                        cur@ == i@.skip(used),
                        infix_rest(self.o, self.p, i@.skip(u0)).0 == vs.deep_view() + infix_rest(
                            self.o,
                            self.p,
                            cur@,
                        ).0,
                        infix_rest(self.o, self.p, i@.skip(u0)).1 == (used - u0) + infix_rest(
                            self.o,
                            self.p,
                            cur@,
                        ).1,
                    ensures
                        0 <= used <= i@.len(),
                        cur@ == i@.skip(used),
                        infix_rest(self.o, self.p, i@.skip(u0)).0 == vs.deep_view(),
                        infix_rest(self.o, self.p, i@.skip(u0)).1 == used - u0,
                    decreases cur@.len(),
                {
                    let cl = cur.length();
                    let wlen = scan_exec(&WsTest, &cur);
                    proof {
                        lemma_scan_from(WsTest, cur@, 0);
                    }
                    let r_w = cur.skip_n(wlen);
                    proof {
                        self.o.lemma_parse_bounds(r_w@);
                    }
                    match self.o.parse(&r_w) {
                        Outcome::Failure(_, _) => {
                            proof {
                                assert(vs.deep_view() + infix_rest(self.o, self.p, cur@).0
                                    =~= vs.deep_view());
                            }
                            break ;
                        },
                        Outcome::Success(r1, ov) => {
                            proof {
                                if let SpecOutcome::Found { used: w1, .. } = self.o.spec_parse(
                                    cur@.skip(wlen as int),
                                ) {
                                    lemma_skip_skip(cur@, wlen as int, w1);
                                    self.p.lemma_parse_bounds(cur@.skip(wlen + w1));
                                }
                            }
                            match self.p.parse(&r1) {
                                Outcome::Failure(_, _) => {
                                    proof {
                                        assert(vs.deep_view() + infix_rest(self.o, self.p, cur@).0
                                            =~= vs.deep_view());
                                    }
                                    break ;
                                },
                                Outcome::Success(r2, pv) => {
                                    let r2l = r2.length();
                                    if r2l < cl {
                                        proof {
                                            let t: int = cl - r2l;
                                            let dv = vs.deep_view();
                                            let og = ov.deep_view();
                                            let pg = pv.deep_view();
                                            if let SpecOutcome::Found { used: w1, .. } = self
                                                .o
                                                .spec_parse(cur@.skip(wlen as int)) {
                                                if let SpecOutcome::Found { used: w2, .. } = self
                                                    .p
                                                    .spec_parse(cur@.skip(wlen + w1)) {
                                                    lemma_skip_skip(cur@, wlen + w1, w2);
                                                    assert(wlen + w1 + w2 == t);
                                                    lemma_skip_skip(i@, used, t);
                                                    assert(dv + (seq![(og, pg)] + infix_rest(
                                                        self.o,
                                                        self.p,
                                                        r2@,
                                                    ).0) =~= dv.push((og, pg)) + infix_rest(
                                                        self.o,
                                                        self.p,
                                                        r2@,
                                                    ).0);
                                                }
                                            }
                                        }
                                        let ghost dv = vs.deep_view();
                                        let ghost og = ov.deep_view();
                                        let ghost pg = pv.deep_view();
                                        vs.push((ov, pv));
                                        proof {
                                            assert(vs.deep_view() =~= dv.push((og, pg)));
                                            used = used + (cl - r2l);
                                        }
                                        cur = r2;
                                    } else {
                                        proof {
                                            assert(vs.deep_view() + infix_rest(
                                                self.o,
                                                self.p,
                                                cur@,
                                            ).0 =~= vs.deep_view());
                                        }
                                        break ;
                                    }
                                },
                            }
                        },
                    }
                }
                Outcome::Success(cur, (v0, vs))
            },
        }
    }
}

/// Builds the infix-sequence combinator over operand parser `p` and
/// operator parser `o`.
pub fn infix<P, O>(p: P, o: O) -> (r: InfixOf<P, O>)
    ensures
        r.p == p,
        r.o == o,
{
    InfixOf { p, o }
}

// ---------------------------------------------------------------------------
// Prefix.
// ---------------------------------------------------------------------------

/// Parses zero or more prefix operators (each with leading whitespace
/// skipped) followed by one operand; fails only if the operand fails.
pub struct PrefixOf<P, Q> {
    /// The prefix-operator parser; whitespace is skipped immediately before
    /// it.
    pub p: P,
    /// The operand parser.
    pub q: Q,
}

/// The operator values gathered and the characters consumed by repeatedly
/// applying whitespace-skip then operator from the front of `i`, stopping at
/// the first failure or at the first round that consumes nothing.
pub open spec fn prefix_rest<P: SpecParse>(p: P, i: Seq<char>) -> (Seq<P::SV>, int)
    decreases i.len(),
{
    let w1 = ws_len(i);
    match p.spec_parse(i.skip(w1)) {
        SpecOutcome::Found { used: u1, val } => {
            let t = w1 + u1;
            if 0 < t <= i.len() {
                let r = prefix_rest(p, i.skip(t));
                (seq![val] + r.0, t + r.1)
            } else {
                (Seq::empty(), 0)
            }
        },
        SpecOutcome::Failed { .. } => (Seq::empty(), 0),
    }
}

/// Prefix repetition never consumes more than the input holds.
pub proof fn lemma_prefix_rest_bounds<P: SpecParse>(p: P, i: Seq<char>)
    ensures
        0 <= prefix_rest(p, i).1 <= i.len(),
    decreases i.len(),
{
    let w1 = ws_len(i);
    if let SpecOutcome::Found { used: u1, .. } = p.spec_parse(i.skip(w1)) {
        let t = w1 + u1;
        if 0 < t <= i.len() {
            lemma_prefix_rest_bounds(p, i.skip(t));
        }
    }
}

impl<P: SpecParse, Q: SpecParse> SpecParse for PrefixOf<P, Q> {
    type SV = (Seq<P::SV>, Q::SV);

    open spec fn spec_parse(&self, i: Seq<char>) -> SpecOutcome<(Seq<P::SV>, Q::SV)> {
        let r = prefix_rest(self.p, i);
        match self.q.spec_parse(i.skip(r.1)) {
            SpecOutcome::Found { used: uq, val: qv } => SpecOutcome::Found {
                used: r.1 + uq,
                val: (r.0, qv),
            },
            SpecOutcome::Failed { at, kind } => SpecOutcome::Failed { at: r.1 + at, kind },
        }
    }

    proof fn lemma_parse_bounds(&self, i: Seq<char>) {
        lemma_prefix_rest_bounds(self.p, i);
        self.q.lemma_parse_bounds(i.skip(prefix_rest(self.p, i).1));
    }
}

impl<P: Parse, Q: Parse> Parse for PrefixOf<P, Q> {
    type Out = (Vec<P::Out>, Q::Out);

    fn parse(&self, i: &InputView) -> (o: Outcome<(Vec<P::Out>, Q::Out)>) {
        let mut vs: Vec<P::Out> = Vec::new();
        let mut cur = i.duplicate();
        let ghost mut used: int = 0;
        proof {
            assert(cur@ =~= i@.skip(0));
            assert(vs.deep_view() =~= Seq::<P::SV>::empty());
            assert(prefix_rest(self.p, i@).0 =~= vs.deep_view() + prefix_rest(self.p, cur@).0);
        }
        loop
            invariant
                0 <= used <= i@.len(),
                cur@ == i@.skip(used),
                prefix_rest(self.p, i@).0 == vs.deep_view() + prefix_rest(self.p, cur@).0,
                prefix_rest(self.p, i@).1 == used + prefix_rest(self.p, cur@).1,
            ensures
                0 <= used <= i@.len(),
                cur@ == i@.skip(used),
                prefix_rest(self.p, i@).0 == vs.deep_view(),
                prefix_rest(self.p, i@).1 == used,
            decreases cur@.len(),
        {
            let cl = cur.length();
            let wlen = scan_exec(&WsTest, &cur);
            proof {
                lemma_scan_from(WsTest, cur@, 0);
            }
            let r_w = cur.skip_n(wlen);
            proof {
                self.p.lemma_parse_bounds(r_w@);
            }
            match self.p.parse(&r_w) {
                Outcome::Failure(_, _) => {
                    proof {
                        assert(vs.deep_view() + prefix_rest(self.p, cur@).0 =~= vs.deep_view());
                    }
                    break ;
                },
                Outcome::Success(r1, v) => {
                    let r1l = r1.length();
                    if r1l < cl {
                        proof {
                            let t: int = cl - r1l;
                            let dv = vs.deep_view();
                            let svg = v.deep_view();
                            if let SpecOutcome::Found { used: w1, .. } = self.p.spec_parse(
                                cur@.skip(wlen as int),
                            ) {
                                lemma_skip_skip(cur@, wlen as int, w1);
                                assert(wlen + w1 == t);
                                lemma_skip_skip(i@, used, t);
                                assert(dv + (seq![svg] + prefix_rest(self.p, r1@).0) =~= dv.push(
                                    svg,
                                ) + prefix_rest(self.p, r1@).0);
                            }
                        }
                        let ghost dv = vs.deep_view();
                        let ghost svg = v.deep_view();
                        vs.push(v);
                        proof {
                            assert(vs.deep_view() =~= dv.push(svg));
                            used = used + (cl - r1l);
                        }
                        cur = r1;
                    } else {
                        proof {
                            assert(vs.deep_view() + prefix_rest(self.p, cur@).0 =~= vs.deep_view());
                        }
                        break ;
                    }
                },
            }
        }
        proof {
            self.q.lemma_parse_bounds(cur@);
            match self.q.spec_parse(cur@) {
                SpecOutcome::Found { used: uq, .. } => lemma_skip_skip(i@, used, uq),
                SpecOutcome::Failed { at, .. } => lemma_skip_skip(i@, used, at),
            }
        }
        match self.q.parse(&cur) {
            Outcome::Success(rq, qv) => Outcome::Success(rq, (vs, qv)),
            Outcome::Failure(loc, k) => Outcome::Failure(loc, k),
        }
    }
}

/// Builds the prefix-sequence combinator over operator parser `p` and
/// operand parser `q`.
pub fn prefix<P, Q>(p: P, q: Q) -> (r: PrefixOf<P, Q>)
    ensures
        r.p == p,
        r.q == q,
{
    PrefixOf { p, q }
}

// ---------------------------------------------------------------------------
// Whitespace-then.
// ---------------------------------------------------------------------------

/// Builds a parser that skips leading whitespace and then runs `p`.
pub fn w<P>(p: P) -> (r: RightOf<Whitespace, P>)
    ensures
        r.a == Whitespace,
        r.b == p,
{
    RightOf { a: Whitespace, b: p }
}

} // verus!
