//! The derived grammar: a decimal floating-point literal recogniser,
//! composed entirely from the library's own combinators.
//!
//! The grammar accepts an optional sign, then either digits with an optional
//! fraction or a bare fraction, then an optional exponent group, and
//! produces the exact span it consumed.  Turning that span into a machine
//! float is left to the caller.

use crate::alternate::EitherOf;
use crate::alternate::either;
use crate::outcome::ParserError;
use crate::outcome::SpecOutcome;
use crate::outcome::lemma_skip_skip;
use crate::parse::SpecParse;
use crate::primitive::DigitTest;
use crate::primitive::Tag;
use crate::primitive::TakeWhile;
use crate::primitive::lemma_scan_from;
use crate::primitive::scan_from;
use crate::primitive::tag;
use crate::primitive::take_while;
use crate::structural::PairOf;
use crate::structural::TrioOf;
use crate::structural::pair;
use crate::structural::trio;
use crate::transform::Optional;
use crate::transform::Recognized;
use crate::transform::Value;
use crate::transform::opt;
use crate::transform::recognize;
use crate::transform::value;
use vstd::prelude::*;

verus! {

/// A run of decimal digits (at least one).
pub type DigitsForm = TakeWhile<DigitTest>;

/// An optional leading `+` or `-`.
pub type SignForm = Optional<EitherOf<Tag, Tag>>;

/// Digits, optionally followed by a point and more optional digits.
pub type NumForm = Value<PairOf<DigitsForm, Optional<PairOf<Tag, Optional<DigitsForm>>>>, u8>;

/// A point followed by mandatory digits.
pub type FracForm = Value<PairOf<Tag, DigitsForm>, u8>;

/// An optional exponent group: `e` or `E`, an optional sign, mandatory
/// digits.
pub type ExpoForm = Optional<TrioOf<EitherOf<Tag, Tag>, SignForm, DigitsForm>>;

/// The whole literal, recognised as its raw span.
pub type DecimalForm = Recognized<TrioOf<SignForm, EitherOf<NumForm, FracForm>, ExpoForm>>;

/// The literals of a decimal parser hold the expected characters.
pub open spec fn decimal_wf(d: DecimalForm) -> bool {
    &&& d.p.a.p.a.t@ == seq!['+']
    &&& d.p.a.p.b.t@ == seq!['-']
    &&& d.p.b.a.p.b.p.a.t@ == seq!['.']
    &&& d.p.b.b.p.a.t@ == seq!['.']
    &&& d.p.c.p.a.a.t@ == seq!['e']
    &&& d.p.c.p.a.b.t@ == seq!['E']
    &&& d.p.c.p.b.p.a.t@ == seq!['+']
    &&& d.p.c.p.b.p.b.t@ == seq!['-']
}

/// The length of the leading digit run of `s`.
pub open spec fn dec_digit_run(s: Seq<char>) -> int {
    scan_from(DigitTest, s, 0)
}

/// One character for a leading sign, if present.
pub open spec fn dec_sign_len(s: Seq<char>) -> int {
    if s.len() > 0 && (s[0] == '+' || s[0] == '-') {
        1
    } else {
        0
    }
}

/// The length of an optional point-and-digits tail after the integer part.
pub open spec fn dec_dot_tail(s: Seq<char>) -> int {
    if s.len() > 0 && s[0] == '.' {
        1 + dec_digit_run(s.skip(1))
    } else {
        0
    }
}

/// The length of an optional exponent group: nothing unless an exponent
/// marker with a (possibly signed) digit run follows.
pub open spec fn dec_expo_len(s: Seq<char>) -> int {
    if s.len() > 0 && (s[0] == 'e' || s[0] == 'E') {
        let sl = dec_sign_len(s.skip(1));
        let d = dec_digit_run(s.skip(1 + sl));
        if d > 0 {
            1 + sl + d
        } else {
            0
        }
    } else {
        0
    }
}

/// What the decimal literal parser does, stated directly over the input
/// text: the accepted span is sign, then digits with an optional fraction
/// tail or point-with-digits, then an optional exponent group; a missing
/// integer and fraction part fails where the grammar's innermost primitive
/// failed.
pub open spec fn decimal_spec(i: Seq<char>) -> SpecOutcome<Seq<char>> {
    let sl = dec_sign_len(i);
    let s = i.skip(sl);
    if dec_digit_run(s) > 0 {
        let b = dec_digit_run(s) + dec_dot_tail(s.skip(dec_digit_run(s)));
        let t = sl + b + dec_expo_len(i.skip(sl + b));
        SpecOutcome::Found { used: t, val: i.take(t) }
    } else if s.len() > 0 && s[0] == '.' && dec_digit_run(s.skip(1)) > 0 {
        let b = 1 + dec_digit_run(s.skip(1));
        let t = sl + b + dec_expo_len(i.skip(sl + b));
        SpecOutcome::Found { used: t, val: i.take(t) }
    } else if s.len() > 0 && s[0] == '.' {
        SpecOutcome::Failed { at: sl + 1, kind: ParserError::TakeWhile }
    } else {
        SpecOutcome::Failed { at: sl, kind: ParserError::Tag }
    }
}

/// A one-character literal matches exactly when the input starts with that
/// character.
proof fn lemma_tag_one(t: Seq<char>, c: char, s: Seq<char>)
    requires
        t == seq![c],
    ensures
        crate::primitive::tag_spec(t, s) == (if s.len() > 0 && s[0] == c {
            SpecOutcome::Found { used: 1int, val: t }
        } else {
            SpecOutcome::Failed { at: 0int, kind: ParserError::Tag }
        }),
{
    if s.len() > 0 && s[0] == c {
        assert(s.take(1) =~= t);
    } else {
        if s.len() > 0 {
            assert(s.take(1) != t) by {
                assert(s.take(1)[0] == s[0]);
            }
        }
    }
}

/// The sign parser always succeeds and consumes [`dec_sign_len`].
proof fn lemma_sign(sg: SignForm, s: Seq<char>)
    requires
        sg.p.a.t@ == seq!['+'],
        sg.p.b.t@ == seq!['-'],
    ensures
        sg.spec_parse(s) matches SpecOutcome::Found { used, .. } && used == dec_sign_len(s),
{
    lemma_tag_one(sg.p.a.t@, '+', s);
    lemma_tag_one(sg.p.b.t@, '-', s);
}

/// The digits-with-optional-fraction form consumes the digit run and the
/// dot tail, and fails exactly when no digit leads.
proof fn lemma_num(nm: NumForm, s: Seq<char>)
    requires
        nm.p.b.p.a.t@ == seq!['.'],
    ensures
        dec_digit_run(s) > 0 ==> (nm.spec_parse(s) matches SpecOutcome::Found { used, .. }
            && used == dec_digit_run(s) + dec_dot_tail(s.skip(dec_digit_run(s)))),
        dec_digit_run(s) <= 0 ==> nm.spec_parse(s) == (SpecOutcome::Failed::<u8> {
            at: 0,
            kind: ParserError::TakeWhile,
        }),
{
    lemma_scan_from(DigitTest, s, 0);
    let d1 = dec_digit_run(s);
    if d1 > 0 {
        let s2 = s.skip(d1);
        lemma_tag_one(nm.p.b.p.a.t@, '.', s2);
        if s2.len() > 0 && s2[0] == '.' {
            lemma_scan_from(DigitTest, s2.skip(1), 0);
            lemma_skip_skip(s, d1, 1);
        }
    }
}

/// The point-with-digits form consumes one plus the digit run after the
/// point, and otherwise fails at the position of what was missing.
proof fn lemma_frac(fr: FracForm, s: Seq<char>)
    requires
        fr.p.a.t@ == seq!['.'],
    ensures
        s.len() > 0 && s[0] == '.' && dec_digit_run(s.skip(1)) > 0 ==> (fr.spec_parse(s)
            matches SpecOutcome::Found { used, .. } && used == 1 + dec_digit_run(s.skip(1))),
        s.len() > 0 && s[0] == '.' && dec_digit_run(s.skip(1)) <= 0 ==> fr.spec_parse(s)
            == (SpecOutcome::Failed::<u8> { at: 1, kind: ParserError::TakeWhile }),
        !(s.len() > 0 && s[0] == '.') ==> fr.spec_parse(s) == (SpecOutcome::Failed::<u8> {
            at: 0,
            kind: ParserError::Tag,
        }),
{
    lemma_tag_one(fr.p.a.t@, '.', s);
    if s.len() > 0 && s[0] == '.' {
        lemma_scan_from(DigitTest, s.skip(1), 0);
    }
}

/// An exponent group never reaches past the end of the input.
proof fn lemma_expo_len_bound(s: Seq<char>)
    ensures
        0 <= dec_expo_len(s) <= s.len(),
{
    if s.len() > 0 && (s[0] == 'e' || s[0] == 'E') {
        let sl = dec_sign_len(s.skip(1));
        lemma_scan_from(DigitTest, s.skip(1 + sl), 0);
    }
}

/// The exponent group always succeeds and consumes [`dec_expo_len`].
proof fn lemma_expo(ex: ExpoForm, s: Seq<char>)
    requires
        ex.p.a.a.t@ == seq!['e'],
        ex.p.a.b.t@ == seq!['E'],
        ex.p.b.p.a.t@ == seq!['+'],
        ex.p.b.p.b.t@ == seq!['-'],
    ensures
        ex.spec_parse(s) matches SpecOutcome::Found { used, .. } && used == dec_expo_len(s),
{
    lemma_tag_one(ex.p.a.a.t@, 'e', s);
    lemma_tag_one(ex.p.a.b.t@, 'E', s);
    if s.len() > 0 && (s[0] == 'e' || s[0] == 'E') {
        let s1 = s.skip(1);
        lemma_sign(ex.p.b, s1);
        let sl = dec_sign_len(s1);
        lemma_skip_skip(s, 1, sl);
        lemma_scan_from(DigitTest, s1.skip(sl), 0);
    }
}

/// The composed grammar behaves exactly as [`decimal_spec`] states.
pub proof fn lemma_decimal_spec(d: DecimalForm, i: Seq<char>)
    requires
        decimal_wf(d),
    ensures
        d.spec_parse(i) == decimal_spec(i),
{
    lemma_sign(d.p.a, i);
    let sl = dec_sign_len(i);
    let s = i.skip(sl);
    lemma_num(d.p.b.a, s);
    lemma_frac(d.p.b.b, s);
    lemma_scan_from(DigitTest, s, 0);
    let d1 = dec_digit_run(s);
    if d1 > 0 {
        let b = d1 + dec_dot_tail(s.skip(d1));
        if s.len() > 0 && s.skip(d1).len() > 0 && s.skip(d1)[0] == '.' {
            lemma_scan_from(DigitTest, s.skip(d1).skip(1), 0);
            lemma_skip_skip(s, d1, 1);
        }
        lemma_skip_skip(i, sl, b);
        lemma_expo(d.p.c, i.skip(sl + b));
        lemma_expo_len_bound(i.skip(sl + b));
        lemma_skip_skip(i, sl + b, dec_expo_len(i.skip(sl + b)));
    } else if s.len() > 0 && s[0] == '.' && dec_digit_run(s.skip(1)) > 0 {
        let b = 1 + dec_digit_run(s.skip(1));
        lemma_scan_from(DigitTest, s.skip(1), 0);
        lemma_skip_skip(i, sl, b);
        lemma_expo(d.p.c, i.skip(sl + b));
        lemma_expo_len_bound(i.skip(sl + b));
        lemma_skip_skip(i, sl + b, dec_expo_len(i.skip(sl + b)));
    }
}

/// Builds the decimal literal recogniser by composing the grammar from the
/// library's combinators.
pub fn decimal() -> (r: DecimalForm)
    ensures
        decimal_wf(r),
{
    proof {
        reveal_strlit("+");
        reveal_strlit("-");
        reveal_strlit(".");
        reveal_strlit("e");
        reveal_strlit("E");
        assert("+"@ =~= seq!['+']);
        assert("-"@ =~= seq!['-']);
        assert("."@ =~= seq!['.']);
        assert("e"@ =~= seq!['e']);
        assert("E"@ =~= seq!['E']);
    }
    let sign = opt(either(tag("+"), tag("-")));
    let num = value(pair(take_while(DigitTest), opt(pair(tag("."), opt(take_while(DigitTest))))), 0u8);
    let frac = value(pair(tag("."), take_while(DigitTest)), 0u8);
    let expo_sign = opt(either(tag("+"), tag("-")));
    let expo = opt(trio(either(tag("e"), tag("E")), expo_sign, take_while(DigitTest)));
    recognize(trio(sign, either(num, frac), expo))
}

} // verus!
