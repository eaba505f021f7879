//! Primitive matchers: parsers that examine raw input with no sub-parsers.

use crate::input::InputView;
use crate::outcome::Outcome;
use crate::outcome::ParserError;
use crate::outcome::SpecOutcome;
use crate::parse::CharTest;
use crate::parse::Parse;
use crate::parse::SpecParse;
use vstd::prelude::*;

verus! {

// ---------------------------------------------------------------------------
// Shared scanning helpers.
// ---------------------------------------------------------------------------

/// The first position at or after `j` whose character fails the predicate,
/// or the input length when the predicate holds through the end.
pub open spec fn scan_from<F: CharTest>(f: F, i: Seq<char>, j: int) -> int
    decreases i.len() - j,
{
    if 0 <= j < i.len() {
        if f.spec_test(i[j]) {
            scan_from(f, i, j + 1)
        } else {
            j
        }
    } else {
        i.len() as int
    }
}

/// What a predicate scan guarantees: the result lies between `j` and the
/// input length, every character before it passes the predicate, and the
/// character at the result (if any) fails it.
pub proof fn lemma_scan_from<F: CharTest>(f: F, i: Seq<char>, j: int)
    requires
        0 <= j <= i.len(),
    ensures
        j <= scan_from(f, i, j) <= i.len(),
        forall|x: int| j <= x < scan_from(f, i, j) ==> f.spec_test(i[x]),
        scan_from(f, i, j) < i.len() ==> !f.spec_test(i[scan_from(f, i, j)]),
    decreases i.len() - j,
{
    if j < i.len() && f.spec_test(i[j]) {
        lemma_scan_from(f, i, j + 1);
    }
}

/// The position of the first occurrence of `pat` at or after `j`, if any.
pub open spec fn find_from(pat: Seq<char>, i: Seq<char>, j: int) -> Option<int>
    decreases i.len() + 1 - j,
{
    if 0 <= j && j + pat.len() <= i.len() {
        if i.subrange(j, j + pat.len() as int) == pat {
            Some(j)
        } else {
            find_from(pat, i, j + 1)
        }
    } else {
        None
    }
}

/// What a literal search guarantees: a hit is the first occurrence at or
/// after `j`; a miss means no occurrence starts at or after `j`.
pub proof fn lemma_find_from(pat: Seq<char>, i: Seq<char>, j: int)
    requires
        0 <= j,
    ensures
        find_from(pat, i, j) matches Some(x) ==> {
            &&& j <= x
            &&& x + pat.len() <= i.len()
            &&& i.subrange(x, x + pat.len() as int) == pat
            &&& forall|y: int|
                j <= y < x ==> #[trigger] i.subrange(y, y + pat.len() as int) != pat
        },
        find_from(pat, i, j) is None ==> forall|y: int|
            j <= y && y + pat.len() <= i.len() ==> #[trigger] i.subrange(y, y + pat.len() as int)
                != pat,
    decreases i.len() + 1 - j,
{
    if j + pat.len() <= i.len() && i.subrange(j, j + pat.len() as int) != pat {
        lemma_find_from(pat, i, j + 1);
    }
}

/// Tests whether `pat` occurs in `i` exactly at position `j`.
fn match_at(i: &InputView, pat: &Vec<char>, j: usize) -> (b: bool)
    requires
        j + pat@.len() <= i@.len(),
    ensures
        b == (i@.subrange(j as int, j as int + pat@.len() as int) == pat@),
{
    let total = i.length();
    let m = pat.len();
    let mut k: usize = 0;
    while k < m
        invariant
            m == pat@.len(),
            total == i@.len(),
            j + m <= i@.len(),
            k <= m,
            forall|x: int| 0 <= x < k ==> i@[j + x] == pat@[x],
        decreases m - k,
    {
        if i.char_at(j + k) != pat[k] {
            proof {
                let sub = i@.subrange(j as int, j as int + pat@.len() as int);
                assert(sub[k as int] != pat@[k as int]);
            }
            return false;
        }
        k += 1;
    }
    proof {
        assert(i@.subrange(j as int, j as int + pat@.len() as int) =~= pat@);
    }
    true
}

// ---------------------------------------------------------------------------
// Literal match.
// ---------------------------------------------------------------------------

/// Matches a fixed string at the front of the input.
pub struct Tag {
    /// The literal to match.
    pub t: Vec<char>,
}

/// What [`Tag`] does: consume exactly the literal if the input starts with
/// it, producing the literal itself; otherwise fail with
/// [`ParserError::Tag`] at the start of the input.
pub open spec fn tag_spec(t: Seq<char>, i: Seq<char>) -> SpecOutcome<Seq<char>> {
    if t.len() <= i.len() && i.take(t.len() as int) == t {
        SpecOutcome::Found { used: t.len() as int, val: t }
    } else {
        SpecOutcome::Failed { at: 0, kind: ParserError::Tag }
    }
}

impl SpecParse for Tag {
    type SV = Seq<char>;

    open spec fn spec_parse(&self, i: Seq<char>) -> SpecOutcome<Seq<char>> {
        tag_spec(self.t@, i)
    }

    proof fn lemma_parse_bounds(&self, i: Seq<char>) {
    }
}

impl Parse for Tag {
    type Out = InputView;

    fn parse(&self, i: &InputView) -> (o: Outcome<InputView>) {
        let n = self.t.len();
        if n > i.length() {
            proof {
                assert(i@.skip(0) =~= i@);
            }
            return Outcome::Failure(i.duplicate(), ParserError::Tag);
        }
        let mut k: usize = 0;
        while k < n
            invariant
                n == self.t@.len(),
                n <= i@.len(),
                k <= n,
                forall|j: int| 0 <= j < k ==> i@[j] == self.t@[j],
            decreases n - k,
        {
            if i.char_at(k) != self.t[k] {
                proof {
                    assert(i@.take(n as int)[k as int] != self.t@[k as int]);
                    assert(i@.skip(0) =~= i@);
                }
                return Outcome::Failure(i.duplicate(), ParserError::Tag);
            }
            k += 1;
        }
        proof {
            assert(i@.take(n as int) =~= self.t@);
        }
        Outcome::Success(i.skip_n(n), i.first_n(n))
    }
}

/// Builds the literal-match parser for `t`.
pub fn tag(t: &str) -> (r: Tag)
    ensures
        r.t@ == t@,
{
    let v = InputView::from_text(t);
    Tag { t: v.to_chars() }
}

// ---------------------------------------------------------------------------
// Predicate run.
// ---------------------------------------------------------------------------

/// Consumes the maximal non-empty prefix of characters passing a predicate.
pub struct TakeWhile<F> {
    /// The per-character predicate.
    pub f: F,
}

/// What [`TakeWhile`] does: consume the maximal prefix whose characters all
/// pass the predicate; an empty prefix is a failure with
/// [`ParserError::TakeWhile`], not an empty success.
pub open spec fn take_while_spec<F: CharTest>(f: F, i: Seq<char>) -> SpecOutcome<Seq<char>> {
    let n = scan_from(f, i, 0);
    if n == 0 {
        SpecOutcome::Failed { at: 0, kind: ParserError::TakeWhile }
    } else {
        SpecOutcome::Found { used: n, val: i.take(n) }
    }
}

impl<F: CharTest> SpecParse for TakeWhile<F> {
    type SV = Seq<char>;

    open spec fn spec_parse(&self, i: Seq<char>) -> SpecOutcome<Seq<char>> {
        take_while_spec(self.f, i)
    }

    proof fn lemma_parse_bounds(&self, i: Seq<char>) {
        lemma_scan_from(self.f, i, 0);
    }
}

/// Runs the predicate scan of [`scan_from`] over an input view.
pub(crate) fn scan_exec<F: CharTest>(f: &F, i: &InputView) -> (n: usize)
    ensures
        n == scan_from(*f, i@, 0),
        n <= i@.len(),
{
    let len = i.length();
    let mut k: usize = 0;
    while k < len
        invariant
            len == i@.len(),
            k <= len,
            scan_from(*f, i@, 0) == scan_from(*f, i@, k as int),
            forall|x: int| 0 <= x < k ==> f.spec_test(i@[x]),
        decreases len - k,
    {
        if !f.test(i.char_at(k)) {
            return k;
        }
        k += 1;
    }
    len
}

impl<F: CharTest> Parse for TakeWhile<F> {
    type Out = InputView;

    fn parse(&self, i: &InputView) -> (o: Outcome<InputView>) {
        let n = scan_exec(&self.f, i);
        if n == 0 {
            proof {
                assert(i@.skip(0) =~= i@);
            }
            Outcome::Failure(i.duplicate(), ParserError::TakeWhile)
        } else {
            Outcome::Success(i.skip_n(n), i.first_n(n))
        }
    }
}

/// Builds the predicate-run parser for `f`.
pub fn take_while<F: CharTest>(f: F) -> (r: TakeWhile<F>)
    ensures
        r.f == f,
{
    TakeWhile { f }
}

/// Accepts exactly the decimal digits `'0'` through `'9'`.
pub struct DigitTest;

/// Whether `c` is a decimal digit.
pub open spec fn is_digit_char(c: char) -> bool {
    48 <= c as u32 && c as u32 <= 57
}

impl CharTest for DigitTest {
    open spec fn spec_test(&self, c: char) -> bool {
        is_digit_char(c)
    }

    fn test(&self, c: char) -> (b: bool) {
        let u = c as u32;
        48 <= u && u <= 57
    }
}

// ---------------------------------------------------------------------------
// Find-until.
// ---------------------------------------------------------------------------

/// Scans for the first occurrence of a fixed literal.
pub struct TakeUntil {
    /// The literal scanned for.
    pub pat: Vec<char>,
}

/// What [`TakeUntil`] does: if the literal occurs, produce everything before
/// its first occurrence and leave the occurrence itself unconsumed; if it
/// does not occur, succeed with an empty value and the whole input left
/// unconsumed.  The no-match behaviour is deliberately lenient and must not
/// be "corrected" into consuming everything or failing.
pub open spec fn take_until_spec(pat: Seq<char>, i: Seq<char>) -> SpecOutcome<Seq<char>> {
    match find_from(pat, i, 0) {
        Some(x) => SpecOutcome::Found { used: x, val: i.take(x) },
        None => SpecOutcome::Found { used: 0, val: Seq::empty() },
    }
}

impl SpecParse for TakeUntil {
    type SV = Seq<char>;

    open spec fn spec_parse(&self, i: Seq<char>) -> SpecOutcome<Seq<char>> {
        take_until_spec(self.pat@, i)
    }

    proof fn lemma_parse_bounds(&self, i: Seq<char>) {
        lemma_find_from(self.pat@, i, 0);
    }
}

impl Parse for TakeUntil {
    type Out = InputView;

    fn parse(&self, i: &InputView) -> (o: Outcome<InputView>) {
        let n = i.length();
        let m = self.pat.len();
        if m == 0 {
            proof {
                assert(i@.subrange(0, 0) =~= self.pat@);
                assert(i@.skip(0) =~= i@);
                assert(i@.take(0) =~= Seq::<char>::empty());
            }
            return Outcome::Success(i.duplicate(), i.first_n(0));
        }
        if m <= n {
            let mut j: usize = 0;
            while j <= n - m
                invariant
                    n == i@.len(),
                    m == self.pat@.len(),
                    1 <= m <= n,
                    j <= n - m + 1,
                    find_from(self.pat@, i@, 0) == find_from(self.pat@, i@, j as int),
                decreases n - m + 1 - j,
            {
                if match_at(i, &self.pat, j) {
                    proof {
                        assert(i@.take(j as int) =~= i@.take(j as int));
                    }
                    return Outcome::Success(i.skip_n(j), i.first_n(j));
                }
                j += 1;
            }
        }
        proof {
            assert(i@.skip(0) =~= i@);
            assert(i@.take(0) =~= Seq::<char>::empty());
        }
        Outcome::Success(i.duplicate(), i.first_n(0))
    }
}

/// Builds the find-until parser for the literal `pat`.
pub fn take_until(pat: &str) -> (r: TakeUntil)
    ensures
        r.pat@ == pat@,
{
    let v = InputView::from_text(pat);
    TakeUntil { pat: v.to_chars() }
}

// ---------------------------------------------------------------------------
// End of input.
// ---------------------------------------------------------------------------

/// Succeeds with an empty value exactly on empty input.
pub struct Eoi;

/// What [`Eoi`] does: succeed, consuming nothing and producing an empty
/// value, if and only if the input is empty; otherwise fail with
/// [`ParserError::Eof`].
pub open spec fn eoi_spec(i: Seq<char>) -> SpecOutcome<Seq<char>> {
    if i.len() == 0 {
        SpecOutcome::Found { used: 0, val: Seq::empty() }
    } else {
        SpecOutcome::Failed { at: 0, kind: ParserError::Eof }
    }
}

impl SpecParse for Eoi {
    type SV = Seq<char>;

    open spec fn spec_parse(&self, i: Seq<char>) -> SpecOutcome<Seq<char>> {
        eoi_spec(i)
    }

    proof fn lemma_parse_bounds(&self, i: Seq<char>) {
    }
}

impl Parse for Eoi {
    type Out = InputView;

    fn parse(&self, i: &InputView) -> (o: Outcome<InputView>) {
        proof {
            assert(i@.skip(0) =~= i@);
        }
        if i.length() == 0 {
            proof {
                assert(i@.take(0) =~= Seq::<char>::empty());
            }
            Outcome::Success(i.duplicate(), i.first_n(0))
        } else {
            Outcome::Failure(i.duplicate(), ParserError::Eof)
        }
    }
}

/// Builds the end-of-input parser.
pub fn eoi() -> (r: Eoi)
    ensures
        r == Eoi,
{
    Eoi
}

// ---------------------------------------------------------------------------
// Whitespace run.
// ---------------------------------------------------------------------------

/// Accepts the whitespace characters: space, tab, carriage return, newline.
pub struct WsTest;

/// Whether `c` is a whitespace character.
pub open spec fn is_ws_char(c: char) -> bool {
    c == ' ' || c == '\t' || c == '\r' || c == '\n'
}

impl CharTest for WsTest {
    open spec fn spec_test(&self, c: char) -> bool {
        is_ws_char(c)
    }

    fn test(&self, c: char) -> (b: bool) {
        c == ' ' || c == '\t' || c == '\r' || c == '\n'
    }
}

/// The length of the leading whitespace run of `i`.
pub open spec fn ws_len(i: Seq<char>) -> int {
    scan_from(WsTest, i, 0)
}

/// Consumes the maximal (possibly empty) leading whitespace run.
pub struct Whitespace;

/// What [`Whitespace`] does: always succeed, consuming the maximal leading
/// run of whitespace and producing it as the value.  Unlike a predicate run,
/// an empty run is a successful empty match.
pub open spec fn whitespace_spec(i: Seq<char>) -> SpecOutcome<Seq<char>> {
    SpecOutcome::Found { used: ws_len(i), val: i.take(ws_len(i)) }
}

impl SpecParse for Whitespace {
    type SV = Seq<char>;

    open spec fn spec_parse(&self, i: Seq<char>) -> SpecOutcome<Seq<char>> {
        whitespace_spec(i)
    }

    proof fn lemma_parse_bounds(&self, i: Seq<char>) {
        lemma_scan_from(WsTest, i, 0);
    }
}

impl Parse for Whitespace {
    type Out = InputView;

    fn parse(&self, i: &InputView) -> (o: Outcome<InputView>) {
        let n = scan_exec(&WsTest, i);
        Outcome::Success(i.skip_n(n), i.first_n(n))
    }
}

/// Builds the whitespace-run parser.
pub fn whitespace() -> (r: Whitespace)
    ensures
        r == Whitespace,
{
    Whitespace
}

} // verus!
