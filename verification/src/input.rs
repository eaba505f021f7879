//! The input model: an immutable window over a shared character buffer.

use std::rc::Rc;
use vstd::prelude::*;
use vstd::std_specs::iter::IteratorSpec;

verus! {

broadcast use vstd::string::next_postcondition;

/// A read-only window into a character buffer.
///
/// The buffer itself is shared and never mutated; a window is only ever
/// narrowed.  Its mathematical view is the sequence of characters inside the
/// window, so two windows are compared by content, never by address.
pub struct InputView {
    buf: Rc<Vec<char>>,
    start: usize,
    end: usize,
}

impl View for InputView {
    type V = Seq<char>;

    closed spec fn view(&self) -> Seq<char> {
        self.buf@.subrange(self.start as int, self.end as int)
    }
}

impl DeepView for InputView {
    type V = Seq<char>;

    open spec fn deep_view(&self) -> Seq<char> {
        self@
    }
}

/// Relies on `Rc::clone`: the returned handle refers to the same allocation,
/// so it carries the same value.
#[verifier::external_body]
fn share_buf(b: &Rc<Vec<char>>) -> (r: Rc<Vec<char>>)
    ensures
        r == *b,
{
    Rc::clone(b)
}

impl InputView {
    /// The window's bounds lie inside the backing buffer; every window the
    /// library hands out satisfies this by construction.
    #[verifier::type_invariant]
    closed spec fn wf(&self) -> bool {
        self.start <= self.end && self.end <= self.buf@.len()
    }

    /// Wraps a whole character buffer as an input view.
    pub fn from_chars(v: Vec<char>) -> (r: InputView)
        ensures
            r@ == v@,
    {
        let n = v.len();
        let r = InputView { buf: Rc::new(v), start: 0, end: n };
        proof {
            assert(r@ =~= r.buf@);
        }
        r
    }

    /// Copies the characters of a string into a fresh input view.
    pub fn from_text(s: &str) -> (r: InputView)
        ensures
            r@ == s@,
    {
        let mut v: Vec<char> = Vec::new();
        let mut it = s.chars();
        loop
            invariant
                it.obeys_prophetic_iter_laws(),
                it.decrease() is Some,
                v@ + it.remaining() == s@,
            ensures
                v@ == s@,
            decreases it.decrease()->0,
        {
            match it.next() {
                Some(c) => {
                    v.push(c);
                    proof {
                        assert(v@ + it.remaining() =~= s@);
                    }
                },
                None => {
                    proof {
                        assert(v@ =~= s@);
                    }
                    break;
                },
            }
        }
        InputView::from_chars(v)
    }

    /// The number of characters in the window.
    pub fn length(&self) -> (n: usize)
        ensures
            n == self@.len(),
    {
        proof {
            use_type_invariant(self);
        }
        self.end - self.start
    }

    /// The character at offset `j` inside the window.
    pub fn char_at(&self, j: usize) -> (c: char)
        requires
            j < self@.len(),
        ensures
            c == self@[j as int],
    {
        proof {
            use_type_invariant(self);
        }
        let b: &Vec<char> = &self.buf;
        b[self.start + j]
    }

    /// A window over the same buffer with the first `n` characters removed.
    pub fn skip_n(&self, n: usize) -> (r: InputView)
        requires
            n <= self@.len(),
        ensures
            r@ == self@.skip(n as int),
    {
        proof {
            use_type_invariant(self);
        }
        let r = InputView { buf: share_buf(&self.buf), start: self.start + n, end: self.end };
        proof {
            assert(r@ =~= self@.skip(n as int));
        }
        r
    }

    /// A window over the same buffer holding only the first `n` characters.
    pub fn first_n(&self, n: usize) -> (r: InputView)
        requires
            n <= self@.len(),
        ensures
            r@ == self@.take(n as int),
    {
        proof {
            use_type_invariant(self);
        }
        let r = InputView { buf: share_buf(&self.buf), start: self.start, end: self.start + n };
        proof {
            assert(r@ =~= self@.take(n as int));
        }
        r
    }

    /// Another handle to the same window.
    pub fn duplicate(&self) -> (r: InputView)
        ensures
            r == *self,
    {
        proof {
            use_type_invariant(self);
        }
        InputView { buf: share_buf(&self.buf), start: self.start, end: self.end }
    }

    /// The window's characters, copied out into a fresh vector.
    pub fn to_chars(&self) -> (r: Vec<char>)
        ensures
            r@ == self@,
    {
        let n = self.length();
        let mut r: Vec<char> = Vec::new();
        let mut k: usize = 0;
        while k < n
            invariant
                n == self@.len(),
                k <= n,
                r@ == self@.take(k as int),
            decreases n - k,
        {
            r.push(self.char_at(k));
            k += 1;
            proof {
                assert(r@ =~= self@.take(k as int));
            }
        }
        proof {
            assert(self@.take(n as int) =~= self@);
        }
        r
    }

    /// Whether two windows hold the same characters.
    pub fn content_eq(&self, other: &InputView) -> (r: bool)
        ensures
            r == (self@ == other@),
    {
        let n = self.length();
        if n != other.length() {
            return false;
        }
        let mut k: usize = 0;
        while k < n
            invariant
                n == self@.len(),
                n == other@.len(),
                k <= n,
                forall|j: int| 0 <= j < k ==> self@[j] == other@[j],
            decreases n - k,
        {
            if self.char_at(k) != other.char_at(k) {
                return false;
            }
            k += 1;
        }
        proof {
            assert(self@ =~= other@);
        }
        true
    }
}

} // verus!
