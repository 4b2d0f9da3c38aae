//! Where rendered text goes.

use vstd::prelude::*;

verus! {

/// The one error of this crate: the sink refused a piece of text.
#[derive(Debug, Clone, Copy, PartialEq, Eq)]
pub struct WriteFailure;

/// `text` with `piece` behind it, where there is an account of the text.
pub open spec fn appended(text: Option<Seq<char>>, piece: Seq<char>) -> Option<Seq<char>> {
    match text {
        Some(held) => Some(held + piece),
        None => None,
    }
}

/// Two pieces written one after the other are their concatenation written
/// at once.
pub proof fn lemma_appended_twice(text: Option<Seq<char>>, first: Seq<char>, second: Seq<char>)
    ensures
        appended(appended(text, first), second) == appended(text, first + second),
{
    if let Some(held) = text {
        assert((held + first) + second =~= held + (first + second));
    }
}

/// A destination for text.
///
/// A sink may give account of the text it holds, and may promise never to
/// refuse a piece. One that says nothing of itself gives no account and
/// makes no promise, and then nothing is claimed of it.
pub trait Sink {
    /// The text that this sink holds, or `None` where it gives no account.
    open spec fn text(&self) -> Option<Seq<char>> {
        None
    }

    /// Whether this sink accepts whatever it is given.
    open spec fn infallible(&self) -> bool {
        false
    }

    /// Hands `s` to the sink. A piece that is accepted stands behind the
    /// text held before. Of a write that fails nothing is known but that
    /// the sink had not promised to accept it.
    fn write_str(&mut self, s: &str) -> (r: Result<(), WriteFailure>)
        ensures
            r is Ok ==> final(self).text() == appended(old(self).text(), s@),
            old(self).infallible() ==> r is Ok,
            final(self).infallible() == old(self).infallible(),
    ;
}

/// A `String` keeps all it is given and never refuses.
impl Sink for String {
    open spec fn text(&self) -> Option<Seq<char>> {
        Some(self@)
    }

    open spec fn infallible(&self) -> bool {
        true
    }

    fn write_str(&mut self, s: &str) -> (r: Result<(), WriteFailure>) {
        self.append(s);
        Ok(())
    }
}

} // verus!
