//! A growable-string payload with an append-and-read and a substring
//! operation.

use vstd::prelude::*;
use vstd::string::StrSliceExecFns;
use vstd::string::StringExecFns;

use crate::subsystem::Operation;

verus! {

/// The characters `s[begin .. end]`, or the empty sequence when the span
/// is out of range (`begin > end`, or `end` past the end of `s`).
pub open spec fn span_of(s: Seq<char>, begin: int, end: int) -> Seq<char> {
    if 0 <= begin <= end <= s.len() {
        s.subrange(begin, end)
    } else {
        Seq::empty()
    }
}

/// A growable string, read through substrings.
pub struct Substringer {
    value: String,
}

impl View for Substringer {
    type V = Seq<char>;

    closed spec fn view(&self) -> Seq<char> {
        self.value@
    }
}

impl Substringer {
    /// Take ownership of the initial string.
    pub fn new(value: String) -> (s: Self)
        ensures
            s@ == value@,
    {
        Self { value }
    }

    /// Append `other` and return a copy of the whole stored string.
    pub fn append_get(&mut self, other: &str) -> (r: String)
        ensures
            final(self)@ == old(self)@ + other@,
            r@ == final(self)@,
    {
        self.value.append(other);
        self.value.clone()
    }

    /// The substring over character positions `begin .. end`; empty when
    /// the span is out of range.
    pub fn substr(&self, begin: usize, end: usize) -> (r: String)
        ensures
            r@ == span_of(self@, begin as int, end as int),
    {
        let n: usize = self.value.as_str().unicode_len();
        if begin <= end && end <= n {
            String::from_str(self.value.as_str().substring_char(begin, end))
        } else {
            String::new()
        }
    }

    /// The number of characters stored.
    pub fn size(&self) -> (r: usize)
        ensures
            r == self@.len(),
    {
        self.value.as_str().unicode_len()
    }
}

/// One schedulable operation against a `Substringer`.
pub enum SubstrOp {
    /// Append the text and hand back the whole stored string.
    AppendGet(String),
    /// Hand back the substring over the character span.
    Span(usize, usize),
    /// Hand back the number of characters stored.
    Size,
}

/// A result handed back by a `SubstrOp`: text or a character count.
pub enum SubstrReply {
    Text(String),
    Count(usize),
}

/// The view of a `SubstrReply`.
pub enum SubstrReplyView {
    Text(Seq<char>),
    Count(int),
}

impl View for SubstrReply {
    type V = SubstrReplyView;

    open spec fn view(&self) -> SubstrReplyView {
        match self {
            SubstrReply::Text(s) => SubstrReplyView::Text(s@),
            SubstrReply::Count(n) => SubstrReplyView::Count(*n as int),
        }
    }
}

impl Operation<Substringer> for SubstrOp {
    type Output = SubstrReply;

    open spec fn enabled(&self, s: Seq<char>) -> bool {
        true
    }

    open spec fn next(&self, s: Seq<char>) -> Seq<char> {
        match self {
            SubstrOp::AppendGet(t) => s + t@,
            SubstrOp::Span(_, _) => s,
            SubstrOp::Size => s,
        }
    }

    open spec fn output(&self, s: Seq<char>) -> SubstrReplyView {
        match self {
            SubstrOp::AppendGet(t) => SubstrReplyView::Text(s + t@),
            SubstrOp::Span(b, e) => SubstrReplyView::Text(span_of(s, *b as int, *e as int)),
            SubstrOp::Size => SubstrReplyView::Count(s.len() as int),
        }
    }

    fn apply(self, state: &mut Substringer) -> (r: SubstrReply) {
        match self {
            SubstrOp::AppendGet(t) => SubstrReply::Text(state.append_get(t.as_str())),
            SubstrOp::Span(b, e) => SubstrReply::Text(state.substr(b, e)),
            SubstrOp::Size => SubstrReply::Count(state.size()),
        }
    }
}

} // verus!
