use vstd::prelude::*;
use vstd::slice::slice_subrange;

verus! {

/// A half-open range `[start, end)` of positions in a character buffer.
#[derive(Debug, Clone, Copy, PartialEq, Eq, Structural)]
pub struct Span {
    pub start: usize,
    pub end: usize,
}

/// Collects characters into an owned string with `String::from_iter`: the
/// string holds exactly the given characters, in their order.
#[verifier::external_body]
fn string_of_chars(chars: &[char]) -> (text: String)
    ensures
        text@ == chars@,
{
    String::from_iter(chars)
}

impl Span {
    /// The range is not reversed.
    pub open spec fn wf(&self) -> bool {
        self.start <= self.end
    }

    /// The range is not reversed and lies inside a buffer of `len` characters.
    pub open spec fn fits(&self, len: nat) -> bool {
        self.start <= self.end && self.end <= len
    }

    /// The characters of `buffer` that the range covers.
    pub open spec fn content(&self, buffer: Seq<char>) -> Seq<char> {
        buffer.subrange(self.start as int, self.end as int)
    }

    pub fn new(start: usize, end: usize) -> (span: Span)
        requires
            start <= end,
        ensures
            span.start == start,
            span.end == end,
            span.wf(),
    {
        Span { start, end }
    }

    /// Borrows the covered characters from `source`.
    pub fn get_content<'a>(&self, source: &'a [char]) -> (content: &'a [char])
        requires
            self.fits(source@.len()),
        ensures
            content@ == self.content(source@),
    {
        slice_subrange(source, self.start, self.end)
    }

    /// Copies the covered characters of `source` into a string.
    pub fn get_content_string(&self, source: &[char]) -> (text: String)
        requires
            self.fits(source@.len()),
        ensures
            text@ == self.content(source@),
    {
        string_of_chars(self.get_content(source))
    }
}

impl Default for Span {
    fn default() -> (span: Span)
        ensures
            span.start == 0,
            span.end == 0,
    {
        Span { start: 0, end: 0 }
    }
}

} // verus!
