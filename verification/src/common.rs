//! Source ranges and diagnostics shared by every stage.

use vstd::prelude::*;

verus! {

/// Identifies one source file.
pub type FileId = usize;

/// A diagnostic, tagged by the stage that raised it, with its message and
/// the source range it is about.
#[derive(Debug)]
pub enum Error {
    LexerError(String, Span),
    ParserError(String, Span),
    SemanticError(String, Span),
}

/// The mathematical value of an [`Error`]: its tag, the message's
/// characters and the span.
pub ghost enum ErrorView {
    LexerError(Seq<char>, Span),
    ParserError(Seq<char>, Span),
    SemanticError(Seq<char>, Span),
}

impl View for Error {
    type V = ErrorView;

    open spec fn view(&self) -> ErrorView {
        match *self {
            Error::LexerError(m, span) => ErrorView::LexerError(m@, span),
            Error::ParserError(m, span) => ErrorView::ParserError(m@, span),
            Error::SemanticError(m, span) => ErrorView::SemanticError(m@, span),
        }
    }
}

impl Clone for Error {
    fn clone(&self) -> (r: Self)
        ensures
            r == *self,
    {
        match self {
            Error::LexerError(m, span) => Error::LexerError(m.clone(), *span),
            Error::ParserError(m, span) => Error::ParserError(m.clone(), *span),
            Error::SemanticError(m, span) => Error::SemanticError(m.clone(), *span),
        }
    }
}

impl Error {
    /// The message carried by the diagnostic.
    pub fn message(&self) -> (r: String)
        ensures
            r@ == self@.message(),
    {
        match self {
            Error::LexerError(m, _) => m.clone(),
            Error::ParserError(m, _) => m.clone(),
            Error::SemanticError(m, _) => m.clone(),
        }
    }

    /// The source range the diagnostic is about.
    pub fn span(&self) -> (r: Span)
        ensures
            r == self@.span(),
    {
        match self {
            Error::LexerError(_, span) => *span,
            Error::ParserError(_, span) => *span,
            Error::SemanticError(_, span) => *span,
        }
    }

}

impl ErrorView {
    /// The message carried by the diagnostic.
    pub open spec fn message(self) -> Seq<char> {
        match self {
            ErrorView::LexerError(m, _) => m,
            ErrorView::ParserError(m, _) => m,
            ErrorView::SemanticError(m, _) => m,
        }
    }

    /// The source range the diagnostic is about.
    pub open spec fn span(self) -> Span {
        match self {
            ErrorView::LexerError(_, span) => span,
            ErrorView::ParserError(_, span) => span,
            ErrorView::SemanticError(_, span) => span,
        }
    }
}

/// The values of a list of diagnostics, in order.
pub open spec fn errors_view(errors: Seq<Error>) -> Seq<ErrorView> {
    Seq::new(errors.len(), |i: int| errors[i]@)
}

/// Copies a list of diagnostics.
pub fn clone_errors(errors: &Vec<Error>) -> (r: Vec<Error>)
    ensures
        r@ == errors@,
{
    let mut out: Vec<Error> = Vec::new();
    let mut i: usize = 0;
    while i < errors.len()
        invariant
            i <= errors.len(),
            out@ == errors@.subrange(0, i as int),
        decreases errors.len() - i,
    {
        out.push(errors[i].clone());
        assert(out@ =~= errors@.subrange(0, i + 1));
        i += 1;
    }
    assert(errors@.subrange(0, i as int) =~= errors@);
    out
}

/// A half-open byte range `[start, end)` inside one source file.
#[derive(Debug, Clone, Copy, PartialEq, Eq, Structural)]
pub struct Span {
    pub file_id: FileId,
    pub start: usize,
    pub end: usize,
}

impl Span {
    /// A span is well formed when it does not end before it starts.
    pub open spec fn wf(self) -> bool {
        self.start <= self.end
    }

    /// Whether `a` followed by `b` may be merged: both lie in the same file
    /// and `a` starts before `b` ends.
    pub open spec fn mergeable(a: Span, b: Span) -> bool {
        a.file_id == b.file_id && a.start < b.end
    }

    /// The span from the start of `a` to the end of `b`.
    pub open spec fn spec_merge(a: Span, b: Span) -> Span {
        Span { file_id: a.file_id, start: a.start, end: b.end }
    }

    pub open spec fn spec_contains(self, span: Span) -> bool {
        self.file_id == span.file_id && span.start >= self.start && span.end >= self.end
    }

    pub fn new(file_id: FileId, start: usize, end: usize) -> (r: Self)
        requires
            start <= end,
        ensures
            r == (Span { file_id, start, end }),
            r.wf(),
    {
        Self { file_id, start, end }
    }

    /// Whether `span` lies in the same file, starts no earlier than `self`
    /// and ends no earlier than `self` ends.
    pub fn contains(self, span: Span) -> (r: bool)
        ensures
            r == self.spec_contains(span),
    {
        self.file_id == span.file_id && span.start >= self.start && span.end >= self.end
    }

    /// Joins two spans of one file into the range from where `a` starts to
    /// where `b` ends. Spans of different files, or an `a` that does not
    /// start before `b` ends, are not accepted.
    pub fn merge(a: &Span, b: &Span) -> (r: Self)
        requires
            Span::mergeable(*a, *b),
        ensures
            r == Span::spec_merge(*a, *b),
            r.wf(),
            r.start < r.end,
    {
        Self { file_id: a.file_id, start: a.start, end: b.end }
    }
}

/// Merging is associative: for three spans of one file, laid out left to
/// right, joining the first two and then the third gives the same span as
/// joining the first with the join of the last two, and both orders are
/// accepted.
pub proof fn lemma_merge_associative(a: Span, b: Span, c: Span)
    requires
        a.wf(),
        b.wf(),
        c.wf(),
        a.file_id == b.file_id,
        b.file_id == c.file_id,
        a.start < b.end,
        b.start < c.end,
        a.end <= b.start,
        b.end <= c.start,
    ensures
        Span::mergeable(a, b),
        Span::mergeable(b, c),
        Span::mergeable(Span::spec_merge(a, b), c),
        Span::mergeable(a, Span::spec_merge(b, c)),
        Span::spec_merge(Span::spec_merge(a, b), c) == Span::spec_merge(a, Span::spec_merge(b, c)),
{
}

/// Two spans of different files can never be merged.
pub proof fn lemma_merge_rejects_other_file(a: Span, b: Span)
    requires
        a.file_id != b.file_id,
    ensures
        !Span::mergeable(a, b),
{
}

} // verus!
