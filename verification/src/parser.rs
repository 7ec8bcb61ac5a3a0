//! The parser: a token stream to a tree whose nodes remember their source
//! range. Malformed input degrades to `Invalid` nodes and recorded errors.

use vstd::prelude::*;
use crate::common::{Error, ErrorView, FileId, Span, clone_errors, errors_view};
use crate::lexer::{Token, TokenContents, TokenContentsView, TokenView, tokens_view, tokens_wf};

verus! {

#[derive(Debug)]
pub enum ParsedExpression {
    Expression(Box<ParsedExpression>, Span),
    Add(Box<ParsedExpression>, Box<ParsedExpression>, Span),
    Int(String, Span),
    Invalid(Error, Span),
}

/// The mathematical value of a [`ParsedExpression`].
pub ghost enum ParsedView {
    Expression(Box<ParsedView>, Span),
    Add(Box<ParsedView>, Box<ParsedView>, Span),
    Int(Seq<char>, Span),
    Invalid(ErrorView, Span),
}

impl ParsedView {
    /// The source range of the node.
    pub open spec fn span(self) -> Span {
        match self {
            ParsedView::Expression(_, span) => span,
            ParsedView::Add(_, _, span) => span,
            ParsedView::Int(_, span) => span,
            ParsedView::Invalid(_, span) => span,
        }
    }
}

impl View for ParsedExpression {
    type V = ParsedView;

    open spec fn view(&self) -> ParsedView
        decreases self,
    {
        match self {
            ParsedExpression::Expression(inner, span) => ParsedView::Expression(
                Box::new((**inner).view()),
                *span,
            ),
            ParsedExpression::Add(left, right, span) => ParsedView::Add(
                Box::new((**left).view()),
                Box::new((**right).view()),
                *span,
            ),
            ParsedExpression::Int(text, span) => ParsedView::Int(text@, *span),
            ParsedExpression::Invalid(error, span) => ParsedView::Invalid(error@, *span),
        }
    }
}

impl ParsedExpression {
    /// The source range of the node.
    pub fn span(&self) -> (r: &Span)
        ensures
            *r == self@.span(),
    {
        match self {
            ParsedExpression::Expression(_, span) => span,
            ParsedExpression::Add(_, _, span) => span,
            ParsedExpression::Int(_, span) => span,
            ParsedExpression::Invalid(_, span) => span,
        }
    }
}

/// What one parsing step yields: the node, the index of the first token it
/// did not consume, and the errors it recorded, in order.
pub ghost struct Parsed {
    pub node: ParsedView,
    pub next: int,
    pub errors: Seq<ErrorView>,
}

/// The empty span at the end of the token stream, where input ran out.
pub open spec fn end_span(file_id: FileId, tokens: Seq<TokenView>) -> Span {
    if tokens.len() == 0 {
        Span { file_id, start: 0, end: 0 }
    } else {
        Span { file_id, start: tokens.last().span.end, end: tokens.last().span.end }
    }
}

/// Where the token at index `i` starts, or where the stream ends if there
/// is no such token.
pub open spec fn start_of(file_id: FileId, tokens: Seq<TokenView>, i: int) -> usize {
    if 0 <= i < tokens.len() {
        tokens[i].span.start
    } else {
        end_span(file_id, tokens).start
    }
}

/// An `Invalid` node with a syntax error of the given message about the
/// node's span, which is also the one error recorded.
pub open spec fn invalid_step(message: Seq<char>, span: Span, next: int) -> Parsed {
    Parsed {
        node: ParsedView::Invalid(ErrorView::ParserError(message, span), span),
        next,
        errors: seq![ErrorView::ParserError(message, span)],
    }
}

/// `value := INT | '(' expression ')'`
///
/// An integer token becomes a literal with that token's span. After `(` and
/// the inner expression a `)` is owed: with it the node is a group from the
/// `(` to the `)`; with another token in its place the node is `Invalid`
/// from the `(` to that token, which is skipped; with no token left it is
/// `Invalid` from the `(` to the end of input. Any other token becomes an
/// `Invalid` node with that token's span, and running out of tokens one
/// with the empty span at the end of input.
pub open spec fn spec_parse_value(file_id: FileId, tokens: Seq<TokenView>, i: int) -> Parsed
    decreases tokens.len() - i, 0int,
{
    if !(0 <= i < tokens.len()) {
        invalid_step("unexpected end of input"@, end_span(file_id, tokens), i)
    } else {
        let token = tokens[i];
        match token.contents {
            TokenContentsView::Int(text) => Parsed {
                node: ParsedView::Int(text, token.span),
                next: i + 1,
                errors: Seq::empty(),
            },
            TokenContentsView::LParen => {
                let inner = spec_parse_expression(file_id, tokens, i + 1);
                let j = inner.next;
                if !(0 <= j < tokens.len()) {
                    let closing = invalid_step(
                        "unexpected end of input"@,
                        Span::spec_merge(token.span, end_span(file_id, tokens)),
                        j,
                    );
                    Parsed { errors: inner.errors + closing.errors, ..closing }
                } else if tokens[j].contents is RParen {
                    Parsed {
                        node: ParsedView::Expression(
                            Box::new(inner.node),
                            Span::spec_merge(token.span, tokens[j].span),
                        ),
                        next: j + 1,
                        errors: inner.errors,
                    }
                } else {
                    let closing = invalid_step(
                        "unexpected token"@,
                        Span::spec_merge(token.span, tokens[j].span),
                        j + 1,
                    );
                    Parsed { errors: inner.errors + closing.errors, ..closing }
                }
            },
            _ => invalid_step("unexpected token"@, token.span, i + 1),
        }
    }
}

/// `additive := value ( '+' additive )?`, which makes `+` associate to the
/// right. The node of a sum spans from its left operand to its right one.
pub open spec fn spec_parse_prec_11(file_id: FileId, tokens: Seq<TokenView>, i: int) -> Parsed
    decreases tokens.len() - i, 1int,
{
    let left = spec_parse_value(file_id, tokens, i);
    let j = left.next;
    if i <= j < tokens.len() && tokens[j].contents is Plus {
        let right = spec_parse_prec_11(file_id, tokens, j + 1);
        Parsed {
            node: ParsedView::Add(
                Box::new(left.node),
                Box::new(right.node),
                Span::spec_merge(left.node.span(), right.node.span()),
            ),
            next: right.next,
            errors: left.errors + right.errors,
        }
    } else {
        left
    }
}

/// `expression := additive`
pub open spec fn spec_parse_expression(file_id: FileId, tokens: Seq<TokenView>, i: int) -> Parsed
    decreases tokens.len() - i, 2int,
{
    spec_parse_prec_11(file_id, tokens, i)
}

/// What a step guarantees of its node's span and of the index, beyond the
/// node itself: the index never moves back, and the span lies in the
/// parser's file, is well formed and starts where the step started.
pub open spec fn step_is_sound(file_id: FileId, tokens: Seq<TokenView>, i: int, step: Parsed) -> bool {
    &&& i <= step.next
    &&& step.node.span().file_id == file_id
    &&& step.node.span().wf()
    &&& step.node.span().start == start_of(file_id, tokens, i)
}

/// A well-formed stream cut short is still well formed, so the parser
/// accepts every truncation of what the lexer gives, down to no token.
pub proof fn lemma_truncation_keeps_wf(file_id: FileId, tokens: Seq<TokenView>, n: int)
    requires
        tokens_wf(file_id, tokens),
        0 <= n <= tokens.len(),
    ensures
        tokens_wf(file_id, tokens.subrange(0, n)),
        tokens_wf(file_id, Seq::<TokenView>::empty()),
{
    let cut = tokens.subrange(0, n);
    assert forall|i: int| 0 <= i < cut.len() implies {
        &&& (#[trigger] cut[i]).span.file_id == file_id
        &&& cut[i].span.start <= cut[i].span.end
        &&& (cut[i].contents is EOF || cut[i].span.start < cut[i].span.end)
    } by {
        assert(cut[i] == tokens[i]);
    }
    assert forall|i: int, j: int| 0 <= i < j < cut.len() implies (#[trigger] cut[i]).span.end <= (
    #[trigger] cut[j]).span.start by {
        assert(cut[i] == tokens[i] && cut[j] == tokens[j]);
    }
}

/// Where no token is left, each parsing step yields an `Invalid` node
/// with the empty span at the end of input, records one error and leaves
/// the index where it was.
pub proof fn lemma_parse_past_the_end(file_id: FileId, tokens: Seq<TokenView>, i: int)
    requires
        i >= tokens.len(),
    ensures
        spec_parse_value(file_id, tokens, i) == invalid_step(
            "unexpected end of input"@,
            end_span(file_id, tokens),
            i,
        ),
        spec_parse_prec_11(file_id, tokens, i) == spec_parse_value(file_id, tokens, i),
        spec_parse_expression(file_id, tokens, i) == spec_parse_value(file_id, tokens, i),
{
}

impl ParsedView {
    /// Whether the tree holds an `Invalid` node.
    pub open spec fn has_invalid(self) -> bool
        decreases self,
    {
        match self {
            ParsedView::Expression(inner, _) => inner.has_invalid(),
            ParsedView::Add(left, right, _) => left.has_invalid() || right.has_invalid(),
            ParsedView::Int(_, _) => false,
            ParsedView::Invalid(_, _) => true,
        }
    }
}

/// Whatever the tokens are, a value is either a tree without an `Invalid`
/// node and without an error, or a tree with such a node and at least one
/// recorded error; and the index never moves back.
pub proof fn lemma_value_is_tree_or_error(file_id: FileId, tokens: Seq<TokenView>, i: int)
    ensures
        spec_parse_value(file_id, tokens, i).node.has_invalid() <==> spec_parse_value(
            file_id,
            tokens,
            i,
        ).errors.len() > 0,
        i <= spec_parse_value(file_id, tokens, i).next,
    decreases tokens.len() - i, 0int,
{
    if 0 <= i < tokens.len() && tokens[i].contents is LParen {
        lemma_sum_is_tree_or_error(file_id, tokens, i + 1);
    }
}

/// Whatever the tokens are, an expression is either a tree without an
/// `Invalid` node and without an error, or a tree with such a node and at
/// least one recorded error; and the index never moves back.
pub proof fn lemma_sum_is_tree_or_error(file_id: FileId, tokens: Seq<TokenView>, i: int)
    ensures
        spec_parse_prec_11(file_id, tokens, i).node.has_invalid() <==> spec_parse_prec_11(
            file_id,
            tokens,
            i,
        ).errors.len() > 0,
        i <= spec_parse_prec_11(file_id, tokens, i).next,
        spec_parse_expression(file_id, tokens, i) == spec_parse_prec_11(file_id, tokens, i),
    decreases tokens.len() - i, 1int,
{
    lemma_value_is_tree_or_error(file_id, tokens, i);
    let left = spec_parse_value(file_id, tokens, i);
    let j = left.next;
    if i <= j < tokens.len() && tokens[j].contents is Plus {
        lemma_sum_is_tree_or_error(file_id, tokens, j + 1);
    }
}

/// The parser's state as a mathematical value.
pub ghost struct ParserState {
    pub file_id: FileId,
    pub tokens: Seq<TokenView>,
    pub errors: Seq<ErrorView>,
    pub index: int,
}

pub struct Parser {
    file_id: FileId,
    tokens: Vec<Token>,
    errors: Vec<Error>,
    index: usize,
}

impl View for Parser {
    type V = ParserState;

    closed spec fn view(&self) -> ParserState {
        ParserState {
            file_id: self.file_id,
            tokens: tokens_view(self.tokens@),
            errors: errors_view(self.errors@),
            index: self.index as int,
        }
    }
}

/// The state after a step that started in `before`.
pub open spec fn state_after(before: ParserState, step: Parsed) -> ParserState {
    ParserState { index: step.next, errors: before.errors + step.errors, ..before }
}

impl Parser {
    /// The token stream of a parser is always well formed for its file.
    pub open spec fn wf(&self) -> bool {
        &&& tokens_wf(self@.file_id, self@.tokens)
        &&& 0 <= self@.index
    }

    /// A parser at the first token of a well-formed stream, with no error yet.
    pub fn new(file_id: FileId, tokens: Vec<Token>) -> (r: Self)
        requires
            tokens_wf(file_id, tokens_view(tokens@)),
        ensures
            r.wf(),
            r@ == (ParserState {
                file_id,
                tokens: tokens_view(tokens@),
                errors: Seq::empty(),
                index: 0,
            }),
    {
        let parser = Self { file_id, tokens, errors: Vec::new(), index: 0 };
        assert(errors_view(parser.errors@) =~= Seq::<ErrorView>::empty());
        parser
    }

    /// The errors recorded so far, oldest first.
    pub fn errors(&self) -> (r: Vec<Error>)
        ensures
            errors_view(r@) == self@.errors,
    {
        clone_errors(&self.errors)
    }

    fn end_of_input(&self) -> (r: Span)
        ensures
            r == end_span(self@.file_id, self@.tokens),
    {
        if self.tokens.len() == 0 {
            Span { file_id: self.file_id, start: 0, end: 0 }
        } else {
            let end: usize = self.tokens[self.tokens.len() - 1].span.end;
            Span { file_id: self.file_id, start: end, end }
        }
    }

    fn invalid(&mut self, message: &str, span: Span) -> (r: ParsedExpression)
        ensures
            r@ == ParsedView::Invalid(ErrorView::ParserError(message@, span), span),
            final(self)@ == (ParserState {
                errors: old(self)@.errors + seq![ErrorView::ParserError(message@, span)],
                ..old(self)@
            }),
    {
        let ghost before = errors_view(self.errors@);
        self.errors.push(Error::ParserError(String::from_str(message), span));
        assert(errors_view(self.errors@) =~= before + seq![ErrorView::ParserError(message@, span)]);
        ParsedExpression::Invalid(Error::ParserError(String::from_str(message), span), span)
    }

    /// Parses one expression from the current token on.
    pub fn parse_expression(&mut self) -> (r: ParsedExpression)
        requires
            old(self).wf(),
        ensures
            final(self).wf(),
            r@ == spec_parse_expression(old(self)@.file_id, old(self)@.tokens, old(self)@.index).node,
            final(self)@ == state_after(
                old(self)@,
                spec_parse_expression(old(self)@.file_id, old(self)@.tokens, old(self)@.index),
            ),
            step_is_sound(
                old(self)@.file_id,
                old(self)@.tokens,
                old(self)@.index,
                spec_parse_expression(old(self)@.file_id, old(self)@.tokens, old(self)@.index),
            ),
        decreases old(self)@.tokens.len() - old(self)@.index, 2int,
    {
        self.parse_prec_11()
    }

    /// Parses a value and, if a `+` follows, the sum it starts.
    pub fn parse_prec_11(&mut self) -> (r: ParsedExpression)
        requires
            old(self).wf(),
        ensures
            final(self).wf(),
            r@ == spec_parse_prec_11(old(self)@.file_id, old(self)@.tokens, old(self)@.index).node,
            final(self)@ == state_after(
                old(self)@,
                spec_parse_prec_11(old(self)@.file_id, old(self)@.tokens, old(self)@.index),
            ),
            step_is_sound(
                old(self)@.file_id,
                old(self)@.tokens,
                old(self)@.index,
                spec_parse_prec_11(old(self)@.file_id, old(self)@.tokens, old(self)@.index),
            ),
        decreases old(self)@.tokens.len() - old(self)@.index, 1int,
    {
        let ghost start = self@;
        let left = self.parse_value();
        let ghost middle = self@;
        if self.index >= self.tokens.len() {
            assert(self@.errors =~= start.errors + spec_parse_prec_11(
                start.file_id,
                start.tokens,
                start.index,
            ).errors);
            return left;
        }
        let is_plus: bool = match &self.tokens[self.index].contents {
            TokenContents::Plus => true,
            _ => false,
        };
        if is_plus {
            self.index += 1;
            let right = self.parse_prec_11();
            proof {
                let j = middle.index;
                assert(start.tokens[j].span.start < start.tokens[j].span.end);
                assert(start_of(start.file_id, start.tokens, start.index) <= start.tokens[j].span.start);
                assert(start.tokens[j].span.end <= start_of(start.file_id, start.tokens, j + 1));
                let l = spec_parse_value(start.file_id, start.tokens, start.index);
                let r = spec_parse_prec_11(start.file_id, start.tokens, j + 1);
                assert(self@.errors =~= start.errors + (l.errors + r.errors));
            }
            let span = Span::merge(left.span(), right.span());
            ParsedExpression::Add(Box::new(left), Box::new(right), span)
        } else {
            left
        }
    }

    /// Parses an integer literal or a parenthesized expression.
    pub fn parse_value(&mut self) -> (r: ParsedExpression)
        requires
            old(self).wf(),
        ensures
            final(self).wf(),
            r@ == spec_parse_value(old(self)@.file_id, old(self)@.tokens, old(self)@.index).node,
            final(self)@ == state_after(
                old(self)@,
                spec_parse_value(old(self)@.file_id, old(self)@.tokens, old(self)@.index),
            ),
            step_is_sound(
                old(self)@.file_id,
                old(self)@.tokens,
                old(self)@.index,
                spec_parse_value(old(self)@.file_id, old(self)@.tokens, old(self)@.index),
            ),
        decreases old(self)@.tokens.len() - old(self)@.index, 0int,
    {
        let ghost start = self@;
        if self.index >= self.tokens.len() {
            let span = self.end_of_input();
            return self.invalid("unexpected end of input", span);
        }
        let token = self.tokens[self.index].clone();
        self.index += 1;
        match token.contents {
            TokenContents::Int(value) => {
                assert(self@.errors =~= start.errors + Seq::<ErrorView>::empty());
                ParsedExpression::Int(value, token.span)
            },
            TokenContents::LParen => {
                let expr = self.parse_expression();
                let ghost inner = spec_parse_expression(start.file_id, start.tokens, start.index + 1);
                if self.index >= self.tokens.len() {
                    let end = self.end_of_input();
                    assert(token.span.end <= end.end);
                    let span = Span::merge(&token.span, &end);
                    let node = self.invalid("unexpected end of input", span);
                    assert(self@.errors =~= start.errors + (inner.errors + seq![
                        ErrorView::ParserError("unexpected end of input"@, span),
                    ]));
                    return node;
                }
                let closing: Span = self.tokens[self.index].span;
                let is_rparen: bool = match &self.tokens[self.index].contents {
                    TokenContents::RParen => true,
                    _ => false,
                };
                assert(token.span.end <= closing.start);
                self.index += 1;
                let span = Span::merge(&token.span, &closing);
                if is_rparen {
                    ParsedExpression::Expression(Box::new(expr), span)
                } else {
                    let node = self.invalid("unexpected token", span);
                    assert(self@.errors =~= start.errors + (inner.errors + seq![
                        ErrorView::ParserError("unexpected token"@, span),
                    ]));
                    node
                }
            },
            _ => self.invalid("unexpected token", token.span),
        }
    }
}

/// The parse of a whole stream: one expression from the first token on,
/// and one more syntax error if a token other than the end-of-input marker
/// is left behind it.
pub open spec fn spec_parse_all(file_id: FileId, tokens: Seq<TokenView>) -> Parsed {
    let step = spec_parse_expression(file_id, tokens, 0);
    if 0 <= step.next < tokens.len() && !(tokens[step.next].contents is EOF) {
        Parsed {
            errors: step.errors + seq![
                ErrorView::ParserError("unexpected token"@, tokens[step.next].span),
            ],
            ..step
        }
    } else {
        step
    }
}

/// Parses a whole token stream: the tree and the syntax errors, in order.
pub fn parse(file_id: FileId, tokens: Vec<Token>) -> (r: (ParsedExpression, Vec<Error>))
    requires
        tokens_wf(file_id, tokens_view(tokens@)),
    ensures
        r.0@ == spec_parse_all(file_id, tokens_view(tokens@)).node,
        errors_view(r.1@) == spec_parse_all(file_id, tokens_view(tokens@)).errors,
{
    let mut parser = Parser::new(file_id, tokens);
    let tree = parser.parse_expression();
    let ghost step = spec_parse_expression(file_id, tokens_view(tokens@), 0);
    assert(parser@.errors =~= step.errors);
    if parser.index < parser.tokens.len() {
        let is_end: bool = match &parser.tokens[parser.index].contents {
            TokenContents::EOF => true,
            _ => false,
        };
        if !is_end {
            let span: Span = parser.tokens[parser.index].span;
            let _ = parser.invalid("unexpected token", span);
        }
    }
    let errors = parser.errors();
    (tree, errors)
}

} // verus!
