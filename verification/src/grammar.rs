//! Well-formed expressions and what the pipeline makes of them: the parser
//! recovers an expression from its tokens, the checker accepts it, and the
//! generated code computes the sum of its literals.

use vstd::prelude::*;
use crate::checker::{
    CheckedView,
    all_digits,
    decimal_value,
    is_digit_char,
    spec_check,
    spec_literal_value,
};
use crate::codegen::{initial_state, lemma_generated_code_computes_sum, spec_generate};
use crate::common::{ErrorView, FileId};
use crate::lexer::{
    TokenContentsView,
    TokenView,
    is_digit,
    lemma_digits_end,
    lemma_tokenize_from_wf,
    skip_whitespace,
    spec_make_token,
    spec_tokenize,
    spec_tokenize_from,
};
use crate::pipeline::{spec_checked, spec_compile, spec_report};
use crate::text::bytes_as_chars;
use crate::parser::{
    ParsedView,
    spec_parse_all,
    spec_parse_expression,
    spec_parse_prec_11,
    spec_parse_value,
};
use crate::vm::{MEMORY_SIZE, RunOutcome, spec_run, wrap_cell};

verus! {

/// An expression of the language, without source positions.
pub ghost enum Shape {
    Literal(Seq<char>),
    Sum(Box<Shape>, Box<Shape>),
    Group(Box<Shape>),
}

impl Shape {
    /// Whether the expression can be written down as it stands: the left
    /// operand of every sum is a literal or a group, since `+` associates
    /// to the right.
    pub open spec fn grammatical(self) -> bool
        decreases self,
    {
        match self {
            Shape::Literal(_) => true,
            Shape::Sum(left, right) => !(*left is Sum) && left.grammatical() && right.grammatical(),
            Shape::Group(inner) => inner.grammatical(),
        }
    }

    /// Whether every literal is a number the language accepts.
    pub open spec fn literals_ok(self) -> bool
        decreases self,
    {
        match self {
            Shape::Literal(text) => spec_literal_value(text) is Ok,
            Shape::Sum(left, right) => left.literals_ok() && right.literals_ok(),
            Shape::Group(inner) => inner.literals_ok(),
        }
    }

    /// Whether every literal can be written down: it has a digit, only
    /// digits, and does not start with `0`.
    pub open spec fn lexable(self) -> bool
        decreases self,
    {
        match self {
            Shape::Literal(text) => text.len() > 0 && all_digits(text) && text[0] as int != 48,
            Shape::Sum(left, right) => left.lexable() && right.lexable(),
            Shape::Group(inner) => inner.lexable(),
        }
    }

    /// The expression written as source text, without whitespace.
    pub open spec fn source(self) -> Seq<u8>
        decreases self,
    {
        match self {
            Shape::Literal(text) => chars_as_bytes(text),
            Shape::Sum(left, right) => left.source() + seq![43u8] + right.source(),
            Shape::Group(inner) => seq![40u8] + inner.source() + seq![41u8],
        }
    }

    /// The expression written as tokens.
    pub open spec fn tokens(self) -> Seq<TokenContentsView>
        decreases self,
    {
        match self {
            Shape::Literal(text) => seq![TokenContentsView::Int(text)],
            Shape::Sum(left, right) => left.tokens() + seq![TokenContentsView::Plus] + right.tokens(),
            Shape::Group(inner) => seq![TokenContentsView::LParen] + inner.tokens() + seq![
                TokenContentsView::RParen,
            ],
        }
    }

    /// The arithmetic sum of the literals.
    pub open spec fn sum(self) -> int
        decreases self,
    {
        match self {
            Shape::Literal(text) => decimal_value(text),
            Shape::Sum(left, right) => left.sum() + right.sum(),
            Shape::Group(inner) => inner.sum(),
        }
    }

    /// The number of instructions in the expression's code: one per
    /// literal and one per sum.
    pub open spec fn instructions(self) -> int
        decreases self,
    {
        match self {
            Shape::Literal(_) => 1,
            Shape::Sum(left, right) => left.instructions() + right.instructions() + 1,
            Shape::Group(inner) => inner.instructions(),
        }
    }

    /// The number of scratch cells the expression's code needs.
    pub open spec fn cells(self) -> int
        decreases self,
    {
        match self {
            Shape::Literal(_) => 1,
            Shape::Sum(left, right) => if left.cells() > right.cells() + 1 {
                left.cells()
            } else {
                right.cells() + 1
            },
            Shape::Group(inner) => inner.cells(),
        }
    }
}

/// The bytes of a text of one-byte characters.
pub open spec fn chars_as_bytes(text: Seq<char>) -> Seq<u8> {
    Seq::new(text.len(), |i: int| text[i] as u8)
}

/// What the tokens of a stream are, without their spans.
pub open spec fn contents_of(tokens: Seq<TokenView>) -> Seq<TokenContentsView> {
    Seq::new(tokens.len(), |k: int| tokens[k].contents)
}

/// Whether the text from position `i` on starts with the given bytes.
pub open spec fn reads_at(text: Seq<u8>, i: int, bytes: Seq<u8>) -> bool {
    &&& 0 <= i
    &&& i + bytes.len() <= text.len()
    &&& forall|k: int| 0 <= k < bytes.len() ==> text[i + k] == #[trigger] bytes[k]
}

/// Whether the byte at position `i`, if there is one, is no digit.
pub open spec fn no_digit_at(text: Seq<u8>, i: int) -> bool {
    i >= text.len() || !is_digit(text[i])
}

/// Whether a parse tree is the given expression, node for node.
pub open spec fn parsed_as(node: ParsedView, shape: Shape) -> bool
    decreases node,
{
    match node {
        ParsedView::Int(text, _) => shape == Shape::Literal(text),
        ParsedView::Add(left, right, _) => shape is Sum && parsed_as(*left, *shape->Sum_0) && parsed_as(
            *right,
            *shape->Sum_1,
        ),
        ParsedView::Expression(inner, _) => shape is Group && parsed_as(*inner, *shape->Group_0),
        ParsedView::Invalid(_, _) => false,
    }
}

/// Whether a checked tree is the given expression, node for node.
pub open spec fn checked_as(node: CheckedView, shape: Shape) -> bool
    decreases node,
{
    match node {
        CheckedView::Int(text, _, _) => shape == Shape::Literal(text),
        CheckedView::Add(left, right, _, _) => shape is Sum && checked_as(*left, *shape->Sum_0)
            && checked_as(*right, *shape->Sum_1),
        CheckedView::Expression(inner, _, _) => shape is Group && checked_as(*inner, *shape->Group_0),
        CheckedView::Invalid(_, _) => false,
    }
}

/// Whether the tokens from index `i` on start with the given contents.
pub open spec fn holds_at(tokens: Seq<TokenView>, i: int, contents: Seq<TokenContentsView>) -> bool {
    &&& 0 <= i
    &&& i + contents.len() <= tokens.len()
    &&& forall|k: int| 0 <= k < contents.len() ==> tokens[i + k].contents == #[trigger] contents[k]
}

/// Whether the stream ends at index `i`, with or without an end-of-input
/// marker there.
pub open spec fn ends_at(tokens: Seq<TokenView>, i: int) -> bool {
    i >= tokens.len() || tokens[i].contents is EOF
}

/// Whether the token at index `i`, if there is one, is something other than `+`.
pub open spec fn no_plus_at(tokens: Seq<TokenView>, i: int) -> bool {
    i >= tokens.len() || !(tokens[i].contents is Plus)
}

/// The parser recovers a literal or a group from its tokens, consumes
/// exactly those tokens and records no error.
pub proof fn lemma_parse_value_recovers(file_id: FileId, tokens: Seq<TokenView>, i: int, shape: Shape)
    requires
        shape.grammatical(),
        !(shape is Sum),
        holds_at(tokens, i, shape.tokens()),
    ensures
        parsed_as(spec_parse_value(file_id, tokens, i).node, shape),
        spec_parse_value(file_id, tokens, i).next == i + shape.tokens().len(),
        spec_parse_value(file_id, tokens, i).errors == Seq::<ErrorView>::empty(),
    decreases shape, 0int,
{
    let written = shape.tokens();
    match shape {
        Shape::Literal(text) => {
            assert(tokens[i + 0].contents == written[0]);
        },
        Shape::Group(inner) => {
            let n = inner.tokens().len() as int;
            assert(written.len() == n + 2);
            assert(tokens[i + 0].contents == written[0]);
            assert(tokens[i + (n + 1)].contents == written[n + 1]);
            assert(holds_at(tokens, i + 1, inner.tokens())) by {
                assert forall|k: int| 0 <= k < n implies tokens[i + 1 + k].contents
                    == #[trigger] inner.tokens()[k] by {
                    assert(tokens[i + (k + 1)].contents == written[k + 1]);
                }
            }
            lemma_parse_sum_recovers(file_id, tokens, i + 1, *inner);
            let parsed = spec_parse_expression(file_id, tokens, i + 1);
            assert(parsed == spec_parse_prec_11(file_id, tokens, i + 1));
            assert(parsed.next == i + 1 + n);
        },
        Shape::Sum(_, _) => {},
    }
}

/// The parser recovers an expression from its tokens, consumes exactly
/// those tokens and records no error, provided no `+` follows them.
pub proof fn lemma_parse_sum_recovers(file_id: FileId, tokens: Seq<TokenView>, i: int, shape: Shape)
    requires
        shape.grammatical(),
        holds_at(tokens, i, shape.tokens()),
        no_plus_at(tokens, i + shape.tokens().len()),
    ensures
        parsed_as(spec_parse_prec_11(file_id, tokens, i).node, shape),
        spec_parse_prec_11(file_id, tokens, i).next == i + shape.tokens().len(),
        spec_parse_prec_11(file_id, tokens, i).errors == Seq::<ErrorView>::empty(),
    decreases shape, 1int,
{
    let written = shape.tokens();
    match shape {
        Shape::Sum(left, right) => {
            let n = left.tokens().len() as int;
            let m = right.tokens().len() as int;
            assert(written.len() == n + 1 + m);
            assert(holds_at(tokens, i, left.tokens())) by {
                assert forall|k: int| 0 <= k < n implies tokens[i + k].contents
                    == #[trigger] left.tokens()[k] by {
                    assert(tokens[i + k].contents == written[k]);
                }
            }
            lemma_parse_value_recovers(file_id, tokens, i, *left);
            assert(tokens[i + n].contents == written[n]);
            assert(holds_at(tokens, i + n + 1, right.tokens())) by {
                assert forall|k: int| 0 <= k < m implies tokens[i + n + 1 + k].contents
                    == #[trigger] right.tokens()[k] by {
                    assert(tokens[i + (n + 1 + k)].contents == written[n + 1 + k]);
                }
            }
            lemma_parse_sum_recovers(file_id, tokens, i + n + 1, *right);
            let l = spec_parse_value(file_id, tokens, i);
            let r = spec_parse_prec_11(file_id, tokens, i + n + 1);
            assert(l.errors + r.errors =~= Seq::<ErrorView>::empty());
        },
        _ => {
            lemma_parse_value_recovers(file_id, tokens, i, shape);
        },
    }
}

/// The checker accepts a parse tree of an expression whose literals are
/// in range: it finds no error and keeps the expression node for node.
pub proof fn lemma_check_accepts(node: ParsedView, shape: Shape)
    requires
        parsed_as(node, shape),
        shape.literals_ok(),
    ensures
        spec_check(node).errors == Seq::<ErrorView>::empty(),
        checked_as(spec_check(node).node, shape),
    decreases node,
{
    match node {
        ParsedView::Add(left, right, _) => {
            lemma_check_accepts(*left, *shape->Sum_0);
            lemma_check_accepts(*right, *shape->Sum_1);
            assert(spec_check(*left).errors + spec_check(*right).errors =~= Seq::<ErrorView>::empty());
        },
        ParsedView::Expression(inner, _) => {
            lemma_check_accepts(*inner, *shape->Group_0);
        },
        _ => {},
    }
}

/// A checked expression whose literals are in range has code exactly when
/// its cells fit between `base` and `limit`, and its value is the sum of
/// its literals.
pub proof fn lemma_generate_fits(node: CheckedView, shape: Shape, base: int, limit: int)
    requires
        checked_as(node, shape),
        shape.literals_ok(),
        0 <= base,
    ensures
        spec_generate(node, base, limit) is Some <==> base + shape.cells() <= limit,
        spec_generate(node, base, limit) is Some ==> spec_generate(node, base, limit)->0.len()
            == shape.instructions(),
        node.value() == shape.sum(),
        shape.cells() >= 1,
    decreases node,
{
    match node {
        CheckedView::Add(left, right, _, _) => {
            lemma_generate_fits(*left, *shape->Sum_0, base, limit);
            lemma_generate_fits(*right, *shape->Sum_1, base + 1, limit);
        },
        CheckedView::Expression(inner, _, _) => {
            lemma_generate_fits(*inner, *shape->Group_0, base, limit);
        },
        _ => {},
    }
}

/// From tokens to the machine's result: for an expression that can be
/// written down, whose literals are in range and whose code fits the
/// machine's cells and a program counter, parsing a stream of just its
/// tokens and checking the tree finds no error, code
/// is generated, and running that code on a fresh machine halts with the
/// sum of the literals, wrapped to the width of a cell, in cell 0.
pub proof fn lemma_pipeline_computes_sum(file_id: FileId, tokens: Seq<TokenView>, shape: Shape)
    requires
        shape.grammatical(),
        shape.literals_ok(),
        shape.cells() <= MEMORY_SIZE,
        holds_at(tokens, 0, shape.tokens()),
        ends_at(tokens, shape.tokens().len() as int),
        shape.instructions() <= usize::MAX,
    ensures
        ({
            let parsed = spec_parse_all(file_id, tokens);
            let checked = spec_check(parsed.node);
            let code = spec_generate(checked.node, 0, MEMORY_SIZE as int);
            &&& parsed_as(parsed.node, shape)
            &&& parsed.errors.len() == 0
            &&& checked.errors.len() == 0
            &&& code is Some
            &&& spec_run(initial_state(), code->0, code->0.len()).1 == RunOutcome::Halted
            &&& spec_run(initial_state(), code->0, code->0.len()).0.memory[0] == wrap_cell(shape.sum())
        }),
{
    lemma_parse_sum_recovers(file_id, tokens, 0, shape);
    let parsed = spec_parse_all(file_id, tokens);
    assert(parsed == spec_parse_prec_11(file_id, tokens, 0));
    lemma_check_accepts(parsed.node, shape);
    let checked = spec_check(parsed.node);
    lemma_generate_fits(checked.node, shape, 0, MEMORY_SIZE as int);
    lemma_generated_code_computes_sum(checked.node);
}

/// Scanning `+`, `(` or `)` yields that token and goes on behind it.
proof fn lemma_tokenize_single(file_id: FileId, text: Seq<u8>, j: int, contents: TokenContentsView)
    requires
        0 <= j < text.len(),
        (text[j] == 43 && contents == TokenContentsView::Plus) || (text[j] == 40 && contents
            == TokenContentsView::LParen) || (text[j] == 41 && contents == TokenContentsView::RParen),
    ensures
        contents_of(spec_tokenize_from(file_id, text, j).0) == seq![contents] + contents_of(
            spec_tokenize_from(file_id, text, j + 1).0,
        ),
        spec_tokenize_from(file_id, text, j).1 == spec_tokenize_from(file_id, text, j + 1).1,
{
    assert(skip_whitespace(text, j) == j);
    let scan = spec_make_token(file_id, text, j);
    let rest = spec_tokenize_from(file_id, text, j + 1);
    assert(spec_tokenize_from(file_id, text, j).0 == seq![scan.item->Token_0] + rest.0);
    assert(contents_of(seq![scan.item->Token_0] + rest.0) =~= seq![contents] + contents_of(rest.0));
}

/// Scanning a run of digits that does not start with `0` and that no
/// digit follows yields one literal with those digits.
proof fn lemma_tokenize_digits(file_id: FileId, text: Seq<u8>, i: int, digits: Seq<char>)
    requires
        digits.len() > 0,
        all_digits(digits),
        digits[0] as int != 48,
        reads_at(text, i, chars_as_bytes(digits)),
        no_digit_at(text, i + digits.len()),
    ensures
        contents_of(spec_tokenize_from(file_id, text, i).0) == seq![TokenContentsView::Int(digits)]
            + contents_of(spec_tokenize_from(file_id, text, i + digits.len()).0),
        spec_tokenize_from(file_id, text, i).1 == spec_tokenize_from(file_id, text, i + digits.len()).1,
{
    let n = digits.len() as int;
    let bytes = chars_as_bytes(digits);
    assert forall|k: int| 0 <= k < n implies is_digit(#[trigger] text[i + k]) && text[i + k] as int
        == digits[k] as int by {
        assert(text[i + k] == bytes[k]);
        assert(is_digit_char(digits[k]));
    }
    assert(text[i + 0] != 48);
    assert(skip_whitespace(text, i) == i);
    lemma_digits_end(text, i);
    let end = crate::lexer::digits_end(text, i);
    assert(end == i + n) by {
        if end < i + n {
            assert(is_digit(text[i + (end - i)]));
        } else if end > i + n {
            assert(is_digit(text[i + n]));
        }
    }
    assert(bytes_as_chars(text.subrange(i, end)) =~= digits) by {
        assert forall|k: int| 0 <= k < n implies bytes_as_chars(text.subrange(i, end))[k]
            == digits[k] by {
            assert(text.subrange(i, end)[k] == text[i + k]);
        }
    }
    let scan = spec_make_token(file_id, text, i);
    assert(scan.next == end);
    assert(scan.item is Token);
    assert(scan.item->Token_0.contents == TokenContentsView::Int(digits));
    let rest = spec_tokenize_from(file_id, text, end);
    assert(spec_tokenize_from(file_id, text, i).0 == seq![scan.item->Token_0] + rest.0);
    assert(contents_of(seq![scan.item->Token_0] + rest.0) =~= seq![TokenContentsView::Int(digits)]
        + contents_of(rest.0));
}

/// The lexer recovers an expression's tokens from its source text, finds
/// no error in it and goes on behind it, provided no digit follows.
pub proof fn lemma_tokenize_recovers(file_id: FileId, text: Seq<u8>, i: int, shape: Shape)
    requires
        shape.lexable(),
        reads_at(text, i, shape.source()),
        no_digit_at(text, i + shape.source().len()),
    ensures
        shape.source().len() > 0,
        contents_of(spec_tokenize_from(file_id, text, i).0) == shape.tokens() + contents_of(
            spec_tokenize_from(file_id, text, i + shape.source().len()).0,
        ),
        spec_tokenize_from(file_id, text, i).1 == spec_tokenize_from(
            file_id,
            text,
            i + shape.source().len(),
        ).1,
    decreases shape,
{
    let bytes = shape.source();
    match shape {
        Shape::Literal(digits) => {
            lemma_tokenize_digits(file_id, text, i, digits);
        },
        Shape::Sum(left, right) => {
            let n = left.source().len() as int;
            let m = right.source().len() as int;
            assert(bytes.len() == n + 1 + m);
            assert(text[i + n] == bytes[n]);
            assert(reads_at(text, i, left.source())) by {
                assert forall|k: int| 0 <= k < n implies text[i + k] == #[trigger] left.source()[k] by {
                    assert(text[i + k] == bytes[k]);
                }
            }
            lemma_tokenize_recovers(file_id, text, i, *left);
            lemma_tokenize_single(file_id, text, i + n, TokenContentsView::Plus);
            assert(reads_at(text, i + n + 1, right.source())) by {
                assert forall|k: int| 0 <= k < m implies text[i + n + 1 + k]
                    == #[trigger] right.source()[k] by {
                    assert(text[i + (n + 1 + k)] == bytes[n + 1 + k]);
                }
            }
            lemma_tokenize_recovers(file_id, text, i + n + 1, *right);
            let tail = contents_of(spec_tokenize_from(file_id, text, i + n + 1 + m).0);
            assert(left.tokens() + (seq![TokenContentsView::Plus] + (right.tokens() + tail))
                =~= shape.tokens() + tail);
        },
        Shape::Group(inner) => {
            let n = inner.source().len() as int;
            assert(bytes.len() == n + 2);
            assert(text[i + 0] == bytes[0]);
            assert(text[i + (n + 1)] == bytes[n + 1]);
            lemma_tokenize_single(file_id, text, i, TokenContentsView::LParen);
            assert(reads_at(text, i + 1, inner.source())) by {
                assert forall|k: int| 0 <= k < n implies text[i + 1 + k] == #[trigger] inner.source()[k] by {
                    assert(text[i + (k + 1)] == bytes[k + 1]);
                }
            }
            lemma_tokenize_recovers(file_id, text, i + 1, *inner);
            lemma_tokenize_single(file_id, text, i + 1 + n, TokenContentsView::RParen);
            let tail = contents_of(spec_tokenize_from(file_id, text, i + n + 2).0);
            assert(seq![TokenContentsView::LParen] + (inner.tokens() + (seq![TokenContentsView::RParen]
                + tail)) =~= shape.tokens() + tail);
        },
    }
}

/// From source text to the machine's result: for an expression that can
/// be written down, whose literals are in range and without a leading `0`,
/// and whose code fits the machine's cells and a program counter, the
/// pipeline reports nothing, has a program, and running that program on a
/// fresh machine halts with the sum of the literals, wrapped to the width
/// of a cell, in cell 0.
pub proof fn lemma_source_computes_sum(file_id: FileId, shape: Shape)
    requires
        shape.grammatical(),
        shape.lexable(),
        shape.literals_ok(),
        shape.cells() <= MEMORY_SIZE,
        shape.instructions() <= usize::MAX,
        shape.source().len() <= usize::MAX,
    ensures
        ({
            let source = shape.source();
            let code = spec_compile(file_id, source);
            &&& spec_report(file_id, source).len() == 0
            &&& checked_as(spec_checked(file_id, source), shape)
            &&& code is Some
            &&& spec_run(initial_state(), code->0, code->0.len()).1 == RunOutcome::Halted
            &&& spec_run(initial_state(), code->0, code->0.len()).0.memory[0] == wrap_cell(shape.sum())
        }),
{
    let source = shape.source();
    let n = source.len() as int;
    lemma_tokenize_recovers(file_id, source, 0, shape);
    lemma_tokenize_from_wf(file_id, source, 0);
    let lexed = spec_tokenize(file_id, source);
    let tail = spec_tokenize_from(file_id, source, n);
    let written = shape.tokens();
    assert(contents_of(lexed.0) == written + contents_of(tail.0));
    assert(contents_of(lexed.0).len() == lexed.0.len());
    assert(holds_at(lexed.0, 0, written)) by {
        assert forall|k: int| 0 <= k < written.len() implies lexed.0[0 + k].contents
            == #[trigger] written[k] by {
            assert(contents_of(lexed.0)[k] == (written + contents_of(tail.0))[k]);
        }
    }
    assert(ends_at(lexed.0, written.len() as int)) by {
        let at = written.len() as int;
        assert(contents_of(tail.0)[0] is EOF);
        assert(contents_of(lexed.0)[at] == (written + contents_of(tail.0))[at]);
    }
    lemma_pipeline_computes_sum(file_id, lexed.0, shape);
    let parsed = spec_parse_all(file_id, lexed.0);
    lemma_check_accepts(parsed.node, shape);
    assert(lexed.1 + parsed.errors + spec_check(parsed.node).errors =~= Seq::<ErrorView>::empty());
}

} // verus!
