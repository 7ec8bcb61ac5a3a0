//! The checker: gives every node of a parse tree its type, or a semantic
//! error in its place, and collects every such error in one pass.

use vstd::prelude::*;
use crate::common::{Error, ErrorView, Span, clone_errors, errors_view};
use crate::parser::{ParsedExpression, ParsedView};

verus! {

/// The types of the language. Integer literals and sums have type `I32`.
#[derive(Debug, Clone, Copy, PartialEq, Eq, Structural)]
pub enum Type {
    I32,
}

/// The largest value an integer literal may have.
pub const MAX_LITERAL: u32 = 2147483647;

pub open spec fn is_digit_char(c: char) -> bool {
    48 <= c as int <= 57
}

/// The decimal value of a run of digit characters.
pub open spec fn decimal_value(text: Seq<char>) -> int
    decreases text.len(),
{
    if text.len() == 0 {
        0
    } else {
        decimal_value(text.drop_last()) * 10 + (text.last() as int - 48)
    }
}

pub open spec fn all_digits(text: Seq<char>) -> bool {
    forall|i: int| 0 <= i < text.len() ==> is_digit_char(#[trigger] text[i])
}

/// Why a literal's text is no value of type `I32`.
#[derive(Debug, Clone, Copy, PartialEq, Eq, Structural)]
pub enum LiteralFault {
    /// The text is empty or holds something other than digits.
    Malformed,
    /// The digits denote a number above `MAX_LITERAL`.
    OutOfRange,
}

/// The value of a literal's text, or what is wrong with it.
pub open spec fn spec_literal_value(text: Seq<char>) -> Result<u32, LiteralFault> {
    if text.len() == 0 || !all_digits(text) {
        Err(LiteralFault::Malformed)
    } else if decimal_value(text) > MAX_LITERAL {
        Err(LiteralFault::OutOfRange)
    } else {
        Ok(decimal_value(text) as u32)
    }
}

/// The message of the semantic error for a faulty literal.
pub open spec fn fault_message(fault: LiteralFault) -> Seq<char> {
    match fault {
        LiteralFault::Malformed => "malformed integer literal"@,
        LiteralFault::OutOfRange => "integer literal out of range"@,
    }
}

proof fn lemma_decimal_value_step(text: Seq<char>, i: int)
    requires
        0 <= i < text.len(),
    ensures
        decimal_value(text.subrange(0, i + 1)) == decimal_value(text.subrange(0, i)) * 10 + (text[i] as int
            - 48),
{
    assert(text.subrange(0, i + 1).drop_last() =~= text.subrange(0, i));
}

/// Reads a literal's text as a number.
pub fn literal_value(text: &str) -> (r: Result<u32, LiteralFault>)
    ensures
        r == spec_literal_value(text@),
        r is Ok ==> r->Ok_0 == decimal_value(text@),
{
    let n: usize = text.unicode_len();
    if n == 0 {
        return Err(LiteralFault::Malformed);
    }
    let mut acc: u64 = 0;
    let mut too_large: bool = false;
    let mut i: usize = 0;
    while i < n
        invariant
            i <= n == text@.len(),
            all_digits(text@.subrange(0, i as int)),
            too_large ==> decimal_value(text@.subrange(0, i as int)) > MAX_LITERAL,
            !too_large ==> acc == decimal_value(text@.subrange(0, i as int)) && acc <= MAX_LITERAL,
        decreases n - i,
    {
        let c: char = text.get_char(i);
        let code: u32 = c as u32;
        if code < 48 || code > 57 {
            return Err(LiteralFault::Malformed);
        }
        proof {
            lemma_decimal_value_step(text@, i as int);
        }
        if !too_large {
            acc = acc * 10 + (code - 48) as u64;
            if acc > MAX_LITERAL as u64 {
                too_large = true;
            }
        }
        i += 1;
    }
    proof {
        assert(text@.subrange(0, n as int) =~= text@);
    }
    if too_large {
        Err(LiteralFault::OutOfRange)
    } else {
        Ok(acc as u32)
    }
}

pub enum CheckedExpression {
    Expression(Box<CheckedExpression>, Type, Span),
    Add(Box<CheckedExpression>, Box<CheckedExpression>, Type, Span),
    Int(String, Type, Span),
    /// A node that failed checking: the semantic error stands where the
    /// type would.
    Invalid(Error, Span),
}

/// The mathematical value of a [`CheckedExpression`].
pub ghost enum CheckedView {
    Expression(Box<CheckedView>, Type, Span),
    Add(Box<CheckedView>, Box<CheckedView>, Type, Span),
    Int(Seq<char>, Type, Span),
    Invalid(ErrorView, Span),
}

impl CheckedView {
    /// The type of the node, if checking gave it one.
    pub open spec fn ty(self) -> Option<Type> {
        match self {
            CheckedView::Expression(_, ty, _) => Some(ty),
            CheckedView::Add(_, _, ty, _) => Some(ty),
            CheckedView::Int(_, ty, _) => Some(ty),
            CheckedView::Invalid(_, _) => None,
        }
    }

    /// The source range of the node.
    pub open spec fn span(self) -> Span {
        match self {
            CheckedView::Expression(_, _, span) => span,
            CheckedView::Add(_, _, _, span) => span,
            CheckedView::Int(_, _, span) => span,
            CheckedView::Invalid(_, span) => span,
        }
    }

    /// Whether every node of the tree has a type and every literal a value.
    pub open spec fn well_typed(self) -> bool
        decreases self,
    {
        match self {
            CheckedView::Expression(inner, _, _) => inner.well_typed(),
            CheckedView::Add(left, right, _, _) => left.well_typed() && right.well_typed(),
            CheckedView::Int(text, _, _) => spec_literal_value(text) is Ok,
            CheckedView::Invalid(_, _) => false,
        }
    }

    /// The number the expression denotes: the sum of its literals.
    pub open spec fn value(self) -> int
        decreases self,
    {
        match self {
            CheckedView::Expression(inner, _, _) => inner.value(),
            CheckedView::Add(left, right, _, _) => left.value() + right.value(),
            CheckedView::Int(text, _, _) => decimal_value(text),
            CheckedView::Invalid(_, _) => 0,
        }
    }
}

impl CheckedExpression {
    /// The source range of the node.
    pub fn span(&self) -> (r: &Span)
        ensures
            *r == self@.span(),
    {
        match self {
            CheckedExpression::Expression(_, _, span) => span,
            CheckedExpression::Add(_, _, _, span) => span,
            CheckedExpression::Int(_, _, span) => span,
            CheckedExpression::Invalid(_, span) => span,
        }
    }
}

impl View for CheckedExpression {
    type V = CheckedView;

    open spec fn view(&self) -> CheckedView
        decreases self,
    {
        match self {
            CheckedExpression::Expression(inner, ty, span) => CheckedView::Expression(
                Box::new((**inner).view()),
                *ty,
                *span,
            ),
            CheckedExpression::Add(left, right, ty, span) => CheckedView::Add(
                Box::new((**left).view()),
                Box::new((**right).view()),
                *ty,
                *span,
            ),
            CheckedExpression::Int(text, ty, span) => CheckedView::Int(text@, *ty, *span),
            CheckedExpression::Invalid(error, span) => CheckedView::Invalid(error@, *span),
        }
    }
}

/// What checking a tree yields: the checked node and the semantic errors
/// found below it, in source order.
pub ghost struct Checked {
    pub node: CheckedView,
    pub errors: Seq<ErrorView>,
}

/// The node of a composite whose operand `failed`: it carries the
/// operand's error, under its own span.
pub open spec fn propagated(failed: CheckedView, span: Span) -> CheckedView {
    CheckedView::Invalid(failed->Invalid_0, span)
}

/// The checked form of a parse tree.
///
/// A literal whose text is a number up to `MAX_LITERAL` has type `I32`;
/// any other literal is an error about the literal's span. A sum of two
/// typed operands has type `I32`; where an operand failed, the sum carries
/// that operand's error (the left one's first) and adds none of its own. A
/// group has the type or the error of what it encloses, under the span of
/// the group. An invalid parse node is a semantic error with the message
/// of the syntax error, about the node's span.
pub open spec fn spec_check(ast: ParsedView) -> Checked
    decreases ast,
{
    match ast {
        ParsedView::Int(text, span) => match spec_literal_value(text) {
            Ok(_) => Checked { node: CheckedView::Int(text, Type::I32, span), errors: Seq::empty() },
            Err(fault) => {
                let e = ErrorView::SemanticError(fault_message(fault), span);
                Checked { node: CheckedView::Invalid(e, span), errors: seq![e] }
            },
        },
        ParsedView::Add(left, right, span) => {
            let l = spec_check(*left);
            let r = spec_check(*right);
            let node = if l.node is Invalid {
                propagated(l.node, span)
            } else if r.node is Invalid {
                propagated(r.node, span)
            } else {
                CheckedView::Add(Box::new(l.node), Box::new(r.node), Type::I32, span)
            };
            Checked { node, errors: l.errors + r.errors }
        },
        ParsedView::Expression(inner, span) => {
            let i = spec_check(*inner);
            let node = if i.node is Invalid {
                propagated(i.node, span)
            } else {
                CheckedView::Expression(Box::new(i.node), i.node.ty()->0, span)
            };
            Checked { node, errors: i.errors }
        },
        ParsedView::Invalid(error, span) => {
            let e = ErrorView::SemanticError(error.message(), span);
            Checked { node: CheckedView::Invalid(e, span), errors: seq![e] }
        },
    }
}

/// A checked tree has an error exactly when its root failed, and a root
/// that did not fail heads a tree that is typed throughout.
pub proof fn lemma_check_root(ast: ParsedView)
    ensures
        spec_check(ast).node is Invalid <==> spec_check(ast).errors.len() > 0,
        !(spec_check(ast).node is Invalid) ==> spec_check(ast).node.well_typed(),
        !(spec_check(ast).node is Invalid) ==> spec_check(ast).node.ty() == Some(Type::I32),
        spec_check(ast).node.span() == ast.span(),
    decreases ast,
{
    match ast {
        ParsedView::Add(left, right, _) => {
            lemma_check_root(*left);
            lemma_check_root(*right);
        },
        ParsedView::Expression(inner, _) => {
            lemma_check_root(*inner);
        },
        _ => {},
    }
}

pub struct Checker {
    errors: Vec<Error>,
}

impl View for Checker {
    type V = Seq<ErrorView>;

    closed spec fn view(&self) -> Seq<ErrorView> {
        errors_view(self.errors@)
    }
}

fn type_of(node: &CheckedExpression) -> (r: Type)
    requires
        !(node@ is Invalid),
    ensures
        Some(r) == node@.ty(),
{
    match node {
        CheckedExpression::Expression(_, ty, _) => *ty,
        CheckedExpression::Add(_, _, ty, _) => *ty,
        CheckedExpression::Int(_, ty, _) => *ty,
        CheckedExpression::Invalid(_, _) => Type::I32,
    }
}

impl Checker {
    /// A checker that has found no error yet.
    pub fn new() -> (r: Self)
        ensures
            r@ == Seq::<ErrorView>::empty(),
    {
        let checker = Self { errors: Vec::new() };
        assert(errors_view(checker.errors@) =~= Seq::<ErrorView>::empty());
        checker
    }

    /// The errors found so far, oldest first.
    pub fn errors(&self) -> (r: Vec<Error>)
        ensures
            errors_view(r@) == self@,
    {
        clone_errors(&self.errors)
    }

    fn fail(&mut self, message: String, span: Span) -> (r: CheckedExpression)
        ensures
            r@ == CheckedView::Invalid(ErrorView::SemanticError(message@, span), span),
            final(self)@ == old(self)@ + seq![ErrorView::SemanticError(message@, span)],
    {
        let ghost before = errors_view(self.errors@);
        self.errors.push(Error::SemanticError(message.clone(), span));
        assert(errors_view(self.errors@) =~= before + seq![ErrorView::SemanticError(message@, span)]);
        CheckedExpression::Invalid(Error::SemanticError(message, span), span)
    }

    /// Checks one tree: returns its checked form and records every
    /// semantic error found in it. Checking goes on after an error.
    pub fn check_expression(&mut self, ast: &ParsedExpression) -> (r: CheckedExpression)
        ensures
            r@ == spec_check(ast@).node,
            final(self)@ == old(self)@ + spec_check(ast@).errors,
        decreases ast,
    {
        let ghost before = self@;
        match ast {
            ParsedExpression::Int(text, span) => match literal_value(text.as_str()) {
                Ok(_) => {
                    assert(self@ =~= before + Seq::<ErrorView>::empty());
                    CheckedExpression::Int(text.clone(), Type::I32, *span)
                },
                Err(LiteralFault::Malformed) => self.fail(
                    String::from_str("malformed integer literal"),
                    *span,
                ),
                Err(LiteralFault::OutOfRange) => self.fail(
                    String::from_str("integer literal out of range"),
                    *span,
                ),
            },
            ParsedExpression::Add(left, right, span) => {
                let l = self.check_expression(left);
                let r = self.check_expression(right);
                assert(self@ =~= before + (spec_check(left@).errors + spec_check(right@).errors));
                match l {
                    CheckedExpression::Invalid(error, _) => CheckedExpression::Invalid(error, *span),
                    _ => match r {
                        CheckedExpression::Invalid(error, _) => CheckedExpression::Invalid(error, *span),
                        _ => CheckedExpression::Add(Box::new(l), Box::new(r), Type::I32, *span),
                    },
                }
            },
            ParsedExpression::Expression(inner, span) => {
                let i = self.check_expression(inner);
                match i {
                    CheckedExpression::Invalid(error, _) => CheckedExpression::Invalid(error, *span),
                    _ => {
                        let ty = type_of(&i);
                        CheckedExpression::Expression(Box::new(i), ty, *span)
                    },
                }
            },
            ParsedExpression::Invalid(error, span) => self.fail(error.message(), *span),
        }
    }

    /// Checks a whole tree. Returns the checked tree when no semantic error
    /// was found in it, and otherwise every error found, in source order.
    pub fn check(ast: ParsedExpression) -> (r: Result<CheckedExpression, Vec<Error>>)
        ensures
            match r {
                Ok(tree) => spec_check(ast@).errors.len() == 0 && tree@ == spec_check(ast@).node
                    && tree@.well_typed(),
                Err(errors) => errors.len() > 0 && errors_view(errors@) == spec_check(ast@).errors,
            },
    {
        let mut checker = Checker::new();
        let tree = checker.check_expression(&ast);
        proof {
            lemma_check_root(ast@);
            assert(checker@ =~= spec_check(ast@).errors);
        }
        if checker.errors.len() == 0 {
            Ok(tree)
        } else {
            Err(checker.errors)
        }
    }
}

} // verus!
