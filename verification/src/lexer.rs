//! The lexer: source bytes to tokens and lexical errors.

use vstd::prelude::*;
use crate::common::{Error, ErrorView, FileId, Span, errors_view};
use crate::text::{bytes_as_chars, bytes_to_string, decimal_digits, push_decimal};

verus! {

#[derive(Debug)]
pub enum TokenContents {
    Int(String),
    Plus,
    LParen,
    RParen,
    EOF,
    Invalid,
}

/// The mathematical value of a [`TokenContents`].
pub ghost enum TokenContentsView {
    Int(Seq<char>),
    Plus,
    LParen,
    RParen,
    EOF,
    Invalid,
}

impl View for TokenContents {
    type V = TokenContentsView;

    open spec fn view(&self) -> TokenContentsView {
        match *self {
            TokenContents::Int(text) => TokenContentsView::Int(text@),
            TokenContents::Plus => TokenContentsView::Plus,
            TokenContents::LParen => TokenContentsView::LParen,
            TokenContents::RParen => TokenContentsView::RParen,
            TokenContents::EOF => TokenContentsView::EOF,
            TokenContents::Invalid => TokenContentsView::Invalid,
        }
    }
}

impl Clone for TokenContents {
    fn clone(&self) -> (r: Self)
        ensures
            r == *self,
    {
        match self {
            TokenContents::Int(text) => TokenContents::Int(text.clone()),
            TokenContents::Plus => TokenContents::Plus,
            TokenContents::LParen => TokenContents::LParen,
            TokenContents::RParen => TokenContents::RParen,
            TokenContents::EOF => TokenContents::EOF,
            TokenContents::Invalid => TokenContents::Invalid,
        }
    }
}

#[derive(Debug)]
pub struct Token {
    pub contents: TokenContents,
    pub span: Span,
}

/// The mathematical value of a [`Token`].
pub ghost struct TokenView {
    pub contents: TokenContentsView,
    pub span: Span,
}

impl View for Token {
    type V = TokenView;

    open spec fn view(&self) -> TokenView {
        TokenView { contents: self.contents@, span: self.span }
    }
}

impl Clone for Token {
    fn clone(&self) -> (r: Self)
        ensures
            r == *self,
    {
        Token { contents: self.contents.clone(), span: self.span }
    }
}

impl Token {
    pub fn new(contents: TokenContents, span: Span) -> (r: Self)
        ensures
            r == (Token { contents, span }),
    {
        Self { contents, span }
    }
}

/// The values of a list of tokens, in order.
pub open spec fn tokens_view(tokens: Seq<Token>) -> Seq<TokenView> {
    Seq::new(tokens.len(), |i: int| tokens[i]@)
}

/// A token stream is well formed for a file when every span lies in that
/// file, no span ends before it starts, every token but an end-of-input
/// marker covers at least one byte, and the tokens do not overlap and stand
/// in source order.
pub open spec fn tokens_wf(file_id: FileId, tokens: Seq<TokenView>) -> bool {
    &&& forall|i: int|
        0 <= i < tokens.len() ==> {
            &&& (#[trigger] tokens[i]).span.file_id == file_id
            &&& tokens[i].span.start <= tokens[i].span.end
            &&& (tokens[i].contents is EOF || tokens[i].span.start < tokens[i].span.end)
        }
    &&& forall|i: int, j: int|
        0 <= i < j < tokens.len() ==> (#[trigger] tokens[i]).span.end <= (#[trigger] tokens[j]).span.start
}

/// Space, tab, line feed, form feed and carriage return.
pub open spec fn is_whitespace(b: u8) -> bool {
    b == 32 || b == 9 || b == 10 || b == 12 || b == 13
}

/// An ASCII digit `0`..`9`.
pub open spec fn is_digit(b: u8) -> bool {
    48 <= b <= 57
}

/// The letters `x`, `o` and `b`, which after a `0` announce a radix.
pub open spec fn is_radix_letter(b: u8) -> bool {
    b == 120 || b == 111 || b == 98
}

/// The first position at or after `i` that holds no whitespace.
pub open spec fn skip_whitespace(text: Seq<u8>, i: int) -> int
    decreases text.len() - i,
{
    if 0 <= i < text.len() && is_whitespace(text[i]) {
        skip_whitespace(text, i + 1)
    } else {
        i
    }
}

/// The first position at or after `i` that holds no digit.
pub open spec fn digits_end(text: Seq<u8>, i: int) -> int
    decreases text.len() - i,
{
    if 0 <= i < text.len() && is_digit(text[i]) {
        digits_end(text, i + 1)
    } else {
        i
    }
}

/// The message for a byte that starts no token: the character and its code.
pub open spec fn unexpected_char_message(b: u8) -> Seq<char> {
    "unexpected char '"@ + seq![b as char] + "' == "@ + decimal_digits(b as nat)
}

/// What one scan produced.
pub ghost enum Lexeme {
    Token(TokenView),
    Error(ErrorView),
    /// Only whitespace was left.
    Nothing,
}

/// The result of one scan and the position after it.
pub ghost struct Scan {
    pub item: Lexeme,
    pub next: int,
}

/// The span of the bytes `start..end` of a file.
pub open spec fn span_at(file_id: FileId, start: int, end: int) -> Span {
    Span { file_id, start: start as usize, end: end as usize }
}

pub open spec fn token_at(contents: TokenContentsView, file_id: FileId, start: int, end: int) -> Lexeme {
    Lexeme::Token(TokenView { contents, span: span_at(file_id, start, end) })
}

/// A lexical error about the bytes `start..end` of a file.
pub open spec fn error_at(message: Seq<char>, file_id: FileId, start: int, end: int) -> Lexeme {
    Lexeme::Error(ErrorView::LexerError(message, span_at(file_id, start, end)))
}

/// One scan from position `i`: whitespace is skipped, then comes a
/// single-character token, an integer literal, or an error.
///
/// A `0` is a literal only as the last byte. Before a radix letter it is an
/// error that takes both bytes; before anything else it is the error
/// "cannot start literal with 0", which takes the digits that follow. An
/// error's span covers the bytes it takes.
pub open spec fn spec_make_token(file_id: FileId, text: Seq<u8>, i: int) -> Scan {
    let j = skip_whitespace(text, i);
    if !(0 <= j < text.len()) {
        Scan { item: Lexeme::Nothing, next: j }
    } else if text[j] == 43 {
        Scan { item: token_at(TokenContentsView::Plus, file_id, j, j + 1), next: j + 1 }
    } else if text[j] == 40 {
        Scan { item: token_at(TokenContentsView::LParen, file_id, j, j + 1), next: j + 1 }
    } else if text[j] == 41 {
        Scan { item: token_at(TokenContentsView::RParen, file_id, j, j + 1), next: j + 1 }
    } else if text[j] == 48 {
        if j + 1 >= text.len() {
            Scan {
                item: token_at(
                    TokenContentsView::Int(bytes_as_chars(text.subrange(j, j + 1))),
                    file_id,
                    j,
                    j + 1,
                ),
                next: j + 1,
            }
        } else if is_radix_letter(text[j + 1]) {
            Scan { item: error_at("radix prefixes are not supported"@, file_id, j, j + 2), next: j + 2 }
        } else {
            let k = digits_end(text, j + 1);
            Scan { item: error_at("cannot start literal with 0"@, file_id, j, k), next: k }
        }
    } else if is_digit(text[j]) {
        let k = digits_end(text, j);
        Scan {
            item: token_at(TokenContentsView::Int(bytes_as_chars(text.subrange(j, k))), file_id, j, k),
            next: k,
        }
    } else {
        Scan { item: error_at(unexpected_char_message(text[j]), file_id, j, j + 1), next: j + 1 }
    }
}

/// The end-of-input marker for a text of `len` bytes: an empty span at its end.
pub open spec fn eof_token(file_id: FileId, len: int) -> TokenView {
    TokenView {
        contents: TokenContentsView::EOF,
        span: Span { file_id, start: len as usize, end: len as usize },
    }
}

/// The tokens and the errors of the text from position `i` on, each in
/// source order; the tokens end with the end-of-input marker. Each scan
/// starts where the one before it stopped, and a scan inside the text
/// always moves forward (`lemma_make_token_advances`), so every byte is
/// consumed once.
pub open spec fn spec_tokenize_from(file_id: FileId, text: Seq<u8>, i: int) -> (Seq<TokenView>, Seq<ErrorView>)
    decreases text.len() - i,
{
    if !(0 <= i < text.len()) {
        (seq![eof_token(file_id, text.len() as int)], Seq::empty())
    } else {
        let scan = spec_make_token(file_id, text, i);
        if i < scan.next <= text.len() {
            let rest = spec_tokenize_from(file_id, text, scan.next);
            match scan.item {
                Lexeme::Token(t) => (seq![t] + rest.0, rest.1),
                Lexeme::Error(e) => (rest.0, seq![e] + rest.1),
                Lexeme::Nothing => rest,
            }
        } else {
            (seq![eof_token(file_id, text.len() as int)], Seq::empty())
        }
    }
}

/// The tokens and the errors of a whole text.
pub open spec fn spec_tokenize(file_id: FileId, text: Seq<u8>) -> (Seq<TokenView>, Seq<ErrorView>) {
    spec_tokenize_from(file_id, text, 0)
}

/// The value of what [`make_token`] returns.
pub open spec fn lexeme_view(r: Option<Result<Token, Error>>) -> Lexeme {
    match r {
        Some(Ok(t)) => Lexeme::Token(t@),
        Some(Err(e)) => Lexeme::Error(e@),
        None => Lexeme::Nothing,
    }
}

pub proof fn lemma_skip_whitespace(text: Seq<u8>, i: int)
    requires
        0 <= i <= text.len(),
    ensures
        i <= skip_whitespace(text, i) <= text.len(),
        skip_whitespace(text, i) < text.len() ==> !is_whitespace(text[skip_whitespace(text, i)]),
        i < text.len() && is_whitespace(text[i]) ==> i < skip_whitespace(text, i),
    decreases text.len() - i,
{
    if i < text.len() && is_whitespace(text[i]) {
        lemma_skip_whitespace(text, i + 1);
    }
}

pub proof fn lemma_digits_end(text: Seq<u8>, i: int)
    requires
        0 <= i <= text.len(),
    ensures
        i <= digits_end(text, i) <= text.len(),
        i < text.len() && is_digit(text[i]) ==> i < digits_end(text, i),
        forall|k: int| i <= k < digits_end(text, i) ==> is_digit(#[trigger] text[k]),
        digits_end(text, i) < text.len() ==> !is_digit(text[digits_end(text, i)]),
    decreases text.len() - i,
{
    if i < text.len() && is_digit(text[i]) {
        lemma_digits_end(text, i + 1);
    }
}

/// Every scan inside the text moves forward and stays inside the text.
pub proof fn lemma_make_token_advances(file_id: FileId, text: Seq<u8>, i: int)
    requires
        0 <= i < text.len(),
    ensures
        i < spec_make_token(file_id, text, i).next <= text.len(),
{
    lemma_skip_whitespace(text, i);
    let j = skip_whitespace(text, i);
    if j < text.len() {
        lemma_digits_end(text, j);
        lemma_digits_end(text, j + 1);
    }
}

fn byte_is_whitespace(b: u8) -> (r: bool)
    ensures
        r == is_whitespace(b),
{
    b == 32 || b == 9 || b == 10 || b == 12 || b == 13
}

fn byte_is_digit(b: u8) -> (r: bool)
    ensures
        r == is_digit(b),
{
    48 <= b && b <= 57
}

/// The token of one byte at `*index`; moves the index past it.
pub fn single_char_tok(file_id: FileId, index: &mut usize, contents: TokenContents) -> (r: Token)
    requires
        *old(index) < usize::MAX,
    ensures
        *final(index) == *old(index) + 1,
        r.contents == contents,
        r.span == (Span { file_id, start: *old(index), end: *final(index) }),
{
    let start: usize = *index;
    *index += 1;
    Token::new(contents, Span::new(file_id, start, *index))
}

fn unexpected_char_error(b: u8, span: Span) -> (r: Error)
    ensures
        r@ == ErrorView::LexerError(unexpected_char_message(b), span),
{
    let mut message = String::from_str("unexpected char '");
    message.push(b as char);
    assert(message@ =~= "unexpected char '"@ + seq![b as char]);
    message.append("' == ");
    push_decimal(&mut message, b);
    Error::LexerError(message, span)
}

/// Scans one token or error starting at `*index` and moves the index past
/// what it consumed. Returns `None` when only whitespace was left.
pub fn make_token(file_id: FileId, text: &[u8], index: &mut usize) -> (r: Option<Result<Token, Error>>)
    ensures
        lexeme_view(r) == spec_make_token(file_id, text@, *old(index) as int).item,
        *final(index) == spec_make_token(file_id, text@, *old(index) as int).next,
{
    let ghost i = *index as int;
    while *index < text.len() && byte_is_whitespace(text[*index])
        invariant
            i <= *index,
            *index <= text@.len() || *index == i,
            skip_whitespace(text@, *index as int) == skip_whitespace(text@, i),
        decreases text@.len() - *index,
    {
        *index += 1;
    }
    if *index >= text.len() {
        return None;
    }
    let start: usize = *index;
    let first: u8 = text[start];
    if first == 43 {
        Some(Ok(single_char_tok(file_id, index, TokenContents::Plus)))
    } else if first == 40 {
        Some(Ok(single_char_tok(file_id, index, TokenContents::LParen)))
    } else if first == 41 {
        Some(Ok(single_char_tok(file_id, index, TokenContents::RParen)))
    } else if first == 48 {
        *index += 1;
        if *index >= text.len() {
            let literal = bytes_to_string(text, start, *index);
            Some(Ok(Token::new(TokenContents::Int(literal), Span::new(file_id, start, *index))))
        } else {
            let second: u8 = text[*index];
            if second == 120 || second == 111 || second == 98 {
                *index += 1;
                Some(
                    Err(
                        Error::LexerError(
                            String::from_str("radix prefixes are not supported"),
                            Span::new(file_id, start, *index),
                        ),
                    ),
                )
            } else {
                while *index < text.len() && byte_is_digit(text[*index])
                    invariant
                        start < *index <= text@.len(),
                        digits_end(text@, *index as int) == digits_end(text@, start + 1),
                    decreases text@.len() - *index,
                {
                    *index += 1;
                }
                Some(
                    Err(
                        Error::LexerError(
                            String::from_str("cannot start literal with 0"),
                            Span::new(file_id, start, *index),
                        ),
                    ),
                )
            }
        }
    } else if byte_is_digit(first) {
        while *index < text.len() && byte_is_digit(text[*index])
            invariant
                start <= *index <= text@.len(),
                digits_end(text@, *index as int) == digits_end(text@, start as int),
            decreases text@.len() - *index,
        {
            *index += 1;
        }
        let literal = bytes_to_string(text, start, *index);
        Some(Ok(Token::new(TokenContents::Int(literal), Span::new(file_id, start, *index))))
    } else {
        *index += 1;
        Some(Err(unexpected_char_error(first, Span::new(file_id, start, *index))))
    }
}

/// Turns the bytes of one source file into tokens and lexical errors. Every
/// byte is consumed once; an error never stops the scan. Tokens and errors
/// each keep source order, and the tokens end with an end-of-input marker.
pub fn tokenize(file_id: FileId, text: &[u8]) -> (r: (Vec<Token>, Vec<Error>))
    ensures
        tokens_view(r.0@) == spec_tokenize(file_id, text@).0,
        errors_view(r.1@) == spec_tokenize(file_id, text@).1,
        tokens_wf(file_id, tokens_view(r.0@)),
{
    let end: usize = text.len();
    let mut index: usize = 0;
    let mut tokens: Vec<Token> = Vec::new();
    let mut errors: Vec<Error> = Vec::new();
    while index < text.len()
        invariant
            index <= text@.len(),
            tokens_view(tokens@) + spec_tokenize_from(file_id, text@, index as int).0 == spec_tokenize(
                file_id,
                text@,
            ).0,
            errors_view(errors@) + spec_tokenize_from(file_id, text@, index as int).1 == spec_tokenize(
                file_id,
                text@,
            ).1,
        decreases text@.len() - index,
    {
        let ghost before = index as int;
        let ghost old_tokens = tokens_view(tokens@);
        let ghost old_errors = errors_view(errors@);
        let ghost rest = spec_tokenize_from(file_id, text@, spec_make_token(file_id, text@, before).next);
        proof {
            lemma_make_token_advances(file_id, text@, before);
        }
        let first: u8 = text[index];
        let scanned: Option<Result<Token, Error>> = if first == 43 {
            Some(Ok(single_char_tok(file_id, &mut index, TokenContents::Plus)))
        } else if first == 40 {
            Some(Ok(single_char_tok(file_id, &mut index, TokenContents::LParen)))
        } else if first == 41 {
            Some(Ok(single_char_tok(file_id, &mut index, TokenContents::RParen)))
        } else {
            make_token(file_id, text, &mut index)
        };
        assert(lexeme_view(scanned) == spec_make_token(file_id, text@, before).item);
        assert(index == spec_make_token(file_id, text@, before).next);
        match scanned {
            Some(Ok(token)) => {
                tokens.push(token);
                assert(tokens_view(tokens@) =~= old_tokens + seq![token@]);
                assert(tokens_view(tokens@) + rest.0 =~= old_tokens + (seq![token@] + rest.0));
            },
            Some(Err(error)) => {
                errors.push(error);
                assert(errors_view(errors@) =~= old_errors + seq![error@]);
                assert(errors_view(errors@) + rest.1 =~= old_errors + (seq![error@] + rest.1));
            },
            None => {},
        }
    }
    tokens.push(Token::new(TokenContents::EOF, Span::new(file_id, end, end)));
    proof {
        lemma_tokenize_from_wf(file_id, text@, 0);
        let last = spec_tokenize_from(file_id, text@, index as int);
        assert(last.1 =~= Seq::<ErrorView>::empty());
        assert(errors_view(errors@) =~= errors_view(errors@) + last.1);
        assert(tokens_view(tokens@) =~= tokens_view(tokens@.drop_last()) + last.0);
    }
    (tokens, errors)
}

/// The tokens of any text form a well-formed stream that ends with the
/// end-of-input marker, and none of them starts before the scan did.
pub proof fn lemma_tokenize_from_wf(file_id: FileId, text: Seq<u8>, i: int)
    requires
        0 <= i <= text.len() <= usize::MAX,
    ensures
        tokens_wf(file_id, spec_tokenize_from(file_id, text, i).0),
        spec_tokenize_from(file_id, text, i).0.len() >= 1,
        spec_tokenize_from(file_id, text, i).0.last() == eof_token(file_id, text.len() as int),
        forall|k: int|
            0 <= k < spec_tokenize_from(file_id, text, i).0.len() ==> i <= (
            #[trigger] spec_tokenize_from(file_id, text, i).0[k]).span.start,
    decreases text.len() - i,
{
    if i < text.len() {
        let scan = spec_make_token(file_id, text, i);
        lemma_make_token_advances(file_id, text, i);
        lemma_tokenize_from_wf(file_id, text, scan.next);
        lemma_skip_whitespace(text, i);
        let j = skip_whitespace(text, i);
        if j < text.len() {
            lemma_digits_end(text, j);
        }
        let rest = spec_tokenize_from(file_id, text, scan.next);
        let all = spec_tokenize_from(file_id, text, i).0;
        match scan.item {
            Lexeme::Token(t) => {
                assert(all =~= seq![t] + rest.0);
                assert(all[0] == t);
                assert(forall|k: int| 1 <= k < all.len() ==> all[k] == rest.0[k - 1]);
                assert(i <= t.span.start < t.span.end <= scan.next);
            },
            _ => {},
        }
    }
}

/// A run of ASCII digits that does not start with `0`, or the single digit
/// `0`, is one integer token with the digits as its text and a span over the
/// whole input, followed by the end-of-input marker, with no error.
pub proof fn lemma_tokenize_literal(file_id: FileId, text: Seq<u8>)
    requires
        0 < text.len() <= usize::MAX,
        forall|k: int| 0 <= k < text.len() ==> is_digit(#[trigger] text[k]),
        text[0] != 48 || text.len() == 1,
    ensures
        spec_tokenize(file_id, text) == (
            seq![
                TokenView {
                    contents: TokenContentsView::Int(bytes_as_chars(text)),
                    span: Span { file_id, start: 0, end: text.len() as usize },
                },
                eof_token(file_id, text.len() as int),
            ],
            Seq::<ErrorView>::empty(),
        ),
{
    lemma_digits_end(text, 0);
    assert(skip_whitespace(text, 0) == 0);
    assert(digits_end(text, 0) == text.len());
    assert(text.subrange(0, text.len() as int) =~= text);
    let scan = spec_make_token(file_id, text, 0);
    assert(scan.next == text.len());
    let rest = spec_tokenize_from(file_id, text, scan.next);
    assert(rest.0 =~= seq![eof_token(file_id, text.len() as int)]);
    assert(spec_tokenize(file_id, text).0 =~= seq![scan.item->Token_0, eof_token(file_id, text.len() as int)]);
    assert(spec_tokenize(file_id, text).1 =~= Seq::<ErrorView>::empty());
}

/// Decides whether a token stream is well formed for a file.
pub fn tokens_well_formed(file_id: FileId, tokens: &Vec<Token>) -> (r: bool)
    ensures
        r == tokens_wf(file_id, tokens_view(tokens@)),
{
    let ghost all = tokens_view(tokens@);
    let mut floor: usize = 0;
    let mut i: usize = 0;
    while i < tokens.len()
        invariant
            i <= tokens.len(),
            all == tokens_view(tokens@),
            tokens_wf(file_id, all.subrange(0, i as int)),
            floor == (if i == 0 { 0 } else { all[i - 1].span.end }),
        decreases tokens.len() - i,
    {
        let span = tokens[i].span;
        let is_end: bool = match &tokens[i].contents {
            TokenContents::EOF => true,
            _ => false,
        };
        assert(all[i as int] == tokens@[i as int]@);
        if span.file_id != file_id || span.start > span.end || (!is_end && span.start == span.end)
            || span.start < floor {
            proof {
                if tokens_wf(file_id, all) {
                    assert(all[i as int].span.file_id == file_id);
                    if i > 0 {
                        assert(all[i - 1].span.end <= all[i as int].span.start);
                    }
                }
            }
            return false;
        }
        proof {
            let before = all.subrange(0, i as int);
            let cut = all.subrange(0, i + 1);
            assert forall|a: int| 0 <= a < cut.len() implies {
                &&& (#[trigger] cut[a]).span.file_id == file_id
                &&& cut[a].span.start <= cut[a].span.end
                &&& (cut[a].contents is EOF || cut[a].span.start < cut[a].span.end)
            } by {
                if a < i {
                    assert(cut[a] == before[a]);
                }
            }
            assert forall|a: int, b: int| 0 <= a < b < cut.len() implies (#[trigger] cut[a]).span.end <= (
            #[trigger] cut[b]).span.start by {
                if b < i {
                    assert(cut[a] == before[a] && cut[b] == before[b]);
                } else if a == i - 1 {
                } else {
                    assert(cut[a] == before[a] && all[i - 1] == before[i - 1]);
                    assert(before[a].span.end <= before[i - 1].span.start);
                    assert(before[i - 1].span.start <= before[i - 1].span.end);
                }
            }
        }
        floor = span.end;
        i += 1;
    }
    assert(all.subrange(0, i as int) =~= all);
    true
}

/// A `0` followed by a radix letter is reported as a lexical error about
/// those two bytes, wherever it stands; the scan goes on behind them, and
/// the error is the first of the text from there on.
pub proof fn lemma_radix_prefix_is_error(file_id: FileId, text: Seq<u8>, i: int)
    requires
        0 <= i,
        i + 1 < text.len(),
        text[i] == 48,
        is_radix_letter(text[i + 1]),
    ensures
        spec_make_token(file_id, text, i) == (Scan {
            item: error_at("radix prefixes are not supported"@, file_id, i, i + 2),
            next: i + 2,
        }),
        spec_tokenize_from(file_id, text, i).0 == spec_tokenize_from(file_id, text, i + 2).0,
        spec_tokenize_from(file_id, text, i).1.len() >= 1,
        spec_tokenize_from(file_id, text, i).1[0] == ErrorView::LexerError(
            "radix prefixes are not supported"@,
            span_at(file_id, i, i + 2),
        ),
{
    assert(skip_whitespace(text, i) == i);
}

} // verus!
