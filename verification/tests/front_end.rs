use danskc::common::{Error, Span};
use danskc::lexer::{make_token, single_char_tok, tokenize, tokens_well_formed, Token, TokenContents};
use danskc::parser::{parse, ParsedExpression, Parser};

fn int_text(token: &Token) -> Option<&str> {
    match &token.contents {
        TokenContents::Int(text) => Some(text.as_str()),
        _ => None,
    }
}

fn spans_equal(a: &Span, file_id: usize, start: usize, end: usize) -> bool {
    a.file_id == file_id && a.start == start && a.end == end
}

#[test]
fn span_merge_joins_start_and_end() {
    let a = Span::new(3, 2, 5);
    let b = Span::new(3, 7, 9);
    let m = Span::merge(&a, &b);
    assert!(spans_equal(&m, 3, 2, 9));
}

#[test]
fn span_merge_is_associative_on_an_example() {
    let a = Span::new(0, 0, 1);
    let b = Span::new(0, 2, 4);
    let c = Span::new(0, 6, 7);
    let left = Span::merge(&Span::merge(&a, &b), &c);
    let right = Span::merge(&a, &Span::merge(&b, &c));
    assert_eq!(left, right);
    assert!(spans_equal(&left, 0, 0, 7));
}

#[test]
fn span_contains_compares_file_start_and_end() {
    let outer = Span::new(1, 2, 5);
    assert!(outer.contains(Span::new(1, 3, 5)));
    assert!(outer.contains(Span::new(1, 2, 8)));
    assert!(!outer.contains(Span::new(1, 1, 5)));
    assert!(!outer.contains(Span::new(1, 3, 4)));
    assert!(!outer.contains(Span::new(2, 3, 5)));
}

#[test]
fn tokenize_sum_of_three() {
    let (tokens, errors) = tokenize(0, "2 + 3 + 4".as_bytes());
    assert!(errors.is_empty());
    assert_eq!(tokens.len(), 6);
    assert_eq!(int_text(&tokens[0]), Some("2"));
    assert!(matches!(tokens[1].contents, TokenContents::Plus));
    assert_eq!(int_text(&tokens[2]), Some("3"));
    assert!(matches!(tokens[3].contents, TokenContents::Plus));
    assert_eq!(int_text(&tokens[4]), Some("4"));
    assert!(matches!(tokens[5].contents, TokenContents::EOF));
    assert!(spans_equal(&tokens[0].span, 0, 0, 1));
    assert!(spans_equal(&tokens[1].span, 0, 2, 3));
    assert!(spans_equal(&tokens[4].span, 0, 8, 9));
    assert!(spans_equal(&tokens[5].span, 0, 9, 9));
}

#[test]
fn tokenize_digit_run_is_one_literal() {
    let (tokens, errors) = tokenize(7, "90210".as_bytes());
    assert!(errors.is_empty());
    assert_eq!(tokens.len(), 2);
    assert_eq!(int_text(&tokens[0]), Some("90210"));
    assert!(spans_equal(&tokens[0].span, 7, 0, 5));
    assert!(matches!(tokens[1].contents, TokenContents::EOF));
}

#[test]
fn tokenize_single_zero() {
    let (tokens, errors) = tokenize(0, "0".as_bytes());
    assert!(errors.is_empty());
    assert_eq!(tokens.len(), 2);
    assert_eq!(int_text(&tokens[0]), Some("0"));
    assert!(spans_equal(&tokens[0].span, 0, 0, 1));
}

#[test]
fn tokenize_leading_zero_is_one_error_and_no_literal() {
    let (tokens, errors) = tokenize(0, "05".as_bytes());
    assert_eq!(errors.len(), 1);
    assert!(matches!(&errors[0], Error::LexerError(m, _) if m == "cannot start literal with 0"));
    assert_eq!(errors[0].span(), Span::new(0, 0, 2));
    assert_eq!(tokens.len(), 1);
    assert!(matches!(tokens[0].contents, TokenContents::EOF));
}

#[test]
fn tokenize_zero_before_other_byte_is_an_error() {
    let (tokens, errors) = tokenize(0, "0+1".as_bytes());
    assert_eq!(errors.len(), 1);
    assert!(matches!(&errors[0], Error::LexerError(m, _) if m == "cannot start literal with 0"));
    assert_eq!(tokens.len(), 3);
    assert!(matches!(tokens[0].contents, TokenContents::Plus));
    assert_eq!(int_text(&tokens[1]), Some("1"));
}

#[test]
fn tokenize_radix_prefix_is_an_error() {
    for source in ["0x1f", "0o17", "0b11"] {
        let (tokens, errors) = tokenize(0, source.as_bytes());
        assert!(!errors.is_empty());
        assert!(matches!(&errors[0], Error::LexerError(m, _) if m == "radix prefixes are not supported"));
        assert!(matches!(tokens[tokens.len() - 1].contents, TokenContents::EOF));
    }
    let (tokens, errors) = tokenize(0, "0x".as_bytes());
    assert_eq!(errors.len(), 1);
    assert_eq!(errors[0].span(), Span::new(0, 0, 2));
    assert_eq!(tokens.len(), 1);
}

#[test]
fn tokenize_unexpected_byte_names_char_and_code() {
    let (tokens, errors) = tokenize(0, "1 $ 2 a".as_bytes());
    assert_eq!(tokens.len(), 3);
    assert_eq!(errors.len(), 2);
    assert_eq!(errors[0].message(), "unexpected char '$' == 36");
    assert_eq!(errors[1].message(), "unexpected char 'a' == 97");
    assert_eq!(errors[0].span(), Span::new(0, 2, 3));
    assert_eq!(errors[1].span(), Span::new(0, 6, 7));
    let (_, errors) = tokenize(0, &[1u8, 200u8]);
    assert_eq!(errors[0].message(), "unexpected char '\u{1}' == 1");
    assert_eq!(errors[1].message(), "unexpected char '\u{c8}' == 200");
}

#[test]
fn tokenize_parentheses_after_whitespace() {
    let (tokens, errors) = tokenize(0, " ( 12 )\n".as_bytes());
    assert!(errors.is_empty());
    assert_eq!(tokens.len(), 4);
    assert!(matches!(tokens[0].contents, TokenContents::LParen));
    assert_eq!(int_text(&tokens[1]), Some("12"));
    assert!(spans_equal(&tokens[1].span, 0, 3, 5));
    assert!(matches!(tokens[2].contents, TokenContents::RParen));
    assert!(spans_equal(&tokens[3].span, 0, 8, 8));
}

#[test]
fn tokenize_empty_input_is_only_end_marker() {
    let (tokens, errors) = tokenize(4, &[]);
    assert!(errors.is_empty());
    assert_eq!(tokens.len(), 1);
    assert!(matches!(tokens[0].contents, TokenContents::EOF));
    assert!(spans_equal(&tokens[0].span, 4, 0, 0));
}

#[test]
fn parse_sum_is_right_associative() {
    let (tokens, _) = tokenize(0, "2 + 3 + 4".as_bytes());
    let mut parser = Parser::new(0, tokens);
    let tree = parser.parse_expression();
    assert!(parser.errors().is_empty());
    match tree {
        ParsedExpression::Add(left, right, span) => {
            assert!(matches!(*left, ParsedExpression::Int(ref t, _) if t == "2"));
            assert!(spans_equal(&span, 0, 0, 9));
            match *right {
                ParsedExpression::Add(l, r, inner) => {
                    assert!(matches!(*l, ParsedExpression::Int(ref t, _) if t == "3"));
                    assert!(matches!(*r, ParsedExpression::Int(ref t, _) if t == "4"));
                    assert!(spans_equal(&inner, 0, 4, 9));
                }
                _ => panic!("right operand is not a sum"),
            }
        }
        _ => panic!("root is not a sum"),
    }
}

#[test]
fn parse_group_spans_both_parentheses() {
    let (tokens, _) = tokenize(0, "(7)".as_bytes());
    let (tree, errors) = parse(0, tokens);
    assert!(errors.is_empty());
    match tree {
        ParsedExpression::Expression(inner, span) => {
            assert!(spans_equal(&span, 0, 0, 3));
            assert!(spans_equal(inner.span(), 0, 1, 2));
        }
        _ => panic!("root is not a group"),
    }
}

#[test]
fn parse_missing_close_paren_reports_one_error() {
    let (tokens, lexical) = tokenize(0, "(2 + 3".as_bytes());
    assert!(lexical.is_empty());
    let mut parser = Parser::new(0, tokens);
    let tree = parser.parse_expression();
    let errors = parser.errors();
    assert_eq!(errors.len(), 1);
    assert!(matches!(&errors[0], Error::ParserError(m, _) if m == "unexpected token"));
    assert_eq!(errors[0].span(), Span::new(0, 0, 6));
    match tree {
        ParsedExpression::Invalid(Error::ParserError(_, _), span) => {
            assert!(spans_equal(&span, 0, 0, 6));
        }
        _ => panic!("root is not invalid"),
    }
}

#[test]
fn parse_empty_token_stream_is_an_error_node() {
    let mut parser = Parser::new(0, Vec::new());
    let tree = parser.parse_expression();
    let errors = parser.errors();
    assert_eq!(errors.len(), 1);
    assert!(matches!(&errors[0], Error::ParserError(m, _) if m == "unexpected end of input"));
    assert!(matches!(tree, ParsedExpression::Invalid(_, _)));
    assert!(spans_equal(tree.span(), 0, 0, 0));
}

#[test]
fn parse_truncated_stream_does_not_run_past_the_end() {
    let (mut tokens, _) = tokenize(0, "(1 + ".as_bytes());
    tokens.pop();
    let mut parser = Parser::new(0, tokens);
    let tree = parser.parse_expression();
    let errors = parser.errors();
    assert_eq!(errors.len(), 2);
    assert!(matches!(&errors[0], Error::ParserError(m, _) if m == "unexpected end of input"));
    assert!(matches!(tree, ParsedExpression::Invalid(_, _)));
    assert!(spans_equal(tree.span(), 0, 0, 4));
    let again = parser.parse_value();
    assert!(matches!(again, ParsedExpression::Invalid(_, _)));
    assert_eq!(parser.errors().len(), 3);
}

#[test]
fn parse_unexpected_token_becomes_invalid_node() {
    let (tokens, _) = tokenize(0, "+".as_bytes());
    let mut parser = Parser::new(0, tokens);
    let tree = parser.parse_prec_11();
    assert!(matches!(tree, ParsedExpression::Invalid(_, _)));
    assert!(spans_equal(tree.span(), 0, 0, 1));
    assert_eq!(parser.errors().len(), 1);
}

#[test]
fn tokens_well_formed_accepts_lexer_output_and_rejects_disorder() {
    let (tokens, _) = tokenize(2, "(1 + 22) + 0".as_bytes());
    assert!(tokens_well_formed(2, &tokens));
    assert!(!tokens_well_formed(3, &tokens));
    assert!(tokens_well_formed(0, &Vec::new()));
    let swapped = vec![
        Token::new(TokenContents::Plus, Span::new(0, 4, 5)),
        Token::new(TokenContents::Plus, Span::new(0, 1, 2)),
    ];
    assert!(!tokens_well_formed(0, &swapped));
    let overlapping = vec![
        Token::new(TokenContents::Int("12".to_string()), Span::new(0, 0, 2)),
        Token::new(TokenContents::Plus, Span::new(0, 1, 3)),
    ];
    assert!(!tokens_well_formed(0, &overlapping));
    let empty_plus = vec![Token::new(TokenContents::Plus, Span::new(0, 1, 1))];
    assert!(!tokens_well_formed(0, &empty_plus));
    let empty_end = vec![Token::new(TokenContents::EOF, Span::new(0, 1, 1))];
    assert!(tokens_well_formed(0, &empty_end));
}

#[test]
fn make_token_skips_whitespace_and_reports_position() {
    let text = "  \t42 +".as_bytes();
    let mut index = 0;
    let first = make_token(0, text, &mut index);
    assert_eq!(index, 5);
    match first {
        Some(Ok(token)) => {
            assert_eq!(int_text(&token), Some("42"));
            assert!(spans_equal(&token.span, 0, 3, 5));
        }
        _ => panic!("no literal"),
    }
    let second = make_token(0, text, &mut index);
    assert_eq!(index, 7);
    assert!(matches!(second, Some(Ok(Token { contents: TokenContents::Plus, .. }))));
    assert!(make_token(0, text, &mut index).is_none());
    assert_eq!(index, 7);
    let mut at = 0;
    assert!(make_token(0, " \n ".as_bytes(), &mut at).is_none());
    assert_eq!(at, 3);
    let mut at = 0;
    let token = single_char_tok(5, &mut at, TokenContents::RParen);
    assert_eq!(at, 1);
    assert!(spans_equal(&token.span, 5, 0, 1));
}

#[test]
fn parse_reports_a_token_left_behind_the_expression() {
    let (tokens, _) = tokenize(0, "1 2".as_bytes());
    let (tree, errors) = parse(0, tokens);
    assert!(matches!(tree, ParsedExpression::Int(ref t, _) if t == "1"));
    assert_eq!(errors.len(), 1);
    assert_eq!(errors[0].message(), "unexpected token");
    assert_eq!(errors[0].span(), Span::new(0, 2, 3));
    let (tokens, _) = tokenize(0, "1 + 2)".as_bytes());
    let (_, errors) = parse(0, tokens);
    assert_eq!(errors.len(), 1);
    assert_eq!(errors[0].span(), Span::new(0, 5, 6));
    let (tokens, _) = tokenize(0, "1 + 2".as_bytes());
    let (_, errors) = parse(0, tokens);
    assert!(errors.is_empty());
}
