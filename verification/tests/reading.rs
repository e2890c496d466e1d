use std::rc::Rc;

use rhodium::base::context::{EvaluationContext, Scope};
use rhodium::base::expression::Expression;
use rhodium::base::session::Session;
use rhodium::base::source::{SourceLocation, SourceText};
use rhodium::base::value::{
    default_operations, Value, ValueError, ValueErrorCause, ValueResult,
};
use rhodium::ir::charclass::{
    is_decimal_digit, is_identifier, is_identifier_start, is_string_body, is_whitespace, len_utf8,
    match_length,
};
use rhodium::ir::expression::{
    expression_from_element, expression_from_parser, parse_integer, unquote,
};
use rhodium::ir::lexer::{Lexer, LexicalError, Token, TokenType};
use rhodium::ir::parser::{Element, ElementData, ParseError, ParseErrorCause, Parser};

fn source(text: &str) -> Rc<SourceText> {
    Rc::new(SourceText::new(text.to_string()))
}

fn number(value: usize) -> ValueResult {
    Ok(Value::Integer(value))
}

fn tokens(text: &str) -> Vec<(TokenType, usize, usize)> {
    let mut lexer = Lexer::new(source(text));
    let mut found = Vec::new();
    loop {
        match lexer.next() {
            Some(Ok(token)) => {
                found.push((token.token_type, token.location.offset, token.location.length))
            }
            Some(Err(_)) => panic!("no token"),
            None => return found,
        }
    }
}

fn read(text: &str) -> (Option<Result<Expression, ParseError>>, Session, Parser) {
    let mut session = Session::new();
    let scope = session.add_scope(Scope::new());
    let context = EvaluationContext::new(scope);
    let mut parser = Parser::new(Lexer::new(source(text)));
    let result = expression_from_parser(&mut parser, &default_operations(), &context, &mut session);
    (result, session, parser)
}

fn cause_of(text: &str) -> (ParseErrorCause, usize, usize) {
    match read(text).0 {
        Some(Err(error)) => (error.cause, error.location.offset, error.location.length),
        other => panic!("no error: {:?}", other),
    }
}

#[test]
fn source_text_knows_its_length() {
    let text = SourceText::new("añb".to_string());
    assert_eq!(text.text(), "añb");
    assert_eq!(text.len(), 4);
    assert!(!text.is_empty());
    assert!(SourceText::new(String::new()).is_empty());
    assert_eq!(SourceText::new(String::new()).len(), 0);
}

#[test]
fn location_text_is_the_range() {
    let text = "(add 12 αβγ)";
    let shared = source(text);
    for offset in [0usize, 1, 5, 8, 10, 14] {
        for length in [0usize, 1] {
            if text.is_char_boundary(offset) && text.is_char_boundary(offset + length) {
                let location = SourceLocation::new(Rc::clone(&shared), offset, length);
                assert_eq!(location.text(), &text[offset..offset + length]);
            }
        }
    }
    assert_eq!(SourceLocation::new(Rc::clone(&shared), 8, 6).text(), "αβγ");
    assert_eq!(SourceLocation::new(Rc::clone(&shared), 0, text.len()).text(), text);
    assert_eq!(SourceLocation::new(shared, text.len(), 0).text(), "");
}

#[test]
fn location_end_and_span() {
    let shared = source("0123456789");
    let first = SourceLocation::new(Rc::clone(&shared), 2, 3);
    let second = SourceLocation::new(Rc::clone(&shared), 4, 4);
    assert_eq!(first.end(), 5);
    assert_eq!(second.end(), 8);
    let covering = SourceLocation::span(&first, &second);
    assert_eq!((covering.offset, covering.length), (2, 6));
    assert_eq!(covering.text(), "234567");
    let covering = SourceLocation::span(&second, &first);
    assert_eq!((covering.offset, covering.length), (2, 6));
    let inner = SourceLocation::new(Rc::clone(&shared), 3, 1);
    let covering = SourceLocation::span(&first, &inner);
    assert_eq!((covering.offset, covering.length), (2, 3));
    assert_eq!(covering.source, shared);
    assert_eq!(first.clone(), first);
}

#[test]
fn character_classes() {
    assert!(is_whitespace(&' '));
    assert!(is_whitespace(&'\n'));
    assert!(is_whitespace(&'\u{a0}'));
    assert!(!is_whitespace(&'a'));
    assert!(is_identifier_start(&'a'));
    assert!(is_identifier_start(&'_'));
    assert!(is_identifier_start(&'β'));
    assert!(!is_identifier_start(&'1'));
    assert!(!is_identifier_start(&'('));
    assert!(is_identifier(&'1'));
    assert!(is_identifier(&'_'));
    assert!(is_identifier(&'z'));
    assert!(!is_identifier(&'-'));
    assert!(is_decimal_digit(&'0'));
    assert!(is_decimal_digit(&'9'));
    assert!(!is_decimal_digit(&'/'));
    assert!(!is_decimal_digit(&':'));
    assert!(!is_decimal_digit(&'a'));
    assert!(!is_decimal_digit(&'٣'));
    assert!(is_string_body(&'a'));
    assert!(!is_string_body(&'"'));
}

#[test]
fn width_of_characters() {
    for c in ['a', '\u{7f}', '\u{80}', 'é', '\u{7ff}', '\u{800}', '€', '\u{ffff}', '\u{10000}', '😀'] {
        assert_eq!(len_utf8(c), c.len_utf8());
    }
}

#[test]
fn match_length_counts_bytes_of_the_run() {
    assert_eq!(match_length("123abc", is_decimal_digit), 3);
    assert_eq!(match_length("abc", is_decimal_digit), 0);
    assert_eq!(match_length("", is_decimal_digit), 0);
    assert_eq!(match_length("123", is_decimal_digit), 3);
    assert_eq!(match_length("αβγ δ", is_identifier), 6);
    assert_eq!(match_length(" \u{a0}\tx", is_whitespace), 4);
    assert_eq!(match_length("aXbX", |c: &char| *c != 'X'), 1);
}

#[test]
fn lexer_cuts_tokens() {
    assert_eq!(
        tokens("(add 12 x_1)"),
        vec![
            (TokenType::Open, 0, 1),
            (TokenType::Symbol, 1, 3),
            (TokenType::Whitespace, 4, 1),
            (TokenType::Integer, 5, 2),
            (TokenType::Whitespace, 7, 1),
            (TokenType::Symbol, 8, 3),
            (TokenType::Close, 11, 1),
        ]
    );
    assert_eq!(tokens(""), vec![]);
    assert_eq!(tokens("  \n"), vec![(TokenType::Whitespace, 0, 3)]);
    assert_eq!(tokens("))(("), vec![
        (TokenType::Close, 0, 1),
        (TokenType::Close, 1, 1),
        (TokenType::Open, 2, 1),
        (TokenType::Open, 3, 1),
    ]);
    assert_eq!(tokens("12ab"), vec![(TokenType::Integer, 0, 2), (TokenType::Symbol, 2, 2)]);
    assert_eq!(tokens("_"), vec![(TokenType::Symbol, 0, 1)]);
}

#[test]
fn lexer_counts_bytes() {
    assert_eq!(
        tokens("αβ\u{a0}1 (é)"),
        vec![
            (TokenType::Symbol, 0, 4),
            (TokenType::Whitespace, 4, 2),
            (TokenType::Integer, 6, 1),
            (TokenType::Whitespace, 7, 1),
            (TokenType::Open, 8, 1),
            (TokenType::Symbol, 9, 2),
            (TokenType::Close, 11, 1),
        ]
    );
}

#[test]
fn lexer_reads_strings() {
    assert_eq!(tokens("\"ab c\""), vec![(TokenType::String, 0, 6)]);
    assert_eq!(tokens("\"\""), vec![(TokenType::String, 0, 2)]);
    assert_eq!(
        tokens("\"a\"\"é(\" 1"),
        vec![
            (TokenType::String, 0, 3),
            (TokenType::String, 3, 5),
            (TokenType::Whitespace, 8, 1),
            (TokenType::Integer, 9, 1),
        ]
    );
}

#[test]
fn lexer_token_text_is_what_was_scanned() {
    let shared = source("(get_symbol \"x y\")");
    let mut lexer = Lexer::new(Rc::clone(&shared));
    let mut texts = Vec::new();
    while let Some(Ok(token)) = lexer.next() {
        assert_eq!(token.location.source, shared);
        texts.push(token.location.text().to_string());
    }
    assert_eq!(texts, vec!["(", "get_symbol", " ", "\"x y\"", ")"]);
    assert_eq!(texts.concat(), shared.text());
}

#[test]
fn lexer_stops_at_the_first_error() {
    let shared = source("ab #cd");
    let mut lexer = Lexer::new(Rc::clone(&shared));
    assert_eq!(lexer.offset(), 0);
    assert_eq!(
        lexer.next(),
        Some(Ok(Token {
            token_type: TokenType::Symbol,
            location: SourceLocation::new(Rc::clone(&shared), 0, 2),
        }))
    );
    assert_eq!(lexer.offset(), 2);
    assert!(lexer.next().is_some());
    let error = LexicalError { location: SourceLocation::new(Rc::clone(&shared), 3, 0) };
    assert_eq!(error.description(), "unexpected token");
    assert_eq!(lexer.next(), Some(Err(error)));
    assert_eq!(lexer.offset(), 6);
    assert_eq!(lexer.next(), None);
    assert_eq!(lexer.next(), None);
    assert_eq!(lexer.source(), &shared);
}

#[test]
fn an_unclosed_string_is_no_token() {
    let mut lexer = Lexer::new(source("\"abc"));
    match lexer.next() {
        Some(Err(error)) => assert_eq!((error.location.offset, error.location.length), (0, 0)),
        other => panic!("no error: {:?}", other),
    }
    assert_eq!(lexer.next(), None);
    let mut lexer = Lexer::new(source("\""));
    assert!(matches!(lexer.next(), Some(Err(_))));
}

#[test]
fn parser_reads_literals() {
    let shared = source(" 12 \"ab\" ");
    let mut parser = Parser::new(Lexer::new(Rc::clone(&shared)));
    assert_eq!(parser.offset(), 0);
    assert_eq!(parser.location(), SourceLocation::new(Rc::clone(&shared), 0, 0));
    assert_eq!(
        parser.next_element(),
        Some(Ok(Element::new(SourceLocation::new(Rc::clone(&shared), 1, 2), ElementData::Integer)))
    );
    assert_eq!(parser.offset(), 3);
    assert_eq!(
        parser.next_element(),
        Some(Ok(Element::new(SourceLocation::new(Rc::clone(&shared), 4, 4), ElementData::String)))
    );
    assert_eq!(parser.next_element(), None);
    assert_eq!(parser.offset(), 9);
    assert_eq!(parser.source(), &shared);
}

#[test]
fn parser_opens_operations() {
    let shared = source("( add 1 (add 2 3))");
    let mut parser = Parser::new(Lexer::new(Rc::clone(&shared)));
    let mut outer = match parser.next_element() {
        Some(Ok(Element { location, data: ElementData::Operation(operation) })) => {
            assert_eq!((location.offset, location.length), (0, 1));
            assert_eq!(operation.op_text.text(), "add");
            assert_eq!(operation.op_text.offset, 2);
            operation
        }
        other => panic!("no operation: {:?}", other),
    };
    assert_eq!(parser.offset(), 5);
    assert_eq!(
        outer.next_element(&mut parser),
        Some(Ok(Element::new(SourceLocation::new(Rc::clone(&shared), 6, 1), ElementData::Integer)))
    );
    let mut inner = match outer.next_element(&mut parser) {
        Some(Ok(Element { data: ElementData::Operation(operation), .. })) => operation,
        other => panic!("no operation: {:?}", other),
    };
    assert!(matches!(inner.next_element(&mut parser), Some(Ok(_))));
    assert!(matches!(inner.next_element(&mut parser), Some(Ok(_))));
    assert_eq!(inner.next_element(&mut parser), None);
    assert_eq!(outer.next_element(&mut parser), None);
    assert_eq!(parser.expect_end_of_source(), Ok(()));
}

#[test]
fn nested_operation_is_seven() {
    let (result, session, mut parser) = read("(add (add 1 2) 4)");
    assert_eq!(result, Some(Ok(Expression::Total(number(7)))));
    assert_eq!(session.node_count(), 0);
    assert_eq!(parser.expect_end_of_source(), Ok(()));
}

#[test]
fn literals_are_values() {
    assert_eq!(read("42").0, Some(Ok(Expression::Total(number(42)))));
    assert_eq!(read("  007 ").0, Some(Ok(Expression::Total(number(7)))));
    assert_eq!(
        read("\"a b\"").0,
        Some(Ok(Expression::Total(Ok(Value::String("a b".to_string())))))
    );
    assert_eq!(read("\"\"").0, Some(Ok(Expression::Total(Ok(Value::String(String::new()))))));
    assert_eq!(
        read("\"é(\"").0,
        Some(Ok(Expression::Total(Ok(Value::String("é(".to_string())))))
    );
    assert_eq!(read("").0, None);
    assert_eq!(read("   ").0, None);
}

#[test]
fn an_integer_that_does_not_fit_is_an_error_value() {
    let unspecified: ValueResult = Err(ValueError::new(ValueErrorCause::UnspecifiedError));
    assert_eq!(
        read("99999999999999999999999999999999").0,
        Some(Ok(Expression::Total(unspecified.clone())))
    );
    assert_eq!(parse_integer(&usize::MAX.to_string()), number(usize::MAX));
    let mut beyond = usize::MAX.to_string();
    beyond.push('0');
    assert_eq!(parse_integer(&beyond), unspecified);
    assert_eq!(parse_integer("18446744073709551616"), if usize::MAX as u128 >= 18446744073709551616 {
        number(18446744073709551616u128 as usize)
    } else {
        unspecified.clone()
    });
    assert_eq!(parse_integer(""), unspecified);
    assert_eq!(parse_integer("12a"), unspecified);
    assert_eq!(parse_integer("+5"), unspecified);
    assert_eq!(parse_integer("0"), number(0));
    assert_eq!(parse_integer("1230"), number(1230));
}

#[test]
fn unquote_strips_the_first_and_the_last_character() {
    assert_eq!(unquote("\"abc\""), "abc");
    assert_eq!(unquote("\"\""), "");
    assert_eq!(unquote("\""), "");
    assert_eq!(unquote(""), "");
    assert_eq!(unquote("éaé"), "a");
    assert_eq!(unquote("\"a\"b\""), "a\"b");
    assert_eq!(unquote("€😀€"), "😀");
}

#[test]
fn forward_reference_from_text() {
    let mut session = Session::new();
    let scope = session.add_scope(Scope::new());
    let context = EvaluationContext::new(scope);
    let operations = default_operations();
    let mut parser = Parser::new(Lexer::new(source("(add (get_symbol \"x\") 1)")));
    let sum = expression_from_parser(&mut parser, &operations, &context, &mut session)
        .expect("an element")
        .expect("an expression");
    assert_eq!(sum, Expression::Partial(1));
    assert_eq!(session.node(0).unwrap().listener(), Some(1));
    assert_eq!(session.define_symbol(scope, "x", Value::Integer(7)), Ok(()));
    assert_eq!(session.observe(&sum), Expression::Total(number(8)));
    assert_eq!(session.observe(&Expression::Partial(0)), Expression::Total(number(7)));
}

#[test]
fn definition_from_text_resolves_an_earlier_reference() {
    let mut session = Session::new();
    let scope = session.add_scope(Scope::new());
    let context = EvaluationContext::new(scope);
    let operations = default_operations();
    let mut parser =
        Parser::new(Lexer::new(source("(get_symbol \"x\") (define_symbol \"x\" (add 3 4))")));
    let wanted = expression_from_parser(&mut parser, &operations, &context, &mut session)
        .expect("an element")
        .expect("an expression");
    assert_eq!(wanted, Expression::Partial(0));
    let defined = expression_from_parser(&mut parser, &operations, &context, &mut session);
    assert_eq!(defined, Some(Ok(Expression::Total(number(7)))));
    assert_eq!(session.observe(&wanted), Expression::Total(number(7)));
    assert_eq!(expression_from_parser(&mut parser, &operations, &context, &mut session), None);
}

#[test]
fn missing_symbol_from_text() {
    let mut session = Session::new();
    let scope = session.add_scope(Scope::new());
    session.finalize(scope);
    let context = EvaluationContext::new(scope);
    let mut parser = Parser::new(Lexer::new(source("(get_symbol \"y\")")));
    let result = expression_from_parser(&mut parser, &default_operations(), &context, &mut session);
    assert_eq!(
        result,
        Some(Ok(Expression::Total(Err(ValueError::new(ValueErrorCause::UnspecifiedError)))))
    );
}

#[test]
fn wrong_operand_count_from_text() {
    assert_eq!(
        read("(add 2)").0,
        Some(Ok(Expression::Total(Err(ValueError::new(
            ValueErrorCause::WrongNumberOfOperandsForOperation { expected: 2, found: 1 }
        )))))
    );
    assert_eq!(
        read("(add)").0,
        Some(Ok(Expression::Total(Err(ValueError::new(
            ValueErrorCause::WrongNumberOfOperandsForOperation { expected: 2, found: 0 }
        )))))
    );
}

#[test]
fn lexical_error() {
    assert_eq!(cause_of("#"), (ParseErrorCause::Lexical, 0, 0));
    assert_eq!(cause_of("(add 1 #)"), (ParseErrorCause::Lexical, 7, 0));
    assert_eq!(cause_of("(#)"), (ParseErrorCause::Lexical, 1, 0));
    assert_eq!(cause_of("(add \"abc)"), (ParseErrorCause::Lexical, 5, 0));
}

#[test]
fn unclosed_parenthesis() {
    assert_eq!(cause_of("(add 1 2"), (ParseErrorCause::UnclosedParen, 8, 0));
    assert_eq!(cause_of("("), (ParseErrorCause::UnclosedParen, 1, 0));
    assert_eq!(cause_of("(add (add 1 2)  "), (ParseErrorCause::UnclosedParen, 16, 0));
}

#[test]
fn extra_closing_parenthesis() {
    assert_eq!(cause_of(")"), (ParseErrorCause::ExtraCloseParen, 0, 1));
    assert_eq!(cause_of("  )"), (ParseErrorCause::ExtraCloseParen, 2, 1));
}

#[test]
fn misplaced_symbol() {
    assert_eq!(cause_of("add"), (ParseErrorCause::MisplacedSymbol, 0, 3));
    assert_eq!(cause_of("(add x 1)"), (ParseErrorCause::MisplacedSymbol, 5, 1));
}

#[test]
fn missing_operation() {
    assert_eq!(cause_of("(1 2)"), (ParseErrorCause::MissingOperation, 1, 1));
    assert_eq!(cause_of("()"), (ParseErrorCause::MissingOperation, 1, 1));
    assert_eq!(cause_of("((add 1 2))"), (ParseErrorCause::MissingOperation, 1, 1));
    assert_eq!(cause_of("(\"add\" 1 2)"), (ParseErrorCause::MissingOperation, 1, 5));
}

#[test]
fn undefined_operation() {
    assert_eq!(cause_of("(sub 1 2)"), (ParseErrorCause::UndefinedOperation, 1, 3));
    assert_eq!(cause_of("(add 1 (mul 2 3))"), (ParseErrorCause::UndefinedOperation, 8, 3));
}

#[test]
fn trailing_text() {
    let (result, _, mut parser) = read("(add 1 2) 3");
    assert_eq!(result, Some(Ok(Expression::Total(number(3)))));
    match parser.expect_end_of_source() {
        Err(error) => {
            assert_eq!(error.cause, ParseErrorCause::TrailingText);
            assert_eq!((error.location.offset, error.location.length), (10, 1));
            assert_eq!(error.description(), "parsing error");
        }
        Ok(()) => panic!("text follows"),
    }
    let (_, _, mut parser) = read("1 #");
    match parser.expect_end_of_source() {
        Err(error) => assert_eq!(error.cause, ParseErrorCause::Lexical),
        Ok(()) => panic!("text follows"),
    }
    let (_, _, mut parser) = read("1  \n ");
    assert_eq!(parser.expect_end_of_source(), Ok(()));
}

#[test]
fn the_first_error_ends_the_reading() {
    let (result, session, parser) = read("(add (get_symbol \"x\") (sub 1) #)");
    match result {
        Some(Err(error)) => assert_eq!(error.cause, ParseErrorCause::UndefinedOperation),
        other => panic!("no error: {:?}", other),
    }
    assert_eq!(session.node_count(), 1);
    assert_eq!(parser.offset(), 26);
}

#[test]
fn element_by_hand() {
    let shared = source("12 \"hi\"");
    let mut session = Session::new();
    let context = EvaluationContext::new(session.add_scope(Scope::new()));
    let mut parser = Parser::new(Lexer::new(Rc::clone(&shared)));
    let operations = default_operations();
    let numeral = Element::new(SourceLocation::new(Rc::clone(&shared), 0, 2), ElementData::Integer);
    assert_eq!(
        expression_from_element(numeral, &mut parser, &operations, &context, &mut session),
        Ok(Expression::Total(number(12)))
    );
    let string = Element::new(SourceLocation::new(Rc::clone(&shared), 3, 4), ElementData::String);
    assert_eq!(
        expression_from_element(string, &mut parser, &operations, &context, &mut session),
        Ok(Expression::Total(Ok(Value::String("hi".to_string()))))
    );
    assert_eq!(parser.offset(), 0);
    let error = ParseError::new(SourceLocation::new(shared, 0, 0), ParseErrorCause::Lexical);
    assert_eq!(error.cause, ParseErrorCause::Lexical);
}
