//! The parser: reads elements from a source text. An element is a
//! literal, or an operation: an opening parenthesis and the operation's
//! name, whose operands are read one by one up to the closing parenthesis.

use std::rc::Rc;
use vstd::prelude::*;
use crate::base::source::{SourceLocation, SourceText, lemma_token_range, share};
use crate::ir::lexer::{Lexed, Lexer, LexerView, LexicalError, Token, TokenType, lemma_lexed, lexed};

verus! {

/// What is wrong with a text.
#[derive(Clone, Copy, Debug, PartialEq, Eq, Structural)]
pub enum ParseErrorCause {
    /// No token begins here.
    Lexical,
    /// The text ends inside an operation.
    UnclosedParen,
    /// A closing parenthesis without an operation to close.
    ExtraCloseParen,
    /// A symbol where no operation's name is expected.
    MisplacedSymbol,
    /// Something else than a symbol behind an opening parenthesis.
    MissingOperation,
    /// A name that no operation has.
    UndefinedOperation,
    /// Text behind the last element.
    TrailingText,
}

/// An error in a text, with its place.
#[derive(Debug, PartialEq, Eq)]
pub struct ParseError {
    pub location: SourceLocation,
    pub cause: ParseErrorCause,
}

impl ParseError {
    pub fn new(location: SourceLocation, cause: ParseErrorCause) -> (error: ParseError)
        ensures
            error == (ParseError { location, cause }),
    {
        ParseError { location, cause }
    }

    pub fn description(&self) -> (text: &'static str)
        ensures
            text@ == "parsing error"@,
    {
        "parsing error"
    }
}

/// An operation that has been opened: the place of its name. Its operands
/// are read from the parser.
#[derive(Debug, PartialEq, Eq)]
pub struct OperationIterator {
    pub op_text: SourceLocation,
}

/// What an element is.
#[derive(Debug, PartialEq, Eq)]
pub enum ElementData {
    Operation(OperationIterator),
    Integer,
    String,
}

/// An element of a text, with its place.
#[derive(Debug, PartialEq, Eq)]
pub struct Element {
    pub location: SourceLocation,
    pub data: ElementData,
}

impl Element {
    pub fn new(location: SourceLocation, data: ElementData) -> (element: Element)
        ensures
            element == (Element { location, data }),
    {
        Element { location, data }
    }

    /// The places that the element names lie in their text.
    pub open spec fn valid(self) -> bool {
        &&& self.location.valid()
        &&& self.data matches ElementData::Operation(operation) ==> operation.op_text.valid()
    }
}

/// What the parser yields, and the offset at which it goes on.
pub struct Parsed {
    pub item: Option<Result<Element, ParseError>>,
    pub offset: usize,
}

/// The place at byte `offset` of `source`, of no length.
pub open spec fn place(source: Rc<SourceText>, offset: usize) -> SourceLocation {
    SourceLocation { source, offset, length: 0 }
}

/// What the lexer yields at byte `offset` or behind it that is no
/// whitespace, and the offset at which it goes on.
pub open spec fn significant(source: Rc<SourceText>, offset: usize) -> Lexed
    decreases source.bytes().len() - offset,
{
    let found = lexed(source, offset);
    match found.item {
        Some(Ok(token)) => if token.token_type == TokenType::Whitespace && offset < found.offset
            <= source.bytes().len() {
            significant(source, found.offset)
        } else {
            found
        },
        _ => found,
    }
}

/// The operation that is opened by a parenthesis that ends at byte
/// `offset`: the symbol that follows names it. Anything else is an error,
/// and so is the end of the text.
pub open spec fn operation_at(source: Rc<SourceText>, offset: usize) -> (
    Result<OperationIterator, ParseError>,
    usize,
) {
    let found = significant(source, offset);
    match found.item {
        Some(Ok(token)) => if token.token_type == TokenType::Symbol {
            (Ok(OperationIterator { op_text: token.location }), found.offset)
        } else {
            (
                Err(ParseError { location: token.location, cause: ParseErrorCause::MissingOperation }),
                found.offset,
            )
        },
        Some(Err(error)) => (
            Err(ParseError { location: error.location, cause: ParseErrorCause::Lexical }),
            found.offset,
        ),
        None => (
            Err(
                ParseError {
                    location: place(source, found.offset),
                    cause: ParseErrorCause::UnclosedParen,
                },
            ),
            found.offset,
        ),
    }
}

/// The element that begins with `token`, which the lexer has yielded
/// before byte `offset`. A closing parenthesis is an error outside an
/// operation; inside one, where `nested` holds, it ends the operands.
pub open spec fn element_of(token: Token, source: Rc<SourceText>, offset: usize, nested: bool) -> Parsed {
    match token.token_type {
        TokenType::Open => match operation_at(source, offset) {
            (Ok(operation), after) => Parsed {
                item: Some(
                    Ok(Element { location: token.location, data: ElementData::Operation(operation) }),
                ),
                offset: after,
            },
            (Err(error), after) => Parsed { item: Some(Err(error)), offset: after },
        },
        TokenType::Close => if nested {
            Parsed { item: None, offset }
        } else {
            Parsed {
                item: Some(
                    Err(ParseError { location: token.location, cause: ParseErrorCause::ExtraCloseParen }),
                ),
                offset,
            }
        },
        TokenType::Symbol => Parsed {
            item: Some(
                Err(ParseError { location: token.location, cause: ParseErrorCause::MisplacedSymbol }),
            ),
            offset,
        },
        TokenType::Integer => Parsed {
            item: Some(Ok(Element { location: token.location, data: ElementData::Integer })),
            offset,
        },
        TokenType::String => Parsed {
            item: Some(Ok(Element { location: token.location, data: ElementData::String })),
            offset,
        },
        // Whitespace is skipped before an element is read; it counts as no token.
        TokenType::Whitespace => Parsed {
            item: Some(Err(ParseError { location: token.location, cause: ParseErrorCause::Lexical })),
            offset,
        },
    }
}

/// The element at byte `offset` outside any operation, if the text goes on.
pub open spec fn element_at(source: Rc<SourceText>, offset: usize) -> Parsed {
    let found = significant(source, offset);
    match found.item {
        Some(Ok(token)) => element_of(token, source, found.offset, false),
        Some(Err(error)) => Parsed {
            item: Some(Err(ParseError { location: error.location, cause: ParseErrorCause::Lexical })),
            offset: found.offset,
        },
        None => Parsed { item: None, offset: found.offset },
    }
}

/// The next operand of an operation at byte `offset`, if the operation
/// goes on: a closing parenthesis ends it, and the end of the text inside
/// it is an error.
pub open spec fn operand_at(source: Rc<SourceText>, offset: usize) -> Parsed {
    let found = significant(source, offset);
    match found.item {
        Some(Ok(token)) => element_of(token, source, found.offset, true),
        Some(Err(error)) => Parsed {
            item: Some(Err(ParseError { location: error.location, cause: ParseErrorCause::Lexical })),
            offset: found.offset,
        },
        None => Parsed {
            item: Some(
                Err(
                    ParseError {
                        location: place(source, found.offset),
                        cause: ParseErrorCause::UnclosedParen,
                    },
                ),
            ),
            offset: found.offset,
        },
    }
}

/// Whether the text ends at byte `offset` but for whitespace, and the
/// offset at which the parser goes on.
pub open spec fn end_of_source(source: Rc<SourceText>, offset: usize) -> (Result<(), ParseError>, usize) {
    let found = significant(source, offset);
    match found.item {
        Some(Ok(token)) => (
            Err(ParseError { location: token.location, cause: ParseErrorCause::TrailingText }),
            found.offset,
        ),
        Some(Err(error)) => (
            Err(ParseError { location: error.location, cause: ParseErrorCause::Lexical }),
            found.offset,
        ),
        None => (Ok(()), found.offset),
    }
}

/// Skipping whitespace goes forward as the lexer does, and never yields whitespace.
pub proof fn lemma_significant(source: Rc<SourceText>, offset: usize)
    requires
        source.boundary(offset as int),
        source.bytes().len() <= usize::MAX,
    ensures
        ({
            let found = significant(source, offset);
            &&& source.boundary(found.offset as int)
            &&& offset <= found.offset <= source.bytes().len()
            &&& found.item is Some ==> offset < found.offset
            &&& found.item is None ==> found.offset == source.bytes().len()
            &&& found.item matches Some(Ok(token)) ==> token.location.valid() && token.location.source
                == source && token.token_type != TokenType::Whitespace
            &&& found.item matches Some(Err(error)) ==> error.location.valid()
        }),
    decreases source.bytes().len() - offset,
{
    let found = lexed(source, offset);
    lemma_lexed(source, offset);
    match found.item {
        Some(Ok(token)) => {
            if token.token_type == TokenType::Whitespace {
                lemma_significant(source, found.offset);
            }
        },
        _ => {},
    }
}

/// Reading an element goes forward: the parser goes on at a character
/// boundary at or behind the one at which it began; behind it, where it
/// has yielded an element. The places that an element or an error names
/// lie in the text.
pub proof fn lemma_element(source: Rc<SourceText>, offset: usize, nested: bool)
    requires
        source.boundary(offset as int),
        source.bytes().len() <= usize::MAX,
    ensures
        ({
            let parsed = if nested {
                operand_at(source, offset)
            } else {
                element_at(source, offset)
            };
            &&& source.boundary(parsed.offset as int)
            &&& offset <= parsed.offset <= source.bytes().len()
            &&& parsed.item matches Some(Ok(element)) ==> offset < parsed.offset && element.valid()
            &&& parsed.item matches Some(Err(error)) ==> error.location.valid()
        }),
{
    let found = significant(source, offset);
    lemma_significant(source, offset);
    lemma_token_range(&source, found.offset as int, 0);
    match found.item {
        Some(Ok(token)) => {
            lemma_significant(source, found.offset);
            let after = significant(source, found.offset);
            lemma_token_range(&source, after.offset as int, 0);
        },
        _ => {},
    }
}

fn next_non_white(lexer: &mut Lexer) -> (item: Option<Result<Token, LexicalError>>)
    ensures
        final(lexer)@.source == old(lexer)@.source,
        item == significant(old(lexer)@.source, old(lexer)@.offset).item,
        final(lexer)@.offset == significant(old(lexer)@.source, old(lexer)@.offset).offset,
        old(lexer)@.offset <= final(lexer)@.offset <= old(lexer)@.source.bytes().len(),
        item is Some ==> old(lexer)@.offset < final(lexer)@.offset,
        item is None ==> final(lexer)@.offset == old(lexer)@.source.bytes().len(),
        item matches Some(Ok(token)) ==> token.location.valid(),
        item matches Some(Err(error)) ==> error.location.valid(),
{
    // The lexer stands on a character boundary of a text whose length is a `usize`.
    let total = lexer.source().len();
    let begun = lexer.offset();
    proof {
        lemma_significant(lexer@.source, begun);
    }
    let ghost goal = significant(lexer@.source, begun);
    loop
        invariant
            goal == significant(old(lexer)@.source, old(lexer)@.offset),
            old(lexer)@.offset <= goal.offset <= total,
            goal.item is Some ==> old(lexer)@.offset < goal.offset,
            goal.item is None ==> goal.offset == total,
            goal.item matches Some(Ok(token)) ==> token.location.valid(),
            goal.item matches Some(Err(error)) ==> error.location.valid(),
            lexer@.source == old(lexer)@.source,
            total == lexer@.source.bytes().len(),
            significant(lexer@.source, lexer@.offset) == significant(
                old(lexer)@.source,
                old(lexer)@.offset,
            ),
        decreases total - lexer@.offset,
    {
        match lexer.next() {
            Some(Ok(token)) => {
                if token.token_type != TokenType::Whitespace {
                    return Some(Ok(token));
                }
            },
            other => {
                return other;
            },
        }
    }
}

/// A parser: a lexer, and what has been read of its text.
pub struct Parser {
    lexer: Lexer,
}

impl View for Parser {
    type V = LexerView;

    closed spec fn view(&self) -> LexerView {
        self.lexer@
    }
}

impl OperationIterator {
    /// Opens an operation behind its opening parenthesis.
    fn new(lexer: &mut Lexer) -> (opened: Result<OperationIterator, ParseError>)
        ensures
            final(lexer)@.source == old(lexer)@.source,
            opened == operation_at(old(lexer)@.source, old(lexer)@.offset).0,
            final(lexer)@.offset == operation_at(old(lexer)@.source, old(lexer)@.offset).1,
            old(lexer)@.offset <= final(lexer)@.offset <= old(lexer)@.source.bytes().len(),
            opened matches Ok(operation) ==> old(lexer)@.offset < final(lexer)@.offset
                && operation.op_text.valid(),
            opened matches Err(error) ==> error.location.valid(),
    {
        match next_non_white(lexer) {
            Some(Ok(token)) => {
                if token.token_type == TokenType::Symbol {
                    Ok(OperationIterator { op_text: token.location })
                } else {
                    Err(ParseError::new(token.location, ParseErrorCause::MissingOperation))
                }
            },
            Some(Err(error)) => Err(ParseError::new(error.location, ParseErrorCause::Lexical)),
            None => Err(
                ParseError::new(
                    SourceLocation::new(share(lexer.source()), lexer.offset(), 0),
                    ParseErrorCause::UnclosedParen,
                ),
            ),
        }
    }

    /// Reads the next operand of the operation from `parser`. Yields
    /// nothing behind the last operand, where the operation is closed.
    pub fn next_element(&mut self, parser: &mut Parser) -> (item: Option<Result<Element, ParseError>>)
        ensures
            *final(self) == *old(self),
            final(parser)@.source == old(parser)@.source,
            item == operand_at(old(parser)@.source, old(parser)@.offset).item,
            final(parser)@.offset == operand_at(old(parser)@.source, old(parser)@.offset).offset,
            old(parser)@.offset <= final(parser)@.offset <= old(parser)@.source.bytes().len(),
            item matches Some(Ok(element)) ==> old(parser)@.offset < final(parser)@.offset
                && element.valid(),
            item matches Some(Err(error)) ==> error.location.valid(),
    {
        let lexer = &mut parser.lexer;
        match next_non_white(lexer) {
            Some(Ok(token)) => match token.token_type {
                TokenType::Whitespace => Some(
                    Err(ParseError::new(token.location, ParseErrorCause::Lexical)),
                ),
                TokenType::Open => match OperationIterator::new(lexer) {
                    Ok(operation) => Some(
                        Ok(Element::new(token.location, ElementData::Operation(operation))),
                    ),
                    Err(error) => Some(Err(error)),
                },
                TokenType::Close => None,
                TokenType::Symbol => Some(
                    Err(ParseError::new(token.location, ParseErrorCause::MisplacedSymbol)),
                ),
                TokenType::Integer => Some(Ok(Element::new(token.location, ElementData::Integer))),
                TokenType::String => Some(Ok(Element::new(token.location, ElementData::String))),
            },
            Some(Err(error)) => Some(Err(ParseError::new(error.location, ParseErrorCause::Lexical))),
            None => Some(
                Err(
                    ParseError::new(
                        SourceLocation::new(share(lexer.source()), lexer.offset(), 0),
                        ParseErrorCause::UnclosedParen,
                    ),
                ),
            ),
        }
    }
}

impl Parser {
    pub fn new(lexer: Lexer) -> (parser: Parser)
        ensures
            parser@ == lexer@,
    {
        Parser { lexer }
    }

    /// The place at which the parser reads on.
    pub fn location(&self) -> (location: SourceLocation)
        ensures
            location == place(self@.source, self@.offset),
            location.valid(),
    {
        let offset = self.lexer.offset();
        SourceLocation::new(share(self.lexer.source()), offset, 0)
    }

    pub fn offset(&self) -> (offset: usize)
        ensures
            offset == self@.offset,
            self@.source.boundary(offset as int),
            offset <= self@.source.bytes().len(),
    {
        self.lexer.offset()
    }

    pub fn source(&self) -> (source: &Rc<SourceText>)
        ensures
            *source == self@.source,
    {
        self.lexer.source()
    }

    /// Reads to the end of the text, which may hold nothing but whitespace.
    pub fn expect_end_of_source(&mut self) -> (outcome: Result<(), ParseError>)
        ensures
            final(self)@.source == old(self)@.source,
            outcome == end_of_source(old(self)@.source, old(self)@.offset).0,
            final(self)@.offset == end_of_source(old(self)@.source, old(self)@.offset).1,
            old(self)@.offset <= final(self)@.offset <= old(self)@.source.bytes().len(),
            outcome is Ok ==> final(self)@.offset == old(self)@.source.bytes().len(),
            outcome matches Err(error) ==> error.location.valid(),
    {

        match next_non_white(&mut self.lexer) {
            Some(Ok(token)) => Err(ParseError::new(token.location, ParseErrorCause::TrailingText)),
            Some(Err(error)) => Err(ParseError::new(error.location, ParseErrorCause::Lexical)),
            None => Ok(()),
        }
    }

    /// Reads the next element: an operation or a literal. Yields nothing
    /// at the end of the text.
    pub fn next_element(&mut self) -> (item: Option<Result<Element, ParseError>>)
        ensures
            final(self)@.source == old(self)@.source,
            item == element_at(old(self)@.source, old(self)@.offset).item,
            final(self)@.offset == element_at(old(self)@.source, old(self)@.offset).offset,
            old(self)@.offset <= final(self)@.offset <= old(self)@.source.bytes().len(),
            item matches Some(Ok(element)) ==> old(self)@.offset < final(self)@.offset
                && element.valid(),
            item matches Some(Err(error)) ==> error.location.valid(),
    {

        match next_non_white(&mut self.lexer) {
            Some(Ok(token)) => Some(
                match token.token_type {
                    TokenType::Whitespace => Err(
                        ParseError::new(token.location, ParseErrorCause::Lexical),
                    ),
                    TokenType::Open => match OperationIterator::new(&mut self.lexer) {
                        Ok(operation) => Ok(
                            Element::new(token.location, ElementData::Operation(operation)),
                        ),
                        Err(error) => Err(error),
                    },
                    TokenType::Close => Err(
                        ParseError::new(token.location, ParseErrorCause::ExtraCloseParen),
                    ),
                    TokenType::Symbol => Err(
                        ParseError::new(token.location, ParseErrorCause::MisplacedSymbol),
                    ),
                    TokenType::Integer => Ok(Element::new(token.location, ElementData::Integer)),
                    TokenType::String => Ok(Element::new(token.location, ElementData::String)),
                },
            ),
            Some(Err(error)) => Some(Err(ParseError::new(error.location, ParseErrorCause::Lexical))),
            None => None,
        }
    }
}

} // verus!
