//! The lexer: cuts a source text into tokens.

use std::rc::Rc;
use vstd::prelude::*;
use vstd::string::*;
use vstd::utf8::{encode_utf8, encode_utf8_decode_utf8, encode_utf8_valid_utf8, is_char_boundary_start_end_of_seq};
use crate::base::source::{
    SourceLocation, SourceText, lemma_boundary_splits, lemma_encode_concat, lemma_encode_single,
    lemma_prefix_boundary, lemma_token_range, lemma_utf8_len_bounds, share, utf8_len,
};
use crate::ir::charclass::{
    CharClass, accepted_run, is_decimal_digit, is_identifier, is_identifier_start, is_string_body,
    is_whitespace, identifier_start, lemma_run_bounds, lemma_run_unique, len_utf8, match_length, run,
};

verus! {

broadcast use vstd::string::group_string_axioms;

/// The kinds of token.
#[derive(Clone, Copy, Debug, PartialEq, Eq, Structural)]
pub enum TokenType {
    Whitespace,
    Open,
    Close,
    Symbol,
    Integer,
    String,
}

/// A token: its kind and its place in the text.
#[derive(Debug, PartialEq, Eq)]
pub struct Token {
    pub token_type: TokenType,
    pub location: SourceLocation,
}

/// The news that no token begins at a place in the text.
#[derive(Debug, PartialEq, Eq)]
pub struct LexicalError {
    pub location: SourceLocation,
}

impl LexicalError {
    pub fn description(&self) -> (text: &'static str)
        ensures
            text@ == "unexpected token"@,
    {
        "unexpected token"
    }
}

/// The token at the head of `rest`, which is not empty: its kind and the
/// number of its characters. A parenthesis is a token by itself. A run of
/// whitespace is one token, and so is a run of decimal digits. A string
/// begins with a quote and extends to the next quote; nothing is escaped.
/// A symbol begins with an identifier start and extends over the
/// identifier characters that follow. Anything else is no token.
pub open spec fn scan(rest: Seq<char>) -> Option<(TokenType, nat)> {
    let first = rest[0];
    if first == '(' {
        Some((TokenType::Open, 1nat))
    } else if first == ')' {
        Some((TokenType::Close, 1nat))
    } else if run(rest, CharClass::Whitespace) > 0 {
        Some((TokenType::Whitespace, run(rest, CharClass::Whitespace)))
    } else if run(rest, CharClass::DecimalDigit) > 0 {
        Some((TokenType::Integer, run(rest, CharClass::DecimalDigit)))
    } else if first == '"' {
        let body = run(rest.skip(1), CharClass::StringBody);
        if 1 + body < rest.len() {
            Some((TokenType::String, body + 2))
        } else {
            None
        }
    } else if identifier_start(first) {
        Some((TokenType::Symbol, 1 + run(rest.skip(1), CharClass::Identifier)))
    } else {
        None
    }
}

/// What the lexer yields, and the offset at which it goes on.
pub struct Lexed {
    pub item: Option<Result<Token, LexicalError>>,
    pub offset: usize,
}

/// What the lexer yields at byte `offset` of `source`. At the end of the
/// text it yields nothing. Where a token begins it yields the token and
/// goes on behind it. Where none begins it yields an error at that place
/// and goes on at the end of the text: nothing more is read.
pub open spec fn lexed(source: Rc<SourceText>, offset: usize) -> Lexed {
    let rest = source.rest(offset as int);
    if rest.len() == 0 {
        Lexed { item: None, offset }
    } else {
        match scan(rest) {
            Some((token_type, count)) => {
                let length = utf8_len(rest.take(count as int)) as usize;
                Lexed {
                    item: Some(
                        Ok(Token { token_type, location: SourceLocation { source, offset, length } }),
                    ),
                    offset: (offset + length) as usize,
                }
            },
            None => Lexed {
                item: Some(
                    Err(LexicalError { location: SourceLocation { source, offset, length: 0 } }),
                ),
                offset: source.bytes().len() as usize,
            },
        }
    }
}

/// The first characters of a text take the bytes of its head and of the part that follows the head.
pub proof fn lemma_take_len(text: Seq<char>, head: int, further: int)
    requires
        0 <= head,
        0 <= further,
        head + further <= text.len(),
    ensures
        utf8_len(text.take(head + further)) == utf8_len(text.take(head)) + utf8_len(
            text.skip(head).take(further),
        ),
{
    assert(text.take(head + further) =~= text.take(head) + text.skip(head).take(further));
    lemma_encode_concat(text.take(head), text.skip(head).take(further));
}

/// A token has at least one character and lies in the rest of the text.
pub proof fn lemma_scan_bounds(rest: Seq<char>)
    requires
        rest.len() > 0,
    ensures
        scan(rest) matches Some((_, count)) ==> 1 <= count <= rest.len(),
{
    lemma_run_bounds(rest, CharClass::Whitespace);
    lemma_run_bounds(rest, CharClass::DecimalDigit);
    lemma_run_bounds(rest.skip(1), CharClass::StringBody);
    lemma_run_bounds(rest.skip(1), CharClass::Identifier);
}

/// The lexer goes forward. From a character boundary of a text whose
/// length is a `usize`, it goes on at a later character boundary whenever
/// it yields something, and it yields nothing only at the end of the
/// text. A token that it yields lies in the text and holds the characters
/// that were scanned.
pub proof fn lemma_lexed(source: Rc<SourceText>, offset: usize)
    requires
        source.boundary(offset as int),
        source.bytes().len() <= usize::MAX,
    ensures
        ({
            let found = lexed(source, offset);
            &&& source.boundary(found.offset as int)
            &&& found.offset <= source.bytes().len()
            &&& found.item is Some ==> offset < found.offset
            &&& found.item is None ==> found.offset == offset && offset == source.bytes().len()
            &&& found.item matches Some(Ok(token)) ==> {
                &&& token.location.valid()
                &&& token.location.source == source
                &&& token.location.offset == offset
                &&& token.location.offset + token.location.length == found.offset
                &&& scan(source.rest(offset as int)) matches Some((token_type, count))
                &&& token.token_type == token_type
                &&& token.location.chars() == source.rest(offset as int).take(count as int)
            }
            &&& found.item matches Some(Err(error)) ==> error.location.valid()
        }),
{
    let rest = source.rest(offset as int);
    lemma_token_range(&source, offset as int, 0);
    assert(rest.take(0) =~= Seq::<char>::empty());
    encode_utf8_valid_utf8(source@);
    is_char_boundary_start_end_of_seq(source.bytes());
    lemma_utf8_len_bounds(rest);
    if rest.len() > 0 {
        lemma_scan_bounds(rest);
        match scan(rest) {
            Some((token_type, count)) => {
                lemma_token_range(&source, offset as int, count as int);
            },
            None => {},
        }
    }
}

/// A lexer: a source text and the offset of the byte at which it reads on.
pub struct Lexer {
    source: Rc<SourceText>,
    offset: usize,
}

/// What a lexer holds.
pub struct LexerView {
    pub source: Rc<SourceText>,
    pub offset: usize,
}

impl View for Lexer {
    type V = LexerView;

    closed spec fn view(&self) -> LexerView {
        LexerView { source: self.source, offset: self.offset }
    }
}

fn first_char(text: &str) -> (first: char)
    requires
        text@.len() > 0,
    ensures
        first == text@[0],
{
    let mut chars = text.chars();
    match chars.next() {
        Some(first) => first,
        None => ' ',
    }
}

impl Lexer {
    /// The lexer reads on where a character begins or the text ends.
    #[verifier::type_invariant]
    spec fn reads_at_boundary(self) -> bool {
        self.source.boundary(self.offset as int)
    }

    /// A lexer at the beginning of `source`.
    pub fn new(source: Rc<SourceText>) -> (lexer: Lexer)
        ensures
            lexer@ == (LexerView { source, offset: 0 }),
    {
        proof {
            encode_utf8_valid_utf8(source@);
            is_char_boundary_start_end_of_seq(source.bytes());
        }
        Lexer { source, offset: 0 }
    }

    pub fn source(&self) -> (source: &Rc<SourceText>)
        ensures
            *source == self@.source,
    {
        &self.source
    }

    pub fn offset(&self) -> (offset: usize)
        ensures
            offset == self@.offset,
            self@.source.boundary(offset as int),
            offset <= self@.source.bytes().len(),
    {
        proof {
            use_type_invariant(self);
            lemma_token_range(&self.source, self.offset as int, 0);
        }
        self.offset
    }

    fn pop_token(&mut self, token_type: TokenType, length: usize) -> (token: Token)
        requires
            old(self)@.source.boundary(old(self)@.offset + length),
            old(self)@.offset + length <= usize::MAX,
        ensures
            final(self)@ == (LexerView { offset: (old(self)@.offset + length) as usize, ..old(self)@ }),
            token == (Token {
                token_type,
                location: SourceLocation {
                    source: old(self)@.source,
                    offset: old(self)@.offset,
                    length,
                },
            }),
    {
        let start = self.offset;
        self.offset = start + length;
        Token { token_type, location: SourceLocation::new(share(&self.source), start, length) }
    }

    /// Yields the next token, or an error where no token begins, or
    /// nothing at the end of the text.
    pub fn next(&mut self) -> (item: Option<Result<Token, LexicalError>>)
        ensures
            final(self)@.source == old(self)@.source,
            item == lexed(old(self)@.source, old(self)@.offset).item,
            final(self)@.offset == lexed(old(self)@.source, old(self)@.offset).offset,
            old(self)@.offset <= final(self)@.offset <= old(self)@.source.bytes().len(),
            item is Some ==> old(self)@.offset < final(self)@.offset,
            item matches Some(Ok(token)) ==> token.location.valid(),
            item matches Some(Err(error)) ==> error.location.valid(),
    {
        proof {
            use_type_invariant(&*self);
        }
        let source = share(&self.source);
        let start = self.offset;
        let total = source.len();
        let ghost rest = source.rest(start as int);
        proof {
            lemma_token_range(&source, start as int, 0);
            lemma_boundary_splits(source@, start as int);
            lemma_lexed(source, start);
        }
        let (_, remaining) = source.text().split_at(start);
        proof {
            assert(remaining.spec_bytes() =~= source.bytes().subrange(
                start as int,
                source.bytes().len() as int,
            ));
            encode_utf8_decode_utf8(remaining@);
            assert(remaining@ == rest);
        }
        if remaining.is_empty() {
            return None;
        }
        let first = first_char(remaining);
        proof {
            lemma_encode_single(first);
            assert(rest.take(1) =~= seq![first]);
            lemma_token_range(&source, start as int, 1);
        }
        if first == '(' {
            return Some(Ok(self.pop_token(TokenType::Open, len_utf8('('))));
        }
        if first == ')' {
            return Some(Ok(self.pop_token(TokenType::Close, len_utf8(')'))));
        }
        let white_len = match_length(remaining, is_whitespace);
        proof {
            let count = choose|count: int|
                accepted_run(is_whitespace, rest, count) && white_len == utf8_len(rest.take(count));
            lemma_run_unique(rest, CharClass::Whitespace, count);
            lemma_token_range(&source, start as int, count);
            if count == 0 {
                assert(rest.take(0) =~= Seq::<char>::empty());
            }
        }
        if white_len > 0 {
            return Some(Ok(self.pop_token(TokenType::Whitespace, white_len)));
        }
        let int_length = match_length(remaining, is_decimal_digit);
        proof {
            let count = choose|count: int|
                accepted_run(is_decimal_digit, rest, count) && int_length == utf8_len(rest.take(count));
            lemma_run_unique(rest, CharClass::DecimalDigit, count);
            lemma_token_range(&source, start as int, count);
            if count == 0 {
                assert(rest.take(0) =~= Seq::<char>::empty());
            }
        }
        if int_length > 0 {
            return Some(Ok(self.pop_token(TokenType::Integer, int_length)));
        }
        let first_len = len_utf8(first);
        proof {
            lemma_prefix_boundary(rest, 1);
        }
        let (_, others) = remaining.split_at(first_len);
        proof {
            assert(others.spec_bytes() =~= encode_utf8(rest.skip(1)));
            encode_utf8_decode_utf8(others@);
            encode_utf8_decode_utf8(rest.skip(1));
            assert(others@ == rest.skip(1));
        }
        if first == '"' {
            let body_len = match_length(others, is_string_body);
            proof {
                let count = choose|count: int|
                    accepted_run(is_string_body, rest.skip(1), count) && body_len == utf8_len(
                        rest.skip(1).take(count),
                    );
                lemma_run_unique(rest.skip(1), CharClass::StringBody, count);
                lemma_take_len(rest, 1, count);
                lemma_token_range(&source, start as int, 1 + count);
                if 1 + count < rest.len() {
                    let quote = rest[1 + count];
                    assert(quote == rest.skip(1)[count]);
                    assert(quote == '"');
                    lemma_take_len(rest, 1 + count, 1);
                    assert(rest.skip(1 + count).take(1) =~= seq![quote]);
                    lemma_encode_single(quote);
                    lemma_token_range(&source, start as int, 2 + count);
                } else {
                    assert(rest.take(1 + count) =~= rest);
                }
            }
            if first_len + body_len < remaining.as_bytes().len() {
                return Some(
                    Ok(self.pop_token(TokenType::String, first_len + body_len + len_utf8('"'))),
                );
            }
        } else if is_identifier_start(&first) {
            let rest_len = match_length(others, is_identifier);
            proof {
                let count = choose|count: int|
                    accepted_run(is_identifier, rest.skip(1), count) && rest_len == utf8_len(
                        rest.skip(1).take(count),
                    );
                lemma_run_unique(rest.skip(1), CharClass::Identifier, count);
                lemma_take_len(rest, 1, count);
                lemma_token_range(&source, start as int, 1 + count);
            }
            return Some(Ok(self.pop_token(TokenType::Symbol, first_len + rest_len)));
        }
        proof {
            encode_utf8_valid_utf8(source@);
            is_char_boundary_start_end_of_seq(source.bytes());
        }
        self.offset = total;
        Some(Err(LexicalError { location: SourceLocation::new(source, start, 0) }))
    }
}

} // verus!
