//! From elements to expressions: literals become values, operations
//! become the expressions that their operands make.

use std::rc::Rc;
use vstd::prelude::*;
use vstd::string::*;
use vstd::std_specs::iter::IteratorSpec;
use vstd::utf8::{encode_utf8, encode_utf8_decode_utf8};
use crate::base::context::EvaluationContext;
use crate::base::expression::Expression;
use crate::base::invariants::lemma_continues_twice;
use crate::base::operation::{Operation, OperationGroup};
use crate::base::session::{Session, SessionView};
use crate::base::source::{
    SourceText, lemma_encode_single, lemma_prefix_boundary, lemma_utf8_len_bounds, utf8_len,
};
use crate::base::value::{Value, ValueError, ValueErrorCause, ValueResult, unspecified};
use crate::ir::charclass::{decimal_digit, is_decimal_digit, len_utf8};
use crate::ir::parser::{
    Element, ElementData, ParseError, ParseErrorCause, Parser, element_at, operand_at,
};

verus! {

broadcast use vstd::string::group_string_axioms;

/// The `String` that `str::to_owned` makes of a text.
pub uninterp spec fn owned_text(text: Seq<char>) -> String;

/// Makes a `String` of a text, by `str::to_owned`: the string holds the
/// characters of the text, and is the same for the same characters.
#[verifier::external_body]
fn own(text: &str) -> (owned: String)
    ensures
        owned == owned_text(text@),
        owned@ == text@,
{
    text.to_owned()
}

/// The number that a decimal digit stands for.
pub open spec fn digit_value(c: char) -> nat {
    if decimal_digit(c) {
        (c as u32 - '0' as u32) as nat
    } else {
        0
    }
}

/// The number that a text of decimal digits stands for.
pub open spec fn decimal_value(digits: Seq<char>) -> nat
    decreases digits.len(),
{
    if digits.len() == 0 {
        0
    } else {
        decimal_value(digits.drop_last()) * 10 + digit_value(digits.last())
    }
}

/// Whether a text is a numeral: one decimal digit or more.
pub open spec fn numeral(text: Seq<char>) -> bool {
    text.len() > 0 && forall|at: int| 0 <= at < text.len() ==> decimal_digit(#[trigger] text[at])
}

/// The value of an integer literal: the number that a numeral stands for,
/// where it is a `usize`. Any other text stands for an unspecified error.
pub open spec fn integer_value(text: Seq<char>) -> ValueResult {
    if numeral(text) && decimal_value(text) <= usize::MAX {
        Ok(Value::Integer(decimal_value(text) as usize))
    } else {
        Err(unspecified())
    }
}

/// What stands between the quotes of a string literal: the text without
/// its first and its last character. Nothing is escaped.
pub open spec fn string_content(text: Seq<char>) -> Seq<char> {
    if text.len() >= 2 {
        text.subrange(1, text.len() - 1)
    } else {
        Seq::empty()
    }
}

/// The value of a string literal.
pub open spec fn string_value(text: Seq<char>) -> ValueResult {
    Ok(Value::String(owned_text(string_content(text))))
}

/// A numeral stands for no less than its first digits do.
pub proof fn lemma_decimal_value_grows(digits: Seq<char>, count: int)
    requires
        0 <= count <= digits.len(),
    ensures
        decimal_value(digits.take(count)) <= decimal_value(digits),
    decreases digits.len() - count,
{
    if count < digits.len() {
        assert(digits.take(count + 1).drop_last() =~= digits.take(count));
        lemma_decimal_value_grows(digits, count + 1);
    } else {
        assert(digits.take(count) =~= digits);
    }
}

/// Reads an integer literal.
pub fn parse_integer(text: &str) -> (value: ValueResult)
    ensures
        value == integer_value(text@),
{
    let mut chars = text.chars();
    let mut value: usize = 0;
    let mut any = false;
    let ghost mut seen: int = 0;
    proof {
        assert(text@.skip(0) =~= text@);
        assert(text@.take(0) =~= Seq::<char>::empty());
    }
    loop
        invariant_except_break
            chars.obeys_prophetic_iter_laws(),
            chars.decrease() is Some,
            chars.remaining() == text@.skip(seen),
        invariant
            0 <= seen <= text@.len(),
            any == (seen > 0),
            value == decimal_value(text@.take(seen)),
            forall|at: int| 0 <= at < seen ==> decimal_digit(#[trigger] text@[at]),
        ensures
            seen == text@.len(),
        decreases text@.len() - seen,
    {
        match chars.next() {
            Some(c) => {
                assert(c == text@[seen]);
                if !is_decimal_digit(&c) {
                    return Err(ValueError::new(ValueErrorCause::UnspecifiedError));
                }
                let digit = (c as u32 - '0' as u32) as usize;
                proof {
                    assert(text@.take(seen + 1).drop_last() =~= text@.take(seen));
                    assert(text@.take(seen + 1).last() == c);
                    lemma_decimal_value_grows(text@, seen + 1);
                    assert(text@.skip(seen).drop_first() =~= text@.skip(seen + 1));
                }
                match value.checked_mul(10) {
                    Some(tens) => match tens.checked_add(digit) {
                        Some(next) => {
                            value = next;
                        },
                        None => {
                            return Err(ValueError::new(ValueErrorCause::UnspecifiedError));
                        },
                    },
                    None => {
                        return Err(ValueError::new(ValueErrorCause::UnspecifiedError));
                    },
                }
                any = true;
                proof {
                    seen = seen + 1;
                }
            },
            None => {
                break ;
            },
        }
    }
    proof {
        assert(text@.take(seen) =~= text@);
    }
    if any {
        Ok(Value::Integer(value))
    } else {
        Err(ValueError::new(ValueErrorCause::UnspecifiedError))
    }
}

/// The text between the first and the last character of `text`.
pub fn unquote(text: &str) -> (content: &str)
    ensures
        content@ == string_content(text@),
{
    let total = text.as_bytes().len();
    let mut chars = text.chars();
    let mut count: usize = 0;
    let mut first_len: usize = 0;
    let mut last_len: usize = 0;
    let ghost mut seen: int = 0;
    proof {
        assert(text@.skip(0) =~= text@);
        lemma_utf8_len_bounds(text@);
    }
    loop
        invariant_except_break
            chars.obeys_prophetic_iter_laws(),
            chars.decrease() is Some,
            chars.remaining() == text@.skip(seen),
        invariant
            0 <= seen <= text@.len(),
            text@.len() <= total,
            count == seen,
            seen > 0 ==> first_len == utf8_len(seq![text@[0]]) && last_len == utf8_len(
                seq![text@[seen - 1]],
            ),
        ensures
            seen == text@.len(),
        decreases text@.len() - seen,
    {
        match chars.next() {
            Some(c) => {
                assert(c == text@[seen]);
                proof {
                    lemma_encode_single(c);
                    assert(text@.skip(seen).drop_first() =~= text@.skip(seen + 1));
                }
                let width = len_utf8(c);
                if count == 0 {
                    first_len = width;
                }
                last_len = width;
                count = count + 1;
                proof {
                    seen = seen + 1;
                }
            },
            None => {
                break ;
            },
        }
    }
    proof {
        lemma_prefix_boundary(text@, 0);
        assert(text@.take(0) =~= Seq::<char>::empty());
    }
    if count < 2 {
        let (nothing, _) = text.split_at(0);
        proof {
            assert(nothing.spec_bytes() =~= Seq::<u8>::empty());
            lemma_utf8_len_bounds(nothing@);
            assert(nothing@ =~= Seq::<char>::empty());
        }
        return nothing;
    }
    proof {
        let whole = text@;
        let inner = whole.skip(1);
        lemma_prefix_boundary(whole, 1);
        assert(whole.take(1) =~= seq![whole[0]]);
        lemma_prefix_boundary(inner, inner.len() - 1);
        assert(inner.skip(inner.len() - 1) =~= seq![whole[whole.len() - 1]]);
        assert(inner.take(inner.len() - 1) =~= string_content(whole));
    }
    let (_, inner) = text.split_at(first_len);
    proof {
        assert(inner.spec_bytes() =~= encode_utf8(text@.skip(1)));
        encode_utf8_decode_utf8(inner@);
        encode_utf8_decode_utf8(text@.skip(1));
    }
    let (content, _) = inner.split_at(total - first_len - last_len);
    proof {
        assert(content.spec_bytes() =~= encode_utf8(string_content(text@)));
        encode_utf8_decode_utf8(content@);
        encode_utf8_decode_utf8(string_content(text@));
    }
    content
}

/// An expression that has been read, the offset at which the parser goes
/// on, and the session as it is then.
pub struct Built {
    pub result: Result<Expression, ParseError>,
    pub offset: usize,
    pub session: SessionView,
}

/// The operands that have been read, the offset at which the parser goes
/// on, and the session as it is then.
pub struct Gathered {
    pub result: Result<Seq<Expression>, ParseError>,
    pub offset: usize,
    pub session: SessionView,
}

/// The expression of an element whose last token ends at byte `offset`.
/// A literal is its value. An operation is looked up by its name; its
/// operands are read and built, one after the other, and the operation is
/// applied to them. The first error ends the reading.
pub open spec fn element_expression(
    element: Element,
    source: Rc<SourceText>,
    offset: usize,
    operations: Map<Seq<char>, Operation>,
    context: EvaluationContext,
    session: SessionView,
) -> Built
    decreases source.bytes().len() - offset, 1nat,
{
    match element.data {
        ElementData::Operation(opened) => {
            let name = opened.op_text.chars();
            if operations.contains_key(name) {
                let gathered = operands_from(source, offset, operations, context, session, Seq::empty());
                match gathered.result {
                    Ok(operands) => {
                        let built = gathered.session.built(operations[name], context, operands);
                        Built { result: Ok(built.0), offset: gathered.offset, session: built.1 }
                    },
                    Err(error) => Built {
                        result: Err(error),
                        offset: gathered.offset,
                        session: gathered.session,
                    },
                }
            } else {
                Built {
                    result: Err(
                        ParseError {
                            location: opened.op_text,
                            cause: ParseErrorCause::UndefinedOperation,
                        },
                    ),
                    offset,
                    session,
                }
            }
        },
        ElementData::Integer => Built {
            result: Ok(Expression::Total(integer_value(element.location.chars()))),
            offset,
            session,
        },
        ElementData::String => Built {
            result: Ok(Expression::Total(string_value(element.location.chars()))),
            offset,
            session,
        },
    }
}

/// The operands of an operation, read from byte `offset` on and added to
/// those that have been `gathered`. The reading goes forward in the text.
pub open spec fn operands_from(
    source: Rc<SourceText>,
    offset: usize,
    operations: Map<Seq<char>, Operation>,
    context: EvaluationContext,
    session: SessionView,
    gathered: Seq<Expression>,
) -> Gathered
    decreases source.bytes().len() - offset, 0nat,
{
    let next = operand_at(source, offset);
    match next.item {
        None => Gathered { result: Ok(gathered), offset: next.offset, session },
        Some(Err(error)) => Gathered { result: Err(error), offset: next.offset, session },
        Some(Ok(element)) => if offset < next.offset <= source.bytes().len() {
            let built = element_expression(element, source, next.offset, operations, context, session);
            match built.result {
                Err(error) => Gathered {
                    result: Err(error),
                    offset: built.offset,
                    session: built.session,
                },
                Ok(expression) => if next.offset <= built.offset <= source.bytes().len() {
                    operands_from(
                        source,
                        built.offset,
                        operations,
                        context,
                        built.session,
                        gathered.push(expression),
                    )
                } else {
                    Gathered { result: Ok(gathered), offset: built.offset, session: built.session }
                },
            }
        } else {
            Gathered { result: Ok(gathered), offset: next.offset, session }
        },
    }
}

/// The expression of the next element at byte `offset`, if the text goes on.
pub open spec fn parsed_expression(
    source: Rc<SourceText>,
    offset: usize,
    operations: Map<Seq<char>, Operation>,
    context: EvaluationContext,
    session: SessionView,
) -> (Option<Result<Expression, ParseError>>, usize, SessionView) {
    let next = element_at(source, offset);
    match next.item {
        Some(Ok(element)) => {
            let built = element_expression(element, source, next.offset, operations, context, session);
            (Some(built.result), built.offset, built.session)
        },
        Some(Err(error)) => (Some(Err(error)), next.offset, session),
        None => (None, next.offset, session),
    }
}

/// Reads the next element from `parser` and builds its expression.
/// Yields nothing at the end of the text.
pub fn expression_from_parser(
    parser: &mut Parser,
    operations: &OperationGroup,
    context: &EvaluationContext,
    session: &mut Session,
) -> (result: Option<Result<Expression, ParseError>>)
    ensures
        final(parser)@.source == old(parser)@.source,
        result == parsed_expression(
            old(parser)@.source,
            old(parser)@.offset,
            operations@,
            *context,
            old(session)@,
        ).0,
        final(parser)@.offset == parsed_expression(
            old(parser)@.source,
            old(parser)@.offset,
            operations@,
            *context,
            old(session)@,
        ).1,
        final(session)@ == parsed_expression(
            old(parser)@.source,
            old(parser)@.offset,
            operations@,
            *context,
            old(session)@,
        ).2,
        final(session)@.continues(old(session)@),
        old(session)@.wf() ==> final(session)@.wf(),
{
    match parser.next_element() {
        Some(result) => Some(
            match result {
                Ok(element) => expression_from_element(element, parser, operations, context, session),
                Err(error) => Err(error),
            },
        ),
        None => None,
    }
}

/// Builds the expression of `element`, which has just been read from
/// `parser`. The operands of an operation are read from `parser`.
pub fn expression_from_element(
    element: Element,
    parser: &mut Parser,
    operations: &OperationGroup,
    context: &EvaluationContext,
    session: &mut Session,
) -> (result: Result<Expression, ParseError>)
    requires
        element.valid(),
    ensures
        final(parser)@.source == old(parser)@.source,
        result == element_expression(
            element,
            old(parser)@.source,
            old(parser)@.offset,
            operations@,
            *context,
            old(session)@,
        ).result,
        final(parser)@.offset == element_expression(
            element,
            old(parser)@.source,
            old(parser)@.offset,
            operations@,
            *context,
            old(session)@,
        ).offset,
        final(session)@ == element_expression(
            element,
            old(parser)@.source,
            old(parser)@.offset,
            operations@,
            *context,
            old(session)@,
        ).session,
        old(parser)@.offset <= final(parser)@.offset <= old(parser)@.source.bytes().len(),
        final(session)@.continues(old(session)@),
        old(session)@.wf() ==> final(session)@.wf(),
    decreases old(parser)@.source.bytes().len() - old(parser)@.offset,
{
    let ghost source = parser@.source;
    let ghost session0 = session@;
    let ghost offset0 = parser@.offset;
    // The parser stands in a text whose length is a `usize`.
    let total = parser.source().len();
    let begun = parser.offset();
    match element.data {
        ElementData::Operation(mut opened) => {
            let operation = match operations.get(opened.op_text.text()) {
                Some(operation) => *operation,
                None => {
                    return Err(ParseError::new(opened.op_text, ParseErrorCause::UndefinedOperation));
                },
            };
            let mut operands: Vec<Expression> = Vec::new();
            let ghost whole = element_expression(
                element,
                source,
                offset0,
                operations@,
                *context,
                session0,
            );
            let ghost target = operands_from(
                source,
                offset0,
                operations@,
                *context,
                session0,
                Seq::empty(),
            );
            loop
                invariant_except_break
                    operands_from(source, parser@.offset, operations@, *context, session@, operands@)
                        == target,
                invariant
                    target.result matches Err(error) ==> whole == (Built {
                        result: Err(error),
                        offset: target.offset,
                        session: target.session,
                    }),
                    whole == element_expression(
                        element,
                        old(parser)@.source,
                        old(parser)@.offset,
                        operations@,
                        *context,
                        old(session)@,
                    ),
                    session0 == old(session)@,
                    target == operands_from(
                        source,
                        offset0,
                        operations@,
                        *context,
                        session0,
                        Seq::empty(),
                    ),
                    parser@.source == source,
                    source == old(parser)@.source,
                    offset0 == old(parser)@.offset,
                    total == source.bytes().len(),
                    offset0 <= parser@.offset <= total,
                    session@.continues(session0),
                    session0.wf() ==> session@.wf(),
                ensures
                    parser@.source == source,
                    offset0 <= parser@.offset <= total,
                    operands_from(source, offset0, operations@, *context, session0, Seq::empty())
                        == (Gathered {
                        result: Ok(operands@),
                        offset: parser@.offset,
                        session: session@,
                    }),
                    session@.continues(session0),
                    session0.wf() ==> session@.wf(),
                decreases total - parser@.offset,
            {
                let ghost before = session@;
                match opened.next_element(parser) {
                    Some(Ok(operand)) => {
                        match expression_from_element(operand, parser, operations, context, session) {
                            Ok(expression) => {
                                proof {
                                    lemma_continues_twice(session0, before, session@);
                                }
                                operands.push(expression);
                            },
                            Err(error) => {
                                proof {
                                    lemma_continues_twice(session0, before, session@);
                                }
                                return Err(error);
                            },
                        }
                    },
                    Some(Err(error)) => {
                        return Err(error);
                    },
                    None => {
                        break ;
                    },
                }
            }
            let ghost gathered = session@;
            let expression = Expression::from_op(operation, context, operands, session);
            proof {
                lemma_continues_twice(session0, gathered, session@);
            }
            Ok(expression)
        },
        ElementData::Integer => Ok(Expression::from_value(parse_integer(element.location.text()))),
        ElementData::String => Ok(
            Expression::from_value(Ok(Value::String(own(unquote(element.location.text()))))),
        ),
    }
}

} // verus!
