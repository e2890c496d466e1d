//! Classes of characters, and the length of the run of a class at the head of a text.

use vstd::prelude::*;
use vstd::string::*;
use vstd::std_specs::iter::IteratorSpec;
use vstd::utf8::encode_scalar;
use crate::base::source::{lemma_encode_concat, lemma_encode_single, lemma_prefix_boundary, utf8_len};

verus! {

broadcast use vstd::string::group_string_axioms;

/// Whether `char::is_whitespace` holds of the character: whether Unicode
/// counts it as white space.
pub uninterp spec fn char_is_whitespace(c: char) -> bool;

/// Whether `char::is_alphabetic` holds of the character: whether Unicode
/// counts it as alphabetic.
pub uninterp spec fn char_is_alphabetic(c: char) -> bool;

/// Whether `char::is_alphanumeric` holds of the character: whether it is
/// alphabetic or numeric by Unicode.
pub uninterp spec fn char_is_alphanumeric(c: char) -> bool;

/// `char::is_whitespace` decides by the character alone.
pub assume_specification[ std::primitive::char::is_whitespace ](c: char) -> (held: bool)
    ensures
        held == char_is_whitespace(c),
;

/// `char::is_alphabetic` decides by the character alone.
pub assume_specification[ std::primitive::char::is_alphabetic ](c: char) -> (held: bool)
    ensures
        held == char_is_alphabetic(c),
;

/// `char::is_alphanumeric` decides by the character alone.
pub assume_specification[ std::primitive::char::is_alphanumeric ](c: char) -> (held: bool)
    ensures
        held == char_is_alphanumeric(c),
;

/// The characters that separate tokens.
pub open spec fn whitespace(c: char) -> bool {
    char_is_whitespace(c)
}

/// The characters with which a symbol may begin.
pub open spec fn identifier_start(c: char) -> bool {
    char_is_alphabetic(c) || c == '_'
}

/// The characters of which a symbol may consist behind its first.
pub open spec fn identifier(c: char) -> bool {
    char_is_alphanumeric(c) || c == '_'
}

/// The ten decimal digits.
pub open spec fn decimal_digit(c: char) -> bool {
    '0' <= c <= '9'
}

/// The characters of which a string literal may consist between its quotes.
pub open spec fn string_body(c: char) -> bool {
    c != '"'
}

/// The classes of characters of which tokens are made.
pub enum CharClass {
    Whitespace,
    DecimalDigit,
    Identifier,
    StringBody,
}

impl CharClass {
    /// Whether the character is of the class.
    pub open spec fn holds(self, c: char) -> bool {
        match self {
            CharClass::Whitespace => whitespace(c),
            CharClass::DecimalDigit => decimal_digit(c),
            CharClass::Identifier => identifier(c),
            CharClass::StringBody => string_body(c),
        }
    }
}

/// The number of characters at the head of `text` that are all of `class`.
pub open spec fn run(text: Seq<char>, class: CharClass) -> nat
    decreases text.len(),
{
    if text.len() > 0 && class.holds(text[0]) {
        1 + run(text.drop_first(), class)
    } else {
        0
    }
}

/// The run of a class is the only number of characters at the head of a
/// text that are all of the class and are followed by none of it.
pub proof fn lemma_run_unique(text: Seq<char>, class: CharClass, count: int)
    requires
        0 <= count <= text.len(),
        forall|at: int| 0 <= at < count ==> class.holds(#[trigger] text[at]),
        count < text.len() ==> !class.holds(text[count]),
    ensures
        run(text, class) == count,
    decreases text.len(),
{
    if count > 0 {
        assert(class.holds(text[0]));
        let others = text.drop_first();
        assert forall|at: int| 0 <= at < count - 1 implies class.holds(#[trigger] others[at]) by {
            assert(others[at] == text[at + 1]);
        }
        lemma_run_unique(others, class, count - 1);
    }
}

/// The run of a class lies in the text and consists of the class, and no
/// character of the class follows it.
pub proof fn lemma_run_bounds(text: Seq<char>, class: CharClass)
    ensures
        run(text, class) <= text.len(),
        forall|at: int| 0 <= at < run(text, class) ==> class.holds(#[trigger] text[at]),
        run(text, class) < text.len() ==> !class.holds(text[run(text, class) as int]),
    decreases text.len(),
{
    if text.len() > 0 && class.holds(text[0]) {
        let others = text.drop_first();
        lemma_run_bounds(others, class);
        assert forall|at: int| 0 <= at < run(text, class) implies class.holds(#[trigger] text[at]) by {
            if at > 0 {
                assert(text[at] == others[at - 1]);
            }
        }
    }
}

/// `count` characters at the head of `text` are accepted by `predicate`,
/// and the next one, if there is one, is refused.
pub open spec fn accepted_run<F: Fn(&char) -> bool>(predicate: F, text: Seq<char>, count: int) -> bool {
    &&& 0 <= count <= text.len()
    &&& forall|at: int| 0 <= at < count ==> call_ensures(predicate, (&#[trigger] text[at],), true)
    &&& count < text.len() ==> call_ensures(predicate, (&text[count],), false)
}

/// The number of bytes that a character takes in UTF-8.
pub fn len_utf8(c: char) -> (length: usize)
    ensures
        length == encode_scalar(c as u32).len(),
        1 <= length <= 4,
{
    let scalar = c as u32;
    if scalar < 0x80 {
        1
    } else if scalar < 0x800 {
        2
    } else if scalar < 0x10000 {
        3
    } else {
        4
    }
}

/// The number of bytes of the characters at the head of `s` that
/// `predicate` accepts, up to the first that it refuses.
pub fn match_length<F>(s: &str, predicate: F) -> (length: usize) where F: Fn(&char) -> bool
    requires
        forall|c: char| call_requires(predicate, (&c,)),
    ensures
        exists|count: int| accepted_run(predicate, s@, count) && length == utf8_len(s@.take(count)),
{
    let total = s.as_bytes().len();
    let mut chars = s.chars();
    let mut length: usize = 0;
    let ghost mut count: int = 0;
    proof {
        assert(s@.take(0) =~= Seq::<char>::empty());
        assert(s@.skip(0) =~= s@);
    }
    loop
        invariant_except_break
            chars.obeys_prophetic_iter_laws(),
            chars.decrease() is Some,
            chars.remaining() == s@.skip(count),
        invariant
            forall|c: char| call_requires(predicate, (&c,)),
            total == utf8_len(s@),
            0 <= count <= s@.len(),
            length == utf8_len(s@.take(count)),
            forall|at: int| 0 <= at < count ==> call_ensures(predicate, (&#[trigger] s@[at],), true),
        ensures
            accepted_run(predicate, s@, count),
        decreases s@.len() - count,
    {
        match chars.next() {
            Some(c) => {
                assert(c == s@[count]);
                if predicate(&c) {
                    proof {
                        lemma_encode_concat(s@.take(count), seq![c]);
                        assert(s@.take(count + 1) =~= s@.take(count) + seq![c]);
                        lemma_encode_single(c);
                        lemma_prefix_boundary(s@, count + 1);
                        assert(s@.skip(count).drop_first() =~= s@.skip(count + 1));
                    }
                    length = length + len_utf8(c);
                    proof {
                        count = count + 1;
                    }
                } else {
                    break ;
                }
            },
            None => {
                break ;
            },
        }
    }
    length
}

pub fn is_whitespace(c: &char) -> (held: bool)
    ensures
        held == whitespace(*c),
{
    c.is_whitespace()
}

pub fn is_identifier_start(c: &char) -> (held: bool)
    ensures
        held == identifier_start(*c),
{
    c.is_alphabetic() || *c == '_'
}

pub fn is_identifier(c: &char) -> (held: bool)
    ensures
        held == identifier(*c),
{
    c.is_alphanumeric() || *c == '_'
}

pub fn is_decimal_digit(c: &char) -> (held: bool)
    ensures
        held == decimal_digit(*c),
{
    *c >= '0' && *c <= '9'
}

pub fn is_string_body(c: &char) -> (held: bool)
    ensures
        held == string_body(*c),
{
    *c != '"'
}

} // verus!
