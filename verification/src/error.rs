//! The error taxonomy shared by the tokenizer, the parser and the evaluator.

use crate::tokenizer::TokenKind;
use vstd::prelude::*;
use vstd::string::StringExecFns;

verus! {

/// The broad class an [`Error`] belongs to.
#[derive(Clone, Copy, Debug, PartialEq, Eq)]
pub enum ErrorKind {
    /// Malformed source text.
    Lex,
    /// A grammar violation.
    Parse,
    /// The operand stack held too few values.
    Stack,
    /// An operand of the wrong kind.
    Type,
    /// An operand of the right kind with no usable content.
    Value,
    /// A variable that is not bound.
    Name,
    /// An operation that needs an earlier roll when none was made.
    State,
}

/// The kind of a value, as named in type errors.
#[derive(Clone, Copy, Debug, PartialEq, Eq)]
pub enum ValueKind {
    Num,
    Word,
    Range,
    List,
}

impl ValueKind {
    /// How a kind of value is named in messages.
    pub open spec fn name_spec(self) -> Seq<char> {
        match self {
            ValueKind::Num => "number"@,
            ValueKind::Word => "word"@,
            ValueKind::Range => "range"@,
            ValueKind::List => "list"@,
        }
    }

    /// How this kind of value is named in messages.
    pub fn name(&self) -> (s: &'static str)
        ensures
            s@ == self.name_spec(),
    {
        match self {
            ValueKind::Num => "number",
            ValueKind::Word => "word",
            ValueKind::Range => "range",
            ValueKind::List => "list",
        }
    }
}

/// How what was found in place of something expected is named in messages:
/// a token by its kind, the end of the input as such.
pub open spec fn found_name(found: Option<TokenKind>) -> Seq<char> {
    match found {
        Some(kind) => kind.name_spec(),
        None => "end of input"@,
    }
}

fn name_found(found: &Option<TokenKind>) -> (s: &'static str)
    ensures
        s@ == found_name(*found),
{
    match found {
        Some(kind) => kind.name(),
        None => "end of input",
    }
}

/// Every way in which tokenizing, parsing or evaluating can fail.
///
/// Each failure ends the evaluation that raised it.
#[derive(Clone, Copy, Debug, PartialEq, Eq)]
pub enum Error {
    /// A number was asked for where no digit stands.
    EmptyNumber,
    /// A digit run that does not fit in 32 bits.
    NumberTooLarge,
    /// The input ended inside a quoted word.
    UnterminatedQuote,
    /// A `.` or `=` that is not followed by its twin.
    IncompleteOperator,
    /// A character that starts no token.
    UnexpectedCharacter,
    /// A value was expected; the payload is the kind of token found, or
    /// `None` at the end of the input.
    ExpectedValue(Option<TokenKind>),
    /// An operator was expected; the payload is the kind of token found, or
    /// `None` at the end of the input.
    ExpectedOperator(Option<TokenKind>),
    /// The input ended inside a list.
    UnclosedList,
    /// A group was opened and not closed.
    MissingClosingParen,
    /// A pop or a peek on an empty stack.
    NothingOnStack,
    /// More values were asked for than the stack holds.
    NotEnoughElements,
    /// A value of this kind cannot be used as a number.
    NotANumber(ValueKind),
    /// Words have no highest or lowest.
    NotOrdered,
    /// No number was found where one was needed.
    NoNumbers,
    /// An integer result that does not fit in 32 bits.
    Overflow,
    /// A negative number of dice.
    NegativeCount,
    /// A die with no faces to land on.
    EmptyDie,
    /// A variable that is not bound.
    VariableNotFound,
    /// A reference to the previous roll before any roll was made.
    NoPreviousRoll,
}

impl Error {
    /// The class of this error.
    pub open spec fn kind_spec(self) -> ErrorKind {
        match self {
            Error::EmptyNumber
            | Error::NumberTooLarge
            | Error::UnterminatedQuote
            | Error::IncompleteOperator
            | Error::UnexpectedCharacter => ErrorKind::Lex,
            Error::ExpectedValue(_)
            | Error::ExpectedOperator(_)
            | Error::UnclosedList
            | Error::MissingClosingParen => ErrorKind::Parse,
            Error::NothingOnStack | Error::NotEnoughElements => ErrorKind::Stack,
            Error::NotANumber(_) | Error::NotOrdered => ErrorKind::Type,
            Error::NoNumbers
            | Error::Overflow
            | Error::NegativeCount
            | Error::EmptyDie => ErrorKind::Value,
            Error::VariableNotFound => ErrorKind::Name,
            Error::NoPreviousRoll => ErrorKind::State,
        }
    }

    /// What went wrong, in words.
    pub open spec fn message_spec(self) -> Seq<char> {
        match self {
            Error::EmptyNumber => "no digits in number"@,
            Error::NumberTooLarge => "number too large"@,
            Error::UnterminatedQuote => "unterminated quote"@,
            Error::IncompleteOperator => "incomplete operator"@,
            Error::UnexpectedCharacter => "unexpected character"@,
            Error::ExpectedValue(found) => "expected value, found "@ + found_name(found),
            Error::ExpectedOperator(found) => "expected operator, found "@ + found_name(found),
            Error::UnclosedList => "unclosed list"@,
            Error::MissingClosingParen => "missing closing paren"@,
            Error::NothingOnStack => "nothing on stack"@,
            Error::NotEnoughElements => "not enough elements"@,
            Error::NotANumber(kind) => "cannot use "@ + kind.name_spec() + " as number"@,
            Error::NotOrdered => "words are not high or low"@,
            Error::NoNumbers => "no numbers in value"@,
            Error::Overflow => "number out of range"@,
            Error::NegativeCount => "negative number of dice"@,
            Error::EmptyDie => "die has no faces"@,
            Error::VariableNotFound => "variable not found"@,
            Error::NoPreviousRoll => "no previous roll"@,
        }
    }

    /// What went wrong, in words.
    pub fn message(&self) -> (s: String)
        ensures
            s@ == self.message_spec(),
    {
        match self {
            Error::EmptyNumber => String::from_str("no digits in number"),
            Error::NumberTooLarge => String::from_str("number too large"),
            Error::UnterminatedQuote => String::from_str("unterminated quote"),
            Error::IncompleteOperator => String::from_str("incomplete operator"),
            Error::UnexpectedCharacter => String::from_str("unexpected character"),
            Error::ExpectedValue(found) => String::from_str("expected value, found ").concat(
                name_found(found),
            ),
            Error::ExpectedOperator(found) => String::from_str("expected operator, found ").concat(
                name_found(found),
            ),
            Error::UnclosedList => String::from_str("unclosed list"),
            Error::MissingClosingParen => String::from_str("missing closing paren"),
            Error::NothingOnStack => String::from_str("nothing on stack"),
            Error::NotEnoughElements => String::from_str("not enough elements"),
            Error::NotANumber(kind) => String::from_str("cannot use ").concat(kind.name()).concat(
                " as number",
            ),
            Error::NotOrdered => String::from_str("words are not high or low"),
            Error::NoNumbers => String::from_str("no numbers in value"),
            Error::Overflow => String::from_str("number out of range"),
            Error::NegativeCount => String::from_str("negative number of dice"),
            Error::EmptyDie => String::from_str("die has no faces"),
            Error::VariableNotFound => String::from_str("variable not found"),
            Error::NoPreviousRoll => String::from_str("no previous roll"),
        }
    }

    /// The class of this error.
    pub fn kind(&self) -> (k: ErrorKind)
        ensures
            k == self.kind_spec(),
    {
        match self {
            Error::EmptyNumber
            | Error::NumberTooLarge
            | Error::UnterminatedQuote
            | Error::IncompleteOperator
            | Error::UnexpectedCharacter => ErrorKind::Lex,
            Error::ExpectedValue(_)
            | Error::ExpectedOperator(_)
            | Error::UnclosedList
            | Error::MissingClosingParen => ErrorKind::Parse,
            Error::NothingOnStack | Error::NotEnoughElements => ErrorKind::Stack,
            Error::NotANumber(_) | Error::NotOrdered => ErrorKind::Type,
            Error::NoNumbers
            | Error::Overflow
            | Error::NegativeCount
            | Error::EmptyDie => ErrorKind::Value,
            Error::VariableNotFound => ErrorKind::Name,
            Error::NoPreviousRoll => ErrorKind::State,
        }
    }
}

} // verus!
