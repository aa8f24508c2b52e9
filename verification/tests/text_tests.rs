use dice_expr::context::Context;
use dice_expr::dice::Value;
use dice_expr::error::{Error, ErrorKind, ValueKind};
use dice_expr::text::{chars_of, push_decimal};
use dice_expr::tokenizer::{read_tokens, TokenKind, TokenType};
use dice_expr::tracker::{write_trace, Tracker};

#[test]
fn chars_of_a_string() {
    assert_eq!(chars_of("aé京"), vec!['a', 'é', '京']);
    assert_eq!(chars_of(""), Vec::<char>::new());
}

#[test]
fn decimal_of_numbers() {
    for n in [0, 7, 10, 99, 100, 12345, -1, -10, -12345, i32::MAX, i32::MIN] {
        let mut s = String::new();
        push_decimal(&mut s, n);
        assert_eq!(s, format!("{}", n));
    }
    let mut s = String::from("n=");
    push_decimal(&mut s, -40);
    assert_eq!(s, "n=-40");
}

#[test]
fn trace_of_an_empty_context() {
    assert_eq!(Context::new().to_string(), "Rolls : \n");
    assert_eq!(Tracker::new().to_string(), "Rolls : \n");
}

#[test]
fn trace_with_rolls_stack_and_labels() {
    let mut ct = Context::new();
    ct.push_roll(Value::Num(4));
    ct.push_roll(Value::List(vec![Value::Num(1), Value::Num(2)]));
    ct.add_label("fish".to_string(), Value::Num(5));
    ct.add_label("cat".to_string(), Value::Word("tom".to_string()));
    assert_eq!(
        ct.to_string(),
        "Rolls : 4_ [1, 2]\nStack : 4_ [1, 2]\nfish 5\ncat tom\n"
    );
    ct.pop();
    ct.pop();
    assert_eq!(ct.to_string(), "Rolls : 4_ [1, 2]\nfish 5\ncat tom\n");
    let t = ct.into_tracker();
    assert_eq!(t.to_string(), "Rolls : 4_ [1, 2]\nfish 5\ncat tom\n");
}

#[test]
fn write_trace_appends() {
    let mut s = String::from(">");
    write_trace(&mut s, &vec![Value::Num(1)], &vec![], &vec![]);
    assert_eq!(s, ">Rolls : \nStack : 1\n");
}

#[test]
fn messages_of_errors() {
    assert_eq!(Error::UnterminatedQuote.message(), "unterminated quote");
    assert_eq!(Error::UnexpectedCharacter.message(), "unexpected character");
    assert_eq!(Error::EmptyNumber.message(), "no digits in number");
    assert_eq!(Error::NumberTooLarge.message(), "number too large");
    assert_eq!(Error::IncompleteOperator.message(), "incomplete operator");
    assert_eq!(Error::ExpectedValue(None).message(), "expected value, found end of input");
    assert_eq!(
        Error::ExpectedValue(Some(TokenKind::Add)).message(),
        "expected value, found +"
    );
    assert_eq!(
        Error::ExpectedOperator(Some(TokenKind::Number)).message(),
        "expected operator, found number"
    );
    assert_eq!(Error::UnclosedList.message(), "unclosed list");
    assert_eq!(Error::MissingClosingParen.message(), "missing closing paren");
    assert_eq!(Error::NothingOnStack.message(), "nothing on stack");
    assert_eq!(Error::NotEnoughElements.message(), "not enough elements");
    assert_eq!(Error::NotANumber(ValueKind::Word).message(), "cannot use word as number");
    assert_eq!(Error::NotANumber(ValueKind::Range).message(), "cannot use range as number");
    assert_eq!(Error::NotOrdered.message(), "words are not high or low");
    assert_eq!(Error::NoNumbers.message(), "no numbers in value");
    assert_eq!(Error::Overflow.message(), "number out of range");
    assert_eq!(Error::NegativeCount.message(), "negative number of dice");
    assert_eq!(Error::EmptyDie.message(), "die has no faces");
    assert_eq!(Error::VariableNotFound.message(), "variable not found");
    assert_eq!(Error::NoPreviousRoll.message(), "no previous roll");
}

#[test]
fn kinds_of_errors() {
    for e in [Error::ExpectedOperator(None), Error::ExpectedValue(None)] {
        assert_eq!(e.kind(), ErrorKind::Parse);
    }
    assert_eq!(ValueKind::List.name(), "list");
    assert_eq!(ValueKind::Num.name(), "number");
    assert_eq!(TokenKind::Append.name(), "++");
    assert_eq!(TokenKind::HighestN.name(), "h");
}

#[test]
fn read_tokens_stops_at_the_end_or_the_first_error() {
    let types: Vec<TokenType> = read_tokens("3d6 + x").iter().map(|t| t.tt).collect();
    assert_eq!(
        types,
        vec![
            TokenType::Number(3),
            TokenType::D,
            TokenType::Number(6),
            TokenType::Add,
            TokenType::Word("x"),
        ]
    );
    let types: Vec<TokenType> = read_tokens("1 + @ 2").iter().map(|t| t.tt).collect();
    assert_eq!(types, vec![TokenType::Number(1), TokenType::Add]);
    assert!(read_tokens("").is_empty());
}
