use dice_expr::error::{Error, ErrorKind};
use dice_expr::tokenizer::{utf8_width, Token, TokenKind, TokenType, Tokenizer};

fn all(s: &str) -> Vec<TokenType<'_>> {
    let mut tk = Tokenizer::new(s);
    let mut out = Vec::new();
    while let Some(t) = tk.next().unwrap() {
        out.push(t.tt);
    }
    out
}

fn first_error(s: &str) -> Error {
    let mut tk = Tokenizer::new(s);
    loop {
        match tk.next() {
            Ok(Some(_)) => {}
            Ok(None) => panic!("no error in {:?}", s),
            Err(e) => return e,
        }
    }
}

#[test]
pub fn test_tokenizer() {
    let s = r#""hello" 29+food3"#;
    let mut tk = Tokenizer::new(s);
    let mut t = tk.next().unwrap().unwrap();
    assert_eq!(t.start, 0);
    assert_eq!(t.end, 7);
    assert_eq!(t.s, r#""hello""#);
    assert_eq!(t.tt, TokenType::Word("hello"));
    t = tk.next().unwrap().unwrap();
    assert_eq!(t.tt, TokenType::Number(29));
    t = tk.next().unwrap().unwrap();
    assert_eq!(t.tt, TokenType::Add, "Gobble");
    t = tk.next().unwrap().unwrap();
    assert_eq!(t.tt, TokenType::Word("food"));
    t = tk.next().unwrap().unwrap();
    assert_eq!(t.tt, TokenType::Number(3));
    assert!(tk.next().unwrap().is_none());
}

#[test]
fn tokens_carry_their_text_and_place() {
    let mut tk = Tokenizer::new("  12 +\tfish");
    assert_eq!(
        tk.next(),
        Ok(Some(Token { s: "12", tt: TokenType::Number(12), start: 2, end: 4 }))
    );
    assert_eq!(tk.next(), Ok(Some(Token { s: "+", tt: TokenType::Add, start: 5, end: 6 })));
    assert_eq!(
        tk.next(),
        Ok(Some(Token { s: "fish", tt: TokenType::Word("fish"), start: 7, end: 11 }))
    );
    assert_eq!(tk.next(), Ok(None));
    assert_eq!(tk.next(), Ok(None));
}

#[test]
fn empty_and_blank_sources_hold_no_token() {
    assert_eq!(Tokenizer::new("").next(), Ok(None));
    assert_eq!(Tokenizer::new(" \t\r\n ").next(), Ok(None));
    assert_eq!(Tokenizer::new("\u{a0}\u{2003}").next(), Ok(None));
}

#[test]
fn punctuation() {
    assert_eq!(
        all("( ) [ ] $ - : , ! < > + ++ .. =="),
        vec![
            TokenType::ParenO,
            TokenType::ParenC,
            TokenType::BraceO,
            TokenType::BraceC,
            TokenType::Dollar,
            TokenType::Sub,
            TokenType::Colon,
            TokenType::Comma,
            TokenType::Count,
            TokenType::Less,
            TokenType::Greater,
            TokenType::Add,
            TokenType::Append,
            TokenType::Range,
            TokenType::Equal,
        ]
    );
}

#[test]
fn plus_signs_pair_up_from_the_left() {
    assert_eq!(all("+++"), vec![TokenType::Append, TokenType::Add]);
    assert_eq!(all("++++"), vec![TokenType::Append, TokenType::Append]);
    assert_eq!(all("+ +"), vec![TokenType::Add, TokenType::Add]);
}

#[test]
fn keywords() {
    assert_eq!(
        all("d D h K l k H L P F as push pop"),
        vec![
            TokenType::D,
            TokenType::D,
            TokenType::HighestN,
            TokenType::HighestN,
            TokenType::LowestN,
            TokenType::LowestN,
            TokenType::H,
            TokenType::L,
            TokenType::P,
            TokenType::F,
            TokenType::As,
            TokenType::Push,
            TokenType::Pop,
        ]
    );
}

#[test]
fn from_word_resolves_keywords_only() {
    assert_eq!(TokenType::from_word("d"), TokenType::D);
    assert_eq!(TokenType::from_word("as"), TokenType::As);
    assert_eq!(TokenType::from_word("push"), TokenType::Push);
    assert_eq!(TokenType::from_word("pop"), TokenType::Pop);
    assert_eq!(TokenType::from_word("dd"), TokenType::Word("dd"));
    assert_eq!(TokenType::from_word("As"), TokenType::Word("As"));
    assert_eq!(TokenType::from_word("pus"), TokenType::Word("pus"));
    assert_eq!(TokenType::from_word("pushy"), TokenType::Word("pushy"));
    assert_eq!(TokenType::from_word("x"), TokenType::Word("x"));
    assert_eq!(TokenType::from_word(""), TokenType::Word(""));
}

#[test]
fn identifiers_are_alphabetic_or_underscore() {
    assert_eq!(all("foo_bar"), vec![TokenType::Word("foo_bar")]);
    assert_eq!(all("_x"), vec![TokenType::Word("_x")]);
    assert_eq!(all("épée"), vec![TokenType::Word("épée")]);
    assert_eq!(all("ab12cd"), vec![
        TokenType::Word("ab"),
        TokenType::Number(12),
        TokenType::Word("cd"),
    ]);
}

#[test]
fn places_count_bytes() {
    let mut tk = Tokenizer::new("é+\"ñu\" 京");
    assert_eq!(tk.next(), Ok(Some(Token { s: "é", tt: TokenType::Word("é"), start: 0, end: 2 })));
    assert_eq!(tk.next(), Ok(Some(Token { s: "+", tt: TokenType::Add, start: 2, end: 3 })));
    assert_eq!(
        tk.next(),
        Ok(Some(Token { s: "\"ñu\"", tt: TokenType::Word("ñu"), start: 3, end: 8 }))
    );
    assert_eq!(
        tk.next(),
        Ok(Some(Token { s: "京", tt: TokenType::Word("京"), start: 9, end: 12 }))
    );
    assert_eq!(tk.next(), Ok(None));
    assert_eq!(tk.peek_index(), 12);
}

#[test]
fn token_text_is_the_source_between_its_places() {
    let src = "  \"a𝄞b\"+d\u{10348}x 12";
    let mut tk = Tokenizer::new(src);
    let mut n = 0;
    while let Some(t) = tk.next().unwrap() {
        assert_eq!(t.s, &src[t.start..t.end]);
        n += 1;
    }
    assert_eq!(n, 4);
}

#[test]
fn utf8_width_of_characters() {
    for c in ['a', '\u{7f}', '\u{80}', 'é', '\u{7ff}', '\u{800}', '京', '\u{ffff}', '\u{10000}', '𝄞'] {
        assert_eq!(utf8_width(c), c.len_utf8());
    }
}

#[test]
fn dice_notation() {
    assert_eq!(
        all("3d6+2"),
        vec![
            TokenType::Number(3),
            TokenType::D,
            TokenType::Number(6),
            TokenType::Add,
            TokenType::Number(2),
        ]
    );
}

#[test]
fn quoted_words_keep_what_is_inside() {
    assert_eq!(all("\"a b+1\""), vec![TokenType::Word("a b+1")]);
    assert_eq!(all("\"\""), vec![TokenType::Word("")]);
    assert_eq!(all("\"d\""), vec![TokenType::Word("d")]);
}

#[test]
fn unterminated_quote_is_a_lex_error() {
    assert_eq!(first_error("\"abc"), Error::UnterminatedQuote);
    assert_eq!(first_error("1 + \""), Error::UnterminatedQuote);
    assert_eq!(Error::UnterminatedQuote.kind(), ErrorKind::Lex);
}

#[test]
fn unexpected_character_is_a_lex_error() {
    assert_eq!(first_error("@"), Error::UnexpectedCharacter);
    assert_eq!(first_error("1 # 2"), Error::UnexpectedCharacter);
    assert_eq!(first_error("{1}"), Error::UnexpectedCharacter);
    assert_eq!(Error::UnexpectedCharacter.kind(), ErrorKind::Lex);
}

#[test]
fn lone_dot_or_equals_is_a_lex_error() {
    assert_eq!(first_error("1.2"), Error::IncompleteOperator);
    assert_eq!(first_error("."), Error::IncompleteOperator);
    assert_eq!(first_error("1=2"), Error::IncompleteOperator);
    assert_eq!(first_error("= ="), Error::IncompleteOperator);
    assert_eq!(Error::IncompleteOperator.kind(), ErrorKind::Lex);
}

#[test]
fn numbers_must_fit_in_32_bits() {
    assert_eq!(all("2147483647"), vec![TokenType::Number(2147483647)]);
    assert_eq!(all("0000000000000012"), vec![TokenType::Number(12)]);
    assert_eq!(first_error("2147483648"), Error::NumberTooLarge);
    assert_eq!(first_error("99999999999999999999999999"), Error::NumberTooLarge);
    assert_eq!(Error::NumberTooLarge.kind(), ErrorKind::Lex);
}

#[test]
fn number_without_digits_is_a_lex_error() {
    let mut tk = Tokenizer::new("abc");
    assert_eq!(tk.number(), Err(Error::EmptyNumber));
    assert_eq!(Error::EmptyNumber.kind(), ErrorKind::Lex);
    assert_eq!(tk.next().unwrap().unwrap().tt, TokenType::Word("abc"));
}

#[test]
fn an_error_is_given_again() {
    let mut tk = Tokenizer::new("1 @");
    assert_eq!(tk.next().unwrap().unwrap().tt, TokenType::Number(1));
    assert_eq!(tk.next(), Err(Error::UnexpectedCharacter));
    assert_eq!(tk.next(), Err(Error::UnexpectedCharacter));
    assert_eq!(tk.peek_index(), 1);
}

#[test]
fn characters_come_with_their_place_in_bytes() {
    let mut tk = Tokenizer::new("éa京");
    assert_eq!(tk.peek_char(), Some((0, 'é')));
    assert_eq!(tk.next_char(), Some((0, 'é')));
    assert_eq!(tk.peek_index(), 2);
    assert_eq!(tk.next_char(), Some((2, 'a')));
    assert_eq!(tk.next_char(), Some((3, '京')));
    assert_eq!(tk.next_char(), None);
    assert_eq!(tk.peek_index(), 6);
}

#[test]
fn characters_one_by_one() {
    let mut tk = Tokenizer::new("ab");
    assert_eq!(tk.peek_char(), Some((0, 'a')));
    assert_eq!(tk.peek_index(), 0);
    assert_eq!(tk.next_char(), Some((0, 'a')));
    assert_eq!(tk.peek_char(), Some((1, 'b')));
    assert_eq!(tk.next_char(), Some((1, 'b')));
    assert_eq!(tk.peek_char(), None);
    assert_eq!(tk.next_char(), None);
    assert_eq!(tk.peek_index(), 2);
}

#[test]
fn make_token_spans_from_the_last_token() {
    let mut tk = Tokenizer::new("abcdef");
    tk.next_char();
    tk.next_char();
    assert_eq!(
        tk.make_token(TokenType::Add),
        Token { s: "ab", tt: TokenType::Add, start: 0, end: 2 }
    );
    assert_eq!(
        tk.make_token_wrap(TokenType::Sub, true),
        Ok(Some(Token { s: "c", tt: TokenType::Sub, start: 2, end: 3 }))
    );
    assert_eq!(
        tk.make_token_wrap(TokenType::Sub, false),
        Ok(Some(Token { s: "", tt: TokenType::Sub, start: 3, end: 3 }))
    );
}

#[test]
fn white_space_then_word_methods() {
    let mut tk = Tokenizer::new("  \"q\" w 7");
    tk.white_space();
    assert_eq!(tk.peek_index(), 2);
    assert_eq!(
        tk.qoth(),
        Ok(Some(Token { s: "  \"q\"", tt: TokenType::Word("q"), start: 0, end: 5 }))
    );
    tk.white_space();
    assert_eq!(
        tk.unqoth(),
        Ok(Some(Token { s: " w", tt: TokenType::Word("w"), start: 5, end: 7 }))
    );
    tk.white_space();
    assert_eq!(
        tk.number(),
        Ok(Some(Token { s: " 7", tt: TokenType::Number(7), start: 7, end: 9 }))
    );
}

#[test]
fn precedence_orders_the_operators() {
    assert_eq!(TokenType::Comma.precedence(), -1);
    assert_eq!(TokenType::ParenC.precedence(), -1);
    assert_eq!(TokenType::BraceC.precedence(), -1);
    assert_eq!(TokenType::Number(5).precedence(), 1);
    assert_eq!(TokenType::Word("w").precedence(), 1);
    assert_eq!(TokenType::Colon.precedence(), 1);
    assert_eq!(TokenType::HighestN.precedence(), 2);
    assert_eq!(TokenType::Pop.precedence(), 2);
    assert_eq!(TokenType::Push.precedence(), 3);
    assert_eq!(TokenType::Add.precedence(), 4);
    assert_eq!(TokenType::Append.precedence(), 4);
    assert_eq!(TokenType::Sub.precedence(), 5);
    assert_eq!(TokenType::D.precedence(), 9);
    assert_eq!(TokenType::Range.precedence(), 10);
    assert_eq!(TokenType::ParenO.precedence(), 11);
    assert_eq!(TokenType::BraceO.precedence(), 11);
    assert_eq!(TokenType::Dollar.precedence(), 12);
    let chain = [
        TokenType::Equal,
        TokenType::LowestN,
        TokenType::Push,
        TokenType::Add,
        TokenType::Sub,
        TokenType::D,
        TokenType::Range,
        TokenType::ParenO,
        TokenType::Dollar,
    ];
    for w in chain.windows(2) {
        assert!(w[0].precedence() < w[1].precedence());
    }
}

#[test]
fn same_compares_kind_and_payload() {
    assert!(TokenType::Add.same(&TokenType::Add));
    assert!(!TokenType::Add.same(&TokenType::Append));
    assert!(TokenType::Number(3).same(&TokenType::Number(3)));
    assert!(!TokenType::Number(3).same(&TokenType::Number(4)));
    assert!(TokenType::Word("ab").same(&TokenType::Word("ab")));
    assert!(!TokenType::Word("ab").same(&TokenType::Word("ac")));
    assert!(!TokenType::Word("ab").same(&TokenType::Word("abc")));
    assert!(!TokenType::Word("d").same(&TokenType::D));
    assert!(TokenKind::Comma.same(&TokenKind::Comma));
    assert!(!TokenKind::Comma.same(&TokenKind::Colon));
}

#[test]
fn kind_drops_the_payload() {
    assert_eq!(TokenType::Number(5).kind(), TokenKind::Number);
    assert_eq!(TokenType::Word("w").kind(), TokenKind::Word);
    assert_eq!(TokenType::Append.kind(), TokenKind::Append);
}
