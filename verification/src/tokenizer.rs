//! The tokenizer: source text to typed tokens, one at a time.

use crate::error::Error;
use crate::text::{alphabetic, chars_of, is_alphabetic, is_whitespace, whitespace};
use vstd::prelude::*;
use vstd::string::{StrSliceExecFns, StringSliceAdditionalSpecFns};
use vstd::utf8::{char_is_scalar, encode_scalar, encode_utf8};

verus! {

/// The result of asking for a token: a token, the end of the input, or an
/// error.
pub type TokenRes<'a> = Result<Option<Token<'a>>, Error>;

/// The kind of a token, without the text or number it carries.
#[derive(Clone, Copy, Debug, PartialEq, Eq)]
pub enum TokenKind {
    D,
    L,
    H,
    P,
    F,
    Number,
    Word,
    Equal,
    Greater,
    Less,
    ParenO,
    ParenC,
    BraceO,
    BraceC,
    Dollar,
    Sub,
    Add,
    Append,
    Push,
    Pop,
    Range,
    Colon,
    Comma,
    Count,
    As,
    HighestN,
    LowestN,
}

impl TokenKind {
    /// How a kind of token is named in messages: by the sign or keyword that
    /// makes it, or by what it is.
    pub open spec fn name_spec(self) -> Seq<char> {
        match self {
            TokenKind::D => "d"@,
            TokenKind::L => "L"@,
            TokenKind::H => "H"@,
            TokenKind::P => "P"@,
            TokenKind::F => "F"@,
            TokenKind::Number => "number"@,
            TokenKind::Word => "word"@,
            TokenKind::Equal => "=="@,
            TokenKind::Greater => ">"@,
            TokenKind::Less => "<"@,
            TokenKind::ParenO => "("@,
            TokenKind::ParenC => ")"@,
            TokenKind::BraceO => "["@,
            TokenKind::BraceC => "]"@,
            TokenKind::Dollar => "$"@,
            TokenKind::Sub => "-"@,
            TokenKind::Add => "+"@,
            TokenKind::Append => "++"@,
            TokenKind::Push => "push"@,
            TokenKind::Pop => "pop"@,
            TokenKind::Range => ".."@,
            TokenKind::Colon => ":"@,
            TokenKind::Comma => ","@,
            TokenKind::Count => "!"@,
            TokenKind::As => "as"@,
            TokenKind::HighestN => "h"@,
            TokenKind::LowestN => "l"@,
        }
    }

    /// Whether the two kinds are the same.
    pub fn same(&self, other: &TokenKind) -> (r: bool)
        ensures
            r == (*self == *other),
    {
        match (self, other) {
            (TokenKind::D, TokenKind::D) => true,
            (TokenKind::L, TokenKind::L) => true,
            (TokenKind::H, TokenKind::H) => true,
            (TokenKind::P, TokenKind::P) => true,
            (TokenKind::F, TokenKind::F) => true,
            (TokenKind::Number, TokenKind::Number) => true,
            (TokenKind::Word, TokenKind::Word) => true,
            (TokenKind::Equal, TokenKind::Equal) => true,
            (TokenKind::Greater, TokenKind::Greater) => true,
            (TokenKind::Less, TokenKind::Less) => true,
            (TokenKind::ParenO, TokenKind::ParenO) => true,
            (TokenKind::ParenC, TokenKind::ParenC) => true,
            (TokenKind::BraceO, TokenKind::BraceO) => true,
            (TokenKind::BraceC, TokenKind::BraceC) => true,
            (TokenKind::Dollar, TokenKind::Dollar) => true,
            (TokenKind::Sub, TokenKind::Sub) => true,
            (TokenKind::Add, TokenKind::Add) => true,
            (TokenKind::Append, TokenKind::Append) => true,
            (TokenKind::Push, TokenKind::Push) => true,
            (TokenKind::Pop, TokenKind::Pop) => true,
            (TokenKind::Range, TokenKind::Range) => true,
            (TokenKind::Colon, TokenKind::Colon) => true,
            (TokenKind::Comma, TokenKind::Comma) => true,
            (TokenKind::Count, TokenKind::Count) => true,
            (TokenKind::As, TokenKind::As) => true,
            (TokenKind::HighestN, TokenKind::HighestN) => true,
            (TokenKind::LowestN, TokenKind::LowestN) => true,
            _ => false,
        }
    }

    /// How this kind of token is named in messages.
    pub fn name(&self) -> (s: &'static str)
        ensures
            s@ == self.name_spec(),
    {
        match self {
            TokenKind::D => "d",
            TokenKind::L => "L",
            TokenKind::H => "H",
            TokenKind::P => "P",
            TokenKind::F => "F",
            TokenKind::Number => "number",
            TokenKind::Word => "word",
            TokenKind::Equal => "==",
            TokenKind::Greater => ">",
            TokenKind::Less => "<",
            TokenKind::ParenO => "(",
            TokenKind::ParenC => ")",
            TokenKind::BraceO => "[",
            TokenKind::BraceC => "]",
            TokenKind::Dollar => "$",
            TokenKind::Sub => "-",
            TokenKind::Add => "+",
            TokenKind::Append => "++",
            TokenKind::Push => "push",
            TokenKind::Pop => "pop",
            TokenKind::Range => "..",
            TokenKind::Colon => ":",
            TokenKind::Comma => ",",
            TokenKind::Count => "!",
            TokenKind::As => "as",
            TokenKind::HighestN => "h",
            TokenKind::LowestN => "l",
        }
    }
}

/// The type of a token, with the number or word it carries.
#[derive(Clone, Copy, Debug, PartialEq)]
pub enum TokenType<'a> {
    D,
    L,
    H,
    P,
    F,
    Number(i32),
    Word(&'a str),
    Equal,
    Greater,
    Less,
    ParenO,
    ParenC,
    BraceO,
    BraceC,
    Dollar,
    Sub,
    Add,
    Append,
    Push,
    Pop,
    Range,
    Colon,
    Comma,
    Count,
    As,
    HighestN,
    LowestN,
}

/// The mathematical model of a [`TokenType`]: its kind, with the number of a
/// number token (zero for any other) and the text of a word token (empty for
/// any other).
pub struct TokenTypeView {
    pub kind: TokenKind,
    pub number: int,
    pub word: Seq<char>,
}

/// The token type of a kind that carries nothing.
pub open spec fn plain(kind: TokenKind) -> TokenTypeView {
    TokenTypeView { kind, number: 0, word: Seq::empty() }
}

/// The token type of a number.
pub open spec fn number_type(n: int) -> TokenTypeView {
    TokenTypeView { kind: TokenKind::Number, number: n, word: Seq::empty() }
}

/// The token type of a word.
pub open spec fn word_type(w: Seq<char>) -> TokenTypeView {
    TokenTypeView { kind: TokenKind::Word, number: 0, word: w }
}

impl<'a> View for TokenType<'a> {
    type V = TokenTypeView;

    open spec fn view(&self) -> TokenTypeView {
        match self {
            TokenType::D => plain(TokenKind::D),
            TokenType::L => plain(TokenKind::L),
            TokenType::H => plain(TokenKind::H),
            TokenType::P => plain(TokenKind::P),
            TokenType::F => plain(TokenKind::F),
            TokenType::Number(n) => number_type(*n as int),
            TokenType::Word(w) => word_type(w@),
            TokenType::Equal => plain(TokenKind::Equal),
            TokenType::Greater => plain(TokenKind::Greater),
            TokenType::Less => plain(TokenKind::Less),
            TokenType::ParenO => plain(TokenKind::ParenO),
            TokenType::ParenC => plain(TokenKind::ParenC),
            TokenType::BraceO => plain(TokenKind::BraceO),
            TokenType::BraceC => plain(TokenKind::BraceC),
            TokenType::Dollar => plain(TokenKind::Dollar),
            TokenType::Sub => plain(TokenKind::Sub),
            TokenType::Add => plain(TokenKind::Add),
            TokenType::Append => plain(TokenKind::Append),
            TokenType::Push => plain(TokenKind::Push),
            TokenType::Pop => plain(TokenKind::Pop),
            TokenType::Range => plain(TokenKind::Range),
            TokenType::Colon => plain(TokenKind::Colon),
            TokenType::Comma => plain(TokenKind::Comma),
            TokenType::Count => plain(TokenKind::Count),
            TokenType::As => plain(TokenKind::As),
            TokenType::HighestN => plain(TokenKind::HighestN),
            TokenType::LowestN => plain(TokenKind::LowestN),
        }
    }
}

/// How tightly a token of this kind binds; higher binds tighter. Closing
/// delimiters and the comma bind nothing.
pub open spec fn precedence_of(kind: TokenKind) -> int {
    match kind {
        TokenKind::Comma | TokenKind::ParenC | TokenKind::BraceC => -1,
        TokenKind::Colon
        | TokenKind::As
        | TokenKind::Count
        | TokenKind::Equal
        | TokenKind::Greater
        | TokenKind::Less
        | TokenKind::L
        | TokenKind::H
        | TokenKind::P
        | TokenKind::F
        | TokenKind::Number
        | TokenKind::Word => 1,
        TokenKind::HighestN | TokenKind::LowestN | TokenKind::Pop => 2,
        TokenKind::Push => 3,
        TokenKind::Add | TokenKind::Append => 4,
        TokenKind::Sub => 5,
        TokenKind::D => 9,
        TokenKind::Range => 10,
        TokenKind::ParenO | TokenKind::BraceO => 11,
        TokenKind::Dollar => 12,
    }
}

/// The token type of an identifier: that of the keyword it spells, or a word
/// holding the identifier itself.
pub open spec fn keyword(w: Seq<char>) -> TokenTypeView {
    if w =~= seq!['D'] || w =~= seq!['d'] {
        plain(TokenKind::D)
    } else if w =~= seq!['p', 'u', 's', 'h'] {
        plain(TokenKind::Push)
    } else if w =~= seq!['p', 'o', 'p'] {
        plain(TokenKind::Pop)
    } else if w =~= seq!['P'] {
        plain(TokenKind::P)
    } else if w =~= seq!['H'] {
        plain(TokenKind::H)
    } else if w =~= seq!['L'] {
        plain(TokenKind::L)
    } else if w =~= seq!['F'] {
        plain(TokenKind::F)
    } else if w =~= seq!['a', 's'] {
        plain(TokenKind::As)
    } else if w =~= seq!['l'] || w =~= seq!['k'] {
        plain(TokenKind::LowestN)
    } else if w =~= seq!['h'] || w =~= seq!['K'] {
        plain(TokenKind::HighestN)
    } else {
        word_type(w)
    }
}

impl<'a> TokenType<'a> {
    /// The kind of this token type.
    pub fn kind(&self) -> (k: TokenKind)
        ensures
            k == self@.kind,
    {
        match self {
            TokenType::D => TokenKind::D,
            TokenType::L => TokenKind::L,
            TokenType::H => TokenKind::H,
            TokenType::P => TokenKind::P,
            TokenType::F => TokenKind::F,
            TokenType::Number(_) => TokenKind::Number,
            TokenType::Word(_) => TokenKind::Word,
            TokenType::Equal => TokenKind::Equal,
            TokenType::Greater => TokenKind::Greater,
            TokenType::Less => TokenKind::Less,
            TokenType::ParenO => TokenKind::ParenO,
            TokenType::ParenC => TokenKind::ParenC,
            TokenType::BraceO => TokenKind::BraceO,
            TokenType::BraceC => TokenKind::BraceC,
            TokenType::Dollar => TokenKind::Dollar,
            TokenType::Sub => TokenKind::Sub,
            TokenType::Add => TokenKind::Add,
            TokenType::Append => TokenKind::Append,
            TokenType::Push => TokenKind::Push,
            TokenType::Pop => TokenKind::Pop,
            TokenType::Range => TokenKind::Range,
            TokenType::Colon => TokenKind::Colon,
            TokenType::Comma => TokenKind::Comma,
            TokenType::Count => TokenKind::Count,
            TokenType::As => TokenKind::As,
            TokenType::HighestN => TokenKind::HighestN,
            TokenType::LowestN => TokenKind::LowestN,
        }
    }

    /// Whether the two token types are the same: of one kind, and holding
    /// the same number or word.
    pub fn same(&self, other: &TokenType<'_>) -> (r: bool)
        ensures
            r == (self@ == other@),
    {
        match (self, other) {
            (TokenType::Number(a), TokenType::Number(b)) => *a == *b,
            (TokenType::Word(a), TokenType::Word(b)) => {
                let x = chars_of(a);
                let y = chars_of(b);
                if x.len() != y.len() {
                    return false;
                }
                let mut i: usize = 0;
                while i < x.len()
                    invariant
                        i <= x.len(),
                        x.len() == y.len(),
                        self@ == word_type(x@),
                        other@ == word_type(y@),
                        forall|k: int| 0 <= k < i ==> x@[k] == y@[k],
                    decreases x.len() - i,
                {
                    if x[i] != y[i] {
                        assert(x@[i as int] != y@[i as int]);
                        return false;
                    }
                    i += 1;
                }
                assert(x@ =~= y@);
                true
            },
            (a, b) => a.kind().same(&b.kind()),
        }
    }

    /// The token type of an identifier: a keyword if it spells one, else a
    /// word.
    pub fn from_word(s: &'a str) -> (tt: TokenType<'a>)
        ensures
            tt@ == keyword(s@),
    {
        let cs = chars_of(s);
        let n = cs.len();
        if n == 1 {
            let c = cs[0];
            assert(s@ =~= seq![c]);
            if c == 'D' || c == 'd' {
                TokenType::D
            } else if c == 'P' {
                TokenType::P
            } else if c == 'H' {
                TokenType::H
            } else if c == 'L' {
                TokenType::L
            } else if c == 'F' {
                TokenType::F
            } else if c == 'l' || c == 'k' {
                TokenType::LowestN
            } else if c == 'h' || c == 'K' {
                TokenType::HighestN
            } else {
                TokenType::Word(s)
            }
        } else if n == 2 && cs[0] == 'a' && cs[1] == 's' {
            assert(s@ =~= seq!['a', 's']);
            TokenType::As
        } else if n == 3 && cs[0] == 'p' && cs[1] == 'o' && cs[2] == 'p' {
            assert(s@ =~= seq!['p', 'o', 'p']);
            TokenType::Pop
        } else if n == 4 && cs[0] == 'p' && cs[1] == 'u' && cs[2] == 's' && cs[3] == 'h' {
            assert(s@ =~= seq!['p', 'u', 's', 'h']);
            TokenType::Push
        } else {
            TokenType::Word(s)
        }
    }

    /// How tightly this token binds.
    pub fn precedence(&self) -> (p: i32)
        ensures
            p == precedence_of(self@.kind),
    {
        match self {
            TokenType::Comma => -1,
            TokenType::ParenC => -1,
            TokenType::BraceC => -1,
            TokenType::Colon => 1,
            TokenType::As => 1,
            TokenType::Count => 1,
            TokenType::Equal => 1,
            TokenType::Greater => 1,
            TokenType::Less => 1,
            TokenType::L => 1,
            TokenType::H => 1,
            TokenType::P => 1,
            TokenType::F => 1,
            TokenType::Number(_) => 1,
            TokenType::Word(_) => 1,
            TokenType::HighestN => 2,
            TokenType::LowestN => 2,
            TokenType::Pop => 2,
            TokenType::Push => 3,
            TokenType::Add => 4,
            TokenType::Append => 4,
            TokenType::Sub => 5,
            TokenType::D => 9,
            TokenType::Range => 10,
            TokenType::ParenO => 11,
            TokenType::BraceO => 11,
            TokenType::Dollar => 12,
        }
    }
}

/// A token: its type, the text it was read from, and where that text stands
/// in the source, counted in bytes.
#[derive(Clone, Copy, Debug, PartialEq)]
pub struct Token<'a> {
    pub s: &'a str,
    pub tt: TokenType<'a>,
    pub start: usize,
    pub end: usize,
}

/// The mathematical model of a [`Token`].
pub struct TokenView {
    pub text: Seq<char>,
    pub tt: TokenTypeView,
    pub start: int,
    pub end: int,
}

impl<'a> View for Token<'a> {
    type V = TokenView;

    open spec fn view(&self) -> TokenView {
        TokenView { text: self.s@, tt: self.tt@, start: self.start as int, end: self.end as int }
    }
}

/// A token as it stands in the characters of the source: its type, its
/// text, and the places of its first character and of the character after
/// its last.
pub struct Lexeme {
    pub text: Seq<char>,
    pub tt: TokenTypeView,
    pub start: int,
    pub end: int,
}

/// The place in bytes of the character at `i`: the length of the UTF-8
/// encoding of the characters before it.
pub open spec fn byte_offset(src: Seq<char>, i: int) -> int {
    encode_utf8(src.take(i)).len() as int
}

impl Lexeme {
    /// The token that this lexeme of `src` is given out as: the same type
    /// and text, with its places counted in bytes.
    pub open spec fn seen(self, src: Seq<char>) -> TokenView {
        TokenView {
            text: self.text,
            tt: self.tt,
            start: byte_offset(src, self.start),
            end: byte_offset(src, self.end),
        }
    }
}

/// The tokens that the result of reading the characters of `src` is given out
/// as.
pub open spec fn seen_res(src: Seq<char>, r: Result<Option<Lexeme>, Error>) -> Result<
    Option<TokenView>,
    Error,
> {
    match r {
        Ok(Some(l)) => Ok(Some(l.seen(src))),
        Ok(None) => Ok(None),
        Err(e) => Err(e),
    }
}

/// The model of the result of asking for a token.
pub open spec fn res_view(r: TokenRes) -> Result<Option<TokenView>, Error> {
    match r {
        Ok(Some(t)) => Ok(Some(t@)),
        Ok(None) => Ok(None),
        Err(e) => Err(e),
    }
}

/// A class of characters that a run is made of.
pub enum CharClass {
    /// White space.
    Space,
    /// The decimal digits.
    Digit,
    /// What an identifier is made of: alphabetic characters and `_`.
    Letter,
    /// What may stand inside quotes: anything but `"`.
    Quoted,
}

/// Whether `c` belongs to the class.
pub open spec fn in_class(class: CharClass, c: char) -> bool {
    match class {
        CharClass::Space => whitespace(c),
        CharClass::Digit => '0' <= c <= '9',
        CharClass::Letter => alphabetic(c) || c == '_',
        CharClass::Quoted => c != '"',
    }
}

/// Where the run of characters of a class that starts at `from` ends: the
/// first place at or after `from` that holds no character of the class.
pub open spec fn run_end(src: Seq<char>, from: int, class: CharClass) -> int
    decreases src.len() - from,
{
    if 0 <= from < src.len() && in_class(class, src[from]) {
        run_end(src, from + 1, class)
    } else {
        from
    }
}

/// The number that a run of decimal digits stands for.
pub open spec fn digits_value(s: Seq<char>) -> int
    decreases s.len(),
{
    if s.len() == 0 {
        0
    } else {
        digits_value(s.drop_last()) * 10 + (s.last() as int - '0' as int)
    }
}

/// The token of type `tt` read from `start` up to `end`.
pub open spec fn token(src: Seq<char>, start: int, end: int, tt: TokenTypeView) -> Lexeme {
    Lexeme { text: src.subrange(start, end), tt, start, end }
}

/// The number token whose digits start at `pos` and whose text starts at
/// `start`. It is an error if no digit stands at `pos`, or if the number
/// does not fit in 32 bits.
pub open spec fn lex_number(src: Seq<char>, start: int, pos: int) -> Result<
    Option<Lexeme>,
    Error,
> {
    let end = run_end(src, pos, CharClass::Digit);
    let value = digits_value(src.subrange(pos, end));
    if end == pos {
        Err(Error::EmptyNumber)
    } else if value > i32::MAX {
        Err(Error::NumberTooLarge)
    } else {
        Ok(Some(token(src, start, end, number_type(value))))
    }
}

/// The keyword or word token whose identifier starts at `pos` and whose text
/// starts at `start`.
pub open spec fn lex_word(src: Seq<char>, start: int, pos: int) -> Result<
    Option<Lexeme>,
    Error,
> {
    let end = run_end(src, pos, CharClass::Letter);
    Ok(Some(token(src, start, end, keyword(src.subrange(pos, end)))))
}

/// The word token of the quoted text whose opening quote stands at `pos`
/// and whose text starts at `start`: the word is what stands between the
/// quotes. It is an error if no closing quote follows.
pub open spec fn lex_quoted(src: Seq<char>, start: int, pos: int) -> Result<
    Option<Lexeme>,
    Error,
> {
    let inner = if pos < src.len() {
        pos + 1
    } else {
        pos
    };
    let close = run_end(src, inner, CharClass::Quoted);
    if close >= src.len() {
        Err(Error::UnterminatedQuote)
    } else {
        Ok(Some(token(src, start, close + 1, word_type(src.subrange(inner, close)))))
    }
}

/// The kind of the token that the punctuation character `c` makes on its
/// own, if it makes one.
pub open spec fn single(c: char) -> Option<TokenKind> {
    if c == '(' {
        Some(TokenKind::ParenO)
    } else if c == ')' {
        Some(TokenKind::ParenC)
    } else if c == '[' {
        Some(TokenKind::BraceO)
    } else if c == ']' {
        Some(TokenKind::BraceC)
    } else if c == '-' {
        Some(TokenKind::Sub)
    } else if c == '$' {
        Some(TokenKind::Dollar)
    } else if c == ':' {
        Some(TokenKind::Colon)
    } else if c == ',' {
        Some(TokenKind::Comma)
    } else if c == '<' {
        Some(TokenKind::Less)
    } else if c == '>' {
        Some(TokenKind::Greater)
    } else if c == '!' {
        Some(TokenKind::Count)
    } else {
        None
    }
}

/// The kind of the token that the punctuation character `c` makes only
/// when doubled, if it makes one.
pub open spec fn doubled(c: char) -> Option<TokenKind> {
    if c == '.' {
        Some(TokenKind::Range)
    } else if c == '=' {
        Some(TokenKind::Equal)
    } else {
        None
    }
}

/// The first token at or after `from`, if the input holds one.
///
/// White space before the token is passed over. A digit starts a number, a
/// quote a quoted word, an alphabetic character or `_` an identifier.
/// `+` is the addition sign, or the append sign when doubled; `.` and `=`
/// count only doubled. Any other character is an error.
pub open spec fn lex(src: Seq<char>, from: int) -> Result<Option<Lexeme>, Error> {
    let start = run_end(src, from, CharClass::Space);
    if !(0 <= start < src.len()) {
        Ok(None)
    } else {
        let c = src[start];
        let twin = start + 1 < src.len() && src[start + 1] == c;
        if in_class(CharClass::Digit, c) {
            lex_number(src, start, start)
        } else if c == '"' {
            lex_quoted(src, start, start)
        } else if single(c) is Some {
            Ok(Some(token(src, start, start + 1, plain(single(c)->0))))
        } else if c == '+' {
            if twin {
                Ok(Some(token(src, start, start + 2, plain(TokenKind::Append))))
            } else {
                Ok(Some(token(src, start, start + 1, plain(TokenKind::Add))))
            }
        } else if doubled(c) is Some {
            if twin {
                Ok(Some(token(src, start, start + 2, plain(doubled(c)->0))))
            } else {
                Err(Error::IncompleteOperator)
            }
        } else if in_class(CharClass::Letter, c) {
            lex_word(src, start, start)
        } else {
            Err(Error::UnexpectedCharacter)
        }
    }
}

/// A run of characters ends between where it starts and the end of the
/// source.
pub proof fn lemma_run_end_bounds(src: Seq<char>, from: int, class: CharClass)
    requires
        0 <= from <= src.len(),
    ensures
        from <= run_end(src, from, class) <= src.len(),
        from < src.len() && in_class(class, src[from]) ==> from < run_end(src, from, class),
    decreases src.len() - from,
{
    if from < src.len() && in_class(class, src[from]) {
        lemma_run_end_bounds(src, from + 1, class);
    }
}

/// A token lies inside the source and ends after the place it was asked for.
pub proof fn lemma_lex_advances(src: Seq<char>, pos: int)
    ensures
        lex(src, pos) matches Ok(Some(tok)) ==> 0 <= pos <= tok.start < tok.end <= src.len(),
{
    if 0 <= pos <= src.len() {
        lemma_run_end_bounds(src, pos, CharClass::Space);
        let start = run_end(src, pos, CharClass::Space);
        if start < src.len() {
            lemma_run_end_bounds(src, start, CharClass::Digit);
            lemma_run_end_bounds(src, start, CharClass::Letter);
            lemma_run_end_bounds(src, start + 1, CharClass::Quoted);
        }
    }
}

/// The tokens of the source from `from` on, up to the end of the input or
/// the first place where no token can be read.
pub open spec fn tokens_from(src: Seq<char>, from: int) -> Seq<Lexeme>
    decreases src.len() - from,
{
    match lex(src, from) {
        Ok(Some(tok)) => {
            proof {
                lemma_lex_advances(src, from);
            }
            seq![tok] + tokens_from(src, tok.end)
        },
        _ => Seq::empty(),
    }
}

/// The models of a sequence of tokens, item by item.
pub open spec fn token_views(s: Seq<Token>) -> Seq<TokenView> {
    Seq::new(s.len(), |i: int| s[i]@)
}

/// The tokens that a sequence of lexemes of `src` is given out as.
pub open spec fn seen_all(src: Seq<char>, l: Seq<Lexeme>) -> Seq<TokenView> {
    Seq::new(l.len(), |i: int| l[i].seen(src))
}

/// The tokens of `s`, up to its end or the first place where no token can be
/// read.
pub fn read_tokens(s: &str) -> (out: Vec<Token<'_>>)
    ensures
        token_views(out@) == seen_all(s@, tokens_from(s@, 0)),
{
    let mut t = Tokenizer::new(s);
    let mut out: Vec<Token<'_>> = Vec::new();
    let ghost mut done: Seq<Lexeme> = Seq::empty();
    assert(token_views(out@) =~= seen_all(s@, done));
    assert(done + tokens_from(s@, 0) =~= tokens_from(s@, 0));
    loop
        invariant
            t.wf(),
            t@.src == s@,
            token_views(out@) == seen_all(s@, done),
            tokens_from(s@, 0) == done + tokens_from(s@, t@.pos),
        decreases s@.len() - t@.pos,
    {
        let ghost before = t@.pos;
        let ghost had = token_views(out@);
        proof {
            lemma_lex_advances(s@, before);
            t.lemma_wf();
        }
        match t.next() {
            Ok(Some(tok)) => {
                out.push(tok);
                proof {
                    t.lemma_wf();
                    let l = lex(s@, before)->Ok_0->0;
                    assert(token_views(out@) =~= had.push(tok@));
                    assert(seen_all(s@, done.push(l)) =~= had.push(tok@));
                    assert(done + (seq![l] + tokens_from(s@, l.end)) =~= done.push(l) + tokens_from(
                        s@,
                        l.end,
                    ));
                    done = done.push(l);
                }
            },
            _ => {
                assert(done + Seq::<Lexeme>::empty() =~= done);
                return out;
            },
        }
    }
}

/// The UTF-8 encoding of one text after another is the encoding of the one
/// after that of the other.
pub proof fn lemma_encode_concat(a: Seq<char>, b: Seq<char>)
    ensures
        encode_utf8(a + b) == encode_utf8(a) + encode_utf8(b),
    decreases a.len(),
{
    if a.len() == 0 {
        assert(a + b =~= b);
        assert(encode_utf8(a) + encode_utf8(b) =~= encode_utf8(b));
    } else {
        lemma_encode_concat(a.drop_first(), b);
        assert((a + b).drop_first() =~= a.drop_first() + b);
        assert(encode_utf8(a + b) =~= encode_utf8(a) + encode_utf8(b));
    }
}

/// The place in bytes of a character is that of the character before it
/// plus the length of that character's encoding.
pub proof fn lemma_byte_offset_step(src: Seq<char>, i: int)
    requires
        0 <= i < src.len(),
    ensures
        byte_offset(src, i + 1) == byte_offset(src, i) + encode_scalar(src[i] as u32).len(),
{
    let one = seq![src[i]];
    assert(src.take(i + 1) =~= src.take(i) + one);
    lemma_encode_concat(src.take(i), one);
    assert(one.drop_first() =~= Seq::<char>::empty());
    assert(encode_utf8(Seq::<char>::empty()) =~= Seq::<u8>::empty());
    assert(one[0] == src[i]);
    assert(encode_utf8(one) =~= encode_scalar(src[i] as u32) + Seq::<u8>::empty());
}

/// No place in bytes lies beyond the length of the whole encoding.
pub proof fn lemma_byte_offset_bound(src: Seq<char>, i: int)
    requires
        0 <= i <= src.len(),
    ensures
        0 <= byte_offset(src, i) <= encode_utf8(src).len(),
{
    assert(src =~= src.take(i) + src.skip(i));
    lemma_encode_concat(src.take(i), src.skip(i));
}

/// The text of a token is what the source holds between the token's places
/// in bytes.
pub proof fn lemma_text_between_places(src: Seq<char>, start: int, end: int, tt: TokenTypeView)
    requires
        0 <= start <= end <= src.len(),
    ensures
        ({
            let t = token(src, start, end, tt).seen(src);
            &&& 0 <= t.start <= t.end <= encode_utf8(src).len()
            &&& encode_utf8(t.text) == encode_utf8(src).subrange(t.start, t.end)
        }),
{
    let head = src.take(start);
    let text = src.subrange(start, end);
    let tail = src.skip(end);
    assert(src.take(end) =~= head + text);
    assert(src =~= src.take(end) + tail);
    lemma_encode_concat(head, text);
    lemma_encode_concat(src.take(end), tail);
    assert(encode_utf8(text) =~= encode_utf8(src).subrange(
        encode_utf8(head).len() as int,
        encode_utf8(src.take(end)).len() as int,
    ));
}

/// The number of bytes that a character takes in UTF-8.
pub fn utf8_width(c: char) -> (n: usize)
    ensures
        n == encode_scalar(c as u32).len(),
        1 <= n <= 4,
{
    proof {
        char_is_scalar(c);
    }
    let v = c as u32;
    if v < 0x80 {
        1
    } else if v < 0x800 {
        2
    } else if v < 0x10000 {
        3
    } else {
        4
    }
}

/// The mathematical model of a [`Tokenizer`]. Its places count characters;
/// what the tokenizer gives out counts bytes.
pub struct TokenizerView {
    /// The source text.
    pub src: Seq<char>,
    /// The place of the character at which the token being read starts.
    pub start: int,
    /// The place of the next character to read.
    pub pos: int,
}

impl TokenizerView {
    /// This tokenizer moved on to `p`, with nothing of a token read yet.
    pub open spec fn at(self, p: int) -> TokenizerView {
        TokenizerView { src: self.src, start: p, pos: p }
    }

    /// This tokenizer with the next character to read at `p`.
    pub open spec fn reading(self, p: int) -> TokenizerView {
        TokenizerView { src: self.src, start: self.start, pos: p }
    }

    /// Whether `r` and `after` are what a reading method leaves when what it
    /// is to read is `want`: the result is `want`, with the places of a token
    /// counted in bytes; after a token the tokenizer stands at its end, and
    /// after an error it stands where it stood.
    pub open spec fn read(
        self,
        want: Result<Option<Lexeme>, Error>,
        r: Result<Option<TokenView>, Error>,
        after: TokenizerView,
    ) -> bool {
        &&& r == seen_res(self.src, want)
        &&& match want {
            Ok(Some(l)) => after == self.at(l.end),
            Ok(None) => after == self.at(self.src.len() as int),
            Err(_) => after == self,
        }
    }
}

/// Reads a source text token by token.
pub struct Tokenizer<'a> {
    s: &'a str,
    chars: Vec<char>,
    offsets: Vec<usize>,
    start: usize,
    pos: usize,
}

impl<'a> View for Tokenizer<'a> {
    type V = TokenizerView;

    closed spec fn view(&self) -> TokenizerView {
        TokenizerView { src: self.s@, start: self.start as int, pos: self.pos as int }
    }
}

impl<'a> Tokenizer<'a> {
    /// Whether the tokenizer is in order: it stands inside its source, and
    /// the token being read starts no later than the next character.
    pub closed spec fn wf(&self) -> bool {
        &&& self.chars@ == self.s@
        &&& self.start <= self.pos <= self.chars@.len() <= usize::MAX
        &&& self.offsets@.len() == self.chars@.len() + 1
        &&& forall|i: int|
            0 <= i <= self.chars@.len() ==> #[trigger] self.offsets@[i] == byte_offset(self.s@, i)
    }

    /// A tokenizer at the start of `s`.
    pub fn new(s: &'a str) -> (t: Tokenizer<'a>)
        ensures
            t.wf(),
            t@ == (TokenizerView { src: s@, start: 0, pos: 0 }),
    {
        let chars = chars_of(s);
        let bytes = s.as_bytes();
        let ghost src = s@;
        assert(chars@.len() == chars.len());
        assert(bytes@.len() == bytes.len());
        let mut offsets: Vec<usize> = Vec::new();
        let mut total: usize = 0;
        let mut i: usize = 0;
        assert(src.take(0) =~= Seq::<char>::empty());
        while i < chars.len()
            invariant
                i <= chars.len(),
                chars@ == src,
                encode_utf8(src).len() <= usize::MAX,
                offsets@.len() == i,
                total == byte_offset(src, i as int),
                forall|k: int| 0 <= k < i ==> #[trigger] offsets@[k] == byte_offset(src, k),
            decreases chars.len() - i,
        {
            proof {
                lemma_byte_offset_step(src, i as int);
                lemma_byte_offset_bound(src, i as int + 1);
            }
            offsets.push(total);
            total = total + utf8_width(chars[i]);
            i += 1;
        }
        offsets.push(total);
        Tokenizer { s, chars, offsets, start: 0, pos: 0 }
    }

    /// What holds of every tokenizer in order.
    pub proof fn lemma_wf(&self)
        requires
            self.wf(),
        ensures
            0 <= self@.start <= self@.pos <= self@.src.len() <= usize::MAX,
    {
    }

    /// Reads the next character, if there is one: its place in bytes and
    /// itself.
    pub fn next_char(&mut self) -> (r: Option<(usize, char)>)
        requires
            old(self).wf(),
        ensures
            final(self).wf(),
            match r {
                Some((i, c)) => old(self)@.pos < old(self)@.src.len() && i == byte_offset(
                    old(self)@.src,
                    old(self)@.pos,
                ) && c == old(self)@.src[old(self)@.pos] && final(self)@ == old(self)@.reading(
                    old(self)@.pos + 1,
                ),
                None => old(self)@.pos == old(self)@.src.len() && final(self)@ == old(self)@,
            },
    {
        if self.pos < self.chars.len() {
            let i = self.pos;
            self.pos = i + 1;
            Some((self.offsets[i], self.chars[i]))
        } else {
            None
        }
    }

    /// The next character, if there is one, with its place in bytes. Nothing
    /// is read.
    pub fn peek_char(&self) -> (r: Option<(usize, char)>)
        requires
            self.wf(),
        ensures
            match r {
                Some((i, c)) => self@.pos < self@.src.len() && i == byte_offset(
                    self@.src,
                    self@.pos,
                ) && c == self@.src[self@.pos],
                None => self@.pos == self@.src.len(),
            },
    {
        if self.pos < self.chars.len() {
            Some((self.offsets[self.pos], self.chars[self.pos]))
        } else {
            None
        }
    }

    /// The place in bytes of the next character, or the length of the source
    /// at its end.
    pub fn peek_index(&self) -> (i: usize)
        requires
            self.wf(),
        ensures
            i == byte_offset(self@.src, self@.pos),
    {
        self.offsets[self.pos]
    }

    /// Ends the token being read, after taking one more character into it
    /// when `unpeek` is set and one is left.
    pub fn make_token_wrap(&mut self, tt: TokenType<'a>, unpeek: bool) -> (r: TokenRes<'a>)
        requires
            old(self).wf(),
        ensures
            final(self).wf(),
            ({
                let end = if unpeek && old(self)@.pos < old(self)@.src.len() {
                    old(self)@.pos + 1
                } else {
                    old(self)@.pos
                };
                old(self)@.read(
                    Ok(Some(token(old(self)@.src, old(self)@.start, end, tt@))),
                    res_view(r),
                    final(self)@,
                )
            }),
    {
        if unpeek && self.pos < self.chars.len() {
            self.pos = self.pos + 1;
        }
        Ok(Some(self.make_token(tt)))
    }

    /// Ends the token being read: it has the type `tt` and the text from
    /// where it started up to the next character. The next token starts
    /// there.
    pub fn make_token(&mut self, tt: TokenType<'a>) -> (t: Token<'a>)
        requires
            old(self).wf(),
        ensures
            final(self).wf(),
            t@ == token(old(self)@.src, old(self)@.start, old(self)@.pos, tt@).seen(
                old(self)@.src,
            ),
            final(self)@ == old(self)@.at(old(self)@.pos),
    {
        let start = self.start;
        let end = self.pos;
        self.start = end;
        Token {
            start: self.offsets[start],
            end: self.offsets[end],
            s: self.s.substring_char(start, end),
            tt,
        }
    }

    /// Reads a number: the run of digits at the next character.
    pub fn number(&mut self) -> (r: TokenRes<'a>)
        requires
            old(self).wf(),
        ensures
            final(self).wf(),
            old(self)@.read(
                lex_number(old(self)@.src, old(self)@.start, old(self)@.pos),
                res_view(r),
                final(self)@,
            ),
    {
        let begin = self.pos;
        let ghost src = self.chars@;
        let mut res: i64 = 0;
        let mut large = false;
        assert(src.subrange(begin as int, begin as int) =~= Seq::<char>::empty());
        loop
            invariant
                self.wf(),
                src == self.chars@,
                self@.src == old(self)@.src,
                self.start == old(self).start,
                self.start <= old(self).pos,
                begin == old(self).pos,
                begin <= self.pos,
                run_end(src, begin as int, CharClass::Digit) == run_end(
                    src,
                    self.pos as int,
                    CharClass::Digit,
                ),
                0 <= res <= i32::MAX,
                !large ==> res == digits_value(src.subrange(begin as int, self.pos as int)),
                large ==> digits_value(src.subrange(begin as int, self.pos as int)) > i32::MAX,
            decreases src.len() - self.pos,
        {
            match self.peek_char() {
                Some((_, n)) if n >= '0' && n <= '9' => {
                    let i = self.pos;
                    proof {
                        let longer = src.subrange(begin as int, i as int + 1);
                        assert(longer.drop_last() =~= src.subrange(begin as int, i as int));
                        assert(longer.last() == n);
                    }
                    let d: i64 = (n as u32 - '0' as u32) as i64;
                    if !large {
                        res = res * 10 + d;
                        if res > i32::MAX as i64 {
                            large = true;
                            res = 0;
                        }
                    }
                    self.pos = i + 1;
                },
                _ => {
                    if self.pos == begin {
                        return Err(Error::EmptyNumber);
                    } else if large {
                        self.pos = begin;
                        return Err(Error::NumberTooLarge);
                    } else {
                        return self.make_token_wrap(TokenType::Number(res as i32), false);
                    }
                },
            }
        }
    }

    /// Reads an identifier: the run of alphabetic characters and `_` at the
    /// next character. It gives the keyword it spells, or a word.
    pub fn unqoth(&mut self) -> (r: TokenRes<'a>)
        requires
            old(self).wf(),
        ensures
            final(self).wf(),
            old(self)@.read(
                lex_word(old(self)@.src, old(self)@.start, old(self)@.pos),
                res_view(r),
                final(self)@,
            ),
    {
        let begin = self.pos;
        let ghost src = self.chars@;
        loop
            invariant
                self.wf(),
                src == self.chars@,
                self@.src == old(self)@.src,
                self.start == old(self).start,
                self.start <= old(self).pos,
                begin == old(self).pos,
                begin <= self.pos,
                run_end(src, begin as int, CharClass::Letter) == run_end(
                    src,
                    self.pos as int,
                    CharClass::Letter,
                ),
            decreases src.len() - self.pos,
        {
            match self.peek_char() {
                Some((_, c)) => {
                    if is_alphabetic(c) || c == '_' {
                        self.pos = self.pos + 1;
                    } else {
                        let tt = TokenType::from_word(self.s.substring_char(begin, self.pos));
                        return self.make_token_wrap(tt, false);
                    }
                },
                None => {
                    let tt = TokenType::from_word(self.s.substring_char(begin, self.pos));
                    return self.make_token_wrap(tt, false);
                },
            }
        }
    }

    /// Reads a quoted word: the next character is taken for the opening
    /// quote, and the word is what stands between it and the next quote.
    pub fn qoth(&mut self) -> (r: TokenRes<'a>)
        requires
            old(self).wf(),
        ensures
            final(self).wf(),
            old(self)@.read(
                lex_quoted(old(self)@.src, old(self)@.start, old(self)@.pos),
                res_view(r),
                final(self)@,
            ),
    {
        let entry = self.pos;
        if self.pos < self.chars.len() {
            self.pos = self.pos + 1;
        }
        let begin = self.pos;
        let ghost src = self.chars@;
        loop
            invariant
                self.wf(),
                src == self.chars@,
                self@.src == old(self)@.src,
                self.start == old(self).start,
                self.start <= old(self).pos,
                entry == old(self).pos,
                entry <= begin <= self.pos,
                begin == if entry < src.len() {
                    entry + 1
                } else {
                    entry as int
                },
                run_end(src, begin as int, CharClass::Quoted) == run_end(
                    src,
                    self.pos as int,
                    CharClass::Quoted,
                ),
            decreases src.len() - self.pos,
        {
            match self.next_char() {
                Some((_, c)) => {
                    if c == '"' {
                        let tt = TokenType::Word(self.s.substring_char(begin, self.pos - 1));
                        return self.make_token_wrap(tt, false);
                    }
                },
                None => {
                    self.pos = entry;
                    return Err(Error::UnterminatedQuote);
                },
            }
        }
    }

    /// Passes over white space.
    pub fn white_space(&mut self)
        requires
            old(self).wf(),
        ensures
            final(self).wf(),
            final(self)@ == old(self)@.reading(
                run_end(old(self)@.src, old(self)@.pos, CharClass::Space),
            ),
    {
        let ghost src = self.chars@;
        loop
            invariant
                self.wf(),
                src == self.chars@,
                self@.src == old(self)@.src,
                self.start == old(self).start,
                self.start <= old(self).pos,
                old(self).pos <= self.pos,
                run_end(src, old(self).pos as int, CharClass::Space) == run_end(
                    src,
                    self.pos as int,
                    CharClass::Space,
                ),
            decreases src.len() - self.pos,
        {
            match self.peek_char() {
                Some((_, c)) => {
                    if is_whitespace(c) {
                        self.pos = self.pos + 1;
                    } else {
                        return ;
                    }
                },
                None => {
                    return ;
                },
            }
        }
    }

    /// Reads the token that `c` makes when doubled; the next character is
    /// taken for the first `c`.
    fn follow(&mut self, c: char, tt: TokenType<'a>) -> (r: TokenRes<'a>)
        requires
            old(self).wf(),
            old(self)@.pos < old(self)@.src.len(),
        ensures
            final(self).wf(),
            ({
                let p = old(self)@.pos;
                let src = old(self)@.src;
                old(self)@.read(
                    if p + 1 < src.len() && src[p + 1] == c {
                        Ok(Some(token(src, old(self)@.start, p + 2, tt@)))
                    } else {
                        Err(Error::IncompleteOperator)
                    },
                    res_view(r),
                    final(self)@,
                )
            }),
    {
        let entry = self.pos;
        self.pos = self.pos + 1;
        match self.next_char() {
            Some((_, r)) if r == c => self.make_token_wrap(tt, false),
            _ => {
                self.pos = entry;
                Err(Error::IncompleteOperator)
            },
        }
    }

    /// Reads the token `tt` if the character after the next one is `c`, and
    /// the token `def` of one character if not.
    fn follow_def(&mut self, c: char, tt: TokenType<'a>, def: TokenType<'a>) -> (r: TokenRes<'a>)
        requires
            old(self).wf(),
            old(self)@.pos < old(self)@.src.len(),
        ensures
            final(self).wf(),
            ({
                let p = old(self)@.pos;
                let src = old(self)@.src;
                old(self)@.read(
                    if p + 1 < src.len() && src[p + 1] == c {
                        Ok(Some(token(src, old(self)@.start, p + 2, tt@)))
                    } else {
                        Ok(Some(token(src, old(self)@.start, p + 1, def@)))
                    },
                    res_view(r),
                    final(self)@,
                )
            }),
    {
        self.pos = self.pos + 1;
        match self.peek_char() {
            Some((_, r)) if r == c => self.make_token_wrap(tt, true),
            _ => self.make_token_wrap(def, false),
        }
    }

    /// Reads the next token.
    ///
    /// On success the tokenizer stands at the end of the token read, or at
    /// the end of the source when none is left. An error leaves it where it
    /// stood, so that asking again gives the same error.
    pub fn next(&mut self) -> (r: TokenRes<'a>)
        requires
            old(self).wf(),
        ensures
            final(self).wf(),
            old(self)@.read(lex(old(self)@.src, old(self)@.pos), res_view(r), final(self)@),
    {
        let entry_start = self.start;
        let entry_pos = self.pos;
        self.white_space();
        self.start = self.pos;
        let pc = match self.peek_char() {
            None => {
                return Ok(None);
            },
            Some(v) => v,
        };
        let c = pc.1;
        let r = if c >= '0' && c <= '9' {
            self.number()
        } else if c == '"' {
            self.qoth()
        } else if c == '(' {
            self.make_token_wrap(TokenType::ParenO, true)
        } else if c == ')' {
            self.make_token_wrap(TokenType::ParenC, true)
        } else if c == '[' {
            self.make_token_wrap(TokenType::BraceO, true)
        } else if c == ']' {
            self.make_token_wrap(TokenType::BraceC, true)
        } else if c == '+' {
            self.follow_def('+', TokenType::Append, TokenType::Add)
        } else if c == '-' {
            self.make_token_wrap(TokenType::Sub, true)
        } else if c == '$' {
            self.make_token_wrap(TokenType::Dollar, true)
        } else if c == ':' {
            self.make_token_wrap(TokenType::Colon, true)
        } else if c == ',' {
            self.make_token_wrap(TokenType::Comma, true)
        } else if c == '.' {
            self.follow('.', TokenType::Range)
        } else if c == '=' {
            self.follow('=', TokenType::Equal)
        } else if c == '<' {
            self.make_token_wrap(TokenType::Less, true)
        } else if c == '>' {
            self.make_token_wrap(TokenType::Greater, true)
        } else if c == '!' {
            self.make_token_wrap(TokenType::Count, true)
        } else if is_alphabetic(c) || c == '_' {
            self.unqoth()
        } else {
            Err(Error::UnexpectedCharacter)
        };
        if r.is_err() {
            self.pos = entry_pos;
            self.start = entry_start;
        }
        r
    }
}

} // verus!
