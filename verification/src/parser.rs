//! The parser: precedence climbing over the token stream, emitting the
//! operations of the stack program as it goes.

use crate::error::Error;
use crate::expr::{Expr, Operation, OperationView};
use crate::tokenizer::{
    lemma_lex_advances, lex, precedence_of, res_view, seen_res, Lexeme, Token, TokenKind,
    TokenRes, TokenType, TokenTypeView, Tokenizer,
};
use vstd::prelude::*;
use vstd::string::StringExecFns;

verus! {

/// What a parsing step gives: the operations it emitted, and the place in the
/// source where it stopped reading.
pub struct Parsed {
    pub ops: Seq<OperationView>,
    pub pos: int,
}

/// A step that reads nothing and emits nothing.
pub open spec fn nothing(pos: int) -> Result<Parsed, Error> {
    Ok(Parsed { ops: Seq::empty(), pos })
}

/// The result `r` with `ops` emitted before it.
pub open spec fn after_ops(ops: Seq<OperationView>, r: Result<Parsed, Error>) -> Result<
    Parsed,
    Error,
> {
    match r {
        Ok(p) => Ok(Parsed { ops: ops + p.ops, pos: p.pos }),
        Err(e) => Err(e),
    }
}

/// The result `r` with `op` emitted after it.
pub open spec fn emit_after(r: Result<Parsed, Error>, op: OperationView) -> Result<Parsed, Error> {
    match r {
        Ok(p) => Ok(Parsed { ops: p.ops.push(op), pos: p.pos }),
        Err(e) => Err(e),
    }
}

/// How much of the source is left to read from `pos`.
pub open spec fn left(src: Seq<char>, pos: int) -> nat {
    if pos <= src.len() {
        (src.len() - pos) as nat
    } else {
        0
    }
}

/// Whether a token of this kind closes a group or a list.
pub open spec fn closes(kind: TokenKind) -> bool {
    kind == TokenKind::ParenC || kind == TokenKind::BraceC
}

/// The operation that a token emits when it stands for a value on its own.
pub open spec fn value_op(tt: TokenTypeView) -> Option<OperationView> {
    match tt.kind {
        TokenKind::Number => Some(OperationView::Num(tt.number)),
        TokenKind::Word => Some(OperationView::Word(tt.word)),
        TokenKind::P => Some(OperationView::P),
        TokenKind::F => Some(OperationView::Fudge),
        TokenKind::L => Some(OperationView::L),
        TokenKind::H => Some(OperationView::H),
        _ => None,
    }
}

/// The operation that an operator between two operands emits.
pub open spec fn binary_op(kind: TokenKind) -> Option<OperationView> {
    match kind {
        TokenKind::Colon => Some(OperationView::Label),
        TokenKind::D => Some(OperationView::D),
        TokenKind::Add => Some(OperationView::Add),
        TokenKind::Sub => Some(OperationView::Sub),
        TokenKind::Range => Some(OperationView::Range),
        TokenKind::Equal => Some(OperationView::Equal),
        TokenKind::Less => Some(OperationView::Less),
        TokenKind::Greater => Some(OperationView::Greater),
        TokenKind::As => Some(OperationView::As),
        TokenKind::Append => Some(OperationView::Append),
        TokenKind::LowestN => Some(OperationView::LowestN),
        TokenKind::HighestN => Some(OperationView::HighestN),
        _ => None,
    }
}

/// An expression read from `pos`: a value, then every binary continuation
/// that binds tighter than `prec`.
pub open spec fn parse_expr_at(src: Seq<char>, pos: int, prec: int) -> Result<Parsed, Error>
    decreases left(src, pos), 3int,
{
    match parse_unary_at(src, pos) {
        Err(e) => Err(e),
        Ok(first) => if first.pos < pos {
            // A value never ends before it starts; the test keeps the
            // definition well founded.
            Ok(first)
        } else {
            after_ops(first.ops, parse_tail_at(src, first.pos, prec))
        },
    }
}

/// The binary continuations from `pos` that bind tighter than `prec`, one
/// after another. The end of the input, a closing delimiter, or an operator
/// that binds no tighter than `prec` ends them.
pub open spec fn parse_tail_at(src: Seq<char>, pos: int, prec: int) -> Result<Parsed, Error>
    decreases left(src, pos), 2int,
{
    match lex(src, pos) {
        Err(e) => Err(e),
        Ok(None) => nothing(pos),
        Ok(Some(tok)) => {
            let tp = precedence_of(tok.tt.kind);
            if closes(tok.tt.kind) || tp <= prec {
                nothing(pos)
            } else {
                match parse_binary_at(src, pos, tp) {
                    Err(e) => Err(e),
                    Ok(first) => if first.pos <= pos {
                        // A continuation always moves on; the test keeps the
                        // definition well founded.
                        Ok(first)
                    } else {
                        after_ops(first.ops, parse_tail_at(src, first.pos, prec))
                    },
                }
            }
        },
    }
}

/// One binary continuation at `pos`: an operator that binds at least as
/// tight as `prec`, its right operand read at the operator's own precedence,
/// and then the operator's operation. The count sign takes no right operand.
/// An operator that binds less tight, or a closing delimiter, is left alone.
pub open spec fn parse_binary_at(src: Seq<char>, pos: int, prec: int) -> Result<Parsed, Error>
    decreases left(src, pos), 1int,
{
    match lex(src, pos) {
        Err(e) => Err(e),
        Ok(None) => Err(Error::ExpectedOperator(None)),
        Ok(Some(tok)) => {
            let kind = tok.tt.kind;
            let tp = precedence_of(kind);
            if tp < prec || closes(kind) {
                nothing(pos)
            } else if kind == TokenKind::Count {
                Ok(Parsed { ops: seq![OperationView::Count], pos: tok.end })
            } else {
                match binary_op(kind) {
                    Some(op) => {
                        proof {
                            lemma_lex_advances(src, pos);
                        }
                        emit_after(parse_expr_at(src, tok.end, tp), op)
                    },
                    None => Err(Error::ExpectedOperator(Some(kind))),
                }
            }
        },
    }
}

/// One value at `pos`: a literal or a nullary keyword; `$` before a value,
/// for a variable; `d` before an expression, for one die; a list in
/// brackets; or an expression in parentheses.
pub open spec fn parse_unary_at(src: Seq<char>, pos: int) -> Result<Parsed, Error>
    decreases left(src, pos), 0int,
{
    match lex(src, pos) {
        Err(e) => Err(e),
        Ok(None) => Err(Error::ExpectedValue(None)),
        Ok(Some(tok)) => {
            proof {
                lemma_lex_advances(src, pos);
            }
            match tok.tt.kind {
                TokenKind::Dollar => emit_after(parse_unary_at(src, tok.end), OperationView::Var),
                TokenKind::D => after_ops(
                    seq![OperationView::Num(1)],
                    emit_after(
                        parse_expr_at(src, tok.end, precedence_of(TokenKind::D)),
                        OperationView::D,
                    ),
                ),
                TokenKind::BraceO => parse_list_at(src, tok.end, 0),
                TokenKind::ParenO => match parse_expr_at(src, tok.end, 0) {
                    Err(e) => Err(e),
                    Ok(inner) => match lex(src, inner.pos) {
                        Err(e) => Err(e),
                        Ok(Some(close)) => if close.tt.kind == TokenKind::ParenC {
                            Ok(Parsed { ops: inner.ops, pos: close.end })
                        } else {
                            Err(Error::MissingClosingParen)
                        },
                        Ok(None) => Err(Error::MissingClosingParen),
                    },
                },
                kind => match value_op(tok.tt) {
                    Some(op) => Ok(Parsed { ops: seq![op], pos: tok.end }),
                    None => Err(Error::ExpectedValue(Some(kind))),
                },
            }
        },
    }
}

/// The rest of a list from `pos`, `n` items having been read: values, with
/// or without a comma before each, up to the closing bracket, and then the
/// operation that gathers them.
pub open spec fn parse_list_at(src: Seq<char>, pos: int, n: int) -> Result<Parsed, Error>
    decreases left(src, pos), 1int,
{
    match lex(src, pos) {
        Err(e) => Err(e),
        Ok(None) => Err(Error::UnclosedList),
        Ok(Some(tok)) => {
            proof {
                lemma_lex_advances(src, pos);
            }
            if tok.tt.kind == TokenKind::BraceC {
                if n > i32::MAX {
                    Err(Error::Overflow)
                } else {
                    Ok(Parsed { ops: seq![OperationView::List(n)], pos: tok.end })
                }
            } else {
                let at = if tok.tt.kind == TokenKind::Comma {
                    tok.end
                } else {
                    pos
                };
                match parse_unary_at(src, at) {
                    Err(e) => Err(e),
                    Ok(item) => if item.pos <= pos {
                        // A value always moves on; the test keeps the
                        // definition well founded.
                        Ok(item)
                    } else {
                        after_ops(item.ops, parse_list_at(src, item.pos, n + 1))
                    },
                }
            }
        },
    }
}

/// A value ends after the place it starts, inside the source.
pub proof fn lemma_unary_advances(src: Seq<char>, pos: int)
    ensures
        parse_unary_at(src, pos) matches Ok(p) ==> 0 <= pos < p.pos <= src.len(),
    decreases left(src, pos), 0int,
{
    lemma_lex_advances(src, pos);
    if let Ok(Some(tok)) = lex(src, pos) {
        match tok.tt.kind {
            TokenKind::Dollar => {
                lemma_unary_advances(src, tok.end);
            },
            TokenKind::D => {
                lemma_expr_advances(src, tok.end, precedence_of(TokenKind::D));
            },
            TokenKind::BraceO => {
                lemma_list_advances(src, tok.end, 0);
            },
            TokenKind::ParenO => {
                lemma_expr_advances(src, tok.end, 0);
                if let Ok(inner) = parse_expr_at(src, tok.end, 0) {
                    lemma_lex_advances(src, inner.pos);
                }
            },
            _ => {},
        }
    }
}

/// An expression ends after the place it starts, inside the source, and is
/// its value followed by its binary continuations.
pub proof fn lemma_expr_advances(src: Seq<char>, pos: int, prec: int)
    ensures
        parse_expr_at(src, pos, prec) matches Ok(p) ==> 0 <= pos < p.pos <= src.len(),
        parse_expr_at(src, pos, prec) == match parse_unary_at(src, pos) {
            Err(e) => Err(e),
            Ok(first) => after_ops(first.ops, parse_tail_at(src, first.pos, prec)),
        },
    decreases left(src, pos), 3int,
{
    lemma_unary_advances(src, pos);
    if let Ok(first) = parse_unary_at(src, pos) {
        lemma_tail_advances(src, first.pos, prec);
    }
}

/// The binary continuations of an expression end at or after the place they
/// start, and are the first of them followed by the rest.
pub proof fn lemma_tail_advances(src: Seq<char>, pos: int, prec: int)
    requires
        0 <= pos <= src.len(),
    ensures
        parse_tail_at(src, pos, prec) matches Ok(p) ==> pos <= p.pos <= src.len(),
        parse_tail_at(src, pos, prec) == match lex(src, pos) {
            Err(e) => Err(e),
            Ok(None) => nothing(pos),
            Ok(Some(tok)) => if closes(tok.tt.kind) || precedence_of(tok.tt.kind) <= prec {
                nothing(pos)
            } else {
                match parse_binary_at(src, pos, precedence_of(tok.tt.kind)) {
                    Err(e) => Err(e),
                    Ok(first) => after_ops(first.ops, parse_tail_at(src, first.pos, prec)),
                }
            },
        },
    decreases left(src, pos), 2int,
{
    lemma_lex_advances(src, pos);
    if let Ok(Some(tok)) = lex(src, pos) {
        let tp = precedence_of(tok.tt.kind);
        if !(closes(tok.tt.kind) || tp <= prec) {
            lemma_binary_advances(src, pos, tp);
            if let Ok(first) = parse_binary_at(src, pos, tp) {
                lemma_tail_advances(src, first.pos, prec);
            }
        }
    }
}

/// A binary continuation ends at or after the place it starts, and after it
/// where it reads an operator.
pub proof fn lemma_binary_advances(src: Seq<char>, pos: int, prec: int)
    requires
        0 <= pos <= src.len(),
    ensures
        parse_binary_at(src, pos, prec) matches Ok(p) ==> pos <= p.pos <= src.len() && ((
            ParserView { src, pos, target: Seq::empty() }).at_operator(prec) ==> pos < p.pos),
    decreases left(src, pos), 1int,
{
    lemma_lex_advances(src, pos);
    if let Ok(Some(tok)) = lex(src, pos) {
        let tp = precedence_of(tok.tt.kind);
        if !(tp < prec || closes(tok.tt.kind)) && tok.tt.kind != TokenKind::Count && binary_op(
            tok.tt.kind,
        ) is Some {
            lemma_expr_advances(src, tok.end, tp);
        }
    }
}

/// The rest of a list ends after the place it starts, inside the source,
/// and is its next value followed by what is left of the list.
pub proof fn lemma_list_advances(src: Seq<char>, pos: int, n: int)
    ensures
        parse_list_at(src, pos, n) matches Ok(p) ==> 0 <= pos < p.pos <= src.len(),
        parse_list_at(src, pos, n) == match lex(src, pos) {
            Err(e) => Err(e),
            Ok(None) => Err(Error::UnclosedList),
            Ok(Some(tok)) => if tok.tt.kind == TokenKind::BraceC {
                if n > i32::MAX {
                    Err(Error::Overflow)
                } else {
                    Ok(Parsed { ops: seq![OperationView::List(n)], pos: tok.end })
                }
            } else {
                match parse_unary_at(
                    src,
                    if tok.tt.kind == TokenKind::Comma {
                        tok.end
                    } else {
                        pos
                    },
                ) {
                    Err(e) => Err(e),
                    Ok(item) => after_ops(item.ops, parse_list_at(src, item.pos, n + 1)),
                }
            },
        },
    decreases left(src, pos), 1int,
{
    lemma_lex_advances(src, pos);
    if let Ok(Some(tok)) = lex(src, pos) {
        if tok.tt.kind != TokenKind::BraceC {
            let at = if tok.tt.kind == TokenKind::Comma {
                tok.end
            } else {
                pos
            };
            lemma_unary_advances(src, at);
            if let Ok(item) = parse_unary_at(src, at) {
                lemma_list_advances(src, item.pos, n + 1);
            }
        }
    }
}

/// The program that a source text stands for: the operations of the
/// expression at its start.
pub open spec fn parse(src: Seq<char>) -> Result<Seq<OperationView>, Error> {
    match parse_expr_at(src, 0, 0) {
        Ok(p) => Ok(p.ops),
        Err(e) => Err(e),
    }
}

/// The mathematical model of a [`Parser`].
pub struct ParserView {
    /// The source text.
    pub src: Seq<char>,
    /// The place from which the next token is read.
    pub pos: int,
    /// The operations emitted so far.
    pub target: Seq<OperationView>,
}

impl ParserView {
    /// Whether `r` and `after` are what a parsing method leaves when the
    /// step it is to make is `want`. On success the parser stands where the
    /// step stopped, with the operations of the step emitted after those it
    /// held. On failure the error is that of the step; the source is the
    /// same, and the operations held before are still there.
    pub open spec fn parsed(
        self,
        want: Result<Parsed, Error>,
        r: Result<(), Error>,
        after: ParserView,
    ) -> bool {
        match want {
            Ok(p) => r is Ok && after == (ParserView {
                src: self.src,
                pos: p.pos,
                target: self.target + p.ops,
            }),
            Err(e) => r == Err::<(), Error>(e) && after.src == self.src
                && self.target.is_prefix_of(after.target),
        }
    }

    /// Whether a binary continuation asked for at the precedence `prec`
    /// reads an operator here: a token stands next that binds at least as
    /// tight and closes nothing.
    pub open spec fn at_operator(self, prec: int) -> bool {
        lex(self.src, self.pos) matches Ok(Some(tok)) && precedence_of(tok.tt.kind) >= prec
            && !closes(tok.tt.kind)
    }
}

/// Reads tokens from a source text and emits the stack program they stand
/// for.
pub struct Parser<'a> {
    t: Tokenizer<'a>,
    peek: Option<Token<'a>>,
    target: Expr,
    cursor: Ghost<int>,
}

impl<'a> View for Parser<'a> {
    type V = ParserView;

    closed spec fn view(&self) -> ParserView {
        ParserView { src: self.t@.src, pos: self.cursor@, target: self.target@ }
    }
}

impl<'a> Parser<'a> {
    /// Whether the parser is in order: the token it holds in reserve, if
    /// any, is the one that stands next in the source.
    pub closed spec fn wf(&self) -> bool {
        &&& self.t.wf()
        &&& 0 <= self.cursor@ <= self.t@.src.len()
        &&& match self.peek {
            Some(tok) => lex(self.t@.src, self.cursor@) matches Ok(Some(l)) && tok@ == l.seen(
                self.t@.src,
            ) && self.t@.pos == l.end,
            None => self.t@.pos == self.cursor@ || (lex(self.t@.src, self.cursor@) == Ok::<
                Option<Lexeme>,
                Error,
            >(None) && self.t@.pos == self.t@.src.len()),
        }
    }

    /// A parser at the start of `s`, with nothing emitted.
    pub fn new(s: &'a str) -> (p: Parser<'a>)
        ensures
            p.wf(),
            p@ == (ParserView { src: s@, pos: 0, target: Seq::empty() }),
    {
        Parser { t: Tokenizer::new(s), peek: None, target: Expr::new(), cursor: Ghost(0) }
    }

    /// Emits an operation.
    pub fn emit(&mut self, op: Operation)
        requires
            old(self).wf(),
        ensures
            final(self).wf(),
            final(self)@ == (ParserView { target: old(self)@.target.push(op@), ..old(self)@ }),
    {
        self.target.ops.push(op);
        assert(self.target@ =~= old(self).target@.push(op@));
    }

    /// Reads the next token.
    pub fn next_token(&mut self) -> (r: TokenRes<'a>)
        requires
            old(self).wf(),
        ensures
            final(self).wf(),
            res_view(r) == seen_res(old(self)@.src, lex(old(self)@.src, old(self)@.pos)),
            match lex(old(self)@.src, old(self)@.pos) {
                Ok(Some(l)) => final(self)@ == (ParserView { pos: l.end, ..old(self)@ }),
                _ => final(self)@ == old(self)@,
            },
    {
        let ghost found = lex(self.t@.src, self.cursor@);
        proof {
            lemma_lex_advances(self.t@.src, self.cursor@);
            self.t.lemma_wf();
        }
        match self.peek {
            Some(t) => {
                self.peek = None;
                self.cursor = Ghost(found->Ok_0->0.end);
                Ok(Some(t))
            },
            None => {
                let r = self.t.next();
                proof {
                    self.t.lemma_wf();
                }
                match r {
                    Ok(Some(t)) => {
                        self.cursor = Ghost(found->Ok_0->0.end);
                    },
                    _ => {},
                }
                r
            },
        }
    }

    /// The next token, which stays to be read.
    pub fn peek_token(&mut self) -> (r: TokenRes<'a>)
        requires
            old(self).wf(),
        ensures
            final(self).wf(),
            res_view(r) == seen_res(old(self)@.src, lex(old(self)@.src, old(self)@.pos)),
            final(self)@ == old(self)@,
    {
        match self.peek {
            Some(t) => Ok(Some(t)),
            None => {
                let r = self.t.next();
                proof {
                    self.t.lemma_wf();
                }
                match r {
                    Ok(Some(t)) => {
                        self.peek = Some(t);
                    },
                    _ => {},
                }
                r
            },
        }
    }

    /// The type of the next token, which stays to be read; none at the end
    /// of the input or where no token can be read.
    pub fn peek_type(&mut self) -> (r: Option<TokenType<'a>>)
        requires
            old(self).wf(),
        ensures
            final(self).wf(),
            final(self)@ == old(self)@,
            match lex(old(self)@.src, old(self)@.pos) {
                Ok(Some(t)) => r matches Some(tt) && tt@ == t.tt,
                _ => r is None,
            },
    {
        match self.peek_token() {
            Err(_) => None,
            Ok(Some(t)) => Some(t.tt),
            Ok(None) => None,
        }
    }

    /// Reads the next token if it is `tt`. Any other token, or the end of the
    /// input, is an error and stays to be read.
    pub fn consume_token(&mut self, tt: TokenType<'a>) -> (r: Result<(), Error>)
        requires
            old(self).wf(),
        ensures
            final(self).wf(),
            match lex(old(self)@.src, old(self)@.pos) {
                Err(e) => r == Err::<(), Error>(e) && final(self)@ == old(self)@,
                Ok(None) => r == Err::<(), Error>(Error::ExpectedOperator(None)) && final(self)@
                    == old(self)@,
                Ok(Some(t)) => if t.tt == tt@ {
                    r is Ok && final(self)@ == (ParserView { pos: t.end, ..old(self)@ })
                } else {
                    r == Err::<(), Error>(Error::ExpectedOperator(Some(t.tt.kind))) && final(self)@
                        == old(self)@
                },
            },
    {
        let t = match self.peek_token() {
            Err(e) => {
                return Err(e);
            },
            Ok(None) => {
                return Err(Error::ExpectedOperator(None));
            },
            Ok(Some(t)) => t,
        };
        if t.tt.same(&tt) {
            let _ = self.next_token();
            Ok(())
        } else {
            Err(Error::ExpectedOperator(Some(t.tt.kind())))
        }
    }

    /// Parses an expression: a value, then every binary continuation that
    /// binds tighter than `prec`.
    pub fn expr(&mut self, prec: i32) -> (r: Result<(), Error>)
        requires
            old(self).wf(),
        ensures
            final(self).wf(),
            old(self)@.parsed(
                parse_expr_at(old(self)@.src, old(self)@.pos, prec as int),
                r,
                final(self)@,
            ),
            r is Ok ==> final(self)@.pos > old(self)@.pos,
        decreases left(old(self)@.src, old(self)@.pos), 3int,
    {
        let ghost entry = self@;
        let ghost src = self@.src;
        let ghost want = parse_expr_at(src, entry.pos, prec as int);
        match self.unary() {
            Err(e) => {
                return Err(e);
            },
            Ok(_) => {},
        }
        let ghost mut acc = parse_unary_at(src, entry.pos)->Ok_0.ops;
        loop
            invariant
                self.wf(),
                entry == old(self)@,
                src == entry.src,
                want == parse_expr_at(src, entry.pos, prec as int),
                self@.src == src,
                self@.pos > entry.pos,
                self@.target == entry.target + acc,
                want == after_ops(acc, parse_tail_at(src, self@.pos, prec as int)),
            decreases left(src, self@.pos),
        {
            let ghost before = self@;
            proof {
                lemma_lex_advances(src, before.pos);
            }
            let t = match self.peek_token() {
                Err(e) => {
                    return Err(e);
                },
                Ok(None) => {
                    assert(acc + Seq::<OperationView>::empty() =~= acc);
                    return Ok(());
                },
                Ok(Some(t)) => t,
            };
            match t.tt {
                TokenType::BraceC | TokenType::ParenC => {
                    assert(acc + Seq::<OperationView>::empty() =~= acc);
                    return Ok(());
                },
                _ => {},
            }
            let tp = t.tt.precedence();
            if tp <= prec {
                assert(acc + Seq::<OperationView>::empty() =~= acc);
                return Ok(());
            }
            match self.binary(tp) {
                Err(e) => {
                    return Err(e);
                },
                Ok(_) => {},
            }
            proof {
                let first = parse_binary_at(src, before.pos, tp as int)->Ok_0;
                assert(before.at_operator(tp as int));
                let rest = parse_tail_at(src, first.pos, prec as int);
                assert(after_ops(acc, after_ops(first.ops, rest)) == after_ops(
                    acc + first.ops,
                    rest,
                )) by {
                    if rest is Ok {
                        assert(acc + (first.ops + rest->Ok_0.ops) =~= (acc + first.ops)
                            + rest->Ok_0.ops);
                    }
                }
                assert(self@.target =~= entry.target + (acc + first.ops));
                acc = acc + first.ops;
            }
        }
    }

    /// Parses one value.
    pub fn unary(&mut self) -> (r: Result<(), Error>)
        requires
            old(self).wf(),
        ensures
            final(self).wf(),
            old(self)@.parsed(parse_unary_at(old(self)@.src, old(self)@.pos), r, final(self)@),
            r is Ok ==> final(self)@.pos > old(self)@.pos,
        decreases left(old(self)@.src, old(self)@.pos), 0int,
    {
        let ghost entry = self@;
        let ghost src = self@.src;
        proof {
            lemma_lex_advances(src, entry.pos);
        }
        let t = match self.next_token() {
            Err(e) => {
                return Err(e);
            },
            Ok(None) => {
                return Err(Error::ExpectedValue(None));
            },
            Ok(Some(t)) => t,
        };
        match t.tt {
            TokenType::Number(n) => {
                self.emit(Operation::Num(n));
                assert(self@.target =~= entry.target + seq![OperationView::Num(n as int)]);
                Ok(())
            },
            TokenType::Word(w) => {
                self.emit(Operation::Word(String::from_str(w)));
                assert(self@.target =~= entry.target + seq![OperationView::Word(w@)]);
                Ok(())
            },
            TokenType::P => {
                self.emit(Operation::P);
                assert(self@.target =~= entry.target + seq![OperationView::P]);
                Ok(())
            },
            TokenType::F => {
                self.emit(Operation::Fudge);
                assert(self@.target =~= entry.target + seq![OperationView::Fudge]);
                Ok(())
            },
            TokenType::L => {
                self.emit(Operation::L);
                assert(self@.target =~= entry.target + seq![OperationView::L]);
                Ok(())
            },
            TokenType::H => {
                self.emit(Operation::H);
                assert(self@.target =~= entry.target + seq![OperationView::H]);
                Ok(())
            },
            TokenType::Dollar => {
                match self.unary() {
                    Err(e) => {
                        return Err(e);
                    },
                    Ok(_) => {},
                }
                self.emit(Operation::Var);
                proof {
                    let inner = parse_unary_at(src, lex(src, entry.pos)->Ok_0->0.end)->Ok_0;
                    assert(self@.target =~= entry.target + inner.ops.push(OperationView::Var));
                }
                Ok(())
            },
            TokenType::D => {
                self.emit(Operation::Num(1));
                let r = self.expr(TokenType::D.precedence());
                match r {
                    Err(e) => {
                        return Err(e);
                    },
                    Ok(_) => {},
                }
                self.emit(Operation::D);
                proof {
                    let inner = parse_expr_at(
                        src,
                        lex(src, entry.pos)->Ok_0->0.end,
                        precedence_of(TokenKind::D),
                    )->Ok_0;
                    assert(self@.target =~= entry.target + (seq![OperationView::Num(1)]
                        + inner.ops.push(OperationView::D)));
                }
                Ok(())
            },
            TokenType::BraceO => self.list(),
            TokenType::ParenO => {
                match self.expr(0) {
                    Err(e) => {
                        return Err(e);
                    },
                    Ok(_) => {},
                }
                proof {
                    lemma_lex_advances(src, self@.pos);
                }
                match self.consume_token(TokenType::ParenC) {
                    Ok(_) => Ok(()),
                    Err(Error::ExpectedOperator(_)) => Err(Error::MissingClosingParen),
                    Err(e) => Err(e),
                }
            },
            other => Err(Error::ExpectedValue(Some(other.kind()))),
        }
    }

    /// Parses one binary continuation: an operator that binds at least as
    /// tight as `prec`, with its right operand.
    pub fn binary(&mut self, prec: i32) -> (r: Result<(), Error>)
        requires
            old(self).wf(),
        ensures
            final(self).wf(),
            old(self)@.parsed(
                parse_binary_at(old(self)@.src, old(self)@.pos, prec as int),
                r,
                final(self)@,
            ),
            r is Ok && old(self)@.at_operator(prec as int) ==> final(self)@.pos > old(self)@.pos,
        decreases left(old(self)@.src, old(self)@.pos), 1int,
    {
        let ghost entry = self@;
        let ghost src = self@.src;
        proof {
            lemma_lex_advances(src, entry.pos);
        }
        let t = match self.peek_token() {
            Err(e) => {
                return Err(e);
            },
            Ok(None) => {
                return Err(Error::ExpectedOperator(None));
            },
            Ok(Some(t)) => t,
        };
        let tp = t.tt.precedence();
        if tp < prec {
            assert(self@.target =~= entry.target + Seq::<OperationView>::empty());
            return Ok(());
        }
        let op = match t.tt {
            TokenType::BraceC | TokenType::ParenC => {
                assert(self@.target =~= entry.target + Seq::<OperationView>::empty());
                return Ok(());
            },
            TokenType::Count => {
                let _ = self.next_token();
                self.emit(Operation::Count);
                assert(self@.target =~= entry.target + seq![OperationView::Count]);
                return Ok(());
            },
            TokenType::Colon => Operation::Label,
            TokenType::D => Operation::D,
            TokenType::Add => Operation::Add,
            TokenType::Sub => Operation::Sub,
            TokenType::Range => Operation::Range,
            TokenType::Equal => Operation::Equal,
            TokenType::Less => Operation::Less,
            TokenType::Greater => Operation::Greater,
            TokenType::As => Operation::As,
            TokenType::Append => Operation::Append,
            TokenType::LowestN => Operation::LowestN,
            TokenType::HighestN => Operation::HighestN,
            other => {
                return Err(Error::ExpectedOperator(Some(other.kind())));
            },
        };
        let _ = self.next_token();
        match self.expr(tp) {
            Err(e) => {
                return Err(e);
            },
            Ok(_) => {},
        }
        let ghost opv = op@;
        self.emit(op);
        proof {
            let inner = parse_expr_at(src, lex(src, entry.pos)->Ok_0->0.end, tp as int)->Ok_0;
            assert(self@.target =~= entry.target + inner.ops.push(opv));
        }
        Ok(())
    }

    /// Parses the rest of a list, after its opening bracket: values, with or
    /// without commas between, up to the closing bracket.
    pub fn list(&mut self) -> (r: Result<(), Error>)
        requires
            old(self).wf(),
        ensures
            final(self).wf(),
            old(self)@.parsed(parse_list_at(old(self)@.src, old(self)@.pos, 0), r, final(self)@),
            r is Ok ==> final(self)@.pos > old(self)@.pos,
        decreases left(old(self)@.src, old(self)@.pos), 1int,
    {
        let ghost entry = self@;
        let ghost src = self@.src;
        let ghost want = parse_list_at(src, entry.pos, 0);
        let ghost mut acc = Seq::<OperationView>::empty();
        let mut n: usize = 0;
        assert(entry.target + acc =~= entry.target);
        proof {
            self.t.lemma_wf();
        }
        loop
            invariant
                self.wf(),
                entry == old(self)@,
                src == entry.src,
                want == parse_list_at(src, entry.pos, 0),
                self@.src == src,
                self@.pos >= entry.pos,
                0 <= entry.pos,
                n <= self@.pos - entry.pos,
                self@.pos <= src.len() <= usize::MAX,
                self@.target == entry.target + acc,
                want == after_ops(acc, parse_list_at(src, self@.pos, n as int)),
            decreases left(src, self@.pos),
        {
            let ghost before = self@;
            proof {
                lemma_lex_advances(src, before.pos);
            }
            let t = match self.peek_token() {
                Err(e) => {
                    return Err(e);
                },
                Ok(None) => {
                    return Err(Error::UnclosedList);
                },
                Ok(Some(t)) => t,
            };
            match t.tt {
                TokenType::BraceC => {
                    let _ = self.next_token();
                    if n > i32::MAX as usize {
                        return Err(Error::Overflow);
                    }
                    self.emit(Operation::List(n as i32));
                    assert(self@.target =~= entry.target + (acc + seq![
                        OperationView::List(n as int),
                    ]));
                    return Ok(());
                },
                TokenType::Comma => {
                    let _ = self.next_token();
                },
                _ => {},
            }
            let ghost at = self@.pos;
            match self.unary() {
                Err(e) => {
                    return Err(e);
                },
                Ok(_) => {},
            }
            proof {
                lemma_lex_advances(src, at);
                let item = parse_unary_at(src, at)->Ok_0;
                let rest = parse_list_at(src, item.pos, n as int + 1);
                assert(after_ops(acc, after_ops(item.ops, rest)) == after_ops(
                    acc + item.ops,
                    rest,
                )) by {
                    if rest is Ok {
                        assert(acc + (item.ops + rest->Ok_0.ops) =~= (acc + item.ops)
                            + rest->Ok_0.ops);
                    }
                }
                assert(self@.target =~= entry.target + (acc + item.ops));
                acc = acc + item.ops;
            }
            n = n + 1;
        }
    }
}

/// Parses a source text into the program it stands for.
pub fn parse_expr(s: &str) -> (r: Result<Expr, Error>)
    ensures
        match r {
            Ok(e) => parse(s@) == Ok::<Seq<OperationView>, Error>(e@),
            Err(e) => parse(s@) == Err::<Seq<OperationView>, Error>(e),
        },
{
    let mut p = Parser::new(s);
    match p.expr(0) {
        Ok(_) => {
            assert(p@.target =~= parse_expr_at(s@, 0, 0)->Ok_0.ops);
            Ok(p.target)
        },
        Err(e) => Err(e),
    }
}

} // verus!
