//! The stack program: the operations a parsed expression consists of, and
//! what each does to a context.

use crate::context::{Context, ContextView};
use crate::dice::{equal_to, greater_than, less_than, views, Order, Value, ValueView};
use crate::error::Error;
use vstd::prelude::*;

verus! {

/// One instruction of the stack machine.
#[derive(Debug, PartialEq, Eq)]
pub enum Operation {
    /// Push a number.
    Num(i32),
    /// Push a word.
    Word(String),
    /// Pop that many values and push them as one list.
    List(i32),
    /// Pop a name and push the value bound to it.
    Var,
    /// Pop two values and push the sum of their integers.
    Add,
    /// Pop two values and push the list of the items of both.
    Append,
    /// Pop two values and push the difference of their integers.
    Sub,
    /// Pop a value and push its integer negated.
    Neg,
    /// Push the lowest number of the previous roll.
    L,
    /// Push the highest number of the previous roll.
    H,
    /// Push the previous roll.
    P,
    /// Push the three faces of a fudge die.
    Fudge,
    /// Pop a die and a count, roll, and push and record the outcome.
    D,
    /// Pop a value and push its integer.
    Sum,
    /// Pop two values and push what of the first is equal to the second.
    Equal,
    /// Pop two values and push what of the first comes before the second.
    Less,
    /// Pop two values and push what of the first comes after the second.
    Greater,
    /// Pop two integers and push the range between them.
    Range,
    /// Pop two values and push the upper one back.
    Replace,
    /// Pop a value and push the number of its flattened items.
    Count,
    /// Pop a name and a value, bind the name to the value, and push the
    /// value back.
    As,
    /// Pop a value and a name, record the value under the name, and push the
    /// value back.
    Label,
    /// Pop a count and a value and push that many of its highest numbers.
    HighestN,
    /// Pop a count and a value and push that many of its lowest numbers.
    LowestN,
}

/// The mathematical model of an [`Operation`].
pub enum OperationView {
    Num(int),
    Word(Seq<char>),
    List(int),
    Var,
    Add,
    Append,
    Sub,
    Neg,
    L,
    H,
    P,
    Fudge,
    D,
    Sum,
    Equal,
    Less,
    Greater,
    Range,
    Replace,
    Count,
    As,
    Label,
    HighestN,
    LowestN,
}

impl View for Operation {
    type V = OperationView;

    open spec fn view(&self) -> OperationView {
        match self {
            Operation::Num(n) => OperationView::Num(*n as int),
            Operation::Word(s) => OperationView::Word(s@),
            Operation::List(n) => OperationView::List(*n as int),
            Operation::Var => OperationView::Var,
            Operation::Add => OperationView::Add,
            Operation::Append => OperationView::Append,
            Operation::Sub => OperationView::Sub,
            Operation::Neg => OperationView::Neg,
            Operation::L => OperationView::L,
            Operation::H => OperationView::H,
            Operation::P => OperationView::P,
            Operation::Fudge => OperationView::Fudge,
            Operation::D => OperationView::D,
            Operation::Sum => OperationView::Sum,
            Operation::Equal => OperationView::Equal,
            Operation::Less => OperationView::Less,
            Operation::Greater => OperationView::Greater,
            Operation::Range => OperationView::Range,
            Operation::Replace => OperationView::Replace,
            Operation::Count => OperationView::Count,
            Operation::As => OperationView::As,
            Operation::Label => OperationView::Label,
            Operation::HighestN => OperationView::HighestN,
            Operation::LowestN => OperationView::LowestN,
        }
    }
}

impl Clone for Operation {
    fn clone(&self) -> (out: Operation)
        ensures
            out@ == self@,
    {
        match self {
            Operation::Num(n) => Operation::Num(*n),
            Operation::Word(s) => Operation::Word(s.clone()),
            Operation::List(n) => Operation::List(*n),
            Operation::Var => Operation::Var,
            Operation::Add => Operation::Add,
            Operation::Append => Operation::Append,
            Operation::Sub => Operation::Sub,
            Operation::Neg => Operation::Neg,
            Operation::L => Operation::L,
            Operation::H => Operation::H,
            Operation::P => Operation::P,
            Operation::Fudge => Operation::Fudge,
            Operation::D => Operation::D,
            Operation::Sum => Operation::Sum,
            Operation::Equal => Operation::Equal,
            Operation::Less => Operation::Less,
            Operation::Greater => Operation::Greater,
            Operation::Range => Operation::Range,
            Operation::Replace => Operation::Replace,
            Operation::Count => Operation::Count,
            Operation::As => Operation::As,
            Operation::Label => Operation::Label,
            Operation::HighestN => Operation::HighestN,
            Operation::LowestN => Operation::LowestN,
        }
    }
}

/// The models of a sequence of operations, item by item.
pub open spec fn op_views(s: Seq<Operation>) -> Seq<OperationView> {
    Seq::new(s.len(), |i: int| s[i]@)
}

/// A number as a value, if it fits in 32 bits.
pub open spec fn fit(n: int) -> Result<ValueView, Error> {
    if i32::MIN <= n <= i32::MAX {
        Ok(ValueView::Num(n))
    } else {
        Err(Error::Overflow)
    }
}

/// The three faces of a fudge die.
pub open spec fn fudge_faces() -> ValueView {
    ValueView::List(seq![ValueView::Num(-1), ValueView::Num(0), ValueView::Num(1)])
}

/// The items a value brings to a concatenation: those of a list, or the
/// value itself.
pub open spec fn items_of(v: ValueView) -> Seq<ValueView> {
    match v {
        ValueView::List(l) => l,
        _ => seq![v],
    }
}

/// What comes of the integers of two values under `f`: the error of the
/// first if it stands for no integer, else that of the second, else the
/// result, which must fit in 32 bits.
pub open spec fn arith(a: ValueView, b: ValueView, f: spec_fn(int, int) -> int) -> Result<
    ValueView,
    Error,
> {
    match a.as_int() {
        Err(e) => Err(e),
        Ok(x) => match b.as_int() {
            Err(e) => Err(e),
            Ok(y) => fit(f(x, y)),
        },
    }
}

/// The `count` highest (`high`) or lowest numbers of `a`, best first, where
/// `count` is the integer of the second value and must not be negative.
pub open spec fn keep(a: ValueView, count: ValueView, high: bool) -> Result<ValueView, Error> {
    match count.as_int() {
        Err(e) => Err(e),
        Ok(n) => if n < 0 {
            Err(Error::NegativeCount)
        } else {
            a.keep(n as nat, high)
        },
    }
}

impl ContextView {
    /// The context after an operation that pops one value and pushes `r`, or
    /// fails as `r` does; on an empty stack it fails for want of a value.
    pub open spec fn unary(self, r: Result<ValueView, Error>) -> Result<ContextView, Error> {
        if self.stack.len() < 1 {
            Err(Error::NothingOnStack)
        } else {
            match r {
                Ok(v) => Ok(self.drop(1).push(v)),
                Err(e) => Err(e),
            }
        }
    }

    /// The context after an operation that pops two values and pushes `r`,
    /// or fails as `r` does; on a stack of fewer than two it fails for want
    /// of a value.
    pub open spec fn binary(self, r: Result<ValueView, Error>) -> Result<ContextView, Error> {
        if self.stack.len() < 2 {
            Err(Error::NothingOnStack)
        } else {
            match r {
                Ok(v) => Ok(self.drop(2).push(v)),
                Err(e) => Err(e),
            }
        }
    }

    /// The context after an operation that pushes `r`, or fails as `r`
    /// does.
    pub open spec fn nullary(self, r: Result<ValueView, Error>) -> Result<ContextView, Error> {
        match r {
            Ok(v) => Ok(self.push(v)),
            Err(e) => Err(e),
        }
    }

    /// The last roll, or the error of there being none.
    pub open spec fn last_roll(self) -> Result<ValueView, Error> {
        if self.rolls.len() == 0 {
            Err(Error::NoPreviousRoll)
        } else {
            Ok(self.rolls.last())
        }
    }
}

impl OperationView {
    /// The context that the operation leaves behind when run in `ct`, or the
    /// error with which it fails. `rolled` is what the dice came to; only
    /// [`OperationView::D`] looks at it.
    pub open spec fn apply(self, ct: ContextView, rolled: ValueView) -> Result<ContextView, Error> {
        let a = ct.peek(1);
        let b = ct.peek(0);
        match self {
            OperationView::Num(n) => Ok(ct.push(ValueView::Num(n))),
            OperationView::Word(s) => Ok(ct.push(ValueView::Word(s))),
            OperationView::List(n) => if 0 <= n <= ct.stack.len() {
                Ok(ct.drop(n).push(ValueView::List(ct.stack.skip(ct.stack.len() - n))))
            } else {
                Err(Error::NotEnoughElements)
            },
            OperationView::Var => ct.unary(
                if ct.vars.contains_key(b.text()) {
                    Ok(ct.vars[b.text()])
                } else {
                    Err(Error::VariableNotFound)
                },
            ),
            OperationView::Add => ct.binary(arith(a, b, |x: int, y: int| x + y)),
            OperationView::Sub => ct.binary(arith(a, b, |x: int, y: int| x - y)),
            OperationView::Neg => ct.unary(
                match b.as_int() {
                    Err(e) => Err(e),
                    Ok(x) => fit(-x),
                },
            ),
            OperationView::Sum => ct.unary(
                match b.as_int() {
                    Err(e) => Err(e),
                    Ok(x) => Ok(ValueView::Num(x)),
                },
            ),
            OperationView::Append => ct.binary(Ok(ValueView::List(items_of(a) + items_of(b)))),
            OperationView::L => ct.nullary(
                match ct.last_roll() {
                    Err(e) => Err(e),
                    Ok(v) => v.lowest(),
                },
            ),
            OperationView::H => ct.nullary(
                match ct.last_roll() {
                    Err(e) => Err(e),
                    Ok(v) => v.highest(),
                },
            ),
            OperationView::P => ct.nullary(ct.last_roll()),
            OperationView::Fudge => Ok(ct.push(fudge_faces())),
            OperationView::D => if ct.stack.len() < 2 {
                Err(Error::NothingOnStack)
            } else {
                match a.as_int() {
                    Err(e) => Err(e),
                    Ok(n) => if n < 0 {
                        Err(Error::NegativeCount)
                    } else if !b.rollable() {
                        Err(Error::EmptyDie)
                    } else {
                        Ok(ct.drop(2).push_roll(rolled))
                    },
                }
            },
            OperationView::Equal => ct.binary(Ok(a.filter(equal_to(b)))),
            OperationView::Less => ct.binary(Ok(a.filter(less_than(b)))),
            OperationView::Greater => ct.binary(Ok(a.filter(greater_than(b)))),
            OperationView::Range => if ct.stack.len() < 1 {
                Err(Error::NothingOnStack)
            } else {
                match b.as_int() {
                    Err(e) => Err(e),
                    Ok(y) => if ct.stack.len() < 2 {
                        Err(Error::NothingOnStack)
                    } else {
                        match a.as_int() {
                            Err(e) => Err(e),
                            Ok(x) => Ok(ct.drop(2).push(ValueView::Range(x, y))),
                        }
                    },
                }
            },
            OperationView::Replace => ct.binary(Ok(b)),
            OperationView::Count => ct.unary(fit(b.flatten().len() as int)),
            OperationView::As => if ct.stack.len() < 2 {
                Err(Error::NothingOnStack)
            } else {
                Ok(ct.drop(2).bind(b.text(), a).push(a))
            },
            OperationView::Label => if ct.stack.len() < 2 {
                Err(Error::NothingOnStack)
            } else {
                Ok(ct.drop(2).add_label(a.text(), b).push(b))
            },
            OperationView::HighestN => ct.binary(keep(a, b, true)),
            OperationView::LowestN => ct.binary(keep(a, b, false)),
        }
    }

    /// How many values the operation has taken off the stack when it fails
    /// in `ct`: those it popped before it found what was wrong.
    pub open spec fn spent(self, ct: ContextView) -> int {
        let have = ct.stack.len() as int;
        match self {
            OperationView::Num(_)
            | OperationView::Word(_)
            | OperationView::List(_)
            | OperationView::L
            | OperationView::H
            | OperationView::P
            | OperationView::Fudge => 0,
            OperationView::Neg
            | OperationView::Sum
            | OperationView::Count
            | OperationView::Var => if have < 1 {
                have
            } else {
                1
            },
            OperationView::Range => if have >= 2 && ct.peek(0).as_int() is Ok {
                2
            } else if have < 1 {
                have
            } else {
                1
            },
            _ => if have < 2 {
                have
            } else {
                2
            },
        }
    }

    /// The error with which the operation fails in `ct`, if it does. Whether
    /// and how it fails does not depend on the dice.
    pub open spec fn failure(self, ct: ContextView) -> Option<Error> {
        match self.apply(ct, ValueView::Num(0)) {
            Ok(_) => None,
            Err(e) => Some(e),
        }
    }

    /// Whether running the operation in `ct` can succeed and leave `after`
    /// behind.
    ///
    /// For every operation but [`OperationView::D`] there is at most one
    /// such context. `D` pops a die and a count and leaves one of the
    /// outcomes of rolling the die that often, both on the stack and at the
    /// end of the rolls.
    pub open spec fn leads(self, ct: ContextView, after: ContextView) -> bool {
        match self {
            OperationView::D => {
                &&& after.stack.len() > 0
                &&& self.apply(ct, after.peek(0)) == Ok::<ContextView, Error>(after)
                &&& ct.peek(0).rolls_n_to(ct.peek(1).as_int()->Ok_0, after.peek(0))
            },
            _ => self.apply(ct, ValueView::Num(0)) == Ok::<ContextView, Error>(after),
        }
    }
}

impl OperationView {
    /// Whether `r` and `after` are a possible end of running the operation in
    /// `before`: on success `after` is a context the operation leads to; on
    /// failure the error is the one the operation fails with, and `after` is
    /// `before` less the values the operation had popped by then.
    pub open spec fn ran(
        self,
        before: ContextView,
        after: ContextView,
        r: Result<(), Error>,
    ) -> bool {
        match r {
            Ok(_) => self.leads(before, after),
            Err(e) => self.failure(before) == Some(e) && after == before.drop(self.spent(before)),
        }
    }
}

proof fn lemma_drop(ct: ContextView)
    ensures
        ct.drop(0) == ct,
        ct.stack.len() >= 2 ==> ct.drop(1).drop(1) == ct.drop(2) && ct.drop(1).peek(0) == ct.peek(
            1,
        ),
        ct.stack.len() >= 1 ==> ct.drop(1).stack.len() == ct.stack.len() - 1,
        ct.stack.len() >= 2 ==> ct.drop(2).stack.len() == ct.stack.len() - 2,
{
    assert(ct.drop(0).stack =~= ct.stack);
    if ct.stack.len() >= 2 {
        assert(ct.drop(1).drop(1).stack =~= ct.drop(2).stack);
    }
}

/// Pops the two values on top of the stack: the lower one first, then the
/// top one.
fn pop_two(ct: &mut Context) -> (r: Result<(Value, Value), Error>)
    ensures
        match r {
            Ok((a, b)) => old(ct)@.stack.len() >= 2 && a@ == old(ct)@.peek(1) && b@ == old(ct)@.peek(0) && final(ct)@ == old(ct)@.drop(2),
            Err(e) => old(ct)@.stack.len() < 2 && e == Error::NothingOnStack && final(ct)@ == old(ct)@.drop(old(ct)@.stack.len() as int),
        },
{
    proof {
        lemma_drop(ct@);
    }
    let b = match ct.try_pop() {
        Ok(b) => b,
        Err(e) => {
            return Err(e);
        },
    };
    let a = match ct.try_pop() {
        Ok(a) => a,
        Err(e) => {
            return Err(e);
        },
    };
    Ok((a, b))
}

/// The items a value brings to a concatenation.
fn into_items(v: Value) -> (items: Vec<Value>)
    ensures
        views(items@) == items_of(v@),
{
    match v {
        Value::List(l) => l,
        other => {
            let mut items: Vec<Value> = Vec::new();
            let ghost m = other@;
            items.push(other);
            assert(views(items@) =~= seq![m]);
            items
        },
    }
}

fn resolve_arith(ct: &mut Context, plus: bool) -> (r: Result<(), Error>)
    ensures
        plus ==> OperationView::Add.ran(old(ct)@, final(ct)@, r),
        !plus ==> OperationView::Sub.ran(old(ct)@, final(ct)@, r),
{
    let (a, b) = match pop_two(ct) {
        Ok(p) => p,
        Err(e) => {
            return Err(e);
        },
    };
    let x = match a.as_int() {
        Ok(x) => x,
        Err(e) => {
            return Err(e);
        },
    };
    let y = match b.as_int() {
        Ok(y) => y,
        Err(e) => {
            return Err(e);
        },
    };
    let sum = if plus {
        x.checked_add(y)
    } else {
        x.checked_sub(y)
    };
    match sum {
        Some(n) => {
            ct.push(Value::Num(n));
            Ok(())
        },
        None => Err(Error::Overflow),
    }
}

fn resolve_unary_int(ct: &mut Context, negate: bool) -> (r: Result<(), Error>)
    ensures
        negate ==> OperationView::Neg.ran(old(ct)@, final(ct)@, r),
        !negate ==> OperationView::Sum.ran(old(ct)@, final(ct)@, r),
{
    proof {
        lemma_drop(ct@);
    }
    let a = match ct.try_pop() {
        Ok(a) => a,
        Err(e) => {
            return Err(e);
        },
    };
    let x = match a.as_int() {
        Ok(x) => x,
        Err(e) => {
            return Err(e);
        },
    };
    if negate {
        match 0i32.checked_sub(x) {
            Some(n) => {
                ct.push(Value::Num(n));
                Ok(())
            },
            None => Err(Error::Overflow),
        }
    } else {
        ct.push(Value::Num(x));
        Ok(())
    }
}

fn resolve_last_roll(ct: &mut Context, which: Option<bool>) -> (r: Result<(), Error>)
    ensures
        which == Some(true) ==> OperationView::H.ran(old(ct)@, final(ct)@, r),
        which == Some(false) ==> OperationView::L.ran(old(ct)@, final(ct)@, r),
        which == None::<bool> ==> OperationView::P.ran(old(ct)@, final(ct)@, r),
{
    proof {
        lemma_drop(ct@);
    }
    let last = match ct.last_roll() {
        Some(v) => v,
        None => {
            return Err(Error::NoPreviousRoll);
        },
    };
    let v = match which {
        Some(true) => match last.highest() {
            Ok(v) => v,
            Err(e) => {
                return Err(e);
            },
        },
        Some(false) => match last.lowest() {
            Ok(v) => v,
            Err(e) => {
                return Err(e);
            },
        },
        None => last,
    };
    ct.push(v);
    Ok(())
}

fn resolve_select(ct: &mut Context, how: Order) -> (r: Result<(), Error>)
    ensures
        how == Order::Equal ==> OperationView::Equal.ran(old(ct)@, final(ct)@, r),
        how == Order::Less ==> OperationView::Less.ran(old(ct)@, final(ct)@, r),
        how == Order::Greater ==> OperationView::Greater.ran(old(ct)@, final(ct)@, r),
{
    let (a, b) = match pop_two(ct) {
        Ok(p) => p,
        Err(e) => {
            return Err(e);
        },
    };
    let out = match how {
        Order::Equal => {
            let f = |v: &Value| -> (r: bool)
                ensures
                    r == equal_to(b@)(v@),
                { v.equals(&b) };
            let out = a.filter(f);
            assert(crate::dice::decides(f, equal_to(b@)));
            out
        },
        Order::Less => {
            let f = |v: &Value| -> (r: bool)
                ensures
                    r == less_than(b@)(v@),
                {
                    match v.compare(&b) {
                        Order::Less => true,
                        _ => false,
                    }
                };
            let out = a.filter(f);
            assert(crate::dice::decides(f, less_than(b@)));
            out
        },
        Order::Greater => {
            let f = |v: &Value| -> (r: bool)
                ensures
                    r == greater_than(b@)(v@),
                {
                    match v.compare(&b) {
                        Order::Greater => true,
                        _ => false,
                    }
                };
            let out = a.filter(f);
            assert(crate::dice::decides(f, greater_than(b@)));
            out
        },
    };
    ct.push(out);
    Ok(())
}

fn resolve_dice(ct: &mut Context) -> (r: Result<(), Error>)
    ensures
        OperationView::D.ran(old(ct)@, final(ct)@, r),
{
    let (count, die) = match pop_two(ct) {
        Ok(p) => p,
        Err(e) => {
            return Err(e);
        },
    };
    let n = match count.as_int() {
        Ok(n) => n,
        Err(e) => {
            return Err(e);
        },
    };
    if n < 0 {
        return Err(Error::NegativeCount);
    }
    if !die.can_roll() {
        return Err(Error::EmptyDie);
    }
    let rolled = die.roll_n(n, ct.rng());
    ct.push_roll(rolled);
    Ok(())
}

fn resolve_range(ct: &mut Context) -> (r: Result<(), Error>)
    ensures
        OperationView::Range.ran(old(ct)@, final(ct)@, r),
{
    proof {
        lemma_drop(ct@);
    }
    let b = match ct.try_pop() {
        Ok(b) => b,
        Err(e) => {
            return Err(e);
        },
    };
    let y = match b.as_int() {
        Ok(y) => y,
        Err(e) => {
            return Err(e);
        },
    };
    let a = match ct.try_pop() {
        Ok(a) => a,
        Err(e) => {
            return Err(e);
        },
    };
    let x = match a.as_int() {
        Ok(x) => x,
        Err(e) => {
            return Err(e);
        },
    };
    ct.push(Value::Range(x, y));
    Ok(())
}

fn resolve_names(ct: &mut Context, bind: bool) -> (r: Result<(), Error>)
    ensures
        bind ==> OperationView::As.ran(old(ct)@, final(ct)@, r),
        !bind ==> OperationView::Label.ran(old(ct)@, final(ct)@, r),
{
    let (a, b) = match pop_two(ct) {
        Ok(p) => p,
        Err(e) => {
            return Err(e);
        },
    };
    if bind {
        let name = b.to_string();
        ct.set_var(name, a.clone());
        ct.push(a);
    } else {
        let name = a.to_string();
        ct.add_label(name, b.clone());
        ct.push(b);
    }
    Ok(())
}

fn resolve_var(ct: &mut Context) -> (r: Result<(), Error>)
    ensures
        OperationView::Var.ran(old(ct)@, final(ct)@, r),
{
    proof {
        lemma_drop(ct@);
    }
    let name = match ct.try_pop() {
        Ok(v) => v.to_string(),
        Err(e) => {
            return Err(e);
        },
    };
    ct.push_var(name.as_str())
}

fn resolve_list(ct: &mut Context, n: i32) -> (r: Result<(), Error>)
    ensures
        OperationView::List(n as int).ran(old(ct)@, final(ct)@, r),
{
    proof {
        lemma_drop(ct@);
    }
    if n < 0 {
        return Err(Error::NotEnoughElements);
    }
    match ct.top_n(n as usize) {
        Ok(items) => {
            ct.push(Value::List(items));
            Ok(())
        },
        Err(e) => Err(e),
    }
}

fn resolve_pair(ct: &mut Context, append: bool) -> (r: Result<(), Error>)
    ensures
        append ==> OperationView::Append.ran(old(ct)@, final(ct)@, r),
        !append ==> OperationView::Replace.ran(old(ct)@, final(ct)@, r),
{
    let (a, b) = match pop_two(ct) {
        Ok(p) => p,
        Err(e) => {
            return Err(e);
        },
    };
    if append {
        let ghost am = a@;
        let ghost bm = b@;
        let mut items = into_items(a);
        let mut more = into_items(b);
        let ghost first = items@;
        let ghost second = more@;
        items.append(&mut more);
        assert(views(items@) =~= views(first) + views(second));
        ct.push(Value::List(items));
    } else {
        ct.push(b);
    }
    Ok(())
}

fn resolve_count(ct: &mut Context) -> (r: Result<(), Error>)
    ensures
        OperationView::Count.ran(old(ct)@, final(ct)@, r),
{
    proof {
        lemma_drop(ct@);
    }
    let a = match ct.try_pop() {
        Ok(a) => a,
        Err(e) => {
            return Err(e);
        },
    };
    let items = a.flatten();
    let n = items.len();
    if n > i32::MAX as usize {
        return Err(Error::Overflow);
    }
    ct.push(Value::Num(n as i32));
    Ok(())
}

fn resolve_keep(ct: &mut Context, high: bool) -> (r: Result<(), Error>)
    ensures
        high ==> OperationView::HighestN.ran(old(ct)@, final(ct)@, r),
        !high ==> OperationView::LowestN.ran(old(ct)@, final(ct)@, r),
{
    let (a, b) = match pop_two(ct) {
        Ok(p) => p,
        Err(e) => {
            return Err(e);
        },
    };
    let n = match b.as_int() {
        Ok(n) => n,
        Err(e) => {
            return Err(e);
        },
    };
    if n < 0 {
        return Err(Error::NegativeCount);
    }
    match a.keep(n as usize, high) {
        Ok(v) => {
            ct.push(v);
            Ok(())
        },
        Err(e) => Err(e),
    }
}

impl Operation {
    /// Runs this operation in `ct`.
    ///
    /// On success the context is one the operation leads to. On failure the
    /// error is the one the operation fails with in the context it was given,
    /// and the context is left with the values popped up to then gone and
    /// nothing else changed.
    pub fn resolve(&self, ct: &mut Context) -> (r: Result<(), Error>)
        ensures
            self@.ran(old(ct)@, final(ct)@, r),
    {
        match self {
            Operation::Add => resolve_arith(ct, true),
            Operation::Sub => resolve_arith(ct, false),
            Operation::Append => resolve_pair(ct, true),
            Operation::Replace => resolve_pair(ct, false),
            Operation::Neg => resolve_unary_int(ct, true),
            Operation::Sum => resolve_unary_int(ct, false),
            Operation::As => resolve_names(ct, true),
            Operation::Label => resolve_names(ct, false),
            Operation::L => resolve_last_roll(ct, Some(false)),
            Operation::H => resolve_last_roll(ct, Some(true)),
            Operation::P => resolve_last_roll(ct, None),
            Operation::Fudge => {
                let mut faces: Vec<Value> = Vec::new();
                faces.push(Value::Num(-1));
                faces.push(Value::Num(0));
                faces.push(Value::Num(1));
                assert(views(faces@) =~= seq![
                    ValueView::Num(-1),
                    ValueView::Num(0),
                    ValueView::Num(1),
                ]);
                ct.push(Value::List(faces));
                Ok(())
            },
            Operation::Equal => resolve_select(ct, Order::Equal),
            Operation::Less => resolve_select(ct, Order::Less),
            Operation::Greater => resolve_select(ct, Order::Greater),
            Operation::D => resolve_dice(ct),
            Operation::Range => resolve_range(ct),
            Operation::Num(n) => {
                ct.push(Value::Num(*n));
                Ok(())
            },
            Operation::Word(s) => {
                ct.push(Value::Word(s.clone()));
                Ok(())
            },
            Operation::Var => resolve_var(ct),
            Operation::List(n) => resolve_list(ct, *n),
            Operation::Count => resolve_count(ct),
            Operation::HighestN => resolve_keep(ct, true),
            Operation::LowestN => resolve_keep(ct, false),
        }
    }
}

/// Whether `trace` is a run of the operations: it starts with a context,
/// and each operation in turn leads from one context of the trace to the
/// next.
pub open spec fn is_run(ops: Seq<OperationView>, trace: Seq<ContextView>) -> bool {
    &&& trace.len() == ops.len() + 1
    &&& forall|i: int| 0 <= i < ops.len() ==> (#[trigger] ops[i]).leads(trace[i], trace[i + 1])
}

/// Whether running the operations in order from `ct` can succeed and leave
/// `after` behind.
pub open spec fn runs(ops: Seq<OperationView>, ct: ContextView, after: ContextView) -> bool {
    exists|trace: Seq<ContextView>| #[trigger]
        is_run(ops, trace) && trace.first() == ct && trace.last() == after
}

/// Whether an operation fails, and with what, does not depend on what the
/// dice come to.
pub proof fn lemma_failure_ignores_dice(
    op: OperationView,
    ct: ContextView,
    one: ValueView,
    other: ValueView,
)
    ensures
        op.apply(ct, one) is Err <==> op.apply(ct, other) is Err,
        op.apply(ct, one) is Err ==> op.apply(ct, one)->Err_0 == op.apply(ct, other)->Err_0,
        op != OperationView::D ==> op.apply(ct, one) == op.apply(ct, other),
{
}

/// An operation that rolls no dice leads to at most one context.
pub proof fn lemma_step_is_determined(
    op: OperationView,
    ct: ContextView,
    one: ContextView,
    other: ContextView,
)
    requires
        op != OperationView::D,
        op.leads(ct, one),
        op.leads(ct, other),
    ensures
        one == other,
{
}

/// An operation that succeeds is one that does not fail.
pub proof fn lemma_leads_without_failure(op: OperationView, ct: ContextView, after: ContextView)
    requires
        op.leads(ct, after),
    ensures
        op.failure(ct) is None,
{
}

/// The histories only grow: whatever an operation leads to holds every roll
/// and every label that was there before, in the same order.
pub proof fn lemma_step_keeps_history(op: OperationView, ct: ContextView, after: ContextView)
    requires
        op.leads(ct, after),
    ensures
        ct.rolls.is_prefix_of(after.rolls),
        ct.labels.is_prefix_of(after.labels),
        op != OperationView::D ==> after.rolls == ct.rolls,
        op != OperationView::Label ==> after.labels == ct.labels,
        op != OperationView::As ==> after.vars == ct.vars,
{
}

/// The histories only grow over a whole run.
pub proof fn lemma_run_keeps_history(
    ops: Seq<OperationView>,
    trace: Seq<ContextView>,
    i: int,
    j: int,
)
    requires
        is_run(ops, trace),
        0 <= i <= j <= ops.len(),
    ensures
        trace[i].rolls.is_prefix_of(trace[j].rolls),
        trace[i].labels.is_prefix_of(trace[j].labels),
    decreases j - i,
{
    if i < j {
        lemma_run_keeps_history(ops, trace, i, j - 1);
        assert(ops[j - 1].leads(trace[j - 1], trace[j - 1 + 1]));
        lemma_step_keeps_history(ops[j - 1], trace[j - 1], trace[j]);
    }
}

/// A program in which no dice are rolled runs to at most one context.
pub proof fn lemma_run_is_determined(
    ops: Seq<OperationView>,
    ct: ContextView,
    one: ContextView,
    other: ContextView,
)
    requires
        forall|i: int| 0 <= i < ops.len() ==> ops[i] != OperationView::D,
        runs(ops, ct, one),
        runs(ops, ct, other),
    ensures
        one == other,
{
    let a = choose|trace: Seq<ContextView>| #[trigger]
        is_run(ops, trace) && trace.first() == ct && trace.last() == one;
    let b = choose|trace: Seq<ContextView>| #[trigger]
        is_run(ops, trace) && trace.first() == ct && trace.last() == other;
    lemma_runs_agree(ops, a, b, ops.len() as int);
}

proof fn lemma_runs_agree(
    ops: Seq<OperationView>,
    a: Seq<ContextView>,
    b: Seq<ContextView>,
    k: int,
)
    requires
        forall|i: int| 0 <= i < ops.len() ==> ops[i] != OperationView::D,
        is_run(ops, a),
        is_run(ops, b),
        a.first() == b.first(),
        0 <= k <= ops.len(),
    ensures
        a[k] == b[k],
    decreases k,
{
    if k > 0 {
        lemma_runs_agree(ops, a, b, k - 1);
        assert(ops[k - 1].leads(a[k - 1], a[k - 1 + 1]));
        assert(ops[k - 1].leads(b[k - 1], b[k - 1 + 1]));
        lemma_step_is_determined(ops[k - 1], a[k - 1], a[k], b[k]);
    }
}

/// Whether evaluating the program from `ct` can give the value `v` and leave
/// `after` behind: all operations run, and `v` is then popped off the stack.
pub open spec fn yields(
    ops: Seq<OperationView>,
    ct: ContextView,
    after: ContextView,
    v: ValueView,
) -> bool {
    exists|end: ContextView| #[trigger]
        runs(ops, ct, end) && end.stack.len() > 0 && v == end.peek(0) && after == end.drop(1)
}

/// Whether evaluating the program from `ct` can fail with `e` at step `k`
/// in the context `mid`: the first `k` operations lead to `mid`, and there
/// either the next operation fails with `e`, or none is left and the stack
/// holds no result.
pub open spec fn fails_at(
    ops: Seq<OperationView>,
    ct: ContextView,
    k: int,
    mid: ContextView,
    e: Error,
) -> bool {
    &&& 0 <= k <= ops.len()
    &&& runs(ops.take(k), ct, mid)
    &&& if k < ops.len() {
        ops[k].failure(mid) == Some(e)
    } else {
        mid.stack.len() == 0 && e == Error::NothingOnStack
    }
}

/// Whether evaluating the program from `ct` can fail with `e` and leave
/// `after` behind, which is then the context of the failure less the values
/// that the failing operation had popped.
pub open spec fn fails(
    ops: Seq<OperationView>,
    ct: ContextView,
    after: ContextView,
    e: Error,
) -> bool {
    exists|k: int, mid: ContextView| #[trigger]
        fails_at(ops, ct, k, mid, e) && after == mid.drop(
            if k < ops.len() {
                ops[k].spent(mid)
            } else {
                0
            },
        )
}

/// A program for the stack machine: operations to run in order.
#[derive(Debug)]
pub struct Expr {
    pub ops: Vec<Operation>,
}

impl View for Expr {
    type V = Seq<OperationView>;

    open spec fn view(&self) -> Seq<OperationView> {
        op_views(self.ops@)
    }
}

impl Clone for Expr {
    fn clone(&self) -> (out: Expr)
        ensures
            out@ == self@,
    {
        let mut ops: Vec<Operation> = Vec::new();
        let mut i: usize = 0;
        while i < self.ops.len()
            invariant
                i <= self.ops.len(),
                ops.len() == i,
                forall|k: int| 0 <= k < i ==> ops@[k]@ == self.ops@[k]@,
            decreases self.ops.len() - i,
        {
            ops.push(self.ops[i].clone());
            i += 1;
        }
        let out = Expr { ops };
        assert(out@ =~= self@);
        out
    }
}

impl Expr {
    /// The empty program.
    pub fn new() -> (e: Expr)
        ensures
            e@ == Seq::<OperationView>::empty(),
    {
        let e = Expr { ops: Vec::new() };
        assert(e@ =~= Seq::<OperationView>::empty());
        e
    }

    /// Runs the program in `ct` and pops its result.
    ///
    /// Every operation runs in order; the first failure ends the run and is
    /// returned, with the context left as the failing operation left it.
    pub fn resolve(&self, ct: &mut Context) -> (r: Result<Value, Error>)
        ensures
            match r {
                Ok(v) => yields(self@, old(ct)@, final(ct)@, v@),
                Err(e) => fails(self@, old(ct)@, final(ct)@, e),
            },
    {
        let ghost start = ct@;
        let ghost ops = self@;
        let ghost mut trace = seq![start];
        let mut i: usize = 0;
        while i < self.ops.len()
            invariant
                i <= self.ops.len(),
                ops == self@,
                start == old(ct)@,
                is_run(ops.take(i as int), trace),
                trace.first() == start,
                trace.last() == ct@,
            decreases self.ops.len() - i,
        {
            let ghost mid = ct@;
            let r = self.ops[i].resolve(ct);
            assert(ops[i as int] == self.ops@[i as int]@);
            match r {
                Ok(_) => {
                    proof {
                        let longer = trace.push(ct@);
                        let done = ops.take(i as int + 1);
                        assert forall|k: int| 0 <= k < done.len() implies (#[trigger] done[k]).leads(
                            longer[k],
                            longer[k + 1],
                        ) by {
                            if k < i {
                                assert(ops.take(i as int)[k].leads(trace[k], trace[k + 1]));
                            }
                        }
                        trace = longer;
                    }
                },
                Err(e) => {
                    assert(fails_at(ops, start, i as int, mid, e) && ct@ == mid.drop(
                        ops[i as int].spent(mid),
                    ));
                    return Err(e);
                },
            }
            i += 1;
        }
        let ghost end = ct@;
        assert(ops.take(i as int) =~= ops);
        match ct.try_pop() {
            Ok(v) => {
                assert(runs(ops, start, end) && end.stack.len() > 0 && v@ == end.peek(0) && ct@
                    == end.drop(1));
                Ok(v)
            },
            Err(e) => {
                assert(end.drop(0).stack =~= end.stack);
                assert(fails_at(ops, start, ops.len() as int, end, e) && ct@ == end.drop(0));
                Err(e)
            },
        }
    }
}

} // verus!
