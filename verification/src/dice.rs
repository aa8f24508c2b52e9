//! The value model: numbers, words, ranges and lists, with their arithmetic,
//! ordering, filtering, flattening and rolling.

use crate::error::{Error, ValueKind};
use crate::random::{random_i32, random_index};
use crate::text::{chars_of, decimal, push_decimal};
use rand::rngs::StdRng;
use vstd::prelude::*;
use vstd::string::StringExecFns;

verus! {

/// How one value stands to another in the order of values.
#[derive(Clone, Copy, Debug, PartialEq, Eq)]
pub enum Order {
    Less,
    Equal,
    Greater,
}

/// The order of two integers.
pub open spec fn order_int(a: int, b: int) -> Order {
    if a < b {
        Order::Less
    } else if a == b {
        Order::Equal
    } else {
        Order::Greater
    }
}

/// The order of two texts: by the first character in which they differ, a
/// proper prefix coming first.
pub open spec fn order_chars(a: Seq<char>, b: Seq<char>) -> Order
    decreases a.len(),
{
    if a.len() == 0 {
        if b.len() == 0 {
            Order::Equal
        } else {
            Order::Less
        }
    } else if b.len() == 0 {
        Order::Greater
    } else if a.first() == b.first() {
        order_chars(a.drop_first(), b.drop_first())
    } else {
        order_int(a.first() as int, b.first() as int)
    }
}

/// A runtime value.
#[derive(Debug, PartialEq, Eq)]
pub enum Value {
    Num(i32),
    Word(String),
    /// A pair of bounds in either order; consumers normalize before use.
    Range(i32, i32),
    List(Vec<Value>),
}

/// The mathematical model of a [`Value`].
pub enum ValueView {
    Num(int),
    Word(Seq<char>),
    Range(int, int),
    List(Seq<ValueView>),
}

impl View for Value {
    type V = ValueView;

    open spec fn view(&self) -> ValueView
        decreases self,
    {
        match self {
            Value::Num(n) => ValueView::Num(*n as int),
            Value::Word(s) => ValueView::Word(s@),
            Value::Range(a, b) => ValueView::Range(*a as int, *b as int),
            Value::List(l) => ValueView::List(views(l@)),
        }
    }
}

/// The models of a sequence of values, item by item.
pub open spec fn views(s: Seq<Value>) -> Seq<ValueView>
    decreases s,
{
    Seq::new(
        s.len(),
        |i: int|
            if 0 <= i < s.len() {
                s[i]@
            } else {
                ValueView::Num(0)
            },
    )
}

impl Clone for Value {
    fn clone(&self) -> (out: Value)
        ensures
            out@ == self@,
        decreases self,
    {
        match self {
            Value::Num(n) => Value::Num(*n),
            Value::Word(s) => Value::Word(s.clone()),
            Value::Range(a, b) => Value::Range(*a, *b),
            Value::List(l) => {
                let mut items: Vec<Value> = Vec::new();
                let mut i: usize = 0;
                while i < l.len()
                    invariant
                        i <= l.len(),
                        items.len() == i,
                        decreases_to!(*self => *l),
                        forall|k: int| 0 <= k < i ==> items@[k]@ == l@[k]@,
                    decreases l.len() - i,
                {
                    items.push(l[i].clone());
                    i += 1;
                }
                assert(views(items@) =~= views(l@));
                Value::List(items)
            },
        }
    }
}

impl ValueView {
    /// The kind of this value.
    pub open spec fn kind(self) -> ValueKind {
        match self {
            ValueView::Num(_) => ValueKind::Num,
            ValueView::Word(_) => ValueKind::Word,
            ValueView::Range(_, _) => ValueKind::Range,
            ValueView::List(_) => ValueKind::List,
        }
    }

    /// The integer a value stands for: a number is itself, a list is the sum
    /// of its items, and anything else is a type error. The first item that
    /// fails decides the error; a sum outside 32 bits is an overflow.
    pub open spec fn as_int(self) -> Result<int, Error>
        decreases self, 0nat,
    {
        match self {
            ValueView::Num(n) => Ok(n),
            ValueView::Word(_) => Err(Error::NotANumber(ValueKind::Word)),
            ValueView::Range(_, _) => Err(Error::NotANumber(ValueKind::Range)),
            ValueView::List(l) => match Self::sum(l) {
                Err(e) => Err(e),
                Ok(t) => if i32::MIN <= t <= i32::MAX {
                    Ok(t)
                } else {
                    Err(Error::Overflow)
                },
            },
        }
    }

    /// The sum of the integers the items stand for, or the error of the
    /// first item that stands for none.
    pub open spec fn sum(l: Seq<ValueView>) -> Result<int, Error>
        decreases l, 1nat,
    {
        if l.len() == 0 {
            Ok(0)
        } else {
            match l.first().as_int() {
                Err(e) => Err(e),
                Ok(n) => match Self::sum(l.drop_first()) {
                    Err(e) => Err(e),
                    Ok(t) => Ok(n + t),
                },
            }
        }
    }

    /// The greatest (`high`) or least number among the items that are
    /// numbers, if there is one. Items of other kinds are passed over.
    pub open spec fn extreme(l: Seq<ValueView>, high: bool) -> Option<int>
        decreases l.len(),
    {
        if l.len() == 0 {
            None
        } else {
            let rest = Self::extreme(l.drop_first(), high);
            match l.first() {
                ValueView::Num(n) => Some(pick(high, Some(n), rest)),
                _ => rest,
            }
        }
    }

    /// The highest number of a value: a number is itself, a range gives its
    /// larger bound, a list its greatest number. A word has none.
    pub open spec fn highest(self) -> Result<ValueView, Error> {
        self.most(true)
    }

    /// The lowest number of a value: a number is itself, a range gives its
    /// smaller bound, a list its least number. A word has none.
    pub open spec fn lowest(self) -> Result<ValueView, Error> {
        self.most(false)
    }

    /// [`Self::highest`] when `high`, else [`Self::lowest`].
    pub open spec fn most(self, high: bool) -> Result<ValueView, Error> {
        match self {
            ValueView::Num(n) => Ok(ValueView::Num(n)),
            ValueView::Word(_) => Err(Error::NotOrdered),
            ValueView::Range(a, b) => Ok(ValueView::Num(pick(high, Some(a), Some(b)))),
            ValueView::List(l) => match Self::extreme(l, high) {
                Some(n) => Ok(ValueView::Num(n)),
                None => Err(Error::NoNumbers),
            },
        }
    }

    /// Whether this value is a number from `low` to `high`, both included.
    pub open spec fn is_within(self, low: int, high: int) -> bool {
        match self {
            ValueView::Num(k) => low <= k <= high,
            _ => false,
        }
    }

    /// The place of a kind in the order of values: numbers come before
    /// words, words before ranges, ranges before lists.
    pub open spec fn rank(self) -> int {
        match self {
            ValueView::Num(_) => 0,
            ValueView::Word(_) => 1,
            ValueView::Range(_, _) => 2,
            ValueView::List(_) => 3,
        }
    }

    /// The weight by which ranges are ordered: twice the second bound less
    /// the first.
    pub open spec fn range_weight(low: int, high: int) -> int {
        2 * high - low
    }

    /// How `self` stands to `other`. Values of one kind are ordered by
    /// content: numbers by size, words as texts, ranges by weight, lists item
    /// by item. Values of different kinds are ordered by kind.
    pub open spec fn order(self, other: ValueView) -> Order
        decreases self, 0nat,
    {
        match (self, other) {
            (ValueView::Num(a), ValueView::Num(b)) => order_int(a, b),
            (ValueView::Word(a), ValueView::Word(b)) => order_chars(a, b),
            (ValueView::Range(al, ah), ValueView::Range(bl, bh)) => order_int(
                Self::range_weight(al, ah),
                Self::range_weight(bl, bh),
            ),
            (ValueView::List(a), ValueView::List(b)) => Self::order_items(a, b),
            _ => order_int(self.rank(), other.rank()),
        }
    }

    /// The order of two sequences of values: by the first pair of items that
    /// are not equal in order, a proper prefix coming first.
    pub open spec fn order_items(a: Seq<ValueView>, b: Seq<ValueView>) -> Order
        decreases a, 1nat,
    {
        if a.len() == 0 {
            if b.len() == 0 {
                Order::Equal
            } else {
                Order::Less
            }
        } else if b.len() == 0 {
            Order::Greater
        } else {
            match a.first().order(b.first()) {
                Order::Equal => Self::order_items(a.drop_first(), b.drop_first()),
                o => o,
            }
        }
    }

    /// The selection of a value by a predicate: a list keeps the items that
    /// satisfy it, in order; any other value is kept whole if it satisfies
    /// the predicate and gives the empty list if not.
    pub open spec fn filter(self, p: spec_fn(ValueView) -> bool) -> ValueView {
        match self {
            ValueView::List(l) => ValueView::List(l.filter(p)),
            v => if p(v) {
                v
            } else {
                ValueView::List(Seq::empty())
            },
        }
    }

    /// Whether this value can be rolled: a die needs at least one face, and
    /// a range at least one number between its bounds.
    pub open spec fn rollable(self) -> bool {
        match self {
            ValueView::Num(n) => n == 10 || n >= 1,
            ValueView::Range(a, b) => a != b,
            _ => true,
        }
    }

    /// Whether `out` is a possible outcome of rolling this value once.
    ///
    /// A ten-sided die lands on 0 to 9, any other die on 1 to its number of
    /// faces. A range lands on a number from its smaller bound up to, and not
    /// including, its larger bound. A word lands on itself. A list lands on
    /// one of its items; the empty list lands on zero.
    pub open spec fn rolls_to(self, out: ValueView) -> bool {
        match self {
            ValueView::Num(n) => out matches ValueView::Num(k) && if n == 10 {
                0 <= k <= 9
            } else {
                1 <= k <= n
            },
            ValueView::Range(a, b) => out matches ValueView::Num(k) && if a < b {
                a <= k < b
            } else {
                b <= k < a
            },
            ValueView::Word(_) => out == self,
            ValueView::List(l) => if l.len() == 0 {
                out == ValueView::Num(0)
            } else {
                l.contains(out)
            },
        }
    }

    /// Whether `out` is a possible outcome of rolling this value `count`
    /// times: one roll gives its outcome bare, any other count gives the list
    /// of that many outcomes.
    pub open spec fn rolls_n_to(self, count: int, out: ValueView) -> bool {
        if count == 1 {
            self.rolls_to(out)
        } else {
            out matches ValueView::List(l) && l.len() == count && forall|i: int|
                0 <= i < l.len() ==> self.rolls_to(#[trigger] l[i])
        }
    }

    /// This value as text: a word is its own text, a number is written in
    /// decimal, a range as its bounds with `..` between, and a list as its
    /// items between brackets with `, ` between.
    pub open spec fn text(self) -> Seq<char>
        decreases self, 0nat,
    {
        match self {
            ValueView::Word(s) => s,
            ValueView::Num(n) => decimal(n),
            ValueView::Range(a, b) => decimal(a) + seq!['.', '.'] + decimal(b),
            ValueView::List(l) => Self::items_text(l, true) + seq![']'],
        }
    }

    /// The texts of the items, the first one led in by `[` and each later
    /// one by `, `.
    pub open spec fn items_text(l: Seq<ValueView>, first: bool) -> Seq<char>
        decreases l, 1nat,
    {
        if l.len() == 0 {
            Seq::empty()
        } else {
            let lead = if first {
                seq!['[']
            } else {
                seq![',', ' ']
            };
            lead + l.first().text() + Self::items_text(l.drop_first(), false)
        }
    }

    /// The numbers a value offers to a choice of the best: a number offers
    /// itself, a range its two bounds, a list its items that are numbers. A
    /// word offers none and is an error.
    pub open spec fn numbers(self) -> Result<Seq<int>, Error> {
        match self {
            ValueView::Num(n) => Ok(seq![n]),
            ValueView::Word(_) => Err(Error::NotOrdered),
            ValueView::Range(a, b) => Ok(seq![a, b]),
            ValueView::List(l) => Ok(numbers_of(l)),
        }
    }

    /// The `n` highest (`high`) or lowest numbers of a value, best first, as
    /// a list; all of them if there are no more than `n`.
    pub open spec fn keep(self, n: nat, high: bool) -> Result<ValueView, Error> {
        match self.numbers() {
            Err(e) => Err(e),
            Ok(s) => Ok(ValueView::List(best(s, n, high).map_values(|k: int| ValueView::Num(k)))),
        }
    }

    /// The items of a value with every nested list opened up, in order. A
    /// value that is no list is its own single item.
    pub open spec fn flatten(self) -> Seq<ValueView>
        decreases self, 0nat,
    {
        match self {
            ValueView::List(l) => Self::flatten_all(l),
            v => seq![v],
        }
    }

    /// The flattened items of each value in turn.
    pub open spec fn flatten_all(l: Seq<ValueView>) -> Seq<ValueView>
        decreases l, 1nat,
    {
        if l.len() == 0 {
            Seq::empty()
        } else {
            l.first().flatten() + Self::flatten_all(l.drop_first())
        }
    }
}

/// The numbers among the items, in order.
pub open spec fn numbers_of(l: Seq<ValueView>) -> Seq<int>
    decreases l.len(),
{
    if l.len() == 0 {
        Seq::empty()
    } else {
        match l.last() {
            ValueView::Num(n) => numbers_of(l.drop_last()).push(n),
            _ => numbers_of(l.drop_last()),
        }
    }
}

/// Whether `a` is strictly better than `b`: higher when `high`, else lower.
pub open spec fn better(a: int, b: int, high: bool) -> bool {
    if high {
        a > b
    } else {
        a < b
    }
}

/// The place of the best number of a non-empty sequence; of several equally
/// good, the first.
pub open spec fn best_at(s: Seq<int>, high: bool) -> int
    decreases s.len(),
{
    if s.len() <= 1 {
        0
    } else {
        let i = best_at(s.drop_last(), high);
        if better(s.last(), s[i], high) {
            s.len() - 1
        } else {
            i
        }
    }
}

/// The `n` best numbers of a sequence, best first: the best is taken out,
/// then the best of the rest, and so on.
pub open spec fn best(s: Seq<int>, n: nat, high: bool) -> Seq<int>
    decreases n,
{
    if n == 0 || s.len() == 0 {
        Seq::empty()
    } else {
        let i = best_at(s, high);
        seq![s[i]] + best(s.remove(i), (n - 1) as nat, high)
    }
}

/// The larger (`high`) or smaller of two optional integers; one that is
/// missing gives way to the other. Zero stands for both missing.
pub open spec fn pick(high: bool, a: Option<int>, b: Option<int>) -> int {
    match (a, b) {
        (Some(x), Some(y)) => if (high && x >= y) || (!high && x <= y) {
            x
        } else {
            y
        },
        (Some(x), None) => x,
        (None, Some(y)) => y,
        (None, None) => 0,
    }
}

/// A 32-bit result widened to the integers.
pub open spec fn widen(r: Result<i32, Error>) -> Result<int, Error> {
    match r {
        Ok(n) => Ok(n as int),
        Err(e) => Err(e),
    }
}

/// The model of a fallible value.
pub open spec fn view_result(r: Result<Value, Error>) -> Result<ValueView, Error> {
    match r {
        Ok(v) => Ok(v@),
        Err(e) => Err(e),
    }
}

/// A number stands for itself: it is its own integer, its own highest and
/// its own lowest.
pub proof fn lemma_number_is_itself(n: int)
    ensures
        ValueView::Num(n).as_int() == Ok::<int, Error>(n),
        ValueView::Num(n).highest() == Ok::<ValueView, Error>(ValueView::Num(n)),
        ValueView::Num(n).lowest() == Ok::<ValueView, Error>(ValueView::Num(n)),
{
}

/// The extreme of the items is one of their numbers, and no number among
/// them is better; there is none exactly when no item is a number.
pub proof fn lemma_extreme_is_best(l: Seq<ValueView>, high: bool)
    ensures
        ValueView::extreme(l, high) is None <==> forall|i: int| 0 <= i < l.len() ==> !(l[i] is Num),
        ValueView::extreme(l, high) matches Some(m) ==> l.contains(ValueView::Num(m)) && forall|
            i: int,
        |
            0 <= i < l.len() ==> (#[trigger] l[i] matches ValueView::Num(k) ==> !better(k, m, high)),
    decreases l.len(),
{
    if l.len() > 0 {
        let rest = l.drop_first();
        lemma_extreme_is_best(rest, high);
        assert forall|i: int| 1 <= i < l.len() implies l[i] == rest[i - 1] by {}
        match ValueView::extreme(l, high) {
            Some(m) => {
                if l.first() == ValueView::Num(m) {
                    assert(l[0] == ValueView::Num(m));
                } else {
                    let j = choose|j: int| 0 <= j < rest.len() && rest[j] == ValueView::Num(m);
                    assert(l[j + 1] == ValueView::Num(m));
                }
                assert forall|i: int| 0 <= i < l.len() implies (#[trigger] l[i] matches ValueView::Num(
                    k,
                ) ==> !better(k, m, high)) by {
                    if i > 0 {
                        assert(l[i] == rest[i - 1]);
                    }
                }
            },
            None => {
                assert forall|i: int| 0 <= i < l.len() implies !(l[i] is Num) by {
                    if i > 0 {
                        assert(l[i] == rest[i - 1]);
                    }
                }
            },
        }
        if forall|i: int| 0 <= i < l.len() ==> !(l[i] is Num) {
            assert(!(l[0] is Num));
            assert forall|i: int| 0 <= i < rest.len() implies !(rest[i] is Num) by {
                assert(rest[i] == l[i + 1]);
            }
        }
    }
}

/// A flattened value holds no list.
pub proof fn lemma_flatten_is_flat(v: ValueView)
    ensures
        forall|i: int| 0 <= i < v.flatten().len() ==> !(#[trigger] v.flatten()[i] is List),
    decreases v, 0nat,
{
    match v {
        ValueView::List(l) => {
            lemma_flatten_all_is_flat(l);
        },
        _ => {},
    }
}

/// The flattened items of a sequence of values hold no list.
pub proof fn lemma_flatten_all_is_flat(l: Seq<ValueView>)
    ensures
        forall|i: int|
            0 <= i < ValueView::flatten_all(l).len() ==> !(#[trigger] ValueView::flatten_all(
                l,
            )[i] is List),
    decreases l, 1nat,
{
    if l.len() > 0 {
        lemma_flatten_is_flat(l.first());
        lemma_flatten_all_is_flat(l.drop_first());
    }
}

/// The other way round of an order.
pub open spec fn flip(o: Order) -> Order {
    match o {
        Order::Less => Order::Greater,
        Order::Equal => Order::Equal,
        Order::Greater => Order::Less,
    }
}

/// Two texts stand to each other the other way round when they change
/// places.
pub proof fn lemma_order_chars_flips(a: Seq<char>, b: Seq<char>)
    ensures
        order_chars(b, a) == flip(order_chars(a, b)),
    decreases a.len(),
{
    if a.len() > 0 && b.len() > 0 && a.first() == b.first() {
        lemma_order_chars_flips(a.drop_first(), b.drop_first());
    }
}

/// Two values stand to each other the other way round when they change
/// places.
pub proof fn lemma_order_flips(a: ValueView, b: ValueView)
    ensures
        b.order(a) == flip(a.order(b)),
    decreases a, 0nat,
{
    match (a, b) {
        (ValueView::Word(x), ValueView::Word(y)) => {
            lemma_order_chars_flips(x, y);
        },
        (ValueView::List(x), ValueView::List(y)) => {
            lemma_order_items_flips(x, y);
        },
        _ => {},
    }
}

/// Every value is equal in order to itself.
pub proof fn lemma_order_of_self(a: ValueView)
    ensures
        a.order(a) == Order::Equal,
{
    lemma_order_flips(a, a);
}

/// Two sequences of values stand to each other the other way round when
/// they change places.
pub proof fn lemma_order_items_flips(a: Seq<ValueView>, b: Seq<ValueView>)
    ensures
        ValueView::order_items(b, a) == flip(ValueView::order_items(a, b)),
    decreases a, 1nat,
{
    if a.len() > 0 && b.len() > 0 {
        lemma_order_flips(a.first(), b.first());
        lemma_order_items_flips(a.drop_first(), b.drop_first());
    }
}

/// Of the best numbers of a sequence there are as many as asked for, or all
/// if there are fewer.
pub proof fn lemma_best_len(s: Seq<int>, n: nat, high: bool)
    ensures
        best(s, n, high).len() == if n <= s.len() {
            n
        } else {
            s.len()
        },
    decreases n,
{
    if n > 0 && s.len() > 0 {
        lemma_best_at_in_range(s, high);
        lemma_best_len(s.remove(best_at(s, high)), (n - 1) as nat, high);
    }
}

/// The place of the best number lies in the sequence, and no number of the
/// sequence is better than the one there.
pub proof fn lemma_best_at_in_range(s: Seq<int>, high: bool)
    requires
        s.len() > 0,
    ensures
        0 <= best_at(s, high) < s.len(),
        forall|i: int| 0 <= i < s.len() ==> !better(#[trigger] s[i], s[best_at(s, high)], high),
    decreases s.len(),
{
    if s.len() > 1 {
        lemma_best_at_in_range(s.drop_last(), high);
        let j = best_at(s.drop_last(), high);
        assert forall|i: int| 0 <= i < s.len() implies !better(
            #[trigger] s[i],
            s[best_at(s, high)],
            high,
        ) by {
            if i < s.len() - 1 {
                assert(s[i] == s.drop_last()[i]);
            }
        }
    }
}

/// The face that a die of `faces` faces shows for the draw `draw` of
/// `0..faces`: the draw itself on a die of ten faces, else the draw and one.
pub open spec fn face_of(faces: int, draw: int) -> int {
    if faces == 10 {
        draw
    } else {
        draw + 1
    }
}

/// The predicate "equal to `b`".
pub open spec fn equal_to(b: ValueView) -> spec_fn(ValueView) -> bool {
    |x: ValueView| x == b
}

/// The predicate "comes before `b` in the order of values".
pub open spec fn less_than(b: ValueView) -> spec_fn(ValueView) -> bool {
    |x: ValueView| x.order(b) == Order::Less
}

/// The predicate "comes after `b` in the order of values".
pub open spec fn greater_than(b: ValueView) -> spec_fn(ValueView) -> bool {
    |x: ValueView| x.order(b) == Order::Greater
}

/// Whether `keep` holds an answer of the executable predicate `f` for each
/// of the items, in order.
pub open spec fn answers<F: Fn(&Value) -> bool>(f: F, items: Seq<Value>, keep: Seq<bool>) -> bool {
    &&& keep.len() == items.len()
    &&& forall|i: int| 0 <= i < items.len() ==> call_ensures(f, (&items[i],), #[trigger] keep[i])
}

/// The items whose answer in `keep` is yes, in order.
pub open spec fn chosen(l: Seq<ValueView>, keep: Seq<bool>) -> Seq<ValueView>
    decreases l.len(),
{
    if l.len() == 0 {
        Seq::empty()
    } else {
        let rest = chosen(l.drop_last(), keep.drop_last());
        if keep.last() {
            rest.push(l.last())
        } else {
            rest
        }
    }
}

/// Whether the executable predicate `f` decides as `p` does on the models of
/// the values it is given.
pub open spec fn decides<F: Fn(&Value) -> bool>(f: F, p: spec_fn(ValueView) -> bool) -> bool {
    forall|v: Value, b: bool| #[trigger] call_ensures(f, (&v,), b) ==> b == p(v@)
}

fn compare_chars(a: &Vec<char>, b: &Vec<char>) -> (o: Order)
    ensures
        o == order_chars(a@, b@),
{
    let mut i: usize = 0;
    assert(a@.skip(0) =~= a@ && b@.skip(0) =~= b@);
    while i < a.len() && i < b.len()
        invariant
            i <= a.len(),
            i <= b.len(),
            order_chars(a@, b@) == order_chars(a@.skip(i as int), b@.skip(i as int)),
        decreases a.len() - i,
    {
        proof {
            assert(a@.skip(i as int).drop_first() =~= a@.skip(i as int + 1));
            assert(b@.skip(i as int).drop_first() =~= b@.skip(i as int + 1));
        }
        if a[i] < b[i] {
            return Order::Less;
        }
        if a[i] > b[i] {
            return Order::Greater;
        }
        i += 1;
    }
    if i < b.len() {
        Order::Less
    } else if i < a.len() {
        Order::Greater
    } else {
        Order::Equal
    }
}

impl Value {
    /// The kind of this value.
    pub fn kind(&self) -> (k: ValueKind)
        ensures
            k == self@.kind(),
    {
        match self {
            Value::Num(_) => ValueKind::Num,
            Value::Word(_) => ValueKind::Word,
            Value::Range(_, _) => ValueKind::Range,
            Value::List(_) => ValueKind::List,
        }
    }

    /// The integer this value stands for.
    pub fn as_int(&self) -> (r: Result<i32, Error>)
        ensures
            widen(r) == self@.as_int(),
        decreases self,
    {
        match self {
            Value::Word(_) => Err(Error::NotANumber(ValueKind::Word)),
            Value::Num(n) => Ok(*n),
            Value::Range(_, _) => Err(Error::NotANumber(ValueKind::Range)),
            Value::List(l) => {
                let ghost full = views(l@);
                let mut total: i128 = 0;
                let mut i: usize = 0;
                assert(full.skip(0) =~= full);
                while i < l.len()
                    invariant
                        i <= l.len(),
                        full == views(l@),
                        self@ == ValueView::List(full),
                        decreases_to!(*self => *l),
                        -(i as int) * 0x8000_0000 <= total <= (i as int) * 0x8000_0000,
                        ValueView::sum(full) == match ValueView::sum(full.skip(i as int)) {
                            Err(e) => Err(e),
                            Ok(t) => Ok(total + t),
                        },
                    decreases l.len() - i,
                {
                    proof {
                        assert(full.skip(i as int).drop_first() =~= full.skip(i as int + 1));
                        assert(full.skip(i as int).first() == l@[i as int]@);
                    }
                    match l[i].as_int() {
                        Err(e) => {
                            return Err(e);
                        },
                        Ok(n) => {
                            total = total + n as i128;
                        },
                    }
                    i += 1;
                }
                assert(full.skip(i as int) =~= Seq::<ValueView>::empty());
                if total < i32::MIN as i128 || total > i32::MAX as i128 {
                    Err(Error::Overflow)
                } else {
                    Ok(total as i32)
                }
            },
        }
    }

    /// The greatest or least number of this value.
    fn _most(&self, high: bool) -> (r: Result<i32, Error>)
        ensures
            match r {
                Ok(n) => self@.most(high) == Ok::<ValueView, Error>(ValueView::Num(n as int)),
                Err(e) => self@.most(high) == Err::<ValueView, Error>(e),
            },
    {
        match self {
            Value::Word(_) => Err(Error::NotOrdered),
            Value::Num(n) => Ok(*n),
            Value::Range(a, b) => if (high && *a >= *b) || (!high && *a <= *b) {
                Ok(*a)
            } else {
                Ok(*b)
            },
            Value::List(l) => {
                let ghost full = views(l@);
                let mut res: Option<i32> = None;
                let mut i: usize = 0;
                assert(full.skip(0) =~= full);
                while i < l.len()
                    invariant
                        i <= l.len(),
                        full == views(l@),
                        ValueView::extreme(full, high) == match (
                            res,
                            ValueView::extreme(full.skip(i as int), high),
                        ) {
                            (None, rest) => rest,
                            (Some(p), rest) => Some(pick(high, Some(p as int), rest)),
                        },
                    decreases l.len() - i,
                {
                    proof {
                        assert(full.skip(i as int).drop_first() =~= full.skip(i as int + 1));
                        assert(full.skip(i as int).first() == l@[i as int]@);
                    }
                    if let Value::Num(n) = &l[i] {
                        match res {
                            None => res = Some(*n),
                            Some(p) => if (high && *n > p) || (!high && *n < p) {
                                res = Some(*n);
                            },
                        }
                    }
                    i += 1;
                }
                assert(full.skip(i as int) =~= Seq::<ValueView>::empty());
                match res {
                    Some(n) => Ok(n),
                    None => Err(Error::NoNumbers),
                }
            },
        }
    }

    /// The highest number of this value, as a value.
    pub fn highest(&self) -> (r: Result<Value, Error>)
        ensures
            view_result(r) == self@.highest(),
    {
        match self._most(true) {
            Ok(n) => Ok(Value::Num(n)),
            Err(e) => Err(e),
        }
    }

    /// The lowest number of this value, as a value.
    pub fn lowest(&self) -> (r: Result<Value, Error>)
        ensures
            view_result(r) == self@.lowest(),
    {
        match self._most(false) {
            Ok(n) => Ok(Value::Num(n)),
            Err(e) => Err(e),
        }
    }

    /// The items of this value with every nested list opened up.
    pub fn flatten(&self) -> (items: Vec<Value>)
        ensures
            views(items@) == self@.flatten(),
        decreases self,
    {
        match self {
            Value::List(l) => {
                let ghost full = views(l@);
                let mut res: Vec<Value> = Vec::new();
                let mut i: usize = 0;
                assert(full.skip(0) =~= full);
                assert(views(res@) + ValueView::flatten_all(full) =~= ValueView::flatten_all(full));
                while i < l.len()
                    invariant
                        i <= l.len(),
                        full == views(l@),
                        decreases_to!(*self => *l),
                        ValueView::flatten_all(full) == views(res@) + ValueView::flatten_all(
                            full.skip(i as int),
                        ),
                    decreases l.len() - i,
                {
                    proof {
                        assert(full.skip(i as int).drop_first() =~= full.skip(i as int + 1));
                        assert(full.skip(i as int).first() == l@[i as int]@);
                    }
                    let mut part = l[i].flatten();
                    let ghost before = res@;
                    let ghost added = part@;
                    res.append(&mut part);
                    assert(views(res@) =~= views(before) + views(added));
                    i += 1;
                }
                assert(full.skip(i as int) =~= Seq::<ValueView>::empty());
                assert(views(res@) + Seq::<ValueView>::empty() =~= views(res@));
                res
            },
            v => {
                let mut res: Vec<Value> = Vec::new();
                res.push(v.clone());
                assert(views(res@) =~= seq![v@]);
                res
            },
        }
    }
}

impl Value {
    /// Whether the two values are equal.
    pub fn equals(&self, other: &Value) -> (b: bool)
        ensures
            b == (self@ == other@),
        decreases self,
    {
        match (self, other) {
            (Value::Num(a), Value::Num(b)) => *a == *b,
            (Value::Word(a), Value::Word(b)) => *a == *b,
            (Value::Range(al, ah), Value::Range(bl, bh)) => *al == *bl && *ah == *bh,
            (Value::List(a), Value::List(b)) => {
                if a.len() != b.len() {
                    assert(views(a@).len() != views(b@).len());
                    return false;
                }
                let mut i: usize = 0;
                while i < a.len()
                    invariant
                        i <= a.len(),
                        a.len() == b.len(),
                        decreases_to!(*self => *a),
                        self@ == ValueView::List(views(a@)),
                        other@ == ValueView::List(views(b@)),
                        forall|k: int| 0 <= k < i ==> a@[k]@ == b@[k]@,
                    decreases a.len() - i,
                {
                    if !a[i].equals(&b[i]) {
                        assert(views(a@)[i as int] != views(b@)[i as int]);
                        return false;
                    }
                    i += 1;
                }
                assert(views(a@) =~= views(b@));
                true
            },
            _ => false,
        }
    }

    /// How this value stands to `other` in the order of values.
    pub fn compare(&self, other: &Value) -> (o: Order)
        ensures
            o == self@.order(other@),
        decreases self,
    {
        match (self, other) {
            (Value::Num(a), Value::Num(b)) => compare_i64(*a as i64, *b as i64),
            (Value::Word(a), Value::Word(b)) => {
                let x = chars_of(a.as_str());
                let y = chars_of(b.as_str());
                compare_chars(&x, &y)
            },
            (Value::Range(al, ah), Value::Range(bl, bh)) => compare_i64(
                2 * (*ah as i64) - (*al as i64),
                2 * (*bh as i64) - (*bl as i64),
            ),
            (Value::List(a), Value::List(b)) => {
                let ghost fa = views(a@);
                let ghost fb = views(b@);
                let mut i: usize = 0;
                assert(fa.skip(0) =~= fa && fb.skip(0) =~= fb);
                while i < a.len() && i < b.len()
                    invariant
                        i <= a.len(),
                        i <= b.len(),
                        fa == views(a@),
                        fb == views(b@),
                        decreases_to!(*self => *a),
                        self@ == ValueView::List(fa),
                        other@ == ValueView::List(fb),
                        ValueView::order_items(fa, fb) == ValueView::order_items(
                            fa.skip(i as int),
                            fb.skip(i as int),
                        ),
                    decreases a.len() - i,
                {
                    proof {
                        assert(fa.skip(i as int).drop_first() =~= fa.skip(i as int + 1));
                        assert(fb.skip(i as int).drop_first() =~= fb.skip(i as int + 1));
                        assert(fa.skip(i as int).first() == a@[i as int]@);
                        assert(fb.skip(i as int).first() == b@[i as int]@);
                    }
                    match a[i].compare(&b[i]) {
                        Order::Equal => {},
                        o => {
                            return o;
                        },
                    }
                    i += 1;
                }
                if i < b.len() {
                    Order::Less
                } else if i < a.len() {
                    Order::Greater
                } else {
                    Order::Equal
                }
            },
            (Value::Num(_), _) => Order::Less,
            (_, Value::Num(_)) => Order::Greater,
            (Value::Word(_), _) => Order::Less,
            (_, Value::Word(_)) => Order::Greater,
            (Value::Range(_, _), _) => Order::Less,
            (_, Value::Range(_, _)) => Order::Greater,
        }
    }

    /// The selection of this value by `f`: the items of a list that satisfy
    /// `f`, or the value itself if it is no list and satisfies `f`, else the
    /// empty list.
    ///
    /// `f` is called once on each item, in order. Whenever `f` decides as a
    /// predicate `p` on models does, the result is the model's selection by
    /// `p`.
    pub fn filter<F: Fn(&Value) -> bool>(&self, f: F) -> (out: Value)
        requires
            match self {
                Value::List(l) => forall|i: int| 0 <= i < l@.len() ==> call_requires(f, (&l@[i],)),
                v => call_requires(f, (v,)),
            },
        ensures
            match self {
                Value::List(l) => exists|keep: Seq<bool>| #[trigger]
                    answers(f, l@, keep) && out@ == ValueView::List(chosen(views(l@), keep)),
                v => (call_ensures(f, (v,), true) && out@ == v@) || (call_ensures(f, (v,), false)
                    && out@ == ValueView::List(Seq::empty())),
            },
            forall|p: spec_fn(ValueView) -> bool| #[trigger]
                decides(f, p) ==> out@ == self@.filter(p),
    {
        match self {
            Value::List(l) => {
                let ghost full = views(l@);
                let ghost mut keep: Seq<bool> = Seq::empty();
                let mut kept: Vec<Value> = Vec::new();
                let mut i: usize = 0;
                proof {
                    assert(full.take(0) =~= Seq::<ValueView>::empty());
                    assert(views(kept@) =~= Seq::<ValueView>::empty());
                    assert forall|p: spec_fn(ValueView) -> bool| #[trigger] decides(f, p) implies views(
                        kept@,
                    ) == full.take(0).filter(p) by {
                        reveal(Seq::filter);
                    }
                }
                while i < l.len()
                    invariant
                        i <= l.len(),
                        full == views(l@),
                        forall|k: int| 0 <= k < l@.len() ==> call_requires(f, (&l@[k],)),
                        keep.len() == i,
                        forall|k: int| 0 <= k < i ==> call_ensures(f, (&l@[k],), #[trigger] keep[k]),
                        views(kept@) == chosen(full.take(i as int), keep),
                        forall|p: spec_fn(ValueView) -> bool| #[trigger]
                            decides(f, p) ==> views(kept@) == full.take(i as int).filter(p),
                    decreases l.len() - i,
                {
                    let ghost before = kept@;
                    let answer = f(&l[i]);
                    if answer {
                        kept.push(l[i].clone());
                    }
                    proof {
                        let longer = full.take(i as int + 1);
                        assert(longer =~= full.take(i as int).push(l@[i as int]@));
                        assert(longer.drop_last() =~= full.take(i as int));
                        assert(keep.push(answer).drop_last() =~= keep);
                        if answer {
                            assert(views(kept@) =~= views(before).push(l@[i as int]@));
                        }
                        assert forall|p: spec_fn(ValueView) -> bool| #[trigger]
                            decides(f, p) implies views(kept@) == longer.filter(p) by {
                            assert(answer == p(l@[i as int]@));
                            full.take(i as int).lemma_filter_push(l@[i as int]@, p);
                        }
                        keep = keep.push(answer);
                    }
                    i += 1;
                }
                assert(answers(f, l@, keep));
                assert(full.take(i as int) =~= full);
                Value::List(kept)
            },
            v => {
                if f(v) {
                    v.clone()
                } else {
                    let none: Vec<Value> = Vec::new();
                    assert(views(none@) =~= Seq::<ValueView>::empty());
                    Value::List(none)
                }
            },
        }
    }

    /// The numbers this value offers to a choice of the best.
    fn numbers(&self) -> (r: Result<Vec<i32>, Error>)
        ensures
            match r {
                Ok(v) => self@.numbers() == Ok::<Seq<int>, Error>(ints(v@)),
                Err(e) => self@.numbers() == Err::<Seq<int>, Error>(e),
            },
    {
        let mut out: Vec<i32> = Vec::new();
        match self {
            Value::Word(_) => {
                return Err(Error::NotOrdered);
            },
            Value::Num(n) => {
                out.push(*n);
                assert(ints(out@) =~= seq![*n as int]);
            },
            Value::Range(a, b) => {
                out.push(*a);
                out.push(*b);
                assert(ints(out@) =~= seq![*a as int, *b as int]);
            },
            Value::List(l) => {
                let ghost full = views(l@);
                let mut i: usize = 0;
                assert(full.take(0) =~= Seq::<ValueView>::empty());
                assert(ints(out@) =~= Seq::<int>::empty());
                while i < l.len()
                    invariant
                        i <= l.len(),
                        full == views(l@),
                        ints(out@) == numbers_of(full.take(i as int)),
                    decreases l.len() - i,
                {
                    proof {
                        assert(full.take(i as int + 1).drop_last() =~= full.take(i as int));
                        assert(full.take(i as int + 1).last() == l@[i as int]@);
                    }
                    let ghost before = out@;
                    if let Value::Num(n) = &l[i] {
                        out.push(*n);
                        assert(ints(out@) =~= ints(before).push(*n as int));
                    }
                    i += 1;
                }
                assert(full.take(i as int) =~= full);
            },
        }
        Ok(out)
    }

    /// The `n` highest (`high`) or lowest numbers of this value, best first.
    pub fn keep(&self, n: usize, high: bool) -> (r: Result<Value, Error>)
        ensures
            view_result(r) == self@.keep(n as nat, high),
    {
        let mut pool = match self.numbers() {
            Ok(v) => v,
            Err(e) => {
                return Err(e);
            },
        };
        let ghost all = ints(pool@);
        let mut kept: Vec<Value> = Vec::new();
        let mut left = n;
        assert(views(kept@) =~= Seq::<int>::empty().map_values(|k: int| ValueView::Num(k)));
        while left > 0 && pool.len() > 0
            invariant
                best(all, n as nat, high) == ints_of(views(kept@)) + best(
                    ints(pool@),
                    left as nat,
                    high,
                ),
                forall|k: int| 0 <= k < kept@.len() ==> kept@[k]@ is Num,
            decreases left,
        {
            let i = best_index(&pool, high);
            let ghost before = ints(pool@);
            let ghost had = views(kept@);
            let x = pool.remove(i);
            kept.push(Value::Num(x));
            left -= 1;
            proof {
                assert(ints(pool@) =~= before.remove(i as int));
                assert(views(kept@) =~= had.push(ValueView::Num(x as int)));
                assert(ints_of(views(kept@)) =~= ints_of(had).push(x as int));
                assert(ints_of(had) + (seq![x as int] + best(ints(pool@), left as nat, high))
                    =~= ints_of(views(kept@)) + best(ints(pool@), left as nat, high));
            }
        }
        proof {
            let done = best(all, n as nat, high);
            assert(best(ints(pool@), left as nat, high) =~= Seq::<int>::empty());
            assert(done =~= ints_of(views(kept@)));
            assert(views(kept@) =~= done.map_values(|k: int| ValueView::Num(k))) by {
                assert forall|k: int| 0 <= k < done.len() implies views(kept@)[k]
                    == ValueView::Num(done[k]) by {
                    assert(kept@[k]@ is Num);
                }
            }
        }
        Ok(Value::List(kept))
    }

    /// Whether this value can be rolled.
    pub fn can_roll(&self) -> (b: bool)
        ensures
            b == self@.rollable(),
    {
        match self {
            Value::Num(n) => *n == 10 || *n >= 1,
            Value::Range(a, b) => *a != *b,
            _ => true,
        }
    }

    /// The face that a die of `faces` faces shows for the draw `draw`, where
    /// the draws are counted from zero: a die of ten faces shows the draw
    /// itself, 0 to 9, any other die the draw and one, 1 to `faces`.
    pub fn die_face(faces: i32, draw: i32) -> (face: i32)
        requires
            0 <= draw < faces,
        ensures
            face == face_of(faces as int, draw as int),
    {
        if faces == 10 {
            draw
        } else {
            draw + 1
        }
    }

    /// One roll of this value, drawing from `r`.
    ///
    /// A die of ten faces lands on 0 to 9, any other die on 1 to its number
    /// of faces, and a range between its bounds, whichever comes first.
    pub fn roll(&self, r: &mut StdRng) -> (out: Value)
        requires
            self@.rollable(),
        ensures
            self@.rolls_to(out@),
            self@ matches ValueView::Num(n) ==> n != 10 ==> out@.is_within(1, n),
            self@ == ValueView::Num(10) ==> out@.is_within(0, 9),
            self@ matches ValueView::Range(a, b) ==> a < b ==> out@.is_within(a, b - 1),
            self@ matches ValueView::Range(a, b) ==> b < a ==> out@.is_within(b, a - 1),
    {
        match self {
            Value::Num(n) => {
                let draw = random_i32(r, 0, *n);
                Value::Num(Value::die_face(*n, draw))
            },
            Value::Range(a, b) => if *a < *b {
                Value::Num(random_i32(r, *a, *b))
            } else {
                Value::Num(random_i32(r, *b, *a))
            },
            Value::Word(s) => Value::Word(s.clone()),
            Value::List(v) => {
                if v.len() == 0 {
                    return Value::Num(0);
                }
                let n = random_index(r, v.len());
                let out = v[n].clone();
                assert(views(v@)[n as int] == out@);
                out
            },
        }
    }

    /// `n` rolls of this value, drawing from `r`: the outcome itself when
    /// `n` is one, else the list of the `n` outcomes in the order rolled.
    pub fn roll_n(&self, n: i32, r: &mut StdRng) -> (out: Value)
        requires
            0 <= n,
            self@.rollable(),
        ensures
            self@.rolls_n_to(n as int, out@),
    {
        if n == 1 {
            self.roll(r)
        } else {
            let mut res: Vec<Value> = Vec::new();
            let mut i: i32 = 0;
            while i < n
                invariant
                    0 <= i <= n,
                    self@.rollable(),
                    res@.len() == i,
                    forall|k: int| 0 <= k < i ==> self@.rolls_to(#[trigger] res@[k]@),
                decreases n - i,
            {
                let one = self.roll(r);
                res.push(one);
                i += 1;
            }
            proof {
                let l = views(res@);
                assert forall|k: int| 0 <= k < l.len() implies self@.rolls_to(#[trigger] l[k]) by {
                    assert(l[k] == res@[k]@);
                }
            }
            Value::List(res)
        }
    }

    /// Appends the text of this value to `out`.
    pub fn write_to(&self, out: &mut String)
        ensures
            final(out)@ == old(out)@ + self@.text(),
        decreases self,
    {
        match self {
            Value::Word(s) => {
                out.append(s.as_str());
            },
            Value::Num(n) => {
                push_decimal(out, *n);
            },
            Value::Range(a, b) => {
                push_decimal(out, *a);
                out.push('.');
                out.push('.');
                push_decimal(out, *b);
                assert(final(out)@ =~= old(out)@ + self@.text());
            },
            Value::List(l) => {
                let ghost full = views(l@);
                let ghost start = out@;
                let mut i: usize = 0;
                assert(full.skip(0) =~= full);
                assert(out@ =~= start + Seq::<char>::empty());
                let ghost mut done: Seq<char> = Seq::empty();
                while i < l.len()
                    invariant
                        i <= l.len(),
                        full == views(l@),
                        decreases_to!(*self => *l),
                        out@ == start + done,
                        ValueView::items_text(full, true) == done + ValueView::items_text(
                            full.skip(i as int),
                            i == 0,
                        ),
                    decreases l.len() - i,
                {
                    proof {
                        assert(full.skip(i as int).drop_first() =~= full.skip(i as int + 1));
                        assert(full.skip(i as int).first() == l@[i as int]@);
                    }
                    if i == 0 {
                        out.push('[');
                    } else {
                        out.push(',');
                        out.push(' ');
                    }
                    l[i].write_to(out);
                    proof {
                        let lead = if i == 0 {
                            seq!['[']
                        } else {
                            seq![',', ' ']
                        };
                        let next = done + lead + l@[i as int]@.text();
                        assert(out@ =~= start + next);
                        assert(done + (lead + l@[i as int]@.text() + ValueView::items_text(
                            full.skip(i as int + 1),
                            false,
                        )) =~= next + ValueView::items_text(full.skip(i as int + 1), false));
                        done = next;
                    }
                    i += 1;
                }
                out.push(']');
                proof {
                    assert(full.skip(i as int) =~= Seq::<ValueView>::empty());
                    assert(final(out)@ =~= old(out)@ + self@.text());
                }
            },
        }
    }

    /// The text of this value.
    pub fn to_string(&self) -> (s: String)
        ensures
            s@ == self@.text(),
    {
        let mut s = String::new();
        self.write_to(&mut s);
        assert(s@ =~= self@.text());
        s
    }
}

/// A sequence of 32-bit numbers as integers.
pub open spec fn ints(s: Seq<i32>) -> Seq<int> {
    s.map_values(|k: i32| k as int)
}

/// The numbers that a sequence of number values holds; zero stands for an
/// item that is no number.
pub open spec fn ints_of(s: Seq<ValueView>) -> Seq<int> {
    s.map_values(
        |v: ValueView|
            match v {
                ValueView::Num(k) => k,
                _ => 0,
            },
    )
}

/// The place of the best number of a non-empty pool.
fn best_index(pool: &Vec<i32>, high: bool) -> (i: usize)
    requires
        pool@.len() > 0,
    ensures
        i < pool@.len(),
        i == best_at(ints(pool@), high),
{
    let mut at: usize = 0;
    let mut k: usize = 1;
    assert(ints(pool@).take(1).len() == 1);
    while k < pool.len()
        invariant
            1 <= k <= pool.len(),
            at < k,
            at == best_at(ints(pool@).take(k as int), high),
        decreases pool.len() - k,
    {
        proof {
            let longer = ints(pool@).take(k as int + 1);
            assert(longer.drop_last() =~= ints(pool@).take(k as int));
            assert(longer.last() == pool@[k as int] as int);
            assert(longer[at as int] == pool@[at as int] as int);
        }
        if (high && pool[k] > pool[at]) || (!high && pool[k] < pool[at]) {
            at = k;
        }
        k += 1;
    }
    assert(ints(pool@).take(k as int) =~= ints(pool@));
    at
}

fn compare_i64(a: i64, b: i64) -> (o: Order)
    ensures
        o == order_int(a as int, b as int),
{
    if a < b {
        Order::Less
    } else if a == b {
        Order::Equal
    } else {
        Order::Greater
    }
}

} // verus!
