//! The evaluation context: the operand stack, the roll and label histories,
//! the variable bindings and the random source of one evaluation.

use crate::dice::{views, Value, ValueView};
use crate::error::Error;
use crate::random::entropy_rng;
use crate::tracker::{label_views, trace_text, write_trace, Tracker};
use rand::rngs::StdRng;
use vstd::prelude::*;
use vstd::string::StringExecFns;

verus! {

/// The mathematical model of a [`Context`]. The random source is no part of
/// it: nothing is known of what it will draw.
pub struct ContextView {
    /// The operand stack, bottom first.
    pub stack: Seq<ValueView>,
    /// Every roll, oldest first.
    pub rolls: Seq<ValueView>,
    /// Every label with its value, oldest first.
    pub labels: Seq<(Seq<char>, ValueView)>,
    /// The variable bindings.
    pub vars: Map<Seq<char>, ValueView>,
}

impl ContextView {
    /// The context with nothing in it.
    pub open spec fn empty() -> ContextView {
        ContextView {
            stack: Seq::empty(),
            rolls: Seq::empty(),
            labels: Seq::empty(),
            vars: Map::empty(),
        }
    }

    /// This context with another stack.
    pub open spec fn with_stack(self, stack: Seq<ValueView>) -> ContextView {
        ContextView { stack, ..self }
    }

    /// This context with `v` on top of the stack.
    pub open spec fn push(self, v: ValueView) -> ContextView {
        self.with_stack(self.stack.push(v))
    }

    /// This context without the top `n` values of the stack.
    pub open spec fn drop(self, n: int) -> ContextView {
        self.with_stack(self.stack.take(self.stack.len() - n))
    }

    /// The value `depth` places below the top of the stack.
    pub open spec fn peek(self, depth: int) -> ValueView {
        self.stack[self.stack.len() - 1 - depth]
    }

    /// This context with `v` on top of the stack and at the end of the rolls.
    pub open spec fn push_roll(self, v: ValueView) -> ContextView {
        ContextView { stack: self.stack.push(v), rolls: self.rolls.push(v), ..self }
    }

    /// This context with one more label.
    pub open spec fn add_label(self, name: Seq<char>, v: ValueView) -> ContextView {
        ContextView { labels: self.labels.push((name, v)), ..self }
    }

    /// This context with `name` bound to `v`.
    pub open spec fn bind(self, name: Seq<char>, v: ValueView) -> ContextView {
        ContextView { vars: self.vars.insert(name, v), ..self }
    }
}

/// The bindings that a list of named values stands for: each name is bound
/// to the value of its last entry.
pub open spec fn bindings(s: Seq<(String, Value)>) -> Map<Seq<char>, ValueView>
    decreases s.len(),
{
    if s.len() == 0 {
        Map::empty()
    } else {
        bindings(s.drop_last()).insert(s.last().0@, s.last().1@)
    }
}

proof fn lemma_bindings_absent(s: Seq<(String, Value)>, name: Seq<char>)
    requires
        forall|k: int| 0 <= k < s.len() ==> s[k].0@ != name,
    ensures
        !bindings(s).contains_key(name),
    decreases s.len(),
{
    if s.len() > 0 {
        lemma_bindings_absent(s.drop_last(), name);
    }
}

proof fn lemma_bindings_last(s: Seq<(String, Value)>, i: int)
    requires
        0 <= i < s.len(),
        forall|k: int| i < k < s.len() ==> s[k].0@ != s[i].0@,
    ensures
        bindings(s).contains_key(s[i].0@),
        bindings(s)[s[i].0@] == s[i].1@,
    decreases s.len(),
{
    if i < s.len() - 1 {
        lemma_bindings_last(s.drop_last(), i);
    }
}

proof fn lemma_bindings_update(s: Seq<(String, Value)>, i: int, entry: (String, Value))
    requires
        0 <= i < s.len(),
        entry.0@ == s[i].0@,
        forall|k: int| i < k < s.len() ==> s[k].0@ != s[i].0@,
    ensures
        bindings(s.update(i, entry)) == bindings(s).insert(entry.0@, entry.1@),
    decreases s.len(),
{
    let t = s.update(i, entry);
    if i == s.len() - 1 {
        assert(t.drop_last() =~= s.drop_last());
        assert(bindings(t) =~= bindings(s).insert(entry.0@, entry.1@));
    } else {
        lemma_bindings_update(s.drop_last(), i, entry);
        assert(t.drop_last() =~= s.drop_last().update(i, entry));
        assert(t.last() == s.last());
        assert(bindings(t) =~= bindings(s).insert(entry.0@, entry.1@));
    }
}

/// The state of one evaluation.
#[derive(Debug)]
pub struct Context {
    stack: Vec<Value>,
    rolls: Vec<Value>,
    labels: Vec<(String, Value)>,
    vars: Vec<(String, Value)>,
    rng: StdRng,
}

impl View for Context {
    type V = ContextView;

    closed spec fn view(&self) -> ContextView {
        ContextView {
            stack: views(self.stack@),
            rolls: views(self.rolls@),
            labels: label_views(self.labels@),
            vars: bindings(self.vars@),
        }
    }
}

impl Context {
    /// The random source that this context draws from. It is no part of the
    /// model, and nothing is known of it but which source it is.
    pub closed spec fn source(&self) -> StdRng {
        self.rng
    }

    /// An empty context with a random source seeded by the system.
    pub fn new() -> (ct: Context)
        ensures
            ct@ == ContextView::empty(),
    {
        Context::with_rng(entropy_rng())
    }

    /// An empty context that draws from `rng`.
    pub fn with_rng(rng: StdRng) -> (ct: Context)
        ensures
            ct@ == ContextView::empty(),
            ct.source() == rng,
    {
        let ct = Context {
            stack: Vec::new(),
            rolls: Vec::new(),
            labels: Vec::new(),
            vars: Vec::new(),
            rng,
        };
        assert(ct@.stack =~= Seq::empty());
        assert(ct@.rolls =~= Seq::empty());
        assert(ct@.labels =~= Seq::empty());
        ct
    }

    /// The last roll, if any was made.
    pub fn prev(&self) -> (r: Option<Value>)
        ensures
            match r {
                Some(v) => self@.rolls.len() > 0 && v@ == self@.rolls.last(),
                None => self@.rolls.len() == 0,
            },
    {
        self.last_roll()
    }

    /// Puts a value on top of the stack.
    pub fn push(&mut self, dr: Value)
        ensures
            final(self)@ == old(self)@.push(dr@),
    {
        self.stack.push(dr);
        assert(views(self.stack@) =~= views(old(self).stack@).push(dr@));
    }

    /// Puts the value bound to `name` on top of the stack.
    pub fn push_var(&mut self, name: &str) -> (r: Result<(), Error>)
        ensures
            match r {
                Ok(_) => old(self)@.vars.contains_key(name@) && final(self)@ == old(self)@.push(
                    old(self)@.vars[name@],
                ),
                Err(e) => !old(self)@.vars.contains_key(name@) && e == Error::VariableNotFound
                    && final(self)@ == old(self)@,
            },
    {
        match self.get_var(name) {
            Some(v) => {
                self.push(v);
                Ok(())
            },
            None => Err(Error::VariableNotFound),
        }
    }

    /// Takes the top value off the stack, if there is one.
    pub fn pop(&mut self) -> (top: Option<Value>)
        ensures
            match top {
                Some(v) => old(self)@.stack.len() > 0 && v@ == old(self)@.peek(0) && final(self)@
                    == old(self)@.drop(1),
                None => old(self)@.stack.len() == 0 && final(self)@ == old(self)@,
            },
    {
        let top = self.stack.pop();
        assert(old(self).stack@.len() > 0 ==> views(self.stack@) =~= views(old(self).stack@).take(
            old(self).stack@.len() - 1,
        ));
        top
    }

    /// Takes the top value off the stack; an empty stack is an error.
    pub fn try_pop(&mut self) -> (r: Result<Value, Error>)
        ensures
            match r {
                Ok(v) => old(self)@.stack.len() > 0 && v@ == old(self)@.peek(0) && final(self)@
                    == old(self)@.drop(1),
                Err(e) => old(self)@.stack.len() == 0 && e == Error::NothingOnStack && final(self)@ == old(self)@,
            },
    {
        match self.pop() {
            Some(v) => Ok(v),
            None => Err(Error::NothingOnStack),
        }
    }

    /// A copy of the top value of the stack; an empty stack is an error.
    pub fn try_top(&self) -> (r: Result<Value, Error>)
        ensures
            match r {
                Ok(v) => self@.stack.len() > 0 && v@ == self@.peek(0),
                Err(e) => self@.stack.len() == 0 && e == Error::NothingOnStack,
            },
    {
        let l = self.stack.len();
        if l == 0 {
            Err(Error::NothingOnStack)
        } else {
            Ok(self.stack[l - 1].clone())
        }
    }

    /// Takes the top `n` values off the stack and returns them in the order
    /// they lay in, bottom first; asking for more than there are is an error.
    pub fn top_n(&mut self, n: usize) -> (r: Result<Vec<Value>, Error>)
        ensures
            match r {
                Ok(items) => n <= old(self)@.stack.len() && views(items@) == old(self)@.stack.skip(old(self)@.stack.len() - n) && final(self)@ == old(self)@.drop(
                    n as int,
                ),
                Err(e) => n > old(self)@.stack.len() && e == Error::NotEnoughElements && final(self)@ == old(self)@,
            },
    {
        let l = self.stack.len();
        if n > l {
            return Err(Error::NotEnoughElements);
        }
        let items = self.stack.split_off(l - n);
        assert(views(items@) =~= views(old(self).stack@).skip(l - n));
        assert(views(self.stack@) =~= views(old(self).stack@).take(l - n));
        Ok(items)
    }

    /// Puts a roll on top of the stack and records it in the roll history.
    pub fn push_roll(&mut self, dr: Value)
        ensures
            final(self)@ == old(self)@.push_roll(dr@),
    {
        self.stack.push(dr.clone());
        self.rolls.push(dr);
        assert(views(self.stack@) =~= views(old(self).stack@).push(dr@));
        assert(views(self.rolls@) =~= views(old(self).rolls@).push(dr@));
    }

    /// The last roll, if any was made.
    pub fn last_roll(&self) -> (r: Option<Value>)
        ensures
            match r {
                Some(v) => self@.rolls.len() > 0 && v@ == self@.rolls.last(),
                None => self@.rolls.len() == 0,
            },
    {
        let l = self.rolls.len();
        if l == 0 {
            None
        } else {
            Some(self.rolls[l - 1].clone())
        }
    }

    /// The index of the last entry for `name`, if there is one.
    fn find_var(&self, name: &str) -> (r: Option<usize>)
        ensures
            match r {
                Some(i) => i < self.vars@.len() && self.vars@[i as int].0@ == name@ && forall|
                    k: int,
                |
                    i < k < self.vars@.len() ==> self.vars@[k].0@ != name@,
                None => forall|k: int| 0 <= k < self.vars@.len() ==> self.vars@[k].0@ != name@,
            },
    {
        let key = String::from_str(name);
        let mut i: usize = self.vars.len();
        while i > 0
            invariant
                i <= self.vars@.len(),
                key@ == name@,
                forall|k: int| i <= k < self.vars@.len() ==> self.vars@[k].0@ != name@,
            decreases i,
        {
            i -= 1;
            if self.vars[i].0 == key {
                return Some(i);
            }
        }
        None
    }

    /// The value bound to `s`, if there is one.
    pub fn get_var(&self, s: &str) -> (r: Option<Value>)
        ensures
            match r {
                Some(v) => self@.vars.contains_key(s@) && v@ == self@.vars[s@],
                None => !self@.vars.contains_key(s@),
            },
    {
        match self.find_var(s) {
            Some(i) => {
                proof {
                    lemma_bindings_last(self.vars@, i as int);
                }
                Some(self.vars[i].1.clone())
            },
            None => {
                proof {
                    lemma_bindings_absent(self.vars@, s@);
                }
                None
            },
        }
    }

    /// Binds `name` to `value`, in place of what it was bound to before.
    pub fn set_var(&mut self, name: String, value: Value)
        ensures
            final(self)@ == old(self)@.bind(name@, value@),
    {
        match self.find_var(name.as_str()) {
            Some(i) => {
                proof {
                    lemma_bindings_update(self.vars@, i as int, (name, value));
                }
                self.vars.set(i, (name, value));
            },
            None => {
                self.vars.push((name, value));
                assert(self.vars@.drop_last() =~= old(self).vars@);
            },
        }
    }

    /// Records `v` under the label `s`. The stack is left as it is.
    pub fn add_label(&mut self, s: String, v: Value)
        ensures
            final(self)@ == old(self)@.add_label(s@, v@),
    {
        self.labels.push((s, v));
        assert(label_views(self.labels@) =~= label_views(old(self).labels@).push((s@, v@)));
    }

    /// The random source of this context, to draw from. What the caller
    /// leaves it as is what the context draws from afterwards; nothing else
    /// of the context changes.
    pub fn rng(&mut self) -> (r: &mut StdRng)
        ensures
            *r == old(self).source(),
            final(self).source() == *final(r),
            final(self)@ == old(self)@,
    {
        &mut self.rng
    }

    /// The trace of the evaluation as text: the rolls, the stack unless it
    /// is empty, and the labels.
    pub fn to_string(&self) -> (s: String)
        ensures
            s@ == trace_text(self@.stack, self@.rolls, self@.labels),
    {
        let mut s = String::new();
        write_trace(&mut s, &self.stack, &self.rolls, &self.labels);
        assert(s@ =~= trace_text(self@.stack, self@.rolls, self@.labels));
        s
    }

    /// The values on the stack, bottom first.
    pub fn stack(&self) -> (s: &Vec<Value>)
        ensures
            views(s@) == self@.stack,
    {
        &self.stack
    }

    /// Every roll made, oldest first.
    pub fn rolls(&self) -> (s: &Vec<Value>)
        ensures
            views(s@) == self@.rolls,
    {
        &self.rolls
    }

    /// Every label recorded with its value, oldest first.
    pub fn labels(&self) -> (s: &Vec<(String, Value)>)
        ensures
            label_views(s@) == self@.labels,
    {
        &self.labels
    }

    /// Gives up the context for its trace: the stack, the rolls and the
    /// labels.
    pub fn into_tracker(self) -> (t: Tracker)
        ensures
            t@.stack == self@.stack,
            t@.rolls == self@.rolls,
            t@.labels == self@.labels,
    {
        Tracker::from_parts(self.stack, self.rolls, self.labels)
    }
}

} // verus!
