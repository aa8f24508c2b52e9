//! The trace of an evaluation: what is left on the stack, every roll made,
//! and every label recorded.

use crate::dice::{views, Value, ValueView};
use vstd::prelude::*;
use vstd::string::StringExecFns;

verus! {

/// The mathematical model of a [`Tracker`].
pub struct TrackerView {
    /// The operand stack, bottom first.
    pub stack: Seq<ValueView>,
    /// Every roll, oldest first.
    pub rolls: Seq<ValueView>,
    /// Every label with its value, oldest first.
    pub labels: Seq<(Seq<char>, ValueView)>,
}

/// The models of a sequence of labelled values, item by item.
pub open spec fn label_views(s: Seq<(String, Value)>) -> Seq<(Seq<char>, ValueView)> {
    Seq::new(s.len(), |i: int| (s[i].0@, s[i].1@))
}

/// The texts of the values with `_ ` between them.
pub open spec fn series_text(l: Seq<ValueView>) -> Seq<char>
    decreases l.len(),
{
    if l.len() == 0 {
        Seq::empty()
    } else if l.len() == 1 {
        l[0].text()
    } else {
        series_text(l.drop_last()) + seq!['_', ' '] + l.last().text()
    }
}

/// One line for each label: the name, a space, and the text of the value.
pub open spec fn labels_text(l: Seq<(Seq<char>, ValueView)>) -> Seq<char>
    decreases l.len(),
{
    if l.len() == 0 {
        Seq::empty()
    } else {
        labels_text(l.drop_last()) + l.last().0 + seq![' '] + l.last().1.text() + seq!['\n']
    }
}

/// The heading of the line of rolls.
pub open spec fn rolls_heading() -> Seq<char> {
    seq!['R', 'o', 'l', 'l', 's', ' ', ':', ' ']
}

/// The heading of the line of the stack, which starts a new line.
pub open spec fn stack_heading() -> Seq<char> {
    seq!['\n', 'S', 't', 'a', 'c', 'k', ' ', ':', ' ']
}

/// The line of the stack; nothing for an empty stack.
pub open spec fn stack_text(stack: Seq<ValueView>) -> Seq<char> {
    if stack.len() > 0 {
        stack_heading() + series_text(stack)
    } else {
        Seq::empty()
    }
}

/// A trace as text: the line of rolls, the line of the stack unless it is
/// empty, and a line for each label.
pub open spec fn trace_text(
    stack: Seq<ValueView>,
    rolls: Seq<ValueView>,
    labels: Seq<(Seq<char>, ValueView)>,
) -> Seq<char> {
    rolls_heading() + series_text(rolls) + stack_text(stack) + seq!['\n'] + labels_text(labels)
}

fn write_series(out: &mut String, items: &Vec<Value>)
    ensures
        final(out)@ == old(out)@ + series_text(views(items@)),
{
    let ghost full = views(items@);
    let ghost start = out@;
    let mut i: usize = 0;
    assert(full.take(0) =~= Seq::<ValueView>::empty());
    assert(out@ =~= start + series_text(full.take(0)));
    while i < items.len()
        invariant
            i <= items.len(),
            full == views(items@),
            out@ == start + series_text(full.take(i as int)),
        decreases items.len() - i,
    {
        let ghost before = out@;
        if i > 0 {
            out.push('_');
            out.push(' ');
        }
        items[i].write_to(out);
        proof {
            let longer = full.take(i as int + 1);
            assert(longer.drop_last() =~= full.take(i as int));
            assert(longer.last() == items@[i as int]@);
            if i == 0 {
                assert(full.take(0).len() == 0);
                assert(out@ =~= start + series_text(longer));
            } else {
                assert(out@ =~= start + series_text(longer));
            }
        }
        i += 1;
    }
    assert(full.take(i as int) =~= full);
}

fn write_labels(out: &mut String, labels: &Vec<(String, Value)>)
    ensures
        final(out)@ == old(out)@ + labels_text(label_views(labels@)),
{
    let ghost full = label_views(labels@);
    let ghost start = out@;
    let mut i: usize = 0;
    assert(full.take(0) =~= Seq::<(Seq<char>, ValueView)>::empty());
    assert(out@ =~= start + labels_text(full.take(0)));
    while i < labels.len()
        invariant
            i <= labels.len(),
            full == label_views(labels@),
            out@ == start + labels_text(full.take(i as int)),
        decreases labels.len() - i,
    {
        out.append(labels[i].0.as_str());
        out.push(' ');
        labels[i].1.write_to(out);
        out.push('\n');
        proof {
            let longer = full.take(i as int + 1);
            assert(longer.drop_last() =~= full.take(i as int));
            assert(longer.last() == (labels@[i as int].0@, labels@[i as int].1@));
            assert(out@ =~= start + labels_text(longer));
        }
        i += 1;
    }
    assert(full.take(i as int) =~= full);
}

/// Appends a trace as text to `out`.
pub fn write_trace(
    out: &mut String,
    stack: &Vec<Value>,
    rolls: &Vec<Value>,
    labels: &Vec<(String, Value)>,
)
    ensures
        final(out)@ == old(out)@ + trace_text(
            views(stack@),
            views(rolls@),
            label_views(labels@),
        ),
{
    proof {
        reveal_strlit("Rolls : ");
        reveal_strlit("\nStack : ");
        assert("Rolls : "@ =~= rolls_heading());
        assert("\nStack : "@ =~= stack_heading());
    }
    out.append("Rolls : ");
    write_series(out, rolls);
    if stack.len() > 0 {
        out.append("\nStack : ");
        write_series(out, stack);
    }
    out.push('\n');
    write_labels(out, labels);
    assert(final(out)@ =~= old(out)@ + trace_text(
        views(stack@),
        views(rolls@),
        label_views(labels@),
    ));
}

/// A stack of values with the history of rolls and labels beside it.
#[derive(Debug)]
pub struct Tracker {
    stack: Vec<Value>,
    rolls: Vec<Value>,
    labels: Vec<(String, Value)>,
}

impl View for Tracker {
    type V = TrackerView;

    closed spec fn view(&self) -> TrackerView {
        TrackerView {
            stack: views(self.stack@),
            rolls: views(self.rolls@),
            labels: label_views(self.labels@),
        }
    }
}

impl Tracker {
    /// An empty tracker.
    pub fn new() -> (t: Tracker)
        ensures
            t@.stack.len() == 0,
            t@.rolls.len() == 0,
            t@.labels.len() == 0,
    {
        Tracker { stack: Vec::new(), rolls: Vec::new(), labels: Vec::new() }
    }

    /// A tracker holding the given stack, rolls and labels.
    pub fn from_parts(stack: Vec<Value>, rolls: Vec<Value>, labels: Vec<(String, Value)>) -> (t:
        Tracker)
        ensures
            t@.stack == views(stack@),
            t@.rolls == views(rolls@),
            t@.labels == label_views(labels@),
    {
        Tracker { stack, rolls, labels }
    }

    /// Puts a value on top of the stack.
    pub fn push(&mut self, dr: Value)
        ensures
            final(self)@.stack == old(self)@.stack.push(dr@),
            final(self)@.rolls == old(self)@.rolls,
            final(self)@.labels == old(self)@.labels,
    {
        self.stack.push(dr);
        assert(views(self.stack@) =~= views(old(self).stack@).push(dr@));
    }

    /// Takes the top value off the stack, if there is one.
    pub fn pop(&mut self) -> (top: Option<Value>)
        ensures
            final(self)@.rolls == old(self)@.rolls,
            final(self)@.labels == old(self)@.labels,
            match top {
                Some(v) => old(self)@.stack.len() > 0 && v@ == old(self)@.stack.last()
                    && final(self)@.stack == old(self)@.stack.drop_last(),
                None => old(self)@.stack.len() == 0 && final(self)@.stack == old(self)@.stack,
            },
    {
        let top = self.stack.pop();
        assert(old(self).stack@.len() > 0 ==> views(self.stack@) =~= views(
            old(self).stack@,
        ).drop_last());
        top
    }

    /// Records a roll.
    pub fn roll(&mut self, dr: Value)
        ensures
            final(self)@.rolls == old(self)@.rolls.push(dr@),
            final(self)@.stack == old(self)@.stack,
            final(self)@.labels == old(self)@.labels,
    {
        self.rolls.push(dr);
        assert(views(self.rolls@) =~= views(old(self).rolls@).push(dr@));
    }

    /// The trace as text.
    pub fn to_string(&self) -> (s: String)
        ensures
            s@ == trace_text(self@.stack, self@.rolls, self@.labels),
    {
        let mut s = String::new();
        write_trace(&mut s, &self.stack, &self.rolls, &self.labels);
        assert(s@ =~= trace_text(self@.stack, self@.rolls, self@.labels));
        s
    }

    /// The values on the stack, bottom first.
    pub fn stack(&self) -> (s: &Vec<Value>)
        ensures
            views(s@) == self@.stack,
    {
        &self.stack
    }

    /// Every roll recorded, oldest first.
    pub fn rolls(&self) -> (s: &Vec<Value>)
        ensures
            views(s@) == self@.rolls,
    {
        &self.rolls
    }

    /// Every label recorded with its value, oldest first.
    pub fn labels(&self) -> (s: &Vec<(String, Value)>)
        ensures
            label_views(s@) == self@.labels,
    {
        &self.labels
    }
}

} // verus!
