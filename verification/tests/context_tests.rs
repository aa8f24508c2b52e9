use dice_expr::context::Context;
use dice_expr::dice::Value;
use dice_expr::error::{Error, ErrorKind};
use dice_expr::tracker::Tracker;
use rand::rngs::StdRng;
use rand::SeedableRng;

fn word(s: &str) -> Value {
    Value::Word(s.to_string())
}

#[test]
fn new_context_is_empty() {
    let mut ct = Context::new();
    assert!(ct.stack().is_empty());
    assert!(ct.rolls().is_empty());
    assert!(ct.labels().is_empty());
    assert_eq!(ct.pop(), None);
    assert_eq!(ct.last_roll(), None);
    assert_eq!(ct.prev(), None);
    assert_eq!(ct.get_var("x"), None);
}

#[test]
fn push_and_pop_are_last_in_first_out() {
    let mut ct = Context::new();
    ct.push(Value::Num(1));
    ct.push(Value::Num(2));
    assert_eq!(ct.stack(), &vec![Value::Num(1), Value::Num(2)]);
    assert_eq!(ct.pop(), Some(Value::Num(2)));
    assert_eq!(ct.pop(), Some(Value::Num(1)));
    assert_eq!(ct.pop(), None);
}

#[test]
fn try_pop_and_try_top_fail_on_empty_stack() {
    let mut ct = Context::new();
    assert_eq!(ct.try_pop(), Err(Error::NothingOnStack));
    assert_eq!(ct.try_top(), Err(Error::NothingOnStack));
    assert_eq!(Error::NothingOnStack.kind(), ErrorKind::Stack);
    ct.push(Value::Num(9));
    assert_eq!(ct.try_top(), Ok(Value::Num(9)));
    assert_eq!(ct.stack().len(), 1);
    assert_eq!(ct.try_pop(), Ok(Value::Num(9)));
    assert_eq!(ct.stack().len(), 0);
}

#[test]
fn top_n_takes_the_top_in_stack_order() {
    let mut ct = Context::new();
    for n in 1..=5 {
        ct.push(Value::Num(n));
    }
    assert_eq!(ct.top_n(3), Ok(vec![Value::Num(3), Value::Num(4), Value::Num(5)]));
    assert_eq!(ct.stack(), &vec![Value::Num(1), Value::Num(2)]);
    assert_eq!(ct.top_n(0), Ok(vec![]));
    assert_eq!(ct.top_n(3), Err(Error::NotEnoughElements));
    assert_eq!(Error::NotEnoughElements.kind(), ErrorKind::Stack);
    assert_eq!(ct.stack().len(), 2);
    assert_eq!(ct.top_n(2), Ok(vec![Value::Num(1), Value::Num(2)]));
}

#[test]
fn push_roll_records_the_roll() {
    let mut ct = Context::new();
    ct.push_roll(Value::Num(4));
    ct.push_roll(Value::Num(6));
    assert_eq!(ct.stack(), &vec![Value::Num(4), Value::Num(6)]);
    assert_eq!(ct.rolls(), &vec![Value::Num(4), Value::Num(6)]);
    assert_eq!(ct.last_roll(), Some(Value::Num(6)));
    assert_eq!(ct.prev(), Some(Value::Num(6)));
    ct.pop();
    assert_eq!(ct.last_roll(), Some(Value::Num(6)));
}

#[test]
fn variables_are_bound_and_rebound() {
    let mut ct = Context::new();
    ct.set_var("x".to_string(), Value::Num(1));
    ct.set_var("y".to_string(), Value::Num(2));
    assert_eq!(ct.get_var("x"), Some(Value::Num(1)));
    assert_eq!(ct.get_var("y"), Some(Value::Num(2)));
    assert_eq!(ct.get_var("z"), None);
    ct.set_var("x".to_string(), word("again"));
    assert_eq!(ct.get_var("x"), Some(word("again")));
    assert_eq!(ct.get_var("y"), Some(Value::Num(2)));
}

#[test]
fn push_var_pushes_the_bound_value() {
    let mut ct = Context::new();
    ct.set_var("x".to_string(), Value::Num(11));
    assert_eq!(ct.push_var("x"), Ok(()));
    assert_eq!(ct.stack(), &vec![Value::Num(11)]);
    assert_eq!(ct.push_var("nope"), Err(Error::VariableNotFound));
    assert_eq!(Error::VariableNotFound.kind(), ErrorKind::Name);
    assert_eq!(ct.stack(), &vec![Value::Num(11)]);
}

#[test]
fn labels_are_appended_and_may_repeat() {
    let mut ct = Context::new();
    ct.push(Value::Num(1));
    ct.add_label("a".to_string(), Value::Num(5));
    ct.add_label("a".to_string(), Value::Num(6));
    assert_eq!(
        ct.labels(),
        &vec![("a".to_string(), Value::Num(5)), ("a".to_string(), Value::Num(6))]
    );
    assert_eq!(ct.stack(), &vec![Value::Num(1)]);
}

#[test]
fn the_random_source_is_the_one_given() {
    let mut a = Context::with_rng(StdRng::seed_from_u64(77));
    let mut b = Context::with_rng(StdRng::seed_from_u64(77));
    let x = Value::Num(1000).roll_n(10, a.rng());
    let y = Value::Num(1000).roll_n(10, b.rng());
    assert_eq!(x, y);
}

#[test]
fn draws_through_the_context_move_its_source_on() {
    let mut alone = StdRng::seed_from_u64(5);
    let mut ct = Context::with_rng(StdRng::seed_from_u64(5));
    let first = Value::Num(1000).roll_n(8, ct.rng());
    ct.push(first.clone());
    let second = Value::Num(1000).roll_n(8, ct.rng());
    assert_eq!(first, Value::Num(1000).roll_n(8, &mut alone));
    assert_eq!(second, Value::Num(1000).roll_n(8, &mut alone));
    assert_ne!(first, second);
}

#[test]
fn into_tracker_keeps_the_trace() {
    let mut ct = Context::new();
    ct.push(Value::Num(1));
    ct.push_roll(Value::Num(2));
    ct.add_label("l".to_string(), Value::Num(3));
    let t = ct.into_tracker();
    assert_eq!(t.stack(), &vec![Value::Num(1), Value::Num(2)]);
    assert_eq!(t.rolls(), &vec![Value::Num(2)]);
    assert_eq!(t.labels(), &vec![("l".to_string(), Value::Num(3))]);
}

#[test]
fn tracker_push_pop_roll() {
    let mut t = Tracker::new();
    assert_eq!(t.pop(), None);
    t.push(Value::Num(1));
    t.push(Value::Num(2));
    t.roll(Value::Num(9));
    assert_eq!(t.stack(), &vec![Value::Num(1), Value::Num(2)]);
    assert_eq!(t.rolls(), &vec![Value::Num(9)]);
    assert!(t.labels().is_empty());
    assert_eq!(t.pop(), Some(Value::Num(2)));
    assert_eq!(t.pop(), Some(Value::Num(1)));
    assert_eq!(t.pop(), None);
    assert_eq!(t.rolls(), &vec![Value::Num(9)]);
}

#[test]
fn tracker_from_parts() {
    let t = Tracker::from_parts(
        vec![Value::Num(1)],
        vec![Value::Num(2)],
        vec![("n".to_string(), Value::Num(3))],
    );
    assert_eq!(t.stack(), &vec![Value::Num(1)]);
    assert_eq!(t.rolls(), &vec![Value::Num(2)]);
    assert_eq!(t.labels(), &vec![("n".to_string(), Value::Num(3))]);
}
