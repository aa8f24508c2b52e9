use dice_expr::context::Context;
use dice_expr::dice::Value;
use dice_expr::error::{Error, ErrorKind, ValueKind};
use dice_expr::expr::{Expr, Operation};
use rand::rngs::StdRng;
use rand::SeedableRng;

fn nums(v: &[i32]) -> Value {
    Value::List(v.iter().map(|n| Value::Num(*n)).collect())
}

fn word(s: &str) -> Value {
    Value::Word(s.to_string())
}

fn with_stack(stack: Vec<Value>) -> Context {
    let mut ct = Context::with_rng(StdRng::seed_from_u64(99));
    for v in stack {
        ct.push(v);
    }
    ct
}

fn run(op: Operation, stack: Vec<Value>) -> (Result<(), Error>, Vec<Value>) {
    let mut ct = with_stack(stack);
    let r = op.resolve(&mut ct);
    (r, ct.stack().clone())
}

#[test]
fn literals_are_pushed() {
    assert_eq!(run(Operation::Num(5), vec![]), (Ok(()), vec![Value::Num(5)]));
    assert_eq!(
        run(Operation::Word("a".to_string()), vec![Value::Num(1)]),
        (Ok(()), vec![Value::Num(1), word("a")])
    );
}

#[test]
fn add_and_sub() {
    assert_eq!(
        run(Operation::Add, vec![Value::Num(9), Value::Num(3), Value::Num(4)]),
        (Ok(()), vec![Value::Num(9), Value::Num(7)])
    );
    assert_eq!(
        run(Operation::Sub, vec![Value::Num(3), Value::Num(4)]),
        (Ok(()), vec![Value::Num(-1)])
    );
    assert_eq!(
        run(Operation::Add, vec![nums(&[1, 2, 3]), Value::Num(4)]),
        (Ok(()), vec![Value::Num(10)])
    );
}

#[test]
fn add_fails_on_short_stack_words_and_overflow() {
    assert_eq!(run(Operation::Add, vec![]), (Err(Error::NothingOnStack), vec![]));
    assert_eq!(run(Operation::Add, vec![Value::Num(1)]), (Err(Error::NothingOnStack), vec![]));
    assert_eq!(
        run(Operation::Add, vec![Value::Num(7), word("a"), Value::Range(1, 2)]),
        (Err(Error::NotANumber(ValueKind::Word)), vec![Value::Num(7)])
    );
    assert_eq!(
        run(Operation::Add, vec![Value::Num(1), Value::Range(1, 2)]),
        (Err(Error::NotANumber(ValueKind::Range)), vec![])
    );
    assert_eq!(
        run(Operation::Add, vec![Value::Num(i32::MAX), Value::Num(1)]),
        (Err(Error::Overflow), vec![])
    );
    assert_eq!(
        run(Operation::Sub, vec![Value::Num(i32::MIN), Value::Num(1)]),
        (Err(Error::Overflow), vec![])
    );
}

#[test]
fn neg_and_sum() {
    assert_eq!(run(Operation::Neg, vec![Value::Num(5)]), (Ok(()), vec![Value::Num(-5)]));
    assert_eq!(run(Operation::Neg, vec![nums(&[1, 2])]), (Ok(()), vec![Value::Num(-3)]));
    assert_eq!(run(Operation::Neg, vec![Value::Num(i32::MIN)]), (Err(Error::Overflow), vec![]));
    assert_eq!(run(Operation::Neg, vec![]), (Err(Error::NothingOnStack), vec![]));
    assert_eq!(run(Operation::Sum, vec![nums(&[4, 5, 6])]), (Ok(()), vec![Value::Num(15)]));
    assert_eq!(run(Operation::Sum, vec![Value::Num(2)]), (Ok(()), vec![Value::Num(2)]));
    assert_eq!(
        run(Operation::Sum, vec![word("a")]),
        (Err(Error::NotANumber(ValueKind::Word)), vec![])
    );
}

#[test]
fn list_gathers_the_top_of_the_stack() {
    assert_eq!(
        run(Operation::List(2), vec![Value::Num(1), Value::Num(2), Value::Num(3)]),
        (Ok(()), vec![Value::Num(1), nums(&[2, 3])])
    );
    assert_eq!(run(Operation::List(0), vec![]), (Ok(()), vec![nums(&[])]));
    assert_eq!(
        run(Operation::List(2), vec![Value::Num(1)]),
        (Err(Error::NotEnoughElements), vec![Value::Num(1)])
    );
    assert_eq!(
        run(Operation::List(-1), vec![Value::Num(1)]),
        (Err(Error::NotEnoughElements), vec![Value::Num(1)])
    );
}

#[test]
fn range_keeps_the_order_given() {
    assert_eq!(
        run(Operation::Range, vec![Value::Num(6), Value::Num(1)]),
        (Ok(()), vec![Value::Range(6, 1)])
    );
    assert_eq!(
        run(Operation::Range, vec![Value::Num(1), word("a")]),
        (Err(Error::NotANumber(ValueKind::Word)), vec![Value::Num(1)])
    );
    assert_eq!(
        run(Operation::Range, vec![word("a"), Value::Num(1)]),
        (Err(Error::NotANumber(ValueKind::Word)), vec![])
    );
    assert_eq!(run(Operation::Range, vec![Value::Num(1)]), (Err(Error::NothingOnStack), vec![]));
    assert_eq!(run(Operation::Range, vec![]), (Err(Error::NothingOnStack), vec![]));
}

#[test]
fn fudge_has_three_faces() {
    assert_eq!(run(Operation::Fudge, vec![]), (Ok(()), vec![nums(&[-1, 0, 1])]));
}

#[test]
fn previous_roll_operations() {
    let mut ct = with_stack(vec![]);
    assert_eq!(Operation::P.resolve(&mut ct), Err(Error::NoPreviousRoll));
    assert_eq!(Operation::H.resolve(&mut ct), Err(Error::NoPreviousRoll));
    assert_eq!(Operation::L.resolve(&mut ct), Err(Error::NoPreviousRoll));
    assert_eq!(Error::NoPreviousRoll.kind(), ErrorKind::State);
    ct.push_roll(nums(&[3, 6, 2]));
    assert_eq!(Operation::P.resolve(&mut ct), Ok(()));
    assert_eq!(Operation::H.resolve(&mut ct), Ok(()));
    assert_eq!(Operation::L.resolve(&mut ct), Ok(()));
    assert_eq!(
        ct.stack(),
        &vec![nums(&[3, 6, 2]), nums(&[3, 6, 2]), Value::Num(6), Value::Num(2)]
    );
    assert_eq!(ct.rolls(), &vec![nums(&[3, 6, 2])]);
}

#[test]
fn highest_of_a_rolled_word_fails() {
    let mut ct = with_stack(vec![]);
    ct.push_roll(word("a"));
    assert_eq!(Operation::H.resolve(&mut ct), Err(Error::NotOrdered));
    assert_eq!(ct.stack(), &vec![word("a")]);
}

#[test]
fn dice_roll_and_record() {
    let mut ct = with_stack(vec![Value::Num(3), Value::Num(6)]);
    assert_eq!(Operation::D.resolve(&mut ct), Ok(()));
    assert_eq!(ct.stack().len(), 1);
    assert_eq!(ct.rolls().len(), 1);
    assert_eq!(ct.stack()[0], ct.rolls()[0]);
    match &ct.stack()[0] {
        Value::List(l) => {
            assert_eq!(l.len(), 3);
            for v in l {
                match v {
                    Value::Num(k) => assert!(1 <= *k && *k <= 6),
                    other => panic!("rolled {:?}", other),
                }
            }
        }
        other => panic!("rolled {:?}", other),
    }
}

#[test]
fn one_die_gives_a_bare_number() {
    let mut ct = with_stack(vec![Value::Num(1), Value::Num(6)]);
    assert_eq!(Operation::D.resolve(&mut ct), Ok(()));
    match &ct.stack()[0] {
        Value::Num(k) => assert!(1 <= *k && *k <= 6),
        other => panic!("rolled {:?}", other),
    }
}

#[test]
fn dice_count_may_be_a_list() {
    let mut ct = with_stack(vec![nums(&[1, 1]), Value::Range(5, 3)]);
    assert_eq!(Operation::D.resolve(&mut ct), Ok(()));
    match &ct.stack()[0] {
        Value::List(l) => {
            assert_eq!(l.len(), 2);
            for v in l {
                assert!(*v == Value::Num(3) || *v == Value::Num(4));
            }
        }
        other => panic!("rolled {:?}", other),
    }
}

#[test]
fn dice_failures() {
    assert_eq!(run(Operation::D, vec![Value::Num(6)]), (Err(Error::NothingOnStack), vec![]));
    assert_eq!(
        run(Operation::D, vec![word("x"), Value::Num(6)]),
        (Err(Error::NotANumber(ValueKind::Word)), vec![])
    );
    assert_eq!(
        run(Operation::D, vec![Value::Num(-1), Value::Num(6)]),
        (Err(Error::NegativeCount), vec![])
    );
    assert_eq!(
        run(Operation::D, vec![Value::Num(2), Value::Num(0)]),
        (Err(Error::EmptyDie), vec![])
    );
    assert_eq!(
        run(Operation::D, vec![Value::Num(2), Value::Range(4, 4)]),
        (Err(Error::EmptyDie), vec![])
    );
    assert_eq!(Error::NegativeCount.kind(), ErrorKind::Value);
    assert_eq!(Error::EmptyDie.kind(), ErrorKind::Value);
}

#[test]
fn no_dice_is_an_empty_list() {
    let mut ct = with_stack(vec![Value::Num(0), Value::Num(6)]);
    assert_eq!(Operation::D.resolve(&mut ct), Ok(()));
    assert_eq!(ct.stack(), &vec![nums(&[])]);
    assert_eq!(ct.rolls(), &vec![nums(&[])]);
}

#[test]
fn comparisons_select() {
    let pool = nums(&[1, 5, 3, 6, 3]);
    assert_eq!(
        run(Operation::Less, vec![pool.clone(), Value::Num(4)]),
        (Ok(()), vec![nums(&[1, 3, 3])])
    );
    assert_eq!(
        run(Operation::Greater, vec![pool.clone(), Value::Num(3)]),
        (Ok(()), vec![nums(&[5, 6])])
    );
    assert_eq!(
        run(Operation::Equal, vec![pool.clone(), Value::Num(3)]),
        (Ok(()), vec![nums(&[3, 3])])
    );
    assert_eq!(
        run(Operation::Equal, vec![Value::Num(3), Value::Num(3)]),
        (Ok(()), vec![Value::Num(3)])
    );
    assert_eq!(
        run(Operation::Less, vec![Value::Num(3), Value::Num(3)]),
        (Ok(()), vec![nums(&[])])
    );
    assert_eq!(run(Operation::Less, vec![Value::Num(3)]), (Err(Error::NothingOnStack), vec![]));
}

#[test]
fn equal_is_by_content_and_order_by_weight() {
    let ranges = Value::List(vec![Value::Range(0, 1), Value::Range(2, 2), Value::Range(9, 9)]);
    assert_eq!(
        run(Operation::Equal, vec![ranges.clone(), Value::Range(2, 2)]),
        (Ok(()), vec![Value::List(vec![Value::Range(2, 2)])])
    );
    assert_eq!(
        run(Operation::Greater, vec![ranges.clone(), Value::Range(2, 2)]),
        (Ok(()), vec![Value::List(vec![Value::Range(9, 9)])])
    );
    assert_eq!(
        run(Operation::Less, vec![ranges, Value::Range(2, 2)]),
        (Ok(()), vec![nums(&[])])
    );
}

#[test]
fn append_joins_one_level() {
    assert_eq!(
        run(Operation::Append, vec![nums(&[1, 2]), nums(&[3])]),
        (Ok(()), vec![nums(&[1, 2, 3])])
    );
    assert_eq!(
        run(Operation::Append, vec![Value::Num(1), nums(&[2, 3])]),
        (Ok(()), vec![nums(&[1, 2, 3])])
    );
    assert_eq!(
        run(Operation::Append, vec![Value::Num(1), word("a")]),
        (Ok(()), vec![Value::List(vec![Value::Num(1), word("a")])])
    );
    assert_eq!(
        run(Operation::Append, vec![Value::List(vec![nums(&[1])]), Value::Num(2)]),
        (Ok(()), vec![Value::List(vec![nums(&[1]), Value::Num(2)])])
    );
    assert_eq!(run(Operation::Append, vec![Value::Num(1)]), (Err(Error::NothingOnStack), vec![]));
}

#[test]
fn count_counts_flattened_items() {
    assert_eq!(run(Operation::Count, vec![nums(&[1, 2, 3])]), (Ok(()), vec![Value::Num(3)]));
    assert_eq!(
        run(Operation::Count, vec![Value::List(vec![nums(&[1, 2]), Value::Num(3), nums(&[])])]),
        (Ok(()), vec![Value::Num(3)])
    );
    assert_eq!(run(Operation::Count, vec![word("a")]), (Ok(()), vec![Value::Num(1)]));
    assert_eq!(run(Operation::Count, vec![]), (Err(Error::NothingOnStack), vec![]));
}

#[test]
fn replace_keeps_the_upper_value() {
    assert_eq!(
        run(Operation::Replace, vec![Value::Num(0), Value::Num(1), Value::Num(2)]),
        (Ok(()), vec![Value::Num(0), Value::Num(2)])
    );
    assert_eq!(run(Operation::Replace, vec![Value::Num(1)]), (Err(Error::NothingOnStack), vec![]));
}

#[test]
fn label_records_and_keeps_the_value() {
    let mut ct = with_stack(vec![word("fish"), Value::Num(5)]);
    assert_eq!(Operation::Label.resolve(&mut ct), Ok(()));
    assert_eq!(ct.stack(), &vec![Value::Num(5)]);
    assert_eq!(ct.labels(), &vec![("fish".to_string(), Value::Num(5))]);
    let mut ct = with_stack(vec![Value::Num(12), nums(&[1, 2])]);
    assert_eq!(Operation::Label.resolve(&mut ct), Ok(()));
    assert_eq!(ct.labels(), &vec![("12".to_string(), nums(&[1, 2]))]);
    assert_eq!(run(Operation::Label, vec![Value::Num(1)]), (Err(Error::NothingOnStack), vec![]));
}

#[test]
fn var_looks_up_the_name_on_the_stack() {
    let mut ct = with_stack(vec![word("x")]);
    ct.set_var("x".to_string(), Value::Num(8));
    assert_eq!(Operation::Var.resolve(&mut ct), Ok(()));
    assert_eq!(ct.stack(), &vec![Value::Num(8)]);
    ct.push(word("y"));
    assert_eq!(Operation::Var.resolve(&mut ct), Err(Error::VariableNotFound));
    assert_eq!(ct.stack(), &vec![Value::Num(8)]);
    assert_eq!(run(Operation::Var, vec![]), (Err(Error::NothingOnStack), vec![]));
}

#[test]
fn as_binds_the_value_to_the_name() {
    let mut ct = with_stack(vec![Value::Num(0), Value::Num(5), word("x")]);
    assert_eq!(Operation::As.resolve(&mut ct), Ok(()));
    assert_eq!(ct.stack(), &vec![Value::Num(0), Value::Num(5)]);
    assert_eq!(ct.get_var("x"), Some(Value::Num(5)));
    assert_eq!(run(Operation::As, vec![word("x")]), (Err(Error::NothingOnStack), vec![]));
}

#[test]
fn keep_highest_and_lowest() {
    assert_eq!(
        run(Operation::HighestN, vec![nums(&[2, 6, 1, 5]), Value::Num(2)]),
        (Ok(()), vec![nums(&[6, 5])])
    );
    assert_eq!(
        run(Operation::LowestN, vec![nums(&[2, 6, 1, 5]), Value::Num(3)]),
        (Ok(()), vec![nums(&[1, 2, 5])])
    );
    assert_eq!(
        run(Operation::HighestN, vec![nums(&[2, 6]), Value::Num(-1)]),
        (Err(Error::NegativeCount), vec![])
    );
    assert_eq!(
        run(Operation::HighestN, vec![nums(&[2, 6]), word("n")]),
        (Err(Error::NotANumber(ValueKind::Word)), vec![])
    );
    assert_eq!(
        run(Operation::LowestN, vec![word("w"), Value::Num(1)]),
        (Err(Error::NotOrdered), vec![])
    );
    assert_eq!(run(Operation::LowestN, vec![Value::Num(1)]), (Err(Error::NothingOnStack), vec![]));
}

#[test]
fn failed_operation_changes_only_the_stack() {
    let mut ct = with_stack(vec![Value::Num(1), word("a"), word("b")]);
    ct.push_roll(Value::Num(4));
    ct.pop();
    ct.add_label("l".to_string(), Value::Num(1));
    ct.set_var("v".to_string(), Value::Num(2));
    assert_eq!(Operation::Sub.resolve(&mut ct), Err(Error::NotANumber(ValueKind::Word)));
    assert_eq!(ct.stack(), &vec![Value::Num(1)]);
    assert_eq!(ct.rolls(), &vec![Value::Num(4)]);
    assert_eq!(ct.labels(), &vec![("l".to_string(), Value::Num(1))]);
    assert_eq!(ct.get_var("v"), Some(Value::Num(2)));
}

#[test]
fn program_runs_in_order_and_pops_its_result() {
    let e = Expr {
        ops: vec![Operation::Num(3), Operation::Num(4), Operation::Add, Operation::Neg],
    };
    let mut ct = with_stack(vec![Value::Num(100)]);
    assert_eq!(e.resolve(&mut ct), Ok(Value::Num(-7)));
    assert_eq!(ct.stack(), &vec![Value::Num(100)]);
    assert_eq!(e.clone().ops, e.ops);
}

#[test]
fn empty_program_has_no_result() {
    let e = Expr::new();
    assert!(e.ops.is_empty());
    let mut ct = with_stack(vec![]);
    assert_eq!(e.resolve(&mut ct), Err(Error::NothingOnStack));
    let mut ct = with_stack(vec![Value::Num(1)]);
    assert_eq!(e.resolve(&mut ct), Ok(Value::Num(1)));
}

#[test]
fn program_stops_at_the_first_failure() {
    let e = Expr {
        ops: vec![Operation::Num(3), Operation::Add, Operation::Num(9)],
    };
    let mut ct = with_stack(vec![]);
    assert_eq!(e.resolve(&mut ct), Err(Error::NothingOnStack));
    assert_eq!(ct.stack(), &Vec::<Value>::new());
}

#[test]
fn operations_clone_equal() {
    for op in [
        Operation::Num(1),
        Operation::Word("w".to_string()),
        Operation::List(2),
        Operation::D,
        Operation::HighestN,
    ] {
        assert_eq!(op.clone(), op);
    }
}
