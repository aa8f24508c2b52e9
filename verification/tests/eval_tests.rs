use dice_expr::context::Context;
use dice_expr::dice::Value;
use dice_expr::error::{Error, ErrorKind, ValueKind};
use dice_expr::{evaluate, evaluate_in};
use rand::rngs::StdRng;
use rand::SeedableRng;

fn nums(v: &[i32]) -> Value {
    Value::List(v.iter().map(|n| Value::Num(*n)).collect())
}

fn seeded(seed: u64) -> Context {
    Context::with_rng(StdRng::seed_from_u64(seed))
}

#[test]
fn three_plus_four() {
    let (v, trace) = evaluate("3+4").unwrap();
    assert_eq!(v, Value::Num(7));
    assert!(trace.rolls().is_empty());
    assert!(trace.labels().is_empty());
    assert!(trace.stack().is_empty());
}

#[test]
fn three_d_six() {
    for seed in 0..20 {
        let mut ct = seeded(seed);
        let v = evaluate_in("3d6", &mut ct).unwrap();
        assert_eq!(ct.rolls().len(), 1);
        assert_eq!(ct.rolls()[0], v);
        match v {
            Value::List(l) => {
                assert_eq!(l.len(), 3);
                for die in l {
                    match die {
                        Value::Num(k) => assert!(1 <= k && k <= 6),
                        other => panic!("rolled {:?}", other),
                    }
                }
            }
            other => panic!("rolled {:?}", other),
        }
    }
}

#[test]
fn unbound_variable_is_a_name_error() {
    let e = evaluate("$x").unwrap_err();
    assert_eq!(e, Error::VariableNotFound);
    assert_eq!(e.kind(), ErrorKind::Name);
}

#[test]
fn bound_variable_gives_its_value() {
    let mut ct = seeded(0);
    ct.set_var("x".to_string(), Value::Num(42));
    assert_eq!(evaluate_in("$x", &mut ct), Ok(Value::Num(42)));
    assert_eq!(evaluate_in("$x + $x", &mut ct), Ok(Value::Num(84)));
    assert_eq!(evaluate_in("$y", &mut ct), Err(Error::VariableNotFound));
}

#[test]
fn count_of_a_list() {
    assert_eq!(evaluate("[1,2,3]!").unwrap().0, Value::Num(3));
    assert_eq!(evaluate("[[1,2],[3,[4]]]!").unwrap().0, Value::Num(4));
}

#[test]
fn label_is_recorded_and_value_stays() {
    let (v, trace) = evaluate("fish:5").unwrap();
    assert_eq!(v, Value::Num(5));
    assert_eq!(trace.labels(), &vec![("fish".to_string(), Value::Num(5))]);
    assert!(trace.rolls().is_empty());
}

#[test]
fn labels_keep_their_order() {
    let (v, trace) = evaluate("[(a:1) (b:2), (a:3)]").unwrap();
    assert_eq!(v, nums(&[1, 2, 3]));
    assert_eq!(
        trace.labels(),
        &vec![
            ("a".to_string(), Value::Num(1)),
            ("b".to_string(), Value::Num(2)),
            ("a".to_string(), Value::Num(3)),
        ]
    );
}

#[test]
fn arithmetic() {
    assert_eq!(evaluate("1+2+3").unwrap().0, Value::Num(6));
    assert_eq!(evaluate("(10-3)-2").unwrap().0, Value::Num(5));
    assert_eq!(evaluate("1+2-3").unwrap().0, Value::Num(0));
    assert_eq!(evaluate("[1,2,3]+4").unwrap().0, Value::Num(10));
}

#[test]
fn selection() {
    assert_eq!(evaluate("[1,5,3] < 4").unwrap().0, nums(&[1, 3]));
    assert_eq!(evaluate("[1,5,3] > 4").unwrap().0, nums(&[5]));
    assert_eq!(evaluate("[1,5,3,5] == 5").unwrap().0, nums(&[5, 5]));
    assert_eq!(evaluate("([1,5,3,5] == 5)!").unwrap().0, Value::Num(2));
}

#[test]
fn append_and_ranges() {
    assert_eq!(evaluate("1 ++ [2,3]").unwrap().0, nums(&[1, 2, 3]));
    assert_eq!(evaluate("6..1").unwrap().0, Value::Range(6, 1));
}

#[test]
fn rolling_a_range_and_a_fudge_die() {
    for seed in 0..20 {
        let mut ct = seeded(seed);
        match evaluate_in("d(6..1)", &mut ct).unwrap() {
            Value::Num(k) => assert!(1 <= k && k < 6),
            other => panic!("rolled {:?}", other),
        }
        match evaluate_in("4d F", &mut ct).unwrap() {
            Value::List(l) => {
                assert_eq!(l.len(), 4);
                for v in l {
                    assert!(v == Value::Num(-1) || v == Value::Num(0) || v == Value::Num(1));
                }
            }
            other => panic!("rolled {:?}", other),
        }
        assert_eq!(ct.rolls().len(), 2);
    }
}

#[test]
fn previous_roll() {
    let mut ct = seeded(5);
    let v = evaluate_in("[(4d6) P H L]", &mut ct).unwrap();
    match v {
        Value::List(l) => {
            assert_eq!(l.len(), 4);
            assert_eq!(l[0], l[1]);
            assert_eq!(Ok(l[2].clone()), l[0].highest());
            assert_eq!(Ok(l[3].clone()), l[0].lowest());
        }
        other => panic!("got {:?}", other),
    }
    let e = evaluate("P").unwrap_err();
    assert_eq!(e, Error::NoPreviousRoll);
    assert_eq!(e.kind(), ErrorKind::State);
}

#[test]
fn keep_the_highest_dice() {
    for seed in 0..20 {
        let mut ct = seeded(seed);
        let v = evaluate_in("4d6K3", &mut ct).unwrap();
        let rolled = ct.rolls()[0].clone();
        assert_eq!(Ok(v.clone()), rolled.keep(3, true));
        match v {
            Value::List(l) => {
                assert_eq!(l.len(), 3);
                assert!(l[0].as_int().unwrap() >= l[1].as_int().unwrap());
                assert!(l[1].as_int().unwrap() >= l[2].as_int().unwrap());
            }
            other => panic!("got {:?}", other),
        }
    }
}

#[test]
fn list_items_are_single_values() {
    let mut ct = seeded(3);
    match evaluate_in("[4d6]", &mut ct).unwrap() {
        Value::List(l) => {
            assert_eq!(l.len(), 2);
            assert_eq!(l[0], Value::Num(4));
            assert_eq!(ct.rolls(), &vec![l[1].clone()]);
        }
        other => panic!("got {:?}", other),
    }
}

#[test]
fn binding_a_variable() {
    let mut ct = seeded(0);
    assert_eq!(evaluate_in("5 as x", &mut ct), Ok(Value::Num(5)));
    assert!(ct.stack().is_empty());
    assert_eq!(ct.get_var("x"), Some(Value::Num(5)));
    assert_eq!(evaluate_in("$x+1", &mut ct), Ok(Value::Num(6)));
    assert_eq!(evaluate_in("(2 as y) + $y", &mut ct), Ok(Value::Num(4)));
}

#[test]
fn same_seed_same_result() {
    let mut a = seeded(1234);
    let mut b = seeded(1234);
    assert_eq!(evaluate_in("10d100", &mut a), evaluate_in("10d100", &mut b));
    assert_eq!(a.rolls(), b.rolls());
}

#[test]
fn errors_of_every_stage_come_through() {
    assert_eq!(evaluate("3 @").unwrap_err().kind(), ErrorKind::Lex);
    assert_eq!(evaluate("3 +").unwrap_err().kind(), ErrorKind::Parse);
    assert_eq!(evaluate("fish + 1").unwrap_err(), Error::NotANumber(ValueKind::Word));
    assert_eq!(evaluate("fish + 1").unwrap_err().kind(), ErrorKind::Type);
    assert_eq!(evaluate("[a b] h 1").unwrap().0, nums(&[]));
    assert_eq!(evaluate("0d6 + [a]").unwrap_err().kind(), ErrorKind::Type);
    assert_eq!(evaluate("2d0").unwrap_err(), Error::EmptyDie);
    assert_eq!(evaluate("2147483647+1").unwrap_err(), Error::Overflow);
}

#[test]
fn parse_failure_leaves_the_context_alone() {
    let mut ct = seeded(0);
    ct.push(Value::Num(1));
    assert_eq!(evaluate_in("1 +", &mut ct), Err(Error::ExpectedValue(None)));
    assert_eq!(ct.stack(), &vec![Value::Num(1)]);
}

#[test]
fn failed_run_keeps_the_trace_so_far() {
    let mut ct = seeded(0);
    assert_eq!(evaluate_in("2d6 + fish", &mut ct), Err(Error::NotANumber(ValueKind::Word)));
    assert_eq!(ct.rolls().len(), 1);
}
