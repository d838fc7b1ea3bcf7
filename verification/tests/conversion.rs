use kley::convert::Converted;
use kley::text::{int_to_text, join_texts, parse_i64, split_text, trim_trailing};
use kley::types::Type;
use kley::value::{EvalError, ProcOutcome, Value};

fn conv(v: &Value, t: &Type, outcomes: &Vec<ProcOutcome>, pos: &mut usize) -> Converted {
    v.convert(t, outcomes, pos)
}

fn conv_ok(v: &Value, t: &Type) -> Value {
    let outcomes: Vec<ProcOutcome> = Vec::new();
    let mut pos: usize = 0;
    match conv(v, t, &outcomes, &mut pos) {
        Converted::Done(out) => out,
        _ => panic!("conversion should succeed"),
    }
}

fn conv_err(v: &Value, t: &Type) -> EvalError {
    let outcomes: Vec<ProcOutcome> = Vec::new();
    let mut pos: usize = 0;
    match conv(v, t, &outcomes, &mut pos) {
        Converted::Fail(e) => e,
        _ => panic!("conversion should fail"),
    }
}

fn as_str(v: &Value) -> String {
    match v {
        Value::Str(s) => s.clone(),
        _ => panic!("expected text"),
    }
}

fn as_int(v: &Value) -> i64 {
    match v {
        Value::Int(x) => *x,
        _ => panic!("expected integer"),
    }
}

#[test]
fn renders_integers_in_decimal() {
    assert_eq!(int_to_text(0), "0");
    assert_eq!(int_to_text(42), "42");
    assert_eq!(int_to_text(-7), "-7");
    assert_eq!(int_to_text(i64::MAX), "9223372036854775807");
    assert_eq!(int_to_text(i64::MIN), "-9223372036854775808");
}

#[test]
fn parses_signed_integers() {
    assert_eq!(parse_i64("42"), Some(42));
    assert_eq!(parse_i64("  -13\n"), Some(-13));
    assert_eq!(parse_i64("+8"), Some(8));
    assert_eq!(parse_i64("0007"), Some(7));
    assert_eq!(parse_i64("9223372036854775807"), Some(i64::MAX));
    assert_eq!(parse_i64("-9223372036854775808"), Some(i64::MIN));
}

#[test]
fn rejects_bad_integer_text() {
    assert_eq!(parse_i64(""), None);
    assert_eq!(parse_i64("   "), None);
    assert_eq!(parse_i64("-"), None);
    assert_eq!(parse_i64("12a"), None);
    assert_eq!(parse_i64("1 2"), None);
    assert_eq!(parse_i64("9223372036854775808"), None);
    assert_eq!(parse_i64("-9223372036854775809"), None);
}

#[test]
fn splits_on_whitespace_runs() {
    assert_eq!(split_text("  a  bc\td \n"), vec!["a", "bc", "d"]);
    assert_eq!(split_text(""), Vec::<String>::new());
    assert_eq!(split_text("   \t "), Vec::<String>::new());
}

#[test]
fn joins_with_single_spaces() {
    let toks = vec!["a".to_string(), "bc".to_string(), "d".to_string()];
    assert_eq!(join_texts(&toks), "a bc d");
    assert_eq!(join_texts(&Vec::new()), "");
}

#[test]
fn trims_trailing_whitespace_only() {
    assert_eq!(trim_trailing("  hello \n"), "  hello");
    assert_eq!(trim_trailing("x"), "x");
    assert_eq!(trim_trailing(" \t"), "");
}

#[test]
fn identity_conversions_pass_through() {
    assert_eq!(as_int(&conv_ok(&Value::Int(5), &Type::Int)), 5);
    assert_eq!(as_str(&conv_ok(&Value::Str("hi".into()), &Type::Str)), "hi");
    assert!(matches!(conv_ok(&Value::Bool(true), &Type::Bool), Value::Bool(true)));
}

#[test]
fn text_to_integer_trims_and_parses() {
    assert_eq!(as_int(&conv_ok(&Value::Str(" 19 ".into()), &Type::Int)), 19);
    assert_eq!(conv_err(&Value::Str("nope".into()), &Type::Int), EvalError::ConversionFailure);
}

#[test]
fn unsupported_pairings_are_type_mismatches() {
    assert_eq!(conv_err(&Value::Bool(true), &Type::Int), EvalError::TypeMismatch);
    assert_eq!(conv_err(&Value::Bool(true), &Type::Str), EvalError::TypeMismatch);
    assert_eq!(conv_err(&Value::Unit, &Type::Unit), EvalError::TypeMismatch);
    assert_eq!(conv_err(&Value::Int(1), &Type::Float), EvalError::TypeMismatch);
    assert_eq!(conv_err(&Value::Int(1), &Type::Bool), EvalError::TypeMismatch);
}

#[test]
fn int_list_round_trips_through_text() {
    let list = Value::List(vec![Value::Int(1), Value::Int(-22), Value::Int(3)]);
    let text = conv_ok(&list, &Type::Str);
    assert_eq!(as_str(&text), "1 -22 3");
    let back = conv_ok(&text, &Type::List(Box::new(Type::Int)));
    match back {
        Value::List(es) => {
            assert_eq!(es.len(), 3);
            assert_eq!(as_int(&es[0]), 1);
            assert_eq!(as_int(&es[1]), -22);
            assert_eq!(as_int(&es[2]), 3);
        }
        _ => panic!("expected a list"),
    }
}

#[test]
fn text_splits_into_typed_list() {
    let v = conv_ok(&Value::Str("  4 5\t6 ".into()), &Type::List(Box::new(Type::Int)));
    match v {
        Value::List(es) => {
            assert_eq!(es.len(), 3);
            assert_eq!(as_int(&es[0]), 4);
            assert_eq!(as_int(&es[1]), 5);
            assert_eq!(as_int(&es[2]), 6);
        }
        _ => panic!("expected a list"),
    }
}

#[test]
fn list_conversion_fails_when_an_element_fails() {
    let v = Value::Str("1 x 3".into());
    assert_eq!(conv_err(&v, &Type::List(Box::new(Type::Int))), EvalError::ConversionFailure);
}

#[test]
fn record_keeps_exactly_target_fields() {
    let r = Value::Record(vec![
        ("a".to_string(), Value::Str("5".into())),
        ("b".to_string(), Value::Int(7)),
    ]);
    let t = Type::Record(vec![("a".to_string(), Type::Int)]);
    let out = conv_ok(&r, &t);
    match out {
        Value::Record(fs) => {
            assert_eq!(fs.len(), 1);
            assert_eq!(fs[0].0, "a");
            assert_eq!(as_int(&fs[0].1), 5);
        }
        _ => panic!("expected a record"),
    }
}

#[test]
fn record_missing_field_fails_whole_conversion() {
    let r = Value::Record(vec![("a".to_string(), Value::Int(1))]);
    let t = Type::Record(vec![
        ("a".to_string(), Type::Int),
        ("c".to_string(), Type::Int),
    ]);
    assert_eq!(conv_err(&r, &t), EvalError::ConversionFailure);
}

#[test]
fn record_field_conversion_failure_fails_whole_conversion() {
    let r = Value::Record(vec![("a".to_string(), Value::Str("zz".into()))]);
    let t = Type::Record(vec![("a".to_string(), Type::Int)]);
    assert_eq!(conv_err(&r, &t), EvalError::ConversionFailure);
}

#[test]
fn process_to_text_runs_and_trims_trailing() {
    let p = Value::Process { program: "echo".to_string(), args: vec!["hello".to_string()] };
    let outcomes = vec![ProcOutcome::Out("hello\n".to_string())];
    let mut pos: usize = 0;
    match conv(&p, &Type::Str, &outcomes, &mut pos) {
        Converted::Done(v) => assert_eq!(as_str(&v), "hello"),
        _ => panic!("conversion should succeed"),
    }
    assert_eq!(pos, 1);
}

#[test]
fn process_to_integer_composes_through_text() {
    let p = Value::Process { program: "wc".to_string(), args: vec!["-l".to_string()] };
    let outcomes = vec![ProcOutcome::Out(" 12\n".to_string())];
    let mut pos: usize = 0;
    match conv(&p, &Type::Int, &outcomes, &mut pos) {
        Converted::Done(v) => assert_eq!(as_int(&v), 12),
        _ => panic!("conversion should succeed"),
    }
    assert_eq!(pos, 1);
}

#[test]
fn process_to_list_composes_through_text() {
    let p = Value::Process { program: "seq".to_string(), args: vec!["3".to_string()] };
    let outcomes = vec![ProcOutcome::Out("1\n2\n3\n".to_string())];
    let mut pos: usize = 0;
    match conv(&p, &Type::List(Box::new(Type::Int)), &outcomes, &mut pos) {
        Converted::Done(Value::List(es)) => {
            assert_eq!(es.len(), 3);
            assert_eq!(as_int(&es[2]), 3);
        }
        _ => panic!("conversion should succeed"),
    }
    assert_eq!(pos, 1);
}

#[test]
fn process_without_outcome_is_pending() {
    let p = Value::Process { program: "echo".to_string(), args: vec!["hi".to_string()] };
    let outcomes: Vec<ProcOutcome> = Vec::new();
    let mut pos: usize = 0;
    match conv(&p, &Type::Str, &outcomes, &mut pos) {
        Converted::Pending(req) => {
            assert_eq!(req.program, "echo");
            assert_eq!(req.args, vec!["hi".to_string()]);
        }
        _ => panic!("expected a pending run"),
    }
}

#[test]
fn failed_process_outcome_is_process_failure() {
    let p = Value::Process { program: "echo".to_string(), args: Vec::new() };
    let outcomes = vec![ProcOutcome::Failed];
    let mut pos: usize = 0;
    match conv(&p, &Type::Str, &outcomes, &mut pos) {
        Converted::Fail(e) => assert_eq!(e, EvalError::ProcessFailure),
        _ => panic!("expected a process failure"),
    }
}

#[test]
fn process_passes_through_record_target_unexecuted() {
    let p = Value::Process { program: "echo".to_string(), args: vec!["hi".to_string()] };
    let outcomes: Vec<ProcOutcome> = Vec::new();
    let mut pos: usize = 0;
    match conv(&p, &Type::Record(Vec::new()), &outcomes, &mut pos) {
        Converted::Done(Value::Process { program, args }) => {
            assert_eq!(program, "echo");
            assert_eq!(args, vec!["hi".to_string()]);
        }
        _ => panic!("expected the process unchanged"),
    }
    assert_eq!(pos, 0);
}

#[test]
fn record_with_process_field_runs_it_on_conversion() {
    let r = Value::Record(vec![(
        "n".to_string(),
        Value::Process { program: "date".to_string(), args: vec!["+%s".to_string()] },
    )]);
    let t = Type::Record(vec![("n".to_string(), Type::Int)]);
    let outcomes = vec![ProcOutcome::Out("17\n".to_string())];
    let mut pos: usize = 0;
    match conv(&r, &t, &outcomes, &mut pos) {
        Converted::Done(Value::Record(fs)) => {
            assert_eq!(fs.len(), 1);
            assert_eq!(as_int(&fs[0].1), 17);
        }
        _ => panic!("conversion should succeed"),
    }
    assert_eq!(pos, 1);
}

#[test]
fn nested_list_renders_to_text() {
    let v = Value::List(vec![
        Value::List(vec![Value::Int(1), Value::Int(2)]),
        Value::Str("x".into()),
    ]);
    assert_eq!(as_str(&conv_ok(&v, &Type::Str)), "1 2 x");
}
