use kley::ast::{AstNode, CommandToken, InfixVerb};
use kley::display::display_value;
use kley::env::Env;
use kley::interpreter::{eval, eval_env, EvalOutcome};
use kley::types::Type;
use kley::value::{EvalError, ProcOutcome, Value};

const FUEL: u64 = 100;

fn b(n: AstNode) -> Box<AstNode> {
    Box::new(n)
}

fn lit(s: &str) -> AstNode {
    AstNode::StringLiteral(s.to_string())
}

fn ident(s: &str) -> AstNode {
    AstNode::Ident(s.to_string())
}

fn binding(name: &str, ty: Type, e: AstNode) -> AstNode {
    AstNode::Binding { ident: name.to_string(), ty, expr: b(e) }
}

fn command(words: &[&str]) -> AstNode {
    AstNode::Command(words.iter().map(|w| CommandToken(vec![lit(w)])).collect())
}

fn call(name: &str, args: Vec<AstNode>) -> AstNode {
    AstNode::Call { name: name.to_string(), args }
}

fn infix(verb: InfixVerb, l: AstNode, r: AstNode) -> AstNode {
    AstNode::InfixExpr { verb, lhs: b(l), rhs: b(r) }
}

fn done_value(ast: &AstNode, outcomes: &Vec<ProcOutcome>) -> Value {
    match eval(ast, outcomes, FUEL) {
        EvalOutcome::Done(v) => v,
        EvalOutcome::Fail(e) => panic!("evaluation failed: {:?}", e),
        EvalOutcome::Pending(q) => panic!("evaluation pending on {}", q.program),
        EvalOutcome::OutOfFuel => panic!("out of fuel"),
    }
}

fn fails_with(ast: &AstNode, outcomes: &Vec<ProcOutcome>) -> EvalError {
    match eval(ast, outcomes, FUEL) {
        EvalOutcome::Fail(e) => e,
        _ => panic!("evaluation should fail"),
    }
}

fn as_str(v: &Value) -> String {
    match v {
        Value::Str(s) => s.clone(),
        _ => panic!("expected text"),
    }
}

fn as_int(v: &Value) -> i64 {
    match v {
        Value::Int(x) => *x,
        _ => panic!("expected integer"),
    }
}

#[test]
fn literals_evaluate_to_themselves() {
    let none: Vec<ProcOutcome> = Vec::new();
    assert_eq!(as_int(&done_value(&AstNode::Integer(9), &none)), 9);
    assert!(matches!(done_value(&AstNode::Boolean(false), &none), Value::Bool(false)));
    assert_eq!(as_str(&done_value(&lit("hi"), &none)), "hi");
    assert!(matches!(done_value(&AstNode::Unit, &none), Value::Unit));
}

#[test]
fn binding_then_display_gives_five() {
    // let x: int = 2 + 3; display(x)
    let prog = AstNode::Block(vec![
        binding("x", Type::Int, infix(InfixVerb::Plus, AstNode::Integer(2), AstNode::Integer(3))),
        call("display", vec![ident("x")]),
    ]);
    let none: Vec<ProcOutcome> = Vec::new();
    assert_eq!(as_str(&done_value(&prog, &none)), "5");
}

#[test]
fn if_true_takes_the_first_branch() {
    let prog = AstNode::IfThenElse {
        cond: b(AstNode::Boolean(true)),
        t_block: b(AstNode::Integer(1)),
        f_block: b(AstNode::Integer(2)),
    };
    let none: Vec<ProcOutcome> = Vec::new();
    assert_eq!(as_int(&done_value(&prog, &none)), 1);
}

#[test]
fn if_false_takes_the_second_branch() {
    let prog = AstNode::IfThenElse {
        cond: b(AstNode::Boolean(false)),
        t_block: b(AstNode::Integer(1)),
        f_block: b(AstNode::Integer(2)),
    };
    let none: Vec<ProcOutcome> = Vec::new();
    assert_eq!(as_int(&done_value(&prog, &none)), 2);
}

#[test]
fn if_condition_must_be_boolean() {
    let prog = AstNode::IfThenElse {
        cond: b(AstNode::Integer(1)),
        t_block: b(AstNode::Integer(1)),
        f_block: b(AstNode::Integer(2)),
    };
    let none: Vec<ProcOutcome> = Vec::new();
    assert_eq!(fails_with(&prog, &none), EvalError::TypeMismatch);
}

#[test]
fn assigning_an_unbound_name_is_unbound_identifier() {
    // x := 1 with no prior binding of x
    let prog = AstNode::Block(vec![AstNode::Assign {
        ident: "x".to_string(),
        expr: b(AstNode::Integer(1)),
    }]);
    let none: Vec<ProcOutcome> = Vec::new();
    assert_eq!(fails_with(&prog, &none), EvalError::UnboundIdentifier);
}

#[test]
fn reading_an_unbound_name_is_unbound_identifier() {
    let none: Vec<ProcOutcome> = Vec::new();
    assert_eq!(fails_with(&ident("nope"), &none), EvalError::UnboundIdentifier);
}

#[test]
fn assignment_replaces_the_nearest_binding() {
    let prog = AstNode::Block(vec![
        binding("x", Type::Int, AstNode::Integer(1)),
        AstNode::Assign { ident: "x".to_string(), expr: b(AstNode::Integer(41)) },
        call("display", vec![infix(InfixVerb::Plus, ident("x"), AstNode::Integer(1))]),
    ]);
    let none: Vec<ProcOutcome> = Vec::new();
    assert_eq!(as_str(&done_value(&prog, &none)), "42");
}

#[test]
fn assignment_reconverts_to_the_declared_type() {
    // x := "8" stores the integer 8 under x's declared type int
    let prog = AstNode::Block(vec![
        binding("x", Type::Int, AstNode::Integer(1)),
        AstNode::Assign { ident: "x".to_string(), expr: b(lit("8")) },
        call("display", vec![infix(InfixVerb::Plus, ident("x"), AstNode::Integer(1))]),
    ]);
    let none: Vec<ProcOutcome> = Vec::new();
    assert_eq!(as_str(&done_value(&prog, &none)), "9");
}

#[test]
fn assignment_of_unconvertible_value_fails() {
    let prog = AstNode::Block(vec![
        binding("x", Type::Int, AstNode::Integer(1)),
        AstNode::Assign { ident: "x".to_string(), expr: b(lit("abc")) },
    ]);
    let none: Vec<ProcOutcome> = Vec::new();
    assert_eq!(fails_with(&prog, &none), EvalError::ConversionFailure);
}

fn shadowing_inner_block() -> AstNode {
    AstNode::Block(vec![
        binding("x", Type::Int, AstNode::Integer(2)),
        call("display", vec![ident("x")]),
    ])
}

#[test]
fn shadowing_shows_the_new_value_then_the_old_one() {
    // let x: int = 1; { let x: int = 2; display(x) } then display(x) again
    let sees_new = AstNode::Block(vec![
        binding("x", Type::Int, AstNode::Integer(1)),
        shadowing_inner_block(),
    ]);
    let none: Vec<ProcOutcome> = Vec::new();
    assert_eq!(as_str(&done_value(&sees_new, &none)), "2");

    let sees_old_after = AstNode::Block(vec![
        binding("x", Type::Int, AstNode::Integer(1)),
        shadowing_inner_block(),
        call("display", vec![ident("x")]),
    ]);
    assert_eq!(as_str(&done_value(&sees_old_after, &none)), "1");
}

#[test]
fn arithmetic_verbs_compute() {
    let none: Vec<ProcOutcome> = Vec::new();
    let minus = infix(InfixVerb::Minus, AstNode::Integer(5), AstNode::Integer(9));
    assert_eq!(as_int(&done_value(&minus, &none)), -4);
    let times = infix(InfixVerb::Times, AstNode::Integer(6), AstNode::Integer(7));
    assert_eq!(as_int(&done_value(&times, &none)), 42);
    let div = infix(InfixVerb::Divide, AstNode::Integer(-7), AstNode::Integer(2));
    assert_eq!(as_int(&done_value(&div, &none)), -3);
    let div2 = infix(InfixVerb::Divide, AstNode::Integer(7), AstNode::Integer(-2));
    assert_eq!(as_int(&done_value(&div2, &none)), -3);
}

#[test]
fn division_by_zero_fails() {
    let none: Vec<ProcOutcome> = Vec::new();
    let div = infix(InfixVerb::Divide, AstNode::Integer(1), AstNode::Integer(0));
    assert_eq!(fails_with(&div, &none), EvalError::ConversionFailure);
}

#[test]
fn arithmetic_overflow_fails() {
    let none: Vec<ProcOutcome> = Vec::new();
    let add = infix(InfixVerb::Plus, AstNode::Integer(i64::MAX), AstNode::Integer(1));
    assert_eq!(fails_with(&add, &none), EvalError::ConversionFailure);
    let div = infix(InfixVerb::Divide, AstNode::Integer(i64::MIN), AstNode::Integer(-1));
    assert_eq!(fails_with(&div, &none), EvalError::ConversionFailure);
}

#[test]
fn non_integer_operands_are_type_mismatches() {
    let none: Vec<ProcOutcome> = Vec::new();
    let add = infix(InfixVerb::Plus, AstNode::Boolean(true), AstNode::Integer(1));
    assert_eq!(fails_with(&add, &none), EvalError::TypeMismatch);
}

#[test]
fn quote_string_interpolates_and_concatenates() {
    let q = AstNode::QuoteString(vec![lit("n="), AstNode::Integer(5)]);
    let none: Vec<ProcOutcome> = Vec::new();
    assert_eq!(as_str(&done_value(&q, &none)), "n=5");
    let empty = AstNode::QuoteString(Vec::new());
    assert_eq!(as_str(&done_value(&empty, &none)), "");
}

#[test]
fn bare_command_statement_runs_exactly_once() {
    // echo "hi" as a statement: spawn, output discarded
    let prog = AstNode::Block(vec![command(&["echo", "hi"])]);

    // without an outcome the evaluator stops with the request
    let none: Vec<ProcOutcome> = Vec::new();
    match eval(&prog, &none, FUEL) {
        EvalOutcome::Pending(req) => {
            assert_eq!(req.program, "echo");
            assert_eq!(req.args, vec!["hi".to_string()]);
        }
        _ => panic!("expected a pending run"),
    }

    // with one outcome it finishes, consuming exactly that one run
    let outcomes = vec![
        ProcOutcome::Out("hi\n".to_string()),
        ProcOutcome::Out("never used".to_string()),
    ];
    let env = Env::new();
    let mut pos: usize = 0;
    match eval_env(&prog, &env, &outcomes, &mut pos, FUEL) {
        EvalOutcome::Done(_) => {}
        _ => panic!("evaluation should finish"),
    }
    assert_eq!(pos, 1);
}

#[test]
fn bound_command_runs_at_conversion_not_at_binding() {
    let bind_only = AstNode::Block(vec![binding(
        "c",
        Type::Record(Vec::new()),
        command(&["echo", "hi"]),
    )]);
    // bound and never read: never executes
    let none: Vec<ProcOutcome> = Vec::new();
    let env = Env::new();
    let mut pos: usize = 0;
    match eval_env(&bind_only, &env, &none, &mut pos, FUEL) {
        EvalOutcome::Done(_) => {}
        _ => panic!("binding a command must not run it"),
    }
    assert_eq!(pos, 0);

    // converting the variable to text runs it, once, at that point
    let bind_then_read = AstNode::Block(vec![
        binding("c", Type::Record(Vec::new()), command(&["echo", "hi"])),
        binding("s", Type::Str, ident("c")),
        call("display", vec![ident("s")]),
    ]);
    match eval(&bind_then_read, &none, FUEL) {
        EvalOutcome::Pending(req) => assert_eq!(req.program, "echo"),
        _ => panic!("expected a pending run at the conversion"),
    }
    let outcomes = vec![ProcOutcome::Out("hi\n".to_string())];
    let mut pos2: usize = 0;
    match eval_env(&bind_then_read, &env, &outcomes, &mut pos2, FUEL) {
        EvalOutcome::Done(v) => assert_eq!(as_str(&v), "hi"),
        _ => panic!("evaluation should finish"),
    }
    assert_eq!(pos2, 1);
}

#[test]
fn binding_a_deferred_process_to_text_captures_output() {
    // let out: str = `echo hello`; display(out)
    let prog = AstNode::Block(vec![
        binding("out", Type::Str, command(&["echo", "hello"])),
        call("display", vec![ident("out")]),
    ]);
    let outcomes = vec![ProcOutcome::Out("hello\n".to_string())];
    assert_eq!(as_str(&done_value(&prog, &outcomes)), "hello");
}

#[test]
fn failed_process_is_fatal() {
    let prog = AstNode::Block(vec![binding("out", Type::Str, command(&["nosuch"]))]);
    let outcomes = vec![ProcOutcome::Failed];
    assert_eq!(fails_with(&prog, &outcomes), EvalError::ProcessFailure);
}

#[test]
fn empty_command_is_fatal() {
    let prog = AstNode::Command(Vec::new());
    let none: Vec<ProcOutcome> = Vec::new();
    assert_eq!(fails_with(&prog, &none), EvalError::TypeMismatch);
}

#[test]
fn command_tokens_concatenate_their_parts() {
    // `echo a<x>` where <x> interpolates a bound integer
    let prog = AstNode::Block(vec![
        binding("x", Type::Int, AstNode::Integer(3)),
        AstNode::Command(vec![
            CommandToken(vec![lit("echo")]),
            CommandToken(vec![lit("a"), ident("x")]),
        ]),
    ]);
    let none: Vec<ProcOutcome> = Vec::new();
    match eval(&prog, &none, FUEL) {
        EvalOutcome::Pending(req) => {
            assert_eq!(req.program, "echo");
            assert_eq!(req.args, vec!["a3".to_string()]);
        }
        _ => panic!("expected a pending run"),
    }
}

#[test]
fn user_functions_bind_positionally_and_convert() {
    // fn double(n: int) -> int { n + n }; double("21")
    let body = AstNode::Block(vec![infix(InfixVerb::Plus, ident("n"), ident("n"))]);
    let prog = AstNode::Block(vec![
        AstNode::Function {
            name: "double".to_string(),
            params: vec![("n".to_string(), Type::Int)],
            out: Type::Int,
            block: b(body),
        },
        call("double", vec![lit("21")]),
    ]);
    let none: Vec<ProcOutcome> = Vec::new();
    assert_eq!(as_int(&done_value(&prog, &none)), 42);
}

#[test]
fn function_result_converts_to_declared_return_type() {
    // fn shout(n: int) -> str { n }
    let body = AstNode::Block(vec![ident("n")]);
    let prog = AstNode::Block(vec![
        AstNode::Function {
            name: "shout".to_string(),
            params: vec![("n".to_string(), Type::Int)],
            out: Type::Str,
            block: b(body),
        },
        call("shout", vec![AstNode::Integer(7)]),
    ]);
    let none: Vec<ProcOutcome> = Vec::new();
    assert_eq!(as_str(&done_value(&prog, &none)), "7");
}

#[test]
fn calls_do_not_see_caller_variables() {
    let body = AstNode::Block(vec![ident("x")]);
    let prog = AstNode::Block(vec![
        binding("x", Type::Int, AstNode::Integer(1)),
        AstNode::Function {
            name: "peek".to_string(),
            params: Vec::new(),
            out: Type::Int,
            block: b(body),
        },
        call("peek", Vec::new()),
    ]);
    let none: Vec<ProcOutcome> = Vec::new();
    assert_eq!(fails_with(&prog, &none), EvalError::UnboundIdentifier);
}

#[test]
fn unknown_function_is_unbound_function() {
    let none: Vec<ProcOutcome> = Vec::new();
    assert_eq!(fails_with(&call("nope", Vec::new()), &none), EvalError::UnboundFunction);
}

#[test]
fn wrong_arity_is_a_type_mismatch() {
    let body = AstNode::Block(vec![AstNode::Integer(0)]);
    let prog = AstNode::Block(vec![
        AstNode::Function {
            name: "z".to_string(),
            params: Vec::new(),
            out: Type::Int,
            block: b(body),
        },
        call("z", vec![AstNode::Integer(1)]),
    ]);
    let none: Vec<ProcOutcome> = Vec::new();
    assert_eq!(fails_with(&prog, &none), EvalError::TypeMismatch);
}

#[test]
fn runaway_recursion_runs_out_of_fuel() {
    let body = AstNode::Block(vec![call("spin", Vec::new())]);
    let prog = AstNode::Block(vec![
        AstNode::Function {
            name: "spin".to_string(),
            params: Vec::new(),
            out: Type::Int,
            block: b(body),
        },
        call("spin", Vec::new()),
    ]);
    let none: Vec<ProcOutcome> = Vec::new();
    assert!(matches!(eval(&prog, &none, 50), EvalOutcome::OutOfFuel));
}

#[test]
fn display_renders_every_kind() {
    assert_eq!(display_value(&Value::Int(-3)), "-3");
    assert_eq!(display_value(&Value::Str("s".into())), "s");
    assert_eq!(display_value(&Value::Bool(true)), "true");
    assert_eq!(display_value(&Value::Bool(false)), "false");
    assert_eq!(display_value(&Value::Unit), "unit");
    let l = Value::List(vec![Value::Int(1), Value::Bool(true), Value::Unit]);
    assert_eq!(display_value(&l), "1 true unit");
    let r = Value::Record(vec![
        ("a".to_string(), Value::Int(1)),
        ("b".to_string(), Value::Str("x".into())),
    ]);
    assert_eq!(display_value(&r), "{a: 1, b: x}");
}

#[test]
fn display_shows_a_pending_process_without_running_it() {
    let prog = AstNode::Block(vec![
        binding("c", Type::Record(Vec::new()), command(&["echo", "hi"])),
        call("display", vec![ident("c")]),
    ]);
    // no outcomes provided, yet evaluation finishes: display spawned nothing
    let none: Vec<ProcOutcome> = Vec::new();
    assert_eq!(as_str(&done_value(&prog, &none)), "<command echo hi>");
}

#[test]
fn record_literal_collects_its_fields() {
    let prog = AstNode::RecordValue(vec![
        ("a".to_string(), AstNode::Integer(1)),
        ("b".to_string(), AstNode::Boolean(true)),
    ]);
    let none: Vec<ProcOutcome> = Vec::new();
    match done_value(&prog, &none) {
        Value::Record(fs) => {
            assert_eq!(fs.len(), 2);
            assert_eq!(fs[0].0, "a");
            assert_eq!(as_int(&fs[0].1), 1);
            assert_eq!(fs[1].0, "b");
        }
        _ => panic!("expected a record"),
    }
}

#[test]
fn empty_block_evaluates_to_unit() {
    let none: Vec<ProcOutcome> = Vec::new();
    assert!(matches!(done_value(&AstNode::Block(Vec::new()), &none), Value::Unit));
}

#[test]
fn environment_binds_shadows_and_assigns() {
    let mut env = Env::new();
    let x = "x".to_string();
    let t_int = Type::Int;
    env.bind(&x, &t_int, Value::Int(1));
    env.bind(&x, &t_int, Value::Int(2));
    match env.lookup(&x) {
        Some(v) => assert_eq!(as_int(&v), 2),
        None => panic!("x should be bound"),
    }
    assert!(env.assign(&x, Value::Int(5)).is_ok());
    match env.lookup(&x) {
        Some(v) => assert_eq!(as_int(&v), 5),
        None => panic!("x should be bound"),
    }
    let y = "y".to_string();
    assert_eq!(env.assign(&y, Value::Int(0)), Err(EvalError::UnboundIdentifier));
}

#[test]
fn block_value_is_its_last_statement() {
    let prog = AstNode::Block(vec![AstNode::Integer(1), AstNode::Integer(2)]);
    let none: Vec<ProcOutcome> = Vec::new();
    assert_eq!(as_int(&done_value(&prog, &none)), 2);
}

#[test]
fn trailing_command_statement_runs_and_stays_the_value() {
    // a block ending in a bare command runs it once and yields the
    // descriptor itself
    let prog = AstNode::Block(vec![command(&["echo", "hi"])]);
    let outcomes = vec![ProcOutcome::Out("hi\n".to_string())];
    let env = Env::new();
    let mut pos: usize = 0;
    match eval_env(&prog, &env, &outcomes, &mut pos, FUEL) {
        EvalOutcome::Done(Value::Process { program, args }) => {
            assert_eq!(program, "echo");
            assert_eq!(args, vec!["hi".to_string()]);
        }
        _ => panic!("expected the process descriptor"),
    }
    assert_eq!(pos, 1);
}

#[test]
fn type_literal_is_not_a_value() {
    let none: Vec<ProcOutcome> = Vec::new();
    assert_eq!(fails_with(&AstNode::Type(Type::Int), &none), EvalError::TypeMismatch);
}

#[test]
fn display_of_empty_list_is_empty_text() {
    assert_eq!(display_value(&Value::List(Vec::new())), "");
    assert_eq!(display_value(&Value::Record(Vec::new())), "{}");
}

#[test]
fn later_function_definition_shadows_earlier() {
    let body1 = AstNode::Block(vec![AstNode::Integer(1)]);
    let body2 = AstNode::Block(vec![AstNode::Integer(2)]);
    let prog = AstNode::Block(vec![
        AstNode::Function {
            name: "f".to_string(),
            params: Vec::new(),
            out: Type::Int,
            block: b(body1),
        },
        AstNode::Function {
            name: "f".to_string(),
            params: Vec::new(),
            out: Type::Int,
            block: b(body2),
        },
        call("f", Vec::new()),
    ]);
    let none: Vec<ProcOutcome> = Vec::new();
    assert_eq!(as_int(&done_value(&prog, &none)), 2);
}

#[test]
fn driver_loop_resumes_one_run_at_a_time() {
    // let a: str = `echo one`; let b: str = `echo two`; display of both:
    // each round of evaluation stops at the next process whose outcome is
    // missing, and settled work never changes
    let prog = AstNode::Block(vec![
        binding("a", Type::Str, command(&["echo", "one"])),
        binding("b", Type::Str, command(&["echo", "two"])),
        call("display", vec![AstNode::QuoteString(vec![ident("a"), lit(" "), ident("b")])]),
    ]);
    let mut outcomes: Vec<ProcOutcome> = Vec::new();
    match eval(&prog, &outcomes, FUEL) {
        EvalOutcome::Pending(req) => assert_eq!(req.args, vec!["one".to_string()]),
        _ => panic!("expected the first run"),
    }
    outcomes.push(ProcOutcome::Out("one\n".to_string()));
    match eval(&prog, &outcomes, FUEL) {
        EvalOutcome::Pending(req) => assert_eq!(req.args, vec!["two".to_string()]),
        _ => panic!("expected the second run"),
    }
    outcomes.push(ProcOutcome::Out("two\n".to_string()));
    assert_eq!(as_str(&done_value(&prog, &outcomes)), "one two");
}
