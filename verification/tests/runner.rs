use lib::interpreter::runner::Runner;
use lib::interpreter::runtime::Runtime;
use lib::ir::{Bridged, Capturable, Entity, First, If, Value};
use lib::parser::fault::Outcome;

fn lit(n: i64) -> Entity {
    Entity::Inlined(Value::Int(n))
}

fn boolean(b: bool) -> Entity {
    Entity::Inlined(Value::Bool(b))
}

fn call(id: u16, params: Vec<Entity>) -> Entity {
    Entity::RustCall(Bridged(id), params)
}

fn run(rt: &Runtime, e: &Entity, params: Vec<Value>) -> Option<Value> {
    Runner::start(rt, e, params, 1000)
}

fn as_int(v: Option<Value>) -> i64 {
    match v {
        Some(Value::Int(n)) => n,
        _ => panic!("not an integer"),
    }
}

fn as_ints(v: Option<Value>) -> Vec<i64> {
    match v {
        Some(Value::List(items)) => items
            .into_iter()
            .map(|x| match x {
                Value::Int(n) => n,
                _ => panic!("not an integer"),
            })
            .collect(),
        _ => panic!("not a list"),
    }
}

fn empty() -> Runtime {
    Runtime { instructions: Vec::new() }
}

#[test]
fn a_literal_is_its_value() {
    assert_eq!(as_int(run(&empty(), &lit(5), Vec::new())), 5);
}

#[test]
fn no_fuel_gives_no_value() {
    assert!(Runner::start(&empty(), &lit(5), Vec::new(), 0).is_none());
}

#[test]
fn parameters_are_read() {
    let e = Entity::Parameter(1);
    assert_eq!(as_int(run(&empty(), &e, vec![Value::Int(8), Value::Int(9)])), 9);
}

#[test]
fn integer_builtins() {
    let rt = empty();
    assert_eq!(as_int(run(&rt, &call(0, vec![lit(2), lit(3)]), Vec::new())), 5);
    assert_eq!(as_int(run(&rt, &call(1, vec![lit(2), lit(3)]), Vec::new())), -1);
    assert_eq!(as_int(run(&rt, &call(2, vec![lit(6), lit(7)]), Vec::new())), 42);
    assert_eq!(as_int(run(&rt, &call(3, vec![lit(-7), lit(2)]), Vec::new())), -3);
}

#[test]
fn list_builtins() {
    let rt = empty();
    let list = Entity::List(vec![lit(1), lit(2)]);
    let pushed = call(4, vec![lit(3), Entity::List(vec![lit(1), lit(2)])]);
    assert_eq!(as_ints(run(&rt, &pushed, Vec::new())), vec![1, 2, 3]);
    let front = call(5, vec![lit(0), Entity::List(vec![lit(1), lit(2)])]);
    assert_eq!(as_ints(run(&rt, &front, Vec::new())), vec![0, 1, 2]);
    let got = call(6, vec![lit(1), Entity::List(vec![lit(10), lit(20)])]);
    assert_eq!(as_int(run(&rt, &got, Vec::new())), 20);
    assert_eq!(as_int(run(&rt, &call(7, vec![list]), Vec::new())), 2);
}

#[test]
fn a_list_evaluates_each_item() {
    let e = Entity::List(vec![lit(1), call(0, vec![lit(1), lit(1)]), lit(3)]);
    assert_eq!(as_ints(run(&empty(), &e, Vec::new())), vec![1, 2, 3]);
}

#[test]
fn the_first_true_branch_is_taken() {
    let e = Entity::IfExpression(If {
        branches: vec![(boolean(false), lit(1)), (boolean(true), lit(2)), (boolean(true), lit(3))],
        otherwise: Box::new(lit(4)),
    });
    assert_eq!(as_int(run(&empty(), &e, Vec::new())), 2);
}

#[test]
fn without_a_true_branch_the_last_is_taken() {
    let e = Entity::IfExpression(If {
        branches: vec![(boolean(false), lit(1)), (lit(7), lit(2))],
        otherwise: Box::new(lit(4)),
    });
    assert_eq!(as_int(run(&empty(), &e, Vec::new())), 4);
}

#[test]
fn statements_run_before_the_value() {
    let e = Entity::FirstStatement(First {
        to_void: vec![lit(1), call(0, vec![lit(1), lit(2)])],
        to_eval: Box::new(lit(9)),
    });
    assert_eq!(as_int(run(&empty(), &e, Vec::new())), 9);
}

#[test]
fn functions_are_called_by_index() {
    let rt = Runtime {
        instructions: vec![call(0, vec![Entity::Parameter(0), Entity::Parameter(1)])],
    };
    let e = Entity::FunctionCall(0, vec![lit(20), lit(22)]);
    assert_eq!(as_int(run(&rt, &e, Vec::new())), 42);
}

#[test]
fn endless_recursion_runs_out_of_fuel() {
    let rt = Runtime { instructions: vec![Entity::FunctionCall(0, Vec::new())] };
    let e = Entity::FunctionCall(0, Vec::new());
    assert!(Runner::start(&rt, &e, Vec::new(), 500).is_none());
}

#[test]
fn more_fuel_gives_the_same_value() {
    let rt = Runtime {
        instructions: vec![call(2, vec![Entity::Parameter(0), Entity::Parameter(0)])],
    };
    let e = Entity::FunctionCall(0, vec![lit(12)]);
    let few = Runner::start(&rt, &e, Vec::new(), 5);
    let many = Runner::start(&rt, &e, Vec::new(), 5000);
    assert_eq!(as_int(few), 144);
    assert_eq!(as_int(many), 144);
    assert!(Runner::start(&rt, &e, Vec::new(), 2).is_none());
}

#[test]
fn a_lambda_sees_its_captures() {
    let body = call(0, vec![Entity::Parameter(0), Entity::Captured(0)]);
    let e = Entity::Lambda(vec![body, lit(10)], vec![Capturable::ParentParam(0)]);
    assert_eq!(as_int(run(&empty(), &e, vec![Value::Int(1)])), 11);
}

#[test]
fn a_lambda_pointer_is_a_function_value() {
    let body = call(2, vec![Entity::Parameter(0), Entity::Captured(0)]);
    let e = Entity::LambdaPointer(Box::new((body, vec![Capturable::ParentParam(0)])));
    match run(&empty(), &e, vec![Value::Int(7)]) {
        Some(Value::Function(f)) => {
            assert_eq!(f.1.len(), 1);
            assert!(matches!(f.1[0], Value::Int(7)));
        }
        _ => panic!("not a function"),
    }
}

#[test]
fn a_function_parameter_is_called() {
    let body = call(2, vec![Entity::Parameter(0), Entity::Captured(0)]);
    let f = Value::Function(Box::new((body, vec![Value::Int(7)])));
    let e = Entity::ParameterCall(0, vec![lit(6)]);
    assert_eq!(as_int(run(&empty(), &e, vec![f])), 42);
}

#[test]
fn a_captured_function_is_called() {
    let inner = call(1, vec![Entity::Parameter(0), Entity::Captured(0)]);
    let f = Value::Function(Box::new((inner, vec![Value::Int(1)])));
    let body = Entity::CapturedCall(0, vec![lit(10)]);
    let e = Entity::Lambda(vec![body], vec![Capturable::ParentParam(0)]);
    assert_eq!(as_int(run(&empty(), &e, vec![f])), 9);
}

#[test]
fn a_record_holds_its_fields() {
    let e = Entity::ConstructRecord(vec![lit(1), boolean(true)]);
    match run(&empty(), &e, Vec::new()) {
        Some(Value::Struct(fields)) => {
            assert_eq!(fields.len(), 2);
            assert!(matches!(fields[0], Value::Int(1)));
            assert!(matches!(fields[1], Value::Bool(true)));
        }
        _ => panic!("not a record"),
    }
}

fn tried(rt: &Runtime, e: &Entity, params: Vec<Value>) -> Outcome<Value, ()> {
    Runner::try_start(rt, e, params, 1000)
}

#[test]
fn the_checked_run_gives_the_value() {
    match tried(&empty(), &call(0, vec![lit(2), lit(3)]), Vec::new()) {
        Outcome::Done(Value::Int(n)) => assert_eq!(n, 5),
        _ => panic!("expected a value"),
    }
    assert!(matches!(Runner::try_start(&empty(), &lit(1), Vec::new(), 0), Outcome::Fails(())));
}

#[test]
fn the_checked_run_reports_panics() {
    let rt = empty();
    assert!(matches!(tried(&rt, &Entity::Unimplemented, Vec::new()), Outcome::Panics));
    assert!(matches!(tried(&rt, &Entity::Parameter(3), vec![Value::Int(1)]), Outcome::Panics));
    assert!(matches!(tried(&rt, &call(3, vec![lit(1), lit(0)]), Vec::new()), Outcome::Panics));
    assert!(matches!(tried(&rt, &call(0, vec![lit(i64::MAX), lit(1)]), Vec::new()), Outcome::Panics));
    let get = call(6, vec![lit(5), Entity::List(vec![lit(1)])]);
    assert!(matches!(tried(&rt, &get, Vec::new()), Outcome::Panics));
    assert!(matches!(tried(&rt, &Entity::List(Vec::new()), Vec::new()), Outcome::Panics));
    assert!(matches!(tried(&rt, &Entity::FunctionCall(0, Vec::new()), Vec::new()), Outcome::Panics));
    let lambda = Entity::Lambda(vec![lit(1)], vec![Capturable::ParentLambda(0)]);
    assert!(matches!(tried(&rt, &lambda, Vec::new()), Outcome::Panics));
}
