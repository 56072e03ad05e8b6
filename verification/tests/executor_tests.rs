use lsystem::ArgTy;
use lsystem::CallParsed;
use lsystem::ConstGen;
use lsystem::ExecError;
use lsystem::LSystem;
use lsystem::LSystemExecutor;
use lsystem::Value;

fn chars(s: &str) -> Vec<char> {
    s.chars().collect()
}

fn system(word: &str) -> LSystem<ConstGen> {
    LSystem::new(chars(word))
}

fn as_i32(v: &Value) -> i32 {
    match v {
        Value::Int(x) => *x as i32,
        _ => panic!("expected an integer argument"),
    }
}

fn as_f64(v: &Value) -> f64 {
    match v {
        Value::Int(x) => *x as f64,
        Value::Dec { mantissa, scale } => *mantissa as f64 / 10f64.powi(*scale as i32),
        Value::List(_) => panic!("expected a numeric argument"),
    }
}

enum TripleHandler {
    A,
    B,
    C,
}

impl CallParsed<(i32, i32, i32)> for TripleHandler {
    fn call_parsed(
        &mut self,
        state: &mut (i32, i32, i32),
        args: Vec<Value>,
    ) -> Result<(), ExecError> {
        match self {
            TripleHandler::A => state.0 += 1,
            TripleHandler::B => state.1 += as_i32(&args[0]),
            TripleHandler::C => {
                let c = as_i32(&args[0]);
                let m = as_i32(&args[1]);
                state.2 += if state.0 > state.1 { c } else { m * c };
            },
        }
        Ok(())
    }
}

fn triple_executor() -> LSystemExecutor<(i32, i32, i32), TripleHandler> {
    let mut executor = LSystemExecutor::new((0, 0, 0));
    executor.register_execution_rule(chars("A"), vec![], TripleHandler::A);
    executor.register_execution_rule(chars("B"), vec![ArgTy::Int], TripleHandler::B);
    executor.register_execution_rule(
        chars("C"),
        vec![ArgTy::Int, ArgTy::Int],
        TripleHandler::C,
    );
    executor
}

#[test]
fn test_basic_executor() {
    let mut executor = triple_executor();
    executor.execute(&system("AAC(3, 0)B(6)B(1)AC(3, 2)")).unwrap();
    assert_eq!(executor.state, (3, 7, 9));
}

struct PairSum;

impl CallParsed<i32> for PairSum {
    fn call_parsed(&mut self, state: &mut i32, args: Vec<Value>) -> Result<(), ExecError> {
        let pairs = match &args[0] {
            Value::List(es) => es,
            _ => panic!("expected a list argument"),
        };
        let mut total = 0f64;
        for pair in pairs {
            let es = match pair {
                Value::List(es) => es,
                _ => panic!("expected a pair"),
            };
            total += as_f64(&es[0]) * as_f64(&es[1]);
        }
        *state += total as i32;
        Ok(())
    }
}

#[test]
fn test_non_primitive_executor() {
    let mut executor = LSystemExecutor::new(0);
    let pair = ArgTy::Tuple(vec![ArgTy::Int, ArgTy::Num]);
    executor.register_execution_rule(
        chars("A"),
        vec![ArgTy::List(Box::new(pair))],
        PairSum,
    );
    executor
        .execute(&system(
            "A([[1, 2], [3, 4.1]])XXXXA([])XA([[0, 4], [1, 0.1]])XA([[3, 1.2]])",
        ))
        .unwrap();
    assert_eq!(executor.state, 17);
}

struct Count;

impl CallParsed<i32> for Count {
    fn call_parsed(&mut self, state: &mut i32, _args: Vec<Value>) -> Result<(), ExecError> {
        *state += 1;
        Ok(())
    }
}

#[test]
fn unrecognized_characters_are_skipped() {
    let mut executor = LSystemExecutor::new(0);
    executor.register_execution_rule(chars("A"), vec![], Count);
    let r = executor.execute(&system("xy z().[]-12"));
    assert_eq!(r, Ok(()));
    assert_eq!(executor.state, 0);
}

#[test]
fn unrecognized_characters_between_tokens() {
    let mut executor = LSystemExecutor::new(0);
    executor.register_execution_rule(chars("A"), vec![], Count);
    let r = executor.execute(&system("xAyyAz!A"));
    assert_eq!(r, Ok(()));
    assert_eq!(executor.state, 3);
}

enum CountOrAdd {
    Count,
    Add,
}

impl CallParsed<(i32, i32)> for CountOrAdd {
    fn call_parsed(&mut self, state: &mut (i32, i32), args: Vec<Value>) -> Result<(), ExecError> {
        match self {
            CountOrAdd::Count => state.0 += 1,
            CountOrAdd::Add => state.1 += as_i32(&args[0]),
        }
        Ok(())
    }
}

fn count_add_executor() -> LSystemExecutor<(i32, i32), CountOrAdd> {
    let mut executor = LSystemExecutor::new((0, 0));
    executor.register_execution_rule(chars("A"), vec![], CountOrAdd::Count);
    executor.register_execution_rule(chars("B"), vec![ArgTy::Int], CountOrAdd::Add);
    executor
}

#[test]
fn exhausted_probe_surfaces_an_error() {
    // The argument list after B never parses as one integer, at any probe
    // length up to the end of the input.
    let mut executor = count_add_executor();
    let r = executor.execute(&system("AB(5"));
    assert_eq!(r, Err(ExecError::ArgParse));
    assert_eq!(executor.state, (1, 0));
}

#[test]
fn no_handler_after_the_failure_point_runs() {
    // The A before the malformed list runs; the A after it never does.
    let mut executor = count_add_executor();
    let r = executor.execute(&system("AB(A"));
    assert_eq!(r, Err(ExecError::ArgParse));
    assert_eq!(executor.state, (1, 0));
}

#[test]
fn unterminated_empty_parenthesis_is_an_error() {
    let mut executor = count_add_executor();
    let r = executor.execute(&system("B("));
    assert_eq!(r, Err(ExecError::ArgParse));
    assert_eq!(executor.state, (0, 0));
}

#[test]
fn shortest_accepted_probe_wins() {
    // The documented probe policy: "(12)" is accepted as soon as a probe
    // rewrites to "[1]", so the handler sees 1; the probe is consumed and the
    // leftover ")" is skipped as unrecognized text.
    let mut executor = count_add_executor();
    let r = executor.execute(&system("B(12)A"));
    assert_eq!(r, Ok(()));
    assert_eq!(executor.state, (1, 1));
}

#[test]
fn zero_argument_handler_leaves_a_parenthesis_alone() {
    // A takes no arguments, so its probe accepts at once, consumes nothing,
    // and the parenthesized text is skipped character by character.
    let mut executor = count_add_executor();
    let r = executor.execute(&system("A(7)A"));
    assert_eq!(r, Ok(()));
    assert_eq!(executor.state, (2, 0));
}

#[test]
fn first_registered_token_wins_executor_ties() {
    // Both "A" and "AB" prefix the input; registration order decides.
    let mut executor = LSystemExecutor::new(0);
    executor.register_execution_rule(chars("A"), vec![], Count);
    executor.register_execution_rule(chars("AB"), vec![], Count);
    let r = executor.execute(&system("AB"));
    assert_eq!(r, Ok(()));
    assert_eq!(executor.state, 1);
}

struct Record;

impl CallParsed<Vec<Value>> for Record {
    fn call_parsed(&mut self, state: &mut Vec<Value>, mut args: Vec<Value>) -> Result<(), ExecError> {
        state.append(&mut args);
        Ok(())
    }
}

#[test]
fn decimal_arguments_are_kept_exact() {
    // Nested in a list the decimals cannot be cut short by an early probe,
    // so each one arrives as its exact mantissa and scale.
    let mut executor = LSystemExecutor::new(Vec::new());
    executor.register_execution_rule(
        chars("D"),
        vec![ArgTy::List(Box::new(ArgTy::Num))],
        Record,
    );
    let r = executor.execute(&system("D([4.25])D([-0.5])D([-12])"));
    assert_eq!(r, Ok(()));
    assert_eq!(
        executor.state,
        vec![
            Value::List(vec![Value::Dec { mantissa: 425, scale: 2 }]),
            Value::List(vec![Value::Dec { mantissa: -5, scale: 1 }]),
            Value::List(vec![Value::Int(-12)]),
        ]
    );
}

#[test]
fn a_bare_decimal_is_cut_short_by_an_early_probe() {
    // The shortest-probe policy accepts "(4." rewritten to "[4]" before the
    // fraction is ever read; the rest of the literal is skipped as
    // unrecognized text.
    let mut executor = LSystemExecutor::new(Vec::new());
    executor.register_execution_rule(chars("D"), vec![ArgTy::Num], Record);
    let r = executor.execute(&system("D(4.25)"));
    assert_eq!(r, Ok(()));
    assert_eq!(executor.state, vec![Value::Int(4)]);
}

#[test]
fn nested_list_arguments_parse_with_whitespace() {
    let mut executor = LSystemExecutor::new(Vec::new());
    let pair = ArgTy::Tuple(vec![ArgTy::Int, ArgTy::Num]);
    executor.register_execution_rule(chars("A"), vec![ArgTy::List(Box::new(pair))], Record);
    let r = executor.execute(&system("A([ [1 , 2 ] ])"));
    assert_eq!(r, Ok(()));
    assert_eq!(
        executor.state,
        vec![Value::List(vec![Value::List(vec![Value::Int(1), Value::Int(2)])])]
    );
}

#[test]
fn an_integer_is_rejected_where_a_list_is_declared() {
    // "(1)" offers an integer to a handler that declares a list; no probe is
    // accepted and the run stops.
    let mut executor = LSystemExecutor::new(Vec::new());
    executor.register_execution_rule(
        chars("A"),
        vec![ArgTy::List(Box::new(ArgTy::Int))],
        Record,
    );
    let r = executor.execute(&system("A(1)"));
    assert_eq!(r, Err(ExecError::ArgParse));
    assert_eq!(executor.state, Vec::<Value>::new());
}

#[test]
fn oversized_numbers_never_parse() {
    // Nineteen digits exceed the grammar's cap; nested in a list, no probe
    // of any length parses, and the run stops.
    let mut executor = LSystemExecutor::new(Vec::new());
    executor.register_execution_rule(
        chars("A"),
        vec![ArgTy::List(Box::new(ArgTy::Int))],
        Record,
    );
    let r = executor.execute(&system("A([1234567890123456789])"));
    assert_eq!(r, Err(ExecError::ArgParse));
    assert_eq!(executor.state, Vec::<Value>::new());
}

#[test]
fn empty_word_executes_to_ok() {
    let mut executor = triple_executor();
    let r = executor.execute(&system(""));
    assert_eq!(r, Ok(()));
    assert_eq!(executor.state, (0, 0, 0));
}

#[test]
fn the_accepted_lists_closing_parenthesis_is_consumed() {
    // Advancing past the accepted probe consumes the ')', so it cannot fire
    // a rule of its own; the second ')' is outside the list and does.
    let mut executor = LSystemExecutor::new((0, 0));
    executor.register_execution_rule(chars(")"), vec![], CountOrAdd::Count);
    executor.register_execution_rule(chars("B"), vec![ArgTy::Int], CountOrAdd::Add);
    let r = executor.execute(&system("B(1))"));
    assert_eq!(r, Ok(()));
    assert_eq!(executor.state, (1, 1));
}

enum CountOrFail {
    Count,
    Fail,
}

impl CallParsed<i32> for CountOrFail {
    fn call_parsed(&mut self, state: &mut i32, _args: Vec<Value>) -> Result<(), ExecError> {
        match self {
            CountOrFail::Count => {
                *state += 1;
                Ok(())
            },
            CountOrFail::Fail => {
                *state += 100;
                Err(ExecError::Handler)
            },
        }
    }
}

#[test]
fn a_failing_handler_stops_the_run() {
    // The failing handler's own mutation stays — there is no rollback — and
    // nothing after the failure point runs.
    let mut executor = LSystemExecutor::new(0);
    executor.register_execution_rule(chars("A"), vec![], CountOrFail::Count);
    executor.register_execution_rule(chars("F"), vec![], CountOrFail::Fail);
    let r = executor.execute(&system("AFA"));
    assert_eq!(r, Err(ExecError::Handler));
    assert_eq!(executor.state, 101);
}

#[test]
fn leading_zero_literals_never_parse() {
    // "01" is no literal of the grammar, so no probe over the nested list
    // ever parses and the run stops.
    let mut executor = LSystemExecutor::new(Vec::new());
    executor.register_execution_rule(
        chars("A"),
        vec![ArgTy::List(Box::new(ArgTy::Int))],
        Record,
    );
    let r = executor.execute(&system("A([01])"));
    assert_eq!(r, Err(ExecError::ArgParse));
    assert_eq!(executor.state, Vec::<Value>::new());
}

#[test]
fn a_lone_zero_still_parses() {
    let mut executor = LSystemExecutor::new(Vec::new());
    executor.register_execution_rule(
        chars("A"),
        vec![ArgTy::List(Box::new(ArgTy::Num))],
        Record,
    );
    let r = executor.execute(&system("A([0, 0.25, -0])"));
    assert_eq!(r, Ok(()));
    assert_eq!(
        executor.state,
        vec![Value::List(vec![
            Value::Int(0),
            Value::Dec { mantissa: 25, scale: 2 },
            Value::Int(0),
        ])]
    );
}

#[test]
fn a_tally_counts_every_dispatch() {
    let mut executor = LSystemExecutor::new(0u64);
    executor.register_execution_rule(chars("A"), vec![], lsystem::Tally);
    executor.register_execution_rule(chars("B"), vec![ArgTy::Int], lsystem::Tally);
    let r = executor.execute(&system("AxB(3)A"));
    assert_eq!(r, Ok(()));
    assert_eq!(executor.state, 3);
}
