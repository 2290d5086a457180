use bleepscript::ast::{Block, Declaration, Expr, ExprList, FuncDef, Program, Stmt, StmtList};
use bleepscript::debug::decimal_of;
use bleepscript::eval::{call_value, eval_expr, exec_stmt};
use bleepscript::semantics::Outcome;
use bleepscript::store::{Host, Store};
use bleepscript::value::{RunError, Value};

/// A host that answers every call with the number of its arguments and
/// keeps what it was handed.
struct Recorder {
    calls: Vec<(usize, Vec<Value>)>,
    callers: Vec<usize>,
}

impl Host for Recorder {
    fn call_native(
        &mut self,
        native: usize,
        args: &Vec<Value>,
        caller: usize,
        _store: &Store,
    ) -> Result<Value, RunError> {
        self.calls.push((native, args.clone()));
        self.callers.push(caller);
        Ok(num(args.len() as f64))
    }
}

fn num(x: f64) -> Value {
    Value::Number(x.to_bits())
}

fn program(numbers: Vec<f64>, funcs: Vec<FuncDef>) -> Program {
    Program { funcs, numbers: numbers.into_iter().map(f64::to_bits).collect(), strings: vec![] }
}

fn list(items: Vec<Expr>) -> ExprList {
    items
        .into_iter()
        .rev()
        .fold(ExprList::Nil, |rest, e| ExprList::Cons(Box::new(e), Box::new(rest)))
}

fn stmts(items: Vec<Stmt>) -> StmtList {
    items
        .into_iter()
        .rev()
        .fold(StmtList::Nil, |rest, s| StmtList::Cons(Box::new(s), Box::new(rest)))
}

fn eval(prog: &Program, store: &mut Store, env: usize, e: &Expr) -> Result<Value, RunError> {
    eval_expr(prog, &mut Recorder { calls: vec![], callers: vec![] }, store, env, e, 100)
}

#[test]
fn address_outside_the_chain_is_an_error() {
    let prog = program(vec![], vec![]);
    let mut store = Store::new();
    let env = store.new_frame(vec![Value::Null], None);
    assert_eq!(eval(&prog, &mut store, env, &Expr::VariableRef(0, 0)), Ok(Value::Null));
    assert_eq!(eval(&prog, &mut store, env, &Expr::VariableRef(0, 1)), Err(RunError::BadAddress));
    assert_eq!(eval(&prog, &mut store, env, &Expr::VariableRef(1, 0)), Err(RunError::BadAddress));
    assert_eq!(eval(&prog, &mut store, 5, &Expr::VariableRef(0, 0)), Err(RunError::BadAddress));
    let assign = Expr::VarAssign(2, 0, Box::new(Expr::VariableRef(0, 0)));
    assert_eq!(eval(&prog, &mut store, env, &assign), Err(RunError::BadAddress));
    let op = Expr::PrefixOp(0, 3, Box::new(Expr::VariableRef(0, 0)));
    assert_eq!(eval(&prog, &mut store, env, &op), Err(RunError::BadAddress));
}

#[test]
fn constant_that_the_program_lacks_is_an_error() {
    let prog = program(vec![1.5], vec![]);
    let mut store = Store::new();
    let env = store.new_frame(vec![], None);
    assert_eq!(eval(&prog, &mut store, env, &Expr::NumberLiteral(0)), Ok(num(1.5)));
    assert_eq!(eval(&prog, &mut store, env, &Expr::NumberLiteral(1)), Err(RunError::BadConstant));
    assert_eq!(eval(&prog, &mut store, env, &Expr::StringLiteral(0)), Err(RunError::BadConstant));
    assert_eq!(eval(&prog, &mut store, env, &Expr::FuncDefLiteral(0)), Err(RunError::BadConstant));
}

#[test]
fn closure_of_a_function_that_the_program_lacks_is_an_error() {
    let prog = program(vec![], vec![]);
    let mut store = Store::new();
    let mut host = Recorder { calls: vec![], callers: vec![] };
    let r = call_value(&prog, &mut host, &mut store, 0, Value::Closure(3, 0), vec![], 10);
    assert_eq!(r, Err(RunError::BadHandle));
}

#[test]
fn host_is_handed_the_operands_in_order() {
    let prog = program(vec![10.0, 20.0], vec![]);
    let mut store = Store::new();
    let env = store.new_frame(vec![Value::Native(42)], None);
    let mut host = Recorder { calls: vec![], callers: vec![] };
    let e = Expr::BinaryOp(
        0,
        0,
        Box::new(Expr::NumberLiteral(0)),
        Box::new(Expr::NumberLiteral(1)),
    );
    assert_eq!(eval_expr(&prog, &mut host, &mut store, env, &e, 5), Ok(num(2.0)));
    assert_eq!(host.calls, vec![(42, vec![num(10.0), num(20.0)])]);
    let call = Expr::FuncCall(Box::new(Expr::VariableRef(0, 0)), list(vec![e]));
    assert_eq!(eval_expr(&prog, &mut host, &mut store, env, &call, 5), Ok(num(1.0)));
    assert_eq!(host.calls.len(), 3);
    assert_eq!(host.calls[2], (42, vec![num(2.0)]));
    assert_eq!(host.callers, vec![env, env, env]);
}

#[test]
fn call_without_fuel_is_not_made() {
    let prog = program(vec![], vec![]);
    let mut store = Store::new();
    let mut host = Recorder { calls: vec![], callers: vec![] };
    let r = call_value(&prog, &mut host, &mut store, 0, Value::Native(0), vec![], 0);
    assert_eq!(r, Err(RunError::OutOfFuel));
    assert!(host.calls.is_empty());
    let r = call_value(&prog, &mut host, &mut store, 0, Value::Native(0), vec![], 1);
    assert_eq!(r, Ok(num(0.0)));
}

#[test]
fn call_runs_in_a_frame_under_the_captured_one() {
    let body = Block {
        decl: Declaration::Var,
        stmts: stmts(vec![Stmt::Return(Some(Expr::VariableRef(1, 0)))]),
    };
    let prog = program(vec![], vec![FuncDef { num_params: 2, body }]);
    let mut store = Store::new();
    let captured = store.new_frame(vec![num(7.0)], None);
    let caller = store.new_frame(vec![num(8.0)], None);
    let mut host = Recorder { calls: vec![], callers: vec![] };
    let f = Value::Closure(0, captured);
    let r = call_value(&prog, &mut host, &mut store, caller, f, vec![num(1.0)], 10);
    assert_eq!(r, Ok(num(7.0)));
    assert_eq!(store.slot_count(2), Some(3));
    assert_eq!(store.lookup(2, 0, 0), Some(num(1.0)));
    assert_eq!(store.lookup(2, 0, 1), Some(Value::Null));
    assert_eq!(store.find_frame(2, 1), Some(captured));
    assert_eq!(store.lookup(caller, 0, 0), Some(num(8.0)));
}

#[test]
fn statements_end_as_completed_broken_or_returned() {
    let prog = program(vec![3.0], vec![]);
    let mut store = Store::new();
    let env = store.new_frame(vec![], None);
    let mut host = Recorder { calls: vec![], callers: vec![] };
    let mut run = |s: &Stmt| exec_stmt(&prog, &mut host, &mut store, env, s, 10);
    assert_eq!(run(&Stmt::Empty), Ok(Outcome::Completed));
    assert_eq!(run(&Stmt::Break), Ok(Outcome::Broke));
    assert_eq!(run(&Stmt::Return(None)), Ok(Outcome::Returned(Value::Null)));
    let value = Stmt::Return(Some(Expr::NumberLiteral(0)));
    assert_eq!(run(&value), Ok(Outcome::Returned(num(3.0))));
    let looped = Stmt::While(Expr::NumberLiteral(0), Box::new(Stmt::Break));
    assert_eq!(run(&looped), Ok(Outcome::Completed));
    let block = Stmt::Block(Block {
        decl: Declaration::NoVar,
        stmts: stmts(vec![Stmt::Break, Stmt::Return(None)]),
    });
    assert_eq!(run(&block), Ok(Outcome::Broke));
    let branch = Stmt::If(Expr::NumberLiteral(0), Box::new(Stmt::Break), None);
    assert_eq!(run(&branch), Ok(Outcome::Broke));
}

#[test]
fn numbers_are_written_in_decimal() {
    let text = |n: usize| decimal_of(n).into_iter().collect::<String>();
    assert_eq!(text(0), "0");
    assert_eq!(text(7), "7");
    assert_eq!(text(10), "10");
    assert_eq!(text(1905), "1905");
    assert_eq!(text(usize::MAX), usize::MAX.to_string());
}
