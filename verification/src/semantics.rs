//! What a program means: the result of evaluating each kind of node, as a
//! function of the store before, and the store after.
//!
//! The meaning is defined for every tree, store and allowance of fuel, so
//! that evaluation never gets stuck: an address that leads nowhere, a handle
//! that names nothing and an exhausted allowance are errors like the
//! others. Fuel bounds the nesting of calls and the rounds of loops: a call
//! hands its callee one unit less than it has, and a loop that goes round
//! again does so with one unit less.
//!
//! What a native callable answers is decided outside. The meaning takes the
//! answers from an oracle: the call that follows `n` recorded calls gets the
//! answer `o(n)`, and is recorded with what was handed to the host.

use crate::ast::{Block, Declaration, EntryList, Expr, ExprList, ProgramModel, Stmt, StmtList};
use crate::store::{CallRecord, StoreModel};
use crate::value::{RunError, Value};
use vstd::prelude::*;

verus! {

/// The answers of the host, by the number of calls made before.
pub type Oracle = spec_fn(nat) -> Result<Value, RunError>;

/// How a statement ended.
#[derive(Clone, Copy, Debug, PartialEq, Eq, Structural)]
pub enum Outcome {
    /// It ran to its end.
    Completed,
    /// A `break` is on its way to the nearest enclosing loop.
    Broke,
    /// A `return` is on its way to the call, with its value.
    Returned(Value),
}

/// Whether the record of calls of `after` continues that of `before`.
pub open spec fn trace_grows(before: StoreModel, after: StoreModel) -> bool {
    &&& before.trace.len() <= after.trace.len()
    &&& forall|i: int|
        0 <= i < before.trace.len() ==> #[trigger] before.trace[i] == after.trace[i]
}

/// Whether the record `t` starts with the calls that `st` has recorded.
pub open spec fn continues(t: Seq<CallRecord>, st: StoreModel) -> bool {
    &&& st.trace.len() <= t.len()
    &&& forall|i: int| 0 <= i < st.trace.len() ==> #[trigger] st.trace[i] == t[i]
}

/// Whether the oracle gives the answers that `trace` records.
pub open spec fn agrees(o: Oracle, trace: Seq<CallRecord>) -> bool {
    forall|i: int| 0 <= i < trace.len() ==> o(i as nat) == (#[trigger] trace[i]).reply
}

/// The slots of the frame of a call: the arguments in the parameter slots,
/// as far as there are both, and `Null` in the others.
pub open spec fn call_slots(args: Seq<Value>, num_params: nat, size: nat) -> Seq<Value> {
    Seq::new(
        size,
        |i: int|
            if i < num_params && i < args.len() {
                args[i]
            } else {
                Value::Null
            },
    )
}

pub open spec fn eval_expr(
    p: ProgramModel,
    o: Oracle,
    st: StoreModel,
    env: usize,
    e: Expr,
    fuel: nat,
) -> (StoreModel, Result<Value, RunError>)
    decreases fuel, 1nat, e,
{
    match e {
        Expr::NumberLiteral(k) => if k < p.numbers.len() {
            (st, Ok(Value::Number(p.numbers[k as int])))
        } else {
            (st, Err(RunError::BadConstant))
        },
        Expr::StringLiteral(k) => if k < p.strings.len() {
            (st.push_string(p.strings[k as int]), Ok(Value::Str(st.strings.len() as usize)))
        } else {
            (st, Err(RunError::BadConstant))
        },
        Expr::VariableRef(depth, slot) => match st.read_var(env, depth as nat, slot as nat) {
            Some(v) => (st, Ok(v)),
            None => (st, Err(RunError::BadAddress)),
        },
        Expr::VecLiteral(items) => match eval_list(p, o, st, env, items, fuel, Seq::empty()) {
            (st1, Ok(vals)) => (st1.push_vector(vals), Ok(Value::Vector(st1.vectors.len() as usize))),
            (st1, Err(err)) => (st1, Err(err)),
        },
        Expr::MapLiteral(entries) => {
            let map = Value::Mapping(st.maps.len() as usize);
            match eval_entries(p, o, st.push_map(Seq::empty()), env, map, entries, fuel) {
                (st1, Ok(())) => (st1, Ok(map)),
                (st1, Err(err)) => (st1, Err(err)),
            }
        },
        Expr::ElementAccess(container, index) => match eval_expr(p, o, st, env, *container, fuel) {
            (st1, Ok(c)) => match eval_expr(p, o, st1, env, *index, fuel) {
                (st2, Ok(i)) => (st2, st2.get_element(c, i)),
                (st2, Err(err)) => (st2, Err(err)),
            },
            (st1, Err(err)) => (st1, Err(err)),
        },
        Expr::VarAssign(depth, slot, value) => match eval_expr(p, o, st, env, *value, fuel) {
            (st1, Ok(v)) => match st1.write_var(env, depth as nat, slot as nat, v) {
                Some(st2) => (st2, Ok(v)),
                None => (st1, Err(RunError::BadAddress)),
            },
            (st1, Err(err)) => (st1, Err(err)),
        },
        Expr::ElemAssign(container, index, value) => match eval_expr(
            p,
            o,
            st,
            env,
            *container,
            fuel,
        ) {
            (st1, Ok(c)) => match eval_expr(p, o, st1, env, *index, fuel) {
                (st2, Ok(i)) => match eval_expr(p, o, st2, env, *value, fuel) {
                    (st3, Ok(v)) => match st3.set_element(c, i, v) {
                        Ok(st4) => (st4, Ok(v)),
                        Err(err) => (st3, Err(err)),
                    },
                    (st3, Err(err)) => (st3, Err(err)),
                },
                (st2, Err(err)) => (st2, Err(err)),
            },
            (st1, Err(err)) => (st1, Err(err)),
        },
        Expr::BinaryOp(depth, slot, left, right) => match eval_expr(p, o, st, env, *left, fuel) {
            (st1, Ok(a)) => match eval_expr(p, o, st1, env, *right, fuel) {
                (st2, Ok(b)) => match st2.read_var(env, depth as nat, slot as nat) {
                    Some(f) => call_value(p, o, st2, env, f, seq![a, b], fuel),
                    None => (st2, Err(RunError::BadAddress)),
                },
                (st2, Err(err)) => (st2, Err(err)),
            },
            (st1, Err(err)) => (st1, Err(err)),
        },
        Expr::PrefixOp(depth, slot, operand) => match eval_expr(p, o, st, env, *operand, fuel) {
            (st1, Ok(a)) => match st1.read_var(env, depth as nat, slot as nat) {
                Some(f) => call_value(p, o, st1, env, f, seq![a], fuel),
                None => (st1, Err(RunError::BadAddress)),
            },
            (st1, Err(err)) => (st1, Err(err)),
        },
        Expr::FuncCall(callee, args) => match eval_expr(p, o, st, env, *callee, fuel) {
            (st1, Ok(f)) => match eval_list(p, o, st1, env, args, fuel, Seq::empty()) {
                (st2, Ok(vals)) => call_value(p, o, st2, env, f, vals, fuel),
                (st2, Err(err)) => (st2, Err(err)),
            },
            (st1, Err(err)) => (st1, Err(err)),
        },
        Expr::FuncDefLiteral(k) => if k < p.funcs.len() {
            (st, Ok(Value::Closure(k, env)))
        } else {
            (st, Err(RunError::BadConstant))
        },
    }
}

/// The values of the expressions of a list, evaluated from the first on
/// and appended to `acc`.
pub open spec fn eval_list(
    p: ProgramModel,
    o: Oracle,
    st: StoreModel,
    env: usize,
    l: ExprList,
    fuel: nat,
    acc: Seq<Value>,
) -> (StoreModel, Result<Seq<Value>, RunError>)
    decreases fuel, 1nat, l,
{
    match l {
        ExprList::Nil => (st, Ok(acc)),
        ExprList::Cons(first, rest) => match eval_expr(p, o, st, env, *first, fuel) {
            (st1, Ok(v)) => eval_list(p, o, st1, env, *rest, fuel, acc.push(v)),
            (st1, Err(err)) => (st1, Err(err)),
        },
    }
}

/// Evaluates the entries of a map literal from the first on and assigns
/// each to its key in `map`: of two entries with one key the later stays.
pub open spec fn eval_entries(
    p: ProgramModel,
    o: Oracle,
    st: StoreModel,
    env: usize,
    map: Value,
    l: EntryList,
    fuel: nat,
) -> (StoreModel, Result<(), RunError>)
    decreases fuel, 1nat, l,
{
    match l {
        EntryList::Nil => (st, Ok(())),
        EntryList::Cons(k, value, rest) => if k >= p.strings.len() {
            (st, Err(RunError::BadConstant))
        } else {
            let key = Value::Str(st.strings.len() as usize);
            match eval_expr(p, o, st.push_string(p.strings[k as int]), env, *value, fuel) {
                (st1, Ok(v)) => match st1.set_element(map, key, v) {
                    Ok(st2) => eval_entries(p, o, st2, env, map, *rest, fuel),
                    Err(err) => (st1, Err(err)),
                },
                (st1, Err(err)) => (st1, Err(err)),
            }
        },
    }
}

/// The call of the value `f` on `args`, made in the frame `caller`.
///
/// A closure runs its body in a new frame whose parent is the frame the
/// closure captured, not the frame of the caller. A missing argument leaves
/// its parameter `Null`, an argument too many is dropped. The value of the
/// call is the value of the `return` that ended the body, and `Null` where
/// the body ended otherwise. A native callable is handed to the host.
pub open spec fn call_value(
    p: ProgramModel,
    o: Oracle,
    st: StoreModel,
    caller: usize,
    f: Value,
    args: Seq<Value>,
    fuel: nat,
) -> (StoreModel, Result<Value, RunError>)
    decreases fuel, 0nat, f,
{
    if fuel == 0 {
        (st, Err(RunError::OutOfFuel))
    } else {
        match f {
            Value::Closure(k, captured) => if k >= p.funcs.len() {
                (st, Err(RunError::BadHandle))
            } else {
                let def = p.funcs[k as int];
                let size = def.num_params + def.body.decl_slots();
                let frame = st.frames.len() as usize;
                if size > usize::MAX {
                    (st, Err(RunError::BadAddress))
                } else {
                let st1 = st.push_frame(
                    call_slots(args, def.num_params as nat, size as nat),
                    Some(captured),
                );
                match run_block(p, o, st1, frame, def.body, def.num_params as nat, (fuel - 1) as nat) {
                    (st2, Ok(Outcome::Returned(v))) => (st2, Ok(v)),
                    (st2, Ok(_)) => (st2, Ok(Value::Null)),
                    (st2, Err(err)) => (st2, Err(err)),
                }
                }
            },
            Value::Native(native) => {
                let reply = o(st.trace.len());
                (st.record_call(CallRecord { native, args, caller, reply }), reply)
            },
            _ => (st, Err(RunError::NotCallable)),
        }
    }
}

/// Runs a block in the frame `frame`, which is the block's own: the
/// declaration, whose variable has the slot `slot`, then the statements.
pub open spec fn run_block(
    p: ProgramModel,
    o: Oracle,
    st: StoreModel,
    frame: usize,
    b: Block,
    slot: nat,
    fuel: nat,
) -> (StoreModel, Result<Outcome, RunError>)
    decreases fuel, 2nat, b,
{
    match b.decl {
        Declaration::VarInit(init) => match eval_expr(p, o, st, frame, init, fuel) {
            (st1, Ok(v)) => match st1.write_var(frame, 0, slot, v) {
                Some(st2) => exec_list(p, o, st2, frame, b.stmts, fuel),
                None => (st1, Err(RunError::BadAddress)),
            },
            (st1, Err(err)) => (st1, Err(err)),
        },
        _ => exec_list(p, o, st, frame, b.stmts, fuel),
    }
}

/// Runs the statements of a list from the first on, up to the first that
/// does not complete.
pub open spec fn exec_list(
    p: ProgramModel,
    o: Oracle,
    st: StoreModel,
    env: usize,
    l: StmtList,
    fuel: nat,
) -> (StoreModel, Result<Outcome, RunError>)
    decreases fuel, 2nat, l,
{
    match l {
        StmtList::Nil => (st, Ok(Outcome::Completed)),
        StmtList::Cons(first, rest) => match exec_stmt(p, o, st, env, *first, fuel) {
            (st1, Ok(Outcome::Completed)) => exec_list(p, o, st1, env, *rest, fuel),
            (st1, r) => (st1, r),
        },
    }
}

pub open spec fn exec_stmt(
    p: ProgramModel,
    o: Oracle,
    st: StoreModel,
    env: usize,
    s: Stmt,
    fuel: nat,
) -> (StoreModel, Result<Outcome, RunError>)
    decreases fuel, 2nat, s,
{
    match s {
        Stmt::Empty => (st, Ok(Outcome::Completed)),
        Stmt::Expression(e) => match eval_expr(p, o, st, env, e, fuel) {
            (st1, Ok(_)) => (st1, Ok(Outcome::Completed)),
            (st1, Err(err)) => (st1, Err(err)),
        },
        Stmt::Block(b) => {
            let frame = st.frames.len() as usize;
            let st1 = st.push_frame(call_slots(Seq::empty(), 0, b.decl_slots()), Some(env));
            run_block(p, o, st1, frame, b, 0, fuel)
        },
        Stmt::If(test, then_stmt, else_stmt) => match eval_expr(p, o, st, env, test, fuel) {
            (st1, Ok(t)) => if t.truthy() {
                exec_stmt(p, o, st1, env, *then_stmt, fuel)
            } else {
                match else_stmt {
                    Some(other) => exec_stmt(p, o, st1, env, *other, fuel),
                    None => (st1, Ok(Outcome::Completed)),
                }
            },
            (st1, Err(err)) => (st1, Err(err)),
        },
        Stmt::While(test, body) => match eval_expr(p, o, st, env, test, fuel) {
            (st1, Ok(t)) => if !t.truthy() {
                (st1, Ok(Outcome::Completed))
            } else {
                match exec_stmt(p, o, st1, env, *body, fuel) {
                    (st2, Ok(Outcome::Completed)) => if fuel == 0 {
                        (st2, Err(RunError::OutOfFuel))
                    } else {
                        exec_stmt(p, o, st2, env, s, (fuel - 1) as nat)
                    },
                    (st2, Ok(Outcome::Broke)) => (st2, Ok(Outcome::Completed)),
                    (st2, r) => (st2, r),
                }
            },
            (st1, Err(err)) => (st1, Err(err)),
        },
        Stmt::Break => (st, Ok(Outcome::Broke)),
        Stmt::Return(None) => (st, Ok(Outcome::Returned(Value::Null))),
        Stmt::Return(Some(e)) => match eval_expr(p, o, st, env, e, fuel) {
            (st1, Ok(v)) => (st1, Ok(Outcome::Returned(v))),
            (st1, Err(err)) => (st1, Err(err)),
        },
    }
}

} // verus!
