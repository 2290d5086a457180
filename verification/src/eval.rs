//! The evaluator: it walks a resolved tree against a chain of frames.
//!
//! Every function here computes what the function of the same name in
//! `semantics` defines. The answers of the host are not known before the
//! run, so a contract speaks of every oracle that agrees with a record of
//! calls which starts with the calls the store has recorded by the end:
//! under each of them the meaning of the node is the result returned and
//! the store left behind.

use crate::ast::{Block, Declaration, EntryList, Expr, ExprList, Program, Stmt, StmtList};
use crate::semantics;
use crate::semantics::{agrees, call_slots, continues, trace_grows, Oracle, Outcome};
use crate::store::{CallRecord, Host, Store};
use crate::text::copy_text;
use crate::value::{RunError, Value};
use vstd::prelude::*;

verus! {

/// The slots of the frame of a call.
fn make_slots(args: &Vec<Value>, num_params: usize, size: usize) -> (slots: Vec<Value>)
    ensures
        slots@ == call_slots(args@, num_params as nat, size as nat),
{
    let mut slots: Vec<Value> = Vec::new();
    let mut i: usize = 0;
    while i < size
        invariant
            i <= size,
            slots@ == call_slots(args@, num_params as nat, i as nat),
        decreases size - i,
    {
        let v = if i < num_params && i < args.len() {
            args[i]
        } else {
            Value::Null
        };
        slots.push(v);
        i += 1;
        assert(slots@ =~= call_slots(args@, num_params as nat, i as nat));
    }
    slots
}

/// The number of slots that the declaration of a block takes.
fn decl_size(b: &Block) -> (n: usize)
    ensures
        n == b.decl_slots(),
{
    match b.decl {
        Declaration::NoVar => 0,
        _ => 1,
    }
}

/// Evaluates an expression in the frame `env`.
pub fn eval_expr<H: Host>(
    prog: &Program,
    host: &mut H,
    store: &mut Store,
    env: usize,
    e: &Expr,
    fuel: usize,
) -> (r: Result<Value, RunError>)
    ensures
        trace_grows(old(store)@, final(store)@),
        forall|o: Oracle, t: Seq<CallRecord>|
            #[trigger] agrees(o, t) && continues(t, final(store)@) ==> semantics::eval_expr(
                prog@,
                o,
                old(store)@,
                env,
                *e,
                fuel as nat,
            ) == (final(store)@, r),
    decreases fuel, 1nat, *e,
{
    match e {
        Expr::NumberLiteral(k) => {
            if *k < prog.numbers.len() {
                Ok(Value::Number(prog.numbers[*k]))
            } else {
                Err(RunError::BadConstant)
            }
        },
        Expr::StringLiteral(k) => {
            if *k < prog.strings.len() {
                let text = copy_text(&prog.strings[*k]);
                Ok(store.new_string(text))
            } else {
                Err(RunError::BadConstant)
            }
        },
        Expr::VariableRef(depth, slot) => match store.lookup(env, *depth, *slot) {
            Some(v) => Ok(v),
            None => Err(RunError::BadAddress),
        },
        Expr::VecLiteral(items) => match eval_list(prog, host, store, env, items, fuel, Vec::new()) {
            Ok(vals) => Ok(store.new_vector(vals)),
            Err(err) => Err(err),
        },
        Expr::MapLiteral(entries) => {
            let map = store.new_map(Vec::new());
            match eval_entries(prog, host, store, env, map, entries, fuel) {
                Ok(()) => Ok(map),
                Err(err) => Err(err),
            }
        },
        Expr::ElementAccess(container, index) => match eval_expr(
            prog,
            host,
            store,
            env,
            container,
            fuel,
        ) {
            Ok(c) => match eval_expr(prog, host, store, env, index, fuel) {
                Ok(i) => store.get_element(c, i),
                Err(err) => Err(err),
            },
            Err(err) => Err(err),
        },
        Expr::VarAssign(depth, slot, value) => match eval_expr(prog, host, store, env, value, fuel) {
            Ok(v) => {
                if store.assign(env, *depth, *slot, v) {
                    Ok(v)
                } else {
                    Err(RunError::BadAddress)
                }
            },
            Err(err) => Err(err),
        },
        Expr::ElemAssign(container, index, value) => match eval_expr(
            prog,
            host,
            store,
            env,
            container,
            fuel,
        ) {
            Ok(c) => match eval_expr(prog, host, store, env, index, fuel) {
                Ok(i) => match eval_expr(prog, host, store, env, value, fuel) {
                    Ok(v) => match store.set_element(c, i, v) {
                        Ok(()) => Ok(v),
                        Err(err) => Err(err),
                    },
                    Err(err) => Err(err),
                },
                Err(err) => Err(err),
            },
            Err(err) => Err(err),
        },
        Expr::BinaryOp(depth, slot, left, right) => match eval_expr(
            prog,
            host,
            store,
            env,
            left,
            fuel,
        ) {
            Ok(a) => match eval_expr(prog, host, store, env, right, fuel) {
                Ok(b) => match store.lookup(env, *depth, *slot) {
                    Some(f) => {
                        let mut args: Vec<Value> = Vec::new();
                        args.push(a);
                        args.push(b);
                        assert(args@ =~= seq![a, b]);
                        call_value(prog, host, store, env, f, args, fuel)
                    },
                    None => Err(RunError::BadAddress),
                },
                Err(err) => Err(err),
            },
            Err(err) => Err(err),
        },
        Expr::PrefixOp(depth, slot, operand) => match eval_expr(
            prog,
            host,
            store,
            env,
            operand,
            fuel,
        ) {
            Ok(a) => match store.lookup(env, *depth, *slot) {
                Some(f) => {
                    let mut args: Vec<Value> = Vec::new();
                    args.push(a);
                    assert(args@ =~= seq![a]);
                    call_value(prog, host, store, env, f, args, fuel)
                },
                None => Err(RunError::BadAddress),
            },
            Err(err) => Err(err),
        },
        Expr::FuncCall(callee, args) => match eval_expr(prog, host, store, env, callee, fuel) {
            Ok(f) => match eval_list(prog, host, store, env, args, fuel, Vec::new()) {
                Ok(vals) => call_value(prog, host, store, env, f, vals, fuel),
                Err(err) => Err(err),
            },
            Err(err) => Err(err),
        },
        Expr::FuncDefLiteral(k) => {
            if *k < prog.funcs.len() {
                Ok(Value::Closure(*k, env))
            } else {
                Err(RunError::BadConstant)
            }
        },
    }
}

/// Evaluates the expressions of a list from the first on and appends their
/// values to `acc`.
pub fn eval_list<H: Host>(
    prog: &Program,
    host: &mut H,
    store: &mut Store,
    env: usize,
    l: &ExprList,
    fuel: usize,
    acc: Vec<Value>,
) -> (r: Result<Vec<Value>, RunError>)
    ensures
        trace_grows(old(store)@, final(store)@),
        forall|o: Oracle, t: Seq<CallRecord>|
            #[trigger] agrees(o, t) && continues(t, final(store)@) ==> (semantics::eval_list(
                prog@,
                o,
                old(store)@,
                env,
                *l,
                fuel as nat,
                acc@,
            )) == (
                final(store)@,
                match r {
                    Ok(vals) => Ok::<Seq<Value>, RunError>(vals@),
                    Err(err) => Err::<Seq<Value>, RunError>(err),
                },
            ),
    decreases fuel, 1nat, *l,
{
    match l {
        ExprList::Nil => Ok(acc),
        ExprList::Cons(first, rest) => match eval_expr(prog, host, store, env, first, fuel) {
            Ok(v) => {
                let mut acc = acc;
                acc.push(v);
                eval_list(prog, host, store, env, rest, fuel, acc)
            },
            Err(err) => Err(err),
        },
    }
}

/// Evaluates the entries of a map literal from the first on and assigns
/// each to its key in `map`.
pub fn eval_entries<H: Host>(
    prog: &Program,
    host: &mut H,
    store: &mut Store,
    env: usize,
    map: Value,
    l: &EntryList,
    fuel: usize,
) -> (r: Result<(), RunError>)
    ensures
        trace_grows(old(store)@, final(store)@),
        forall|o: Oracle, t: Seq<CallRecord>|
            #[trigger] agrees(o, t) && continues(t, final(store)@) ==> semantics::eval_entries(
                prog@,
                o,
                old(store)@,
                env,
                map,
                *l,
                fuel as nat,
            ) == (final(store)@, r),
    decreases fuel, 1nat, *l,
{
    match l {
        EntryList::Nil => Ok(()),
        EntryList::Cons(k, value, rest) => {
            if *k >= prog.strings.len() {
                Err(RunError::BadConstant)
            } else {
                let text = copy_text(&prog.strings[*k]);
                let key = store.new_string(text);
                match eval_expr(prog, host, store, env, value, fuel) {
                    Ok(v) => match store.set_element(map, key, v) {
                        Ok(()) => eval_entries(prog, host, store, env, map, rest, fuel),
                        Err(err) => Err(err),
                    },
                    Err(err) => Err(err),
                }
            }
        },
    }
}

/// Calls the value `f` on `args`, for a call made in the frame `caller`.
pub fn call_value<H: Host>(
    prog: &Program,
    host: &mut H,
    store: &mut Store,
    caller: usize,
    f: Value,
    args: Vec<Value>,
    fuel: usize,
) -> (r: Result<Value, RunError>)
    ensures
        trace_grows(old(store)@, final(store)@),
        forall|o: Oracle, t: Seq<CallRecord>|
            #[trigger] agrees(o, t) && continues(t, final(store)@) ==> semantics::call_value(
                prog@,
                o,
                old(store)@,
                caller,
                f,
                args@,
                fuel as nat,
            ) == (final(store)@, r),
    decreases fuel, 0nat, f,
{
    if fuel == 0 {
        return Err(RunError::OutOfFuel);
    }
    match f {
        Value::Closure(k, captured) => {
            if k >= prog.funcs.len() {
                return Err(RunError::BadHandle);
            }
            let def = &prog.funcs[k];
            let extra = decl_size(&def.body);
            if def.num_params > usize::MAX - extra {
                return Err(RunError::BadAddress);
            }
            let slots = make_slots(&args, def.num_params, def.num_params + extra);
            let frame = store.new_frame(slots, Some(captured));
            match run_block(prog, host, store, frame, &def.body, def.num_params, fuel - 1) {
                Ok(Outcome::Returned(v)) => Ok(v),
                Ok(_) => Ok(Value::Null),
                Err(err) => Err(err),
            }
        },
        Value::Native(native) => {
            let reply = store.call_host(host, native, &args, caller);
            assert(store@.trace.last().reply == reply);
            reply
        },
        _ => Err(RunError::NotCallable),
    }
}

/// Runs a block in its own frame `frame`: the declaration, whose variable
/// has the slot `slot`, then the statements.
pub fn run_block<H: Host>(
    prog: &Program,
    host: &mut H,
    store: &mut Store,
    frame: usize,
    b: &Block,
    slot: usize,
    fuel: usize,
) -> (r: Result<Outcome, RunError>)
    ensures
        trace_grows(old(store)@, final(store)@),
        forall|o: Oracle, t: Seq<CallRecord>|
            #[trigger] agrees(o, t) && continues(t, final(store)@) ==> semantics::run_block(
                prog@,
                o,
                old(store)@,
                frame,
                *b,
                slot as nat,
                fuel as nat,
            ) == (final(store)@, r),
    decreases fuel, 2nat, *b,
{
    match &b.decl {
        Declaration::VarInit(init) => match eval_expr(prog, host, store, frame, init, fuel) {
            Ok(v) => {
                if store.assign(frame, 0, slot, v) {
                    exec_list(prog, host, store, frame, &b.stmts, fuel)
                } else {
                    Err(RunError::BadAddress)
                }
            },
            Err(err) => Err(err),
        },
        _ => exec_list(prog, host, store, frame, &b.stmts, fuel),
    }
}

/// Runs the statements of a list from the first on, up to the first that
/// does not complete.
pub fn exec_list<H: Host>(
    prog: &Program,
    host: &mut H,
    store: &mut Store,
    env: usize,
    l: &StmtList,
    fuel: usize,
) -> (r: Result<Outcome, RunError>)
    ensures
        trace_grows(old(store)@, final(store)@),
        forall|o: Oracle, t: Seq<CallRecord>|
            #[trigger] agrees(o, t) && continues(t, final(store)@) ==> semantics::exec_list(
                prog@,
                o,
                old(store)@,
                env,
                *l,
                fuel as nat,
            ) == (final(store)@, r),
    decreases fuel, 2nat, *l,
{
    match l {
        StmtList::Nil => Ok(Outcome::Completed),
        StmtList::Cons(first, rest) => match exec_stmt(prog, host, store, env, first, fuel) {
            Ok(Outcome::Completed) => exec_list(prog, host, store, env, rest, fuel),
            other => other,
        },
    }
}

/// Runs a statement in the frame `env`.
pub fn exec_stmt<H: Host>(
    prog: &Program,
    host: &mut H,
    store: &mut Store,
    env: usize,
    s: &Stmt,
    fuel: usize,
) -> (r: Result<Outcome, RunError>)
    ensures
        trace_grows(old(store)@, final(store)@),
        forall|o: Oracle, t: Seq<CallRecord>|
            #[trigger] agrees(o, t) && continues(t, final(store)@) ==> semantics::exec_stmt(
                prog@,
                o,
                old(store)@,
                env,
                *s,
                fuel as nat,
            ) == (final(store)@, r),
    decreases fuel, 2nat, *s,
{
    match s {
        Stmt::Empty => Ok(Outcome::Completed),
        Stmt::Expression(e) => match eval_expr(prog, host, store, env, e, fuel) {
            Ok(_) => Ok(Outcome::Completed),
            Err(err) => Err(err),
        },
        Stmt::Block(b) => {
            let slots = make_slots(&Vec::new(), 0, decl_size(b));
            let frame = store.new_frame(slots, Some(env));
            run_block(prog, host, store, frame, b, 0, fuel)
        },
        Stmt::If(test, then_stmt, else_stmt) => match eval_expr(prog, host, store, env, test, fuel) {
            Ok(t) => {
                if t.is_truthy() {
                    exec_stmt(prog, host, store, env, then_stmt, fuel)
                } else {
                    match else_stmt {
                        Some(other) => exec_stmt(prog, host, store, env, other, fuel),
                        None => Ok(Outcome::Completed),
                    }
                }
            },
            Err(err) => Err(err),
        },
        Stmt::While(test, body) => {
            let ghost start = store@;
            let mut left = fuel;
            loop
                invariant
                    left <= fuel,
                    start == old(store)@,
                    *s == Stmt::While(*test, *body),
                    trace_grows(start, store@),
                    forall|o: Oracle, t: Seq<CallRecord>|
                        #[trigger] agrees(o, t) && continues(t, store@) ==> semantics::exec_stmt(
                            prog@,
                            o,
                            start,
                            env,
                            *s,
                            fuel as nat,
                        ) == semantics::exec_stmt(prog@, o, store@, env, *s, left as nat),
                decreases left,
            {
                match eval_expr(prog, host, store, env, test, left) {
                    Ok(t) => {
                        if !t.is_truthy() {
                            return Ok(Outcome::Completed);
                        }
                        match exec_stmt(prog, host, store, env, body, left) {
                            Ok(Outcome::Completed) => {
                                if left == 0 {
                                    return Err(RunError::OutOfFuel);
                                }
                                left -= 1;
                            },
                            Ok(Outcome::Broke) => {
                                return Ok(Outcome::Completed);
                            },
                            other => {
                                return other;
                            },
                        }
                    },
                    Err(err) => {
                        return Err(err);
                    },
                }
            }
        },
        Stmt::Break => Ok(Outcome::Broke),
        Stmt::Return(None) => Ok(Outcome::Returned(Value::Null)),
        Stmt::Return(Some(e)) => match eval_expr(prog, host, store, env, e, fuel) {
            Ok(v) => Ok(Outcome::Returned(v)),
            Err(err) => Err(err),
        },
    }
}

} // verus!
