//! Laws of the meaning of programs: how `break` and `return` travel, that
//! an operator is a call of whatever its name is bound to, and that nothing
//! a run has made is ever taken away.

use crate::ast::{Block, Declaration, EntryList, Expr, ExprList, ProgramModel, Stmt, StmtList};
use crate::semantics::{
    call_slots, call_value, eval_entries, eval_expr, eval_list, exec_list, exec_stmt, run_block,
    Oracle, Outcome,
};
use crate::store::{lemma_chain_ends_in_store, StoreModel};
use crate::value::{RunError, Value};
use vstd::prelude::*;

verus! {

/// A loop never hands a `break` on: whatever its body does, the loop itself
/// does not end as broken, so a `break` ends the innermost loop around it
/// and no other.
pub proof fn lemma_loop_absorbs_break(
    p: ProgramModel,
    o: Oracle,
    st: StoreModel,
    env: usize,
    test: Expr,
    body: Stmt,
    fuel: nat,
)
    ensures
        exec_stmt(p, o, st, env, Stmt::While(test, Box::new(body)), fuel).1 != Ok::<
            Outcome,
            RunError,
        >(Outcome::Broke),
    decreases fuel,
{
    match eval_expr(p, o, st, env, test, fuel) {
        (st1, Ok(t)) => {
            if t.truthy() {
                match exec_stmt(p, o, st1, env, body, fuel) {
                    (st2, Ok(Outcome::Completed)) => {
                        if fuel > 0 {
                            lemma_loop_absorbs_break(p, o, st2, env, test, body, (fuel - 1) as nat);
                        }
                    },
                    _ => {},
                }
            }
        },
        _ => {},
    }
}

/// A `break` ends the loop at once: where the test holds and the body ends
/// as broken, the loop is completed in the store the body left, and the
/// test is not evaluated again.
pub proof fn lemma_break_ends_loop(
    p: ProgramModel,
    o: Oracle,
    st: StoreModel,
    env: usize,
    test: Expr,
    body: Stmt,
    fuel: nat,
)
    requires
        eval_expr(p, o, st, env, test, fuel).1 matches Ok(t) && t.truthy(),
        exec_stmt(p, o, eval_expr(p, o, st, env, test, fuel).0, env, body, fuel).1 == Ok::<
            Outcome,
            RunError,
        >(Outcome::Broke),
    ensures
        exec_stmt(p, o, st, env, Stmt::While(test, Box::new(body)), fuel) == (
            exec_stmt(p, o, eval_expr(p, o, st, env, test, fuel).0, env, body, fuel).0,
            Ok::<Outcome, RunError>(Outcome::Completed),
        ),
{
}

/// A `return` leaves the loop: where the test holds and the body ends as
/// returned, so does the loop, with the same value and store.
pub proof fn lemma_return_leaves_loop(
    p: ProgramModel,
    o: Oracle,
    st: StoreModel,
    env: usize,
    test: Expr,
    body: Stmt,
    fuel: nat,
)
    requires
        eval_expr(p, o, st, env, test, fuel).1 matches Ok(t) && t.truthy(),
        exec_stmt(p, o, eval_expr(p, o, st, env, test, fuel).0, env, body, fuel).1 matches Ok(
            Outcome::Returned(_),
        ),
    ensures
        exec_stmt(p, o, st, env, Stmt::While(test, Box::new(body)), fuel) == exec_stmt(
            p,
            o,
            eval_expr(p, o, st, env, test, fuel).0,
            env,
            body,
            fuel,
        ),
{
}

/// A statement that does not complete ends the list it stands in: the
/// statements after it are skipped, and the list ends as the statement did.
pub proof fn lemma_exit_skips_the_rest(
    p: ProgramModel,
    o: Oracle,
    st: StoreModel,
    env: usize,
    first: Stmt,
    rest: StmtList,
    fuel: nat,
)
    requires
        exec_stmt(p, o, st, env, first, fuel).1 != Ok::<Outcome, RunError>(Outcome::Completed),
    ensures
        exec_list(p, o, st, env, StmtList::Cons(Box::new(first), Box::new(rest)), fuel)
            == exec_stmt(p, o, st, env, first, fuel),
{
}

/// A block ends as its statements do: what a `break` or a `return` started
/// inside a block goes on outside it.
pub proof fn lemma_block_hands_on(
    p: ProgramModel,
    o: Oracle,
    st: StoreModel,
    frame: usize,
    b: Block,
    slot: nat,
    fuel: nat,
)
    requires
        !(b.decl is VarInit),
    ensures
        run_block(p, o, st, frame, b, slot, fuel) == exec_list(p, o, st, frame, b.stmts, fuel),
        exec_stmt(p, o, st, frame, Stmt::Block(b), fuel) == exec_list(
            p,
            o,
            st.push_frame(call_slots(Seq::empty(), 0, b.decl_slots()), Some(frame)),
            st.frames.len() as usize,
            b.stmts,
            fuel,
        ),
{
    let st1 = st.push_frame(call_slots(Seq::empty(), 0, b.decl_slots()), Some(frame));
    let inner = st.frames.len() as usize;
    assert(run_block(p, o, st1, inner, b, 0, fuel) == exec_list(p, o, st1, inner, b.stmts, fuel));
}

/// A conditional ends as the branch it takes does.
pub proof fn lemma_branch_hands_on(
    p: ProgramModel,
    o: Oracle,
    st: StoreModel,
    env: usize,
    test: Expr,
    then_stmt: Stmt,
    else_stmt: Option<Box<Stmt>>,
    fuel: nat,
)
    requires
        eval_expr(p, o, st, env, test, fuel).1 is Ok,
    ensures
        ({
            let (st1, t) = eval_expr(p, o, st, env, test, fuel);
            exec_stmt(p, o, st, env, Stmt::If(test, Box::new(then_stmt), else_stmt), fuel) == (
                if t.unwrap().truthy() {
                    exec_stmt(p, o, st1, env, then_stmt, fuel)
                } else {
                    match else_stmt {
                        Some(other) => exec_stmt(p, o, st1, env, *other, fuel),
                        None => (st1, Ok::<Outcome, RunError>(Outcome::Completed)),
                    }
                }
            )
        }),
{
}

/// The call is where a `return` arrives: the value of a call of a closure
/// is the value its body returned, and `Null` where the body ended without
/// a `return`.
pub proof fn lemma_call_takes_the_return(
    p: ProgramModel,
    o: Oracle,
    st: StoreModel,
    caller: usize,
    k: usize,
    captured: usize,
    args: Seq<Value>,
    fuel: nat,
)
    requires
        fuel > 0,
        k < p.funcs.len(),
        p.funcs[k as int].num_params + p.funcs[k as int].body.decl_slots() <= usize::MAX,
    ensures
        ({
            let def = p.funcs[k as int];
            let size = def.num_params + def.body.decl_slots();
            let body = run_block(
                p,
                o,
                st.push_frame(call_slots(args, def.num_params as nat, size as nat), Some(captured)),
                st.frames.len() as usize,
                def.body,
                def.num_params as nat,
                (fuel - 1) as nat,
            );
            call_value(p, o, st, caller, Value::Closure(k, captured), args, fuel) == (
                body.0,
                match body.1 {
                    Ok(Outcome::Returned(v)) => Ok::<Value, RunError>(v),
                    Ok(_) => Ok::<Value, RunError>(Value::Null),
                    Err(err) => Err::<Value, RunError>(err),
                },
            )
        }),
{
}

/// A binary operator is a call: where both operands have values, the value
/// of the expression is that of a call of whatever the operator's address
/// holds, on the two values. So an operator means what the innermost
/// binding of its name says, and rebinding the name changes what the
/// expressions in its scope compute.
pub proof fn lemma_binary_operator_is_a_call(
    p: ProgramModel,
    o: Oracle,
    st: StoreModel,
    env: usize,
    depth: usize,
    slot: usize,
    left: Expr,
    right: Expr,
    fuel: nat,
)
    requires
        eval_expr(p, o, st, env, left, fuel).1 is Ok,
        eval_expr(p, o, eval_expr(p, o, st, env, left, fuel).0, env, right, fuel).1 is Ok,
    ensures
        ({
            let (st1, a) = eval_expr(p, o, st, env, left, fuel);
            let (st2, b) = eval_expr(p, o, st1, env, right, fuel);
            eval_expr(
                p,
                o,
                st,
                env,
                Expr::BinaryOp(depth, slot, Box::new(left), Box::new(right)),
                fuel,
            ) == (match st2.read_var(env, depth as nat, slot as nat) {
                Some(f) => call_value(p, o, st2, env, f, seq![a.unwrap(), b.unwrap()], fuel),
                None => (st2, Err::<Value, RunError>(RunError::BadAddress)),
            })
        }),
{
}

/// A prefix operator is a call of whatever its address holds, on the value
/// of the operand.
pub proof fn lemma_prefix_operator_is_a_call(
    p: ProgramModel,
    o: Oracle,
    st: StoreModel,
    env: usize,
    depth: usize,
    slot: usize,
    operand: Expr,
    fuel: nat,
)
    requires
        eval_expr(p, o, st, env, operand, fuel).1 is Ok,
    ensures
        ({
            let (st1, a) = eval_expr(p, o, st, env, operand, fuel);
            eval_expr(p, o, st, env, Expr::PrefixOp(depth, slot, Box::new(operand)), fuel) == (
                match st1.read_var(env, depth as nat, slot as nat) {
                    Some(f) => call_value(p, o, st1, env, f, seq![a.unwrap()], fuel),
                    None => (st1, Err::<Value, RunError>(RunError::BadAddress)),
                }
            )
        }),
{
}

/// Whether everything that `before` holds is still there in `after`: every
/// frame with its parent and its number of slots, every string with its
/// text, every vector and every map.
pub open spec fn persists(before: StoreModel, after: StoreModel) -> bool {
    &&& before.frames.len() <= after.frames.len()
    &&& forall|i: int|
        0 <= i < before.frames.len() ==> (#[trigger] before.frames[i]).parent
            == after.frames[i].parent && before.frames[i].slots.len()
            == after.frames[i].slots.len()
    &&& before.strings.len() <= after.strings.len()
    &&& forall|i: int|
        0 <= i < before.strings.len() ==> #[trigger] before.strings[i] == after.strings[i]
    &&& before.vectors.len() <= after.vectors.len()
    &&& before.maps.len() <= after.maps.len()
}

/// An assignment to a variable takes nothing away.
pub proof fn lemma_write_persists(st: StoreModel, env: usize, depth: nat, slot: nat, v: Value)
    ensures
        st.write_var(env, depth, slot, v) matches Some(after) ==> persists(st, after),
{
    lemma_chain_ends_in_store(st, env, depth);
}

/// An assignment to an element takes nothing away.
pub proof fn lemma_set_persists(st: StoreModel, c: Value, index: Value, v: Value)
    ensures
        st.set_element(c, index, v) matches Ok(after) ==> persists(st, after),
{
}

/// Evaluation takes nothing away: whatever an expression does, every frame
/// that was there before is there afterwards, with the same parent, so a
/// frame that a closure has captured outlives the call that made it.
pub proof fn lemma_eval_expr_persists(
    p: ProgramModel,
    o: Oracle,
    st: StoreModel,
    env: usize,
    e: Expr,
    fuel: nat,
)
    ensures
        persists(st, eval_expr(p, o, st, env, e, fuel).0),
    decreases fuel, 1nat, e,
{
    match e {
        Expr::VecLiteral(items) => {
            lemma_eval_list_persists(p, o, st, env, items, fuel, Seq::empty());
        },
        Expr::MapLiteral(entries) => {
            let map = Value::Mapping(st.maps.len() as usize);
            lemma_eval_entries_persists(p, o, st.push_map(Seq::empty()), env, map, entries, fuel);
        },
        Expr::ElementAccess(container, index) => {
            lemma_eval_expr_persists(p, o, st, env, *container, fuel);
            let (st1, r1) = eval_expr(p, o, st, env, *container, fuel);
            lemma_eval_expr_persists(p, o, st1, env, *index, fuel);
        },
        Expr::VarAssign(depth, slot, value) => {
            lemma_eval_expr_persists(p, o, st, env, *value, fuel);
            let (st1, r1) = eval_expr(p, o, st, env, *value, fuel);
            if r1 is Ok {
                lemma_write_persists(st1, env, depth as nat, slot as nat, r1.unwrap());
            }
        },
        Expr::ElemAssign(container, index, value) => {
            lemma_eval_expr_persists(p, o, st, env, *container, fuel);
            let (st1, r1) = eval_expr(p, o, st, env, *container, fuel);
            lemma_eval_expr_persists(p, o, st1, env, *index, fuel);
            let (st2, r2) = eval_expr(p, o, st1, env, *index, fuel);
            lemma_eval_expr_persists(p, o, st2, env, *value, fuel);
            let (st3, r3) = eval_expr(p, o, st2, env, *value, fuel);
            if r1 is Ok && r2 is Ok && r3 is Ok {
                lemma_set_persists(st3, r1.unwrap(), r2.unwrap(), r3.unwrap());
            }
        },
        Expr::BinaryOp(depth, slot, left, right) => {
            lemma_eval_expr_persists(p, o, st, env, *left, fuel);
            let (st1, r1) = eval_expr(p, o, st, env, *left, fuel);
            lemma_eval_expr_persists(p, o, st1, env, *right, fuel);
            let (st2, r2) = eval_expr(p, o, st1, env, *right, fuel);
            if r1 is Ok && r2 is Ok {
                match st2.read_var(env, depth as nat, slot as nat) {
                    Some(f) => lemma_call_value_persists(
                        p,
                        o,
                        st2,
                        env,
                        f,
                        seq![r1.unwrap(), r2.unwrap()],
                        fuel,
                    ),
                    None => {},
                }
            }
        },
        Expr::PrefixOp(depth, slot, operand) => {
            lemma_eval_expr_persists(p, o, st, env, *operand, fuel);
            let (st1, r1) = eval_expr(p, o, st, env, *operand, fuel);
            if r1 is Ok {
                match st1.read_var(env, depth as nat, slot as nat) {
                    Some(f) => lemma_call_value_persists(p, o, st1, env, f, seq![r1.unwrap()], fuel),
                    None => {},
                }
            }
        },
        Expr::FuncCall(callee, args) => {
            lemma_eval_expr_persists(p, o, st, env, *callee, fuel);
            let (st1, r1) = eval_expr(p, o, st, env, *callee, fuel);
            lemma_eval_list_persists(p, o, st1, env, args, fuel, Seq::empty());
            let (st2, r2) = eval_list(p, o, st1, env, args, fuel, Seq::empty());
            if r1 is Ok && r2 is Ok {
                lemma_call_value_persists(p, o, st2, env, r1.unwrap(), r2.unwrap(), fuel);
            }
        },
        _ => {},
    }
}

/// Evaluating a list of expressions takes nothing away.
pub proof fn lemma_eval_list_persists(
    p: ProgramModel,
    o: Oracle,
    st: StoreModel,
    env: usize,
    l: ExprList,
    fuel: nat,
    acc: Seq<Value>,
)
    ensures
        persists(st, eval_list(p, o, st, env, l, fuel, acc).0),
    decreases fuel, 1nat, l,
{
    match l {
        ExprList::Nil => {},
        ExprList::Cons(first, rest) => {
            lemma_eval_expr_persists(p, o, st, env, *first, fuel);
            let (st1, r1) = eval_expr(p, o, st, env, *first, fuel);
            if r1 is Ok {
                lemma_eval_list_persists(p, o, st1, env, *rest, fuel, acc.push(r1.unwrap()));
            }
        },
    }
}

/// Evaluating the entries of a map literal takes nothing away.
pub proof fn lemma_eval_entries_persists(
    p: ProgramModel,
    o: Oracle,
    st: StoreModel,
    env: usize,
    map: Value,
    l: EntryList,
    fuel: nat,
)
    ensures
        persists(st, eval_entries(p, o, st, env, map, l, fuel).0),
    decreases fuel, 1nat, l,
{
    match l {
        EntryList::Nil => {},
        EntryList::Cons(k, value, rest) => {
            if k < p.strings.len() {
                let key = Value::Str(st.strings.len() as usize);
                let st0 = st.push_string(p.strings[k as int]);
                assert(persists(st, st0));
                lemma_eval_expr_persists(p, o, st0, env, *value, fuel);
                let (st1, r1) = eval_expr(p, o, st0, env, *value, fuel);
                if r1 is Ok {
                    lemma_set_persists(st1, map, key, r1.unwrap());
                    match st1.set_element(map, key, r1.unwrap()) {
                        Ok(st2) => lemma_eval_entries_persists(p, o, st2, env, map, *rest, fuel),
                        Err(_) => {},
                    }
                }
            }
        },
    }
}

/// A call takes nothing away.
pub proof fn lemma_call_value_persists(
    p: ProgramModel,
    o: Oracle,
    st: StoreModel,
    caller: usize,
    f: Value,
    args: Seq<Value>,
    fuel: nat,
)
    ensures
        persists(st, call_value(p, o, st, caller, f, args, fuel).0),
    decreases fuel, 0nat, f,
{
    if fuel > 0 {
        match f {
            Value::Closure(k, captured) => {
                if k < p.funcs.len() {
                    let def = p.funcs[k as int];
                    let size = def.num_params + def.body.decl_slots();
                    if size <= usize::MAX {
                        let st1 = st.push_frame(
                            call_slots(args, def.num_params as nat, size as nat),
                            Some(captured),
                        );
                        assert(persists(st, st1));
                        lemma_run_block_persists(
                            p,
                            o,
                            st1,
                            st.frames.len() as usize,
                            def.body,
                            def.num_params as nat,
                            (fuel - 1) as nat,
                        );
                    }
                }
            },
            _ => {},
        }
    }
}

/// Running a block takes nothing away.
pub proof fn lemma_run_block_persists(
    p: ProgramModel,
    o: Oracle,
    st: StoreModel,
    frame: usize,
    b: Block,
    slot: nat,
    fuel: nat,
)
    ensures
        persists(st, run_block(p, o, st, frame, b, slot, fuel).0),
    decreases fuel, 2nat, b,
{
    match b.decl {
        Declaration::VarInit(init) => {
            lemma_eval_expr_persists(p, o, st, frame, init, fuel);
            let (st1, r1) = eval_expr(p, o, st, frame, init, fuel);
            if r1 is Ok {
                lemma_write_persists(st1, frame, 0, slot, r1.unwrap());
                match st1.write_var(frame, 0, slot, r1.unwrap()) {
                    Some(st2) => lemma_exec_list_persists(p, o, st2, frame, b.stmts, fuel),
                    None => {},
                }
            }
        },
        _ => {
            lemma_exec_list_persists(p, o, st, frame, b.stmts, fuel);
        },
    }
}

/// Running a list of statements takes nothing away.
pub proof fn lemma_exec_list_persists(
    p: ProgramModel,
    o: Oracle,
    st: StoreModel,
    env: usize,
    l: StmtList,
    fuel: nat,
)
    ensures
        persists(st, exec_list(p, o, st, env, l, fuel).0),
    decreases fuel, 2nat, l,
{
    match l {
        StmtList::Nil => {},
        StmtList::Cons(first, rest) => {
            lemma_exec_stmt_persists(p, o, st, env, *first, fuel);
            let (st1, r1) = exec_stmt(p, o, st, env, *first, fuel);
            if r1 == Ok::<Outcome, RunError>(Outcome::Completed) {
                lemma_exec_list_persists(p, o, st1, env, *rest, fuel);
            }
        },
    }
}

/// Running a statement takes nothing away.
pub proof fn lemma_exec_stmt_persists(
    p: ProgramModel,
    o: Oracle,
    st: StoreModel,
    env: usize,
    s: Stmt,
    fuel: nat,
)
    ensures
        persists(st, exec_stmt(p, o, st, env, s, fuel).0),
    decreases fuel, 2nat, s,
{
    match s {
        Stmt::Expression(e) => {
            lemma_eval_expr_persists(p, o, st, env, e, fuel);
        },
        Stmt::Block(b) => {
            let st1 = st.push_frame(call_slots(Seq::empty(), 0, b.decl_slots()), Some(env));
            assert(persists(st, st1));
            lemma_run_block_persists(p, o, st1, st.frames.len() as usize, b, 0, fuel);
        },
        Stmt::If(test, then_stmt, else_stmt) => {
            lemma_eval_expr_persists(p, o, st, env, test, fuel);
            let (st1, r1) = eval_expr(p, o, st, env, test, fuel);
            if r1 is Ok {
                if r1.unwrap().truthy() {
                    lemma_exec_stmt_persists(p, o, st1, env, *then_stmt, fuel);
                } else {
                    match else_stmt {
                        Some(other) => lemma_exec_stmt_persists(p, o, st1, env, *other, fuel),
                        None => {},
                    }
                }
            }
        },
        Stmt::While(test, body) => {
            lemma_eval_expr_persists(p, o, st, env, test, fuel);
            let (st1, r1) = eval_expr(p, o, st, env, test, fuel);
            if r1 is Ok && r1.unwrap().truthy() {
                lemma_exec_stmt_persists(p, o, st1, env, *body, fuel);
                let (st2, r2) = exec_stmt(p, o, st1, env, *body, fuel);
                if r2 == Ok::<Outcome, RunError>(Outcome::Completed) && fuel > 0 {
                    lemma_exec_stmt_persists(p, o, st2, env, s, (fuel - 1) as nat);
                }
            }
        },
        Stmt::Return(Some(e)) => {
            lemma_eval_expr_persists(p, o, st, env, e, fuel);
        },
        _ => {},
    }
}

/// What persists keeps its chains: a chain that leads to a frame before
/// leads to the same frame after.
pub proof fn lemma_persisting_chain(
    before: StoreModel,
    after: StoreModel,
    env: usize,
    depth: nat,
)
    requires
        persists(before, after),
        before.frame_at(env, depth) is Some,
    ensures
        after.frame_at(env, depth) == before.frame_at(env, depth),
    decreases depth,
{
    if depth > 0 {
        match before.frames[env as int].parent {
            Some(parent) => lemma_persisting_chain(before, after, parent, (depth - 1) as nat),
            None => {},
        }
    }
}

/// Fuel is an allowance and nothing else: an evaluation that did not run
/// out of fuel has the same result, and leaves the same store, with any
/// larger allowance.
pub proof fn lemma_eval_expr_with_more_fuel(
    p: ProgramModel,
    o: Oracle,
    st: StoreModel,
    env: usize,
    e: Expr,
    fuel: nat,
    more: nat,
)
    requires
        fuel <= more,
        eval_expr(p, o, st, env, e, fuel).1 != Err::<Value, RunError>(RunError::OutOfFuel),
    ensures
        eval_expr(p, o, st, env, e, more) == eval_expr(p, o, st, env, e, fuel),
    decreases fuel, 1nat, e,
{
    match e {
        Expr::VecLiteral(items) => {
            lemma_eval_list_with_more_fuel(p, o, st, env, items, fuel, Seq::empty(), more);
        },
        Expr::MapLiteral(entries) => {
            let map = Value::Mapping(st.maps.len() as usize);
            lemma_eval_entries_with_more_fuel(
                p,
                o,
                st.push_map(Seq::empty()),
                env,
                map,
                entries,
                fuel,
                more,
            );
        },
        Expr::ElementAccess(container, index) => {
            lemma_eval_expr_with_more_fuel(p, o, st, env, *container, fuel, more);
            let (st1, r1) = eval_expr(p, o, st, env, *container, fuel);
            if r1 is Ok {
                lemma_eval_expr_with_more_fuel(p, o, st1, env, *index, fuel, more);
            }
        },
        Expr::VarAssign(depth, slot, value) => {
            lemma_eval_expr_with_more_fuel(p, o, st, env, *value, fuel, more);
        },
        Expr::ElemAssign(container, index, value) => {
            lemma_eval_expr_with_more_fuel(p, o, st, env, *container, fuel, more);
            let (st1, r1) = eval_expr(p, o, st, env, *container, fuel);
            if r1 is Ok {
                lemma_eval_expr_with_more_fuel(p, o, st1, env, *index, fuel, more);
                let (st2, r2) = eval_expr(p, o, st1, env, *index, fuel);
                if r2 is Ok {
                    lemma_eval_expr_with_more_fuel(p, o, st2, env, *value, fuel, more);
                }
            }
        },
        Expr::BinaryOp(depth, slot, left, right) => {
            lemma_eval_expr_with_more_fuel(p, o, st, env, *left, fuel, more);
            let (st1, r1) = eval_expr(p, o, st, env, *left, fuel);
            if r1 is Ok {
                lemma_eval_expr_with_more_fuel(p, o, st1, env, *right, fuel, more);
                let (st2, r2) = eval_expr(p, o, st1, env, *right, fuel);
                if r2 is Ok {
                    match st2.read_var(env, depth as nat, slot as nat) {
                        Some(f) => lemma_call_value_with_more_fuel(
                            p,
                            o,
                            st2,
                            env,
                            f,
                            seq![r1.unwrap(), r2.unwrap()],
                            fuel,
                            more,
                        ),
                        None => {},
                    }
                }
            }
        },
        Expr::PrefixOp(depth, slot, operand) => {
            lemma_eval_expr_with_more_fuel(p, o, st, env, *operand, fuel, more);
            let (st1, r1) = eval_expr(p, o, st, env, *operand, fuel);
            if r1 is Ok {
                match st1.read_var(env, depth as nat, slot as nat) {
                    Some(f) => lemma_call_value_with_more_fuel(
                        p,
                        o,
                        st1,
                        env,
                        f,
                        seq![r1.unwrap()],
                        fuel,
                        more,
                    ),
                    None => {},
                }
            }
        },
        Expr::FuncCall(callee, args) => {
            lemma_eval_expr_with_more_fuel(p, o, st, env, *callee, fuel, more);
            let (st1, r1) = eval_expr(p, o, st, env, *callee, fuel);
            if r1 is Ok {
                lemma_eval_list_with_more_fuel(p, o, st1, env, args, fuel, Seq::empty(), more);
                let (st2, r2) = eval_list(p, o, st1, env, args, fuel, Seq::empty());
                if r2 is Ok {
                    lemma_call_value_with_more_fuel(
                        p,
                        o,
                        st2,
                        env,
                        r1.unwrap(),
                        r2.unwrap(),
                        fuel,
                        more,
                    );
                }
            }
        },
        _ => {},
    }
}

pub proof fn lemma_eval_list_with_more_fuel(
    p: ProgramModel,
    o: Oracle,
    st: StoreModel,
    env: usize,
    l: ExprList,
    fuel: nat,
    acc: Seq<Value>,
    more: nat,
)
    requires
        fuel <= more,
        eval_list(p, o, st, env, l, fuel, acc).1 != Err::<Seq<Value>, RunError>(
            RunError::OutOfFuel,
        ),
    ensures
        eval_list(p, o, st, env, l, more, acc) == eval_list(p, o, st, env, l, fuel, acc),
    decreases fuel, 1nat, l,
{
    match l {
        ExprList::Nil => {},
        ExprList::Cons(first, rest) => {
            lemma_eval_expr_with_more_fuel(p, o, st, env, *first, fuel, more);
            let (st1, r1) = eval_expr(p, o, st, env, *first, fuel);
            if r1 is Ok {
                lemma_eval_list_with_more_fuel(
                    p,
                    o,
                    st1,
                    env,
                    *rest,
                    fuel,
                    acc.push(r1.unwrap()),
                    more,
                );
            }
        },
    }
}

pub proof fn lemma_eval_entries_with_more_fuel(
    p: ProgramModel,
    o: Oracle,
    st: StoreModel,
    env: usize,
    map: Value,
    l: EntryList,
    fuel: nat,
    more: nat,
)
    requires
        fuel <= more,
        eval_entries(p, o, st, env, map, l, fuel).1 != Err::<(), RunError>(RunError::OutOfFuel),
    ensures
        eval_entries(p, o, st, env, map, l, more) == eval_entries(p, o, st, env, map, l, fuel),
    decreases fuel, 1nat, l,
{
    match l {
        EntryList::Nil => {},
        EntryList::Cons(k, value, rest) => {
            if k < p.strings.len() {
                let key = Value::Str(st.strings.len() as usize);
                let st0 = st.push_string(p.strings[k as int]);
                lemma_eval_expr_with_more_fuel(p, o, st0, env, *value, fuel, more);
                let (st1, r1) = eval_expr(p, o, st0, env, *value, fuel);
                if r1 is Ok {
                    match st1.set_element(map, key, r1.unwrap()) {
                        Ok(st2) => lemma_eval_entries_with_more_fuel(
                            p,
                            o,
                            st2,
                            env,
                            map,
                            *rest,
                            fuel,
                            more,
                        ),
                        Err(_) => {},
                    }
                }
            }
        },
    }
}

pub proof fn lemma_call_value_with_more_fuel(
    p: ProgramModel,
    o: Oracle,
    st: StoreModel,
    caller: usize,
    f: Value,
    args: Seq<Value>,
    fuel: nat,
    more: nat,
)
    requires
        fuel <= more,
        call_value(p, o, st, caller, f, args, fuel).1 != Err::<Value, RunError>(
            RunError::OutOfFuel,
        ),
    ensures
        call_value(p, o, st, caller, f, args, more) == call_value(p, o, st, caller, f, args, fuel),
    decreases fuel, 0nat, f,
{
    if fuel > 0 {
        match f {
            Value::Closure(k, captured) => {
                if k < p.funcs.len() {
                    let def = p.funcs[k as int];
                    let size = def.num_params + def.body.decl_slots();
                    if size <= usize::MAX {
                        let st1 = st.push_frame(
                            call_slots(args, def.num_params as nat, size as nat),
                            Some(captured),
                        );
                        lemma_run_block_with_more_fuel(
                            p,
                            o,
                            st1,
                            st.frames.len() as usize,
                            def.body,
                            def.num_params as nat,
                            (fuel - 1) as nat,
                            (more - 1) as nat,
                        );
                    }
                }
            },
            _ => {},
        }
    }
}

pub proof fn lemma_run_block_with_more_fuel(
    p: ProgramModel,
    o: Oracle,
    st: StoreModel,
    frame: usize,
    b: Block,
    slot: nat,
    fuel: nat,
    more: nat,
)
    requires
        fuel <= more,
        run_block(p, o, st, frame, b, slot, fuel).1 != Err::<Outcome, RunError>(
            RunError::OutOfFuel,
        ),
    ensures
        run_block(p, o, st, frame, b, slot, more) == run_block(p, o, st, frame, b, slot, fuel),
    decreases fuel, 2nat, b,
{
    match b.decl {
        Declaration::VarInit(init) => {
            lemma_eval_expr_with_more_fuel(p, o, st, frame, init, fuel, more);
            let (st1, r1) = eval_expr(p, o, st, frame, init, fuel);
            if r1 is Ok {
                match st1.write_var(frame, 0, slot, r1.unwrap()) {
                    Some(st2) => lemma_exec_list_with_more_fuel(
                        p,
                        o,
                        st2,
                        frame,
                        b.stmts,
                        fuel,
                        more,
                    ),
                    None => {},
                }
            }
        },
        _ => {
            lemma_exec_list_with_more_fuel(p, o, st, frame, b.stmts, fuel, more);
        },
    }
}

pub proof fn lemma_exec_list_with_more_fuel(
    p: ProgramModel,
    o: Oracle,
    st: StoreModel,
    env: usize,
    l: StmtList,
    fuel: nat,
    more: nat,
)
    requires
        fuel <= more,
        exec_list(p, o, st, env, l, fuel).1 != Err::<Outcome, RunError>(RunError::OutOfFuel),
    ensures
        exec_list(p, o, st, env, l, more) == exec_list(p, o, st, env, l, fuel),
    decreases fuel, 2nat, l,
{
    match l {
        StmtList::Nil => {},
        StmtList::Cons(first, rest) => {
            lemma_exec_stmt_with_more_fuel(p, o, st, env, *first, fuel, more);
            let (st1, r1) = exec_stmt(p, o, st, env, *first, fuel);
            if r1 == Ok::<Outcome, RunError>(Outcome::Completed) {
                lemma_exec_list_with_more_fuel(p, o, st1, env, *rest, fuel, more);
            }
        },
    }
}

pub proof fn lemma_exec_stmt_with_more_fuel(
    p: ProgramModel,
    o: Oracle,
    st: StoreModel,
    env: usize,
    s: Stmt,
    fuel: nat,
    more: nat,
)
    requires
        fuel <= more,
        exec_stmt(p, o, st, env, s, fuel).1 != Err::<Outcome, RunError>(RunError::OutOfFuel),
    ensures
        exec_stmt(p, o, st, env, s, more) == exec_stmt(p, o, st, env, s, fuel),
    decreases fuel, 2nat, s,
{
    match s {
        Stmt::Expression(e) => {
            lemma_eval_expr_with_more_fuel(p, o, st, env, e, fuel, more);
        },
        Stmt::Block(b) => {
            let st1 = st.push_frame(call_slots(Seq::empty(), 0, b.decl_slots()), Some(env));
            lemma_run_block_with_more_fuel(p, o, st1, st.frames.len() as usize, b, 0, fuel, more);
        },
        Stmt::If(test, then_stmt, else_stmt) => {
            lemma_eval_expr_with_more_fuel(p, o, st, env, test, fuel, more);
            let (st1, r1) = eval_expr(p, o, st, env, test, fuel);
            if r1 is Ok {
                if r1.unwrap().truthy() {
                    lemma_exec_stmt_with_more_fuel(p, o, st1, env, *then_stmt, fuel, more);
                } else {
                    match else_stmt {
                        Some(other) => lemma_exec_stmt_with_more_fuel(
                            p,
                            o,
                            st1,
                            env,
                            *other,
                            fuel,
                            more,
                        ),
                        None => {},
                    }
                }
            }
        },
        Stmt::While(test, body) => {
            lemma_eval_expr_with_more_fuel(p, o, st, env, test, fuel, more);
            let (st1, r1) = eval_expr(p, o, st, env, test, fuel);
            if r1 is Ok && r1.unwrap().truthy() {
                lemma_exec_stmt_with_more_fuel(p, o, st1, env, *body, fuel, more);
                let (st2, r2) = exec_stmt(p, o, st1, env, *body, fuel);
                if r2 == Ok::<Outcome, RunError>(Outcome::Completed) {
                    lemma_exec_stmt_with_more_fuel(
                        p,
                        o,
                        st2,
                        env,
                        s,
                        (fuel - 1) as nat,
                        (more - 1) as nat,
                    );
                }
            }
        },
        Stmt::Return(Some(e)) => {
            lemma_eval_expr_with_more_fuel(p, o, st, env, e, fuel, more);
        },
        _ => {},
    }
}

} // verus!
