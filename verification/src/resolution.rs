//! What it is for a tree to be resolved: every address in it lies within
//! the frames that will be around it when it runs, and every constant and
//! function it names is one of its program.
//!
//! The frames are given by their sizes, the innermost first: the frame of
//! a block has a slot for its declaration, the frame of a call has a slot
//! for each parameter and one for the declaration of the body.

use crate::ast::{
    Block, Declaration, EntryList, Expr, ExprList, FuncDef, ProgramModel, Stmt, StmtList,
};
use crate::resolver::{declares, resolve_in, ScopeModel};
use vstd::prelude::*;

verus! {

/// Whether the address `(depth, slot)` lies within frames of the sizes
/// `shape`.
pub open spec fn address_ok(shape: Seq<nat>, depth: usize, slot: usize) -> bool {
    depth < shape.len() && slot < shape[depth as int]
}

/// The sizes of the frames of the body of a function that is defined
/// within frames of the sizes `shape`.
pub open spec fn call_shape(def: FuncDef, shape: Seq<nat>) -> Seq<nat> {
    seq![(def.num_params + def.body.decl_slots()) as nat] + shape
}

/// Whether every address in `e` lies within frames of the sizes `shape`,
/// and so for every function that `e` defines, within the frames of its
/// body, and every constant that `e` names is one of `code`. The functions
/// that `e` defines have indices below `limit`.
pub open spec fn resolved_expr(code: Code, limit: nat, shape: Seq<nat>, e: Expr) -> bool
    decreases limit, 1nat, e,
{
    match e {
        Expr::NumberLiteral(k) => k < code.numbers,
        Expr::StringLiteral(k) => k < code.strings,
        Expr::VariableRef(depth, slot) => address_ok(shape, depth, slot),
        Expr::VecLiteral(items) => resolved_list(code, limit, shape, items),
        Expr::MapLiteral(entries) => resolved_entries(code, limit, shape, entries),
        Expr::ElementAccess(container, index) => resolved_expr(code, limit, shape, *container)
            && resolved_expr(code, limit, shape, *index),
        Expr::VarAssign(depth, slot, value) => address_ok(shape, depth, slot) && resolved_expr(
            code,
            limit,
            shape,
            *value,
        ),
        Expr::ElemAssign(container, index, value) => resolved_expr(code, limit, shape, *container)
            && resolved_expr(code, limit, shape, *index) && resolved_expr(
            code,
            limit,
            shape,
            *value,
        ),
        Expr::BinaryOp(depth, slot, left, right) => address_ok(shape, depth, slot)
            && resolved_expr(code, limit, shape, *left) && resolved_expr(
            code,
            limit,
            shape,
            *right,
        ),
        Expr::PrefixOp(depth, slot, operand) => address_ok(shape, depth, slot) && resolved_expr(
            code,
            limit,
            shape,
            *operand,
        ),
        Expr::FuncCall(callee, args) => resolved_expr(code, limit, shape, *callee)
            && resolved_list(code, limit, shape, args),
        Expr::FuncDefLiteral(k) => k < limit && k < code.funcs.len() && call_shape(
            code.funcs[k as int],
            shape,
        )[0] <= usize::MAX && resolved_block(
            code,
            k as nat,
            call_shape(code.funcs[k as int], shape),
            code.funcs[k as int].body,
            code.funcs[k as int].num_params as nat,
        ),
    }
}

pub open spec fn resolved_list(code: Code, limit: nat, shape: Seq<nat>, l: ExprList)
    -> bool
    decreases limit, 1nat, l,
{
    match l {
        ExprList::Nil => true,
        ExprList::Cons(head, rest) => resolved_expr(code, limit, shape, *head) && resolved_list(
            code,
            limit,
            shape,
            *rest,
        ),
    }
}

pub open spec fn resolved_entries(code: Code, limit: nat, shape: Seq<nat>, l: EntryList)
    -> bool
    decreases limit, 1nat, l,
{
    match l {
        EntryList::Nil => true,
        EntryList::Cons(k, value, rest) => k < code.strings && resolved_expr(
            code,
            limit,
            shape,
            *value,
        ) && resolved_entries(code, limit, shape, *rest),
    }
}

/// Whether every address in the block lies within frames of the sizes
/// `shape`, the first of which is the block's own, and the variable of the
/// block has the slot `slot` in it.
pub open spec fn resolved_block(
    code: Code,
    limit: nat,
    shape: Seq<nat>,
    b: Block,
    slot: nat,
) -> bool
    decreases limit, 2nat, b,
{
    &&& match b.decl {
        Declaration::NoVar => true,
        Declaration::Var => shape.len() > 0 && slot < shape[0],
        Declaration::VarInit(init) => shape.len() > 0 && slot < shape[0] && resolved_expr(
            code,
            limit,
            shape,
            init,
        ),
    }
    &&& resolved_stmts(code, limit, shape, b.stmts)
}

pub open spec fn resolved_stmts(code: Code, limit: nat, shape: Seq<nat>, l: StmtList)
    -> bool
    decreases limit, 2nat, l,
{
    match l {
        StmtList::Nil => true,
        StmtList::Cons(head, rest) => resolved_stmt(code, limit, shape, *head) && resolved_stmts(
            code,
            limit,
            shape,
            *rest,
        ),
    }
}

pub open spec fn resolved_stmt(code: Code, limit: nat, shape: Seq<nat>, s: Stmt) -> bool
    decreases limit, 2nat, s,
{
    match s {
        Stmt::Empty => true,
        Stmt::Expression(e) => resolved_expr(code, limit, shape, e),
        Stmt::Block(b) => resolved_block(code, limit, seq![b.decl_slots()] + shape, b, 0),
        Stmt::If(test, then_stmt, else_stmt) => resolved_expr(code, limit, shape, test)
            && resolved_stmt(code, limit, shape, *then_stmt) && (match else_stmt {
            Some(other) => resolved_stmt(code, limit, shape, *other),
            None => true,
        }),
        Stmt::While(test, body) => resolved_expr(code, limit, shape, test) && resolved_stmt(
            code,
            limit,
            shape,
            *body,
        ),
        Stmt::Break => true,
        Stmt::Return(None) => true,
        Stmt::Return(Some(e)) => resolved_expr(code, limit, shape, e),
    }
}

/// Whether the function `k` is resolved where it is defined within frames
/// of the sizes `shape`, and the frame of its body has a size that the
/// machine can count.
pub open spec fn resolved_func(code: Code, k: usize, shape: Seq<nat>) -> bool {
    k < code.funcs.len() && call_shape(code.funcs[k as int], shape)[0] <= usize::MAX && resolved_block(
        code,
        k as nat,
        call_shape(code.funcs[k as int], shape),
        code.funcs[k as int].body,
        code.funcs[k as int].num_params as nat,
    )
}

/// Whether `more` holds the functions of `funcs`, and perhaps more after
/// them.
pub open spec fn funcs_kept(funcs: Seq<FuncDef>, more: Seq<FuncDef>) -> bool {
    &&& funcs.len() <= more.len()
    &&& forall|i: int| 0 <= i < funcs.len() ==> #[trigger] funcs[i] == more[i]
}

/// What a tree may refer to in its program: the functions, and the
/// numbers of its number constants and of its string constants.
pub struct Code {
    pub funcs: Seq<FuncDef>,
    pub numbers: nat,
    pub strings: nat,
}

/// What a program offers to its trees.
pub open spec fn code_of(p: ProgramModel) -> Code {
    Code { funcs: p.funcs, numbers: p.numbers.len(), strings: p.strings.len() }
}

/// Whether `more` offers what `code` offers, and perhaps more.
pub open spec fn code_kept(code: Code, more: Code) -> bool {
    &&& funcs_kept(code.funcs, more.funcs)
    &&& code.numbers <= more.numbers
    &&& code.strings <= more.strings
}

/// Whether the frames of the sizes `wider` are as many as those of the
/// sizes `shape`, and each at least as large.
pub open spec fn shape_within(shape: Seq<nat>, wider: Seq<nat>) -> bool {
    &&& shape.len() == wider.len()
    &&& forall|i: int| 0 <= i < shape.len() ==> #[trigger] shape[i] <= wider[i]
}

/// The sizes of the scopes, the innermost first.
pub open spec fn shape_of(scopes: Seq<ScopeModel>) -> Seq<nat> {
    Seq::new(scopes.len(), |i: int| scopes[scopes.len() - 1 - i].len())
}

/// What a name resolves to lies within the scopes.
pub proof fn lemma_resolved_address_ok(scopes: Seq<ScopeModel>, name: Seq<char>)
    ensures
        resolve_in(scopes, name) matches Some((depth, slot)) ==> depth < scopes.len() && slot
            < scopes[scopes.len() - 1 - depth].len(),
    decreases scopes.len(),
{
    if scopes.len() > 0 {
        if declares(scopes.last(), name) {
            lemma_slot_in_scope(scopes.last(), name, 0);
        } else {
            lemma_resolved_address_ok(scopes.drop_last(), name);
        }
    }
}

/// The position of a name in a scope is a position of the scope.
pub proof fn lemma_slot_in_scope(scope: ScopeModel, name: Seq<char>, from: int)
    ensures
        crate::resolver::name_position(scope, name, from) matches Some(i) ==> from <= i
            < scope.len(),
    decreases scope.len() - from,
{
    if 0 <= from < scope.len() && scope[from] != name {
        lemma_slot_in_scope(scope, name, from + 1);
    }
}

/// A resolved expression stays resolved where there are more functions and
/// larger frames.
pub proof fn lemma_expr_stays_resolved(
    code: Code,
    limit: nat,
    shape: Seq<nat>,
    e: Expr,
    more: Code,
    higher: nat,
    wider: Seq<nat>,
)
    requires
        resolved_expr(code, limit, shape, e),
        code_kept(code, more),
        limit <= higher,
        shape_within(shape, wider),
    ensures
        resolved_expr(more, higher, wider, e),
    decreases limit, 1nat, e,
{
    match e {
        Expr::VecLiteral(items) => {
            lemma_list_stays_resolved(code, limit, shape, items, more, higher, wider);
        },
        Expr::MapLiteral(entries) => {
            lemma_entries_stay_resolved(code, limit, shape, entries, more, higher, wider);
        },
        Expr::ElementAccess(container, index) => {
            lemma_expr_stays_resolved(code, limit, shape, *container, more, higher, wider);
            lemma_expr_stays_resolved(code, limit, shape, *index, more, higher, wider);
        },
        Expr::VarAssign(_, _, value) => {
            lemma_expr_stays_resolved(code, limit, shape, *value, more, higher, wider);
        },
        Expr::ElemAssign(container, index, value) => {
            lemma_expr_stays_resolved(code, limit, shape, *container, more, higher, wider);
            lemma_expr_stays_resolved(code, limit, shape, *index, more, higher, wider);
            lemma_expr_stays_resolved(code, limit, shape, *value, more, higher, wider);
        },
        Expr::BinaryOp(_, _, left, right) => {
            lemma_expr_stays_resolved(code, limit, shape, *left, more, higher, wider);
            lemma_expr_stays_resolved(code, limit, shape, *right, more, higher, wider);
        },
        Expr::PrefixOp(_, _, operand) => {
            lemma_expr_stays_resolved(code, limit, shape, *operand, more, higher, wider);
        },
        Expr::FuncCall(callee, args) => {
            lemma_expr_stays_resolved(code, limit, shape, *callee, more, higher, wider);
            lemma_list_stays_resolved(code, limit, shape, args, more, higher, wider);
        },
        Expr::FuncDefLiteral(k) => {
            let def = code.funcs[k as int];
            assert(more.funcs[k as int] == def);
            lemma_call_shape_within(def, shape, wider);
            lemma_block_stays_resolved(
                code,
                k as nat,
                call_shape(def, shape),
                def.body,
                def.num_params as nat,
                more,
                k as nat,
                call_shape(def, wider),
            );
        },
        _ => {},
    }
}

/// The frames of a body grow with the frames around it.
pub proof fn lemma_call_shape_within(def: FuncDef, shape: Seq<nat>, wider: Seq<nat>)
    requires
        shape_within(shape, wider),
    ensures
        shape_within(call_shape(def, shape), call_shape(def, wider)),
{
    let a = call_shape(def, shape);
    let b = call_shape(def, wider);
    assert forall|i: int| 0 <= i < a.len() implies #[trigger] a[i] <= b[i] by {
        if i > 0 {
            assert(a[i] == shape[i - 1]);
            assert(b[i] == wider[i - 1]);
        }
    }
}

/// The frames of a block grow with the frames around it.
pub proof fn lemma_block_shape_within(size: nat, shape: Seq<nat>, wider: Seq<nat>)
    requires
        shape_within(shape, wider),
    ensures
        shape_within(seq![size] + shape, seq![size] + wider),
{
    let a = seq![size] + shape;
    let b = seq![size] + wider;
    assert forall|i: int| 0 <= i < a.len() implies #[trigger] a[i] <= b[i] by {
        if i > 0 {
            assert(a[i] == shape[i - 1]);
            assert(b[i] == wider[i - 1]);
        }
    }
}

pub proof fn lemma_list_stays_resolved(
    code: Code,
    limit: nat,
    shape: Seq<nat>,
    l: ExprList,
    more: Code,
    higher: nat,
    wider: Seq<nat>,
)
    requires
        resolved_list(code, limit, shape, l),
        code_kept(code, more),
        limit <= higher,
        shape_within(shape, wider),
    ensures
        resolved_list(more, higher, wider, l),
    decreases limit, 1nat, l,
{
    match l {
        ExprList::Nil => {},
        ExprList::Cons(head, rest) => {
            lemma_expr_stays_resolved(code, limit, shape, *head, more, higher, wider);
            lemma_list_stays_resolved(code, limit, shape, *rest, more, higher, wider);
        },
    }
}

pub proof fn lemma_entries_stay_resolved(
    code: Code,
    limit: nat,
    shape: Seq<nat>,
    l: EntryList,
    more: Code,
    higher: nat,
    wider: Seq<nat>,
)
    requires
        resolved_entries(code, limit, shape, l),
        code_kept(code, more),
        limit <= higher,
        shape_within(shape, wider),
    ensures
        resolved_entries(more, higher, wider, l),
    decreases limit, 1nat, l,
{
    match l {
        EntryList::Nil => {},
        EntryList::Cons(_, value, rest) => {
            lemma_expr_stays_resolved(code, limit, shape, *value, more, higher, wider);
            lemma_entries_stay_resolved(code, limit, shape, *rest, more, higher, wider);
        },
    }
}

pub proof fn lemma_block_stays_resolved(
    code: Code,
    limit: nat,
    shape: Seq<nat>,
    b: Block,
    slot: nat,
    more: Code,
    higher: nat,
    wider: Seq<nat>,
)
    requires
        resolved_block(code, limit, shape, b, slot),
        code_kept(code, more),
        limit <= higher,
        shape_within(shape, wider),
    ensures
        resolved_block(more, higher, wider, b, slot),
    decreases limit, 2nat, b,
{
    match b.decl {
        Declaration::VarInit(init) => {
            lemma_expr_stays_resolved(code, limit, shape, init, more, higher, wider);
        },
        _ => {},
    }
    lemma_stmts_stay_resolved(code, limit, shape, b.stmts, more, higher, wider);
}

pub proof fn lemma_stmts_stay_resolved(
    code: Code,
    limit: nat,
    shape: Seq<nat>,
    l: StmtList,
    more: Code,
    higher: nat,
    wider: Seq<nat>,
)
    requires
        resolved_stmts(code, limit, shape, l),
        code_kept(code, more),
        limit <= higher,
        shape_within(shape, wider),
    ensures
        resolved_stmts(more, higher, wider, l),
    decreases limit, 2nat, l,
{
    match l {
        StmtList::Nil => {},
        StmtList::Cons(head, rest) => {
            lemma_stmt_stays_resolved(code, limit, shape, *head, more, higher, wider);
            lemma_stmts_stay_resolved(code, limit, shape, *rest, more, higher, wider);
        },
    }
}

pub proof fn lemma_stmt_stays_resolved(
    code: Code,
    limit: nat,
    shape: Seq<nat>,
    s: Stmt,
    more: Code,
    higher: nat,
    wider: Seq<nat>,
)
    requires
        resolved_stmt(code, limit, shape, s),
        code_kept(code, more),
        limit <= higher,
        shape_within(shape, wider),
    ensures
        resolved_stmt(more, higher, wider, s),
    decreases limit, 2nat, s,
{
    match s {
        Stmt::Expression(e) => {
            lemma_expr_stays_resolved(code, limit, shape, e, more, higher, wider);
        },
        Stmt::Block(b) => {
            lemma_block_shape_within(b.decl_slots(), shape, wider);
            lemma_block_stays_resolved(
                code,
                limit,
                seq![b.decl_slots()] + shape,
                b,
                0,
                more,
                higher,
                seq![b.decl_slots()] + wider,
            );
        },
        Stmt::If(test, then_stmt, else_stmt) => {
            lemma_expr_stays_resolved(code, limit, shape, test, more, higher, wider);
            lemma_stmt_stays_resolved(code, limit, shape, *then_stmt, more, higher, wider);
            match else_stmt {
                Some(other) => {
                    lemma_stmt_stays_resolved(code, limit, shape, *other, more, higher, wider);
                },
                None => {},
            }
        },
        Stmt::While(test, body) => {
            lemma_expr_stays_resolved(code, limit, shape, test, more, higher, wider);
            lemma_stmt_stays_resolved(code, limit, shape, *body, more, higher, wider);
        },
        Stmt::Return(Some(e)) => {
            lemma_expr_stays_resolved(code, limit, shape, e, more, higher, wider);
        },
        _ => {},
    }
}

/// A resolved function stays resolved where there are more functions and
/// larger frames.
pub proof fn lemma_func_stays_resolved(
    code: Code,
    k: usize,
    shape: Seq<nat>,
    more: Code,
    wider: Seq<nat>,
)
    requires
        resolved_func(code, k, shape),
        code_kept(code, more),
        shape_within(shape, wider),
    ensures
        resolved_func(more, k, wider),
{
    let def = code.funcs[k as int];
    assert(more.funcs[k as int] == def);
    lemma_call_shape_within(def, shape, wider);
    lemma_block_stays_resolved(
        code,
        k as nat,
        call_shape(def, shape),
        def.body,
        def.num_params as nat,
        more,
        k as nat,
        call_shape(def, wider),
    );
}

} // verus!
