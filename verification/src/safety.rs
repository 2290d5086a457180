//! Why a resolved program meets no bad address and no bad constant.
//!
//! A chain of frames fits sizes where it has a frame for each size, at
//! least that large. A closure is good where its function is resolved
//! within some sizes that the chain it captured fits; a store is good
//! where every closure it holds is. Evaluation keeps a good store good,
//! and in a good store every address of a resolved tree finds its slot.

use crate::ast::{
    Block, Declaration, EntryList, Expr, ExprList, ProgramModel, Stmt, StmtList,
};
use crate::laws::{
    lemma_call_value_persists, lemma_eval_entries_persists, lemma_eval_expr_persists,
    lemma_eval_list_persists, lemma_exec_list_persists, lemma_exec_stmt_persists,
    lemma_run_block_persists, lemma_set_persists, lemma_write_persists, persists,
};
use crate::resolution::{
    address_ok, resolved_block, resolved_entries, resolved_expr, resolved_list, resolved_stmt,
    resolved_stmts,
};
use crate::semantics::{
    call_slots, call_value, eval_entries, eval_expr, eval_list, exec_list, exec_stmt, run_block,
    Oracle, Outcome,
};
use crate::value::RunError;
use crate::resolution::{
    call_shape, code_kept, code_of, lemma_func_stays_resolved, resolved_func, Code,
};
use crate::store::{key_position, lemma_chain_ends_in_store, StoreModel};
use crate::value::Value;
use vstd::prelude::*;

verus! {

/// Whether the chain of frames from `env` has a frame for each of the
/// sizes `shape`, the innermost first, with at least that many slots.
pub open spec fn fits(st: StoreModel, env: usize, shape: Seq<nat>) -> bool {
    forall|d: nat|
        d < shape.len() ==> ((#[trigger] st.frame_at(env, d)) matches Some(f) && shape[d as int]
            <= st.frames[f as int].slots.len())
}

/// Whether the value, if it is a closure, is one of a function that is
/// resolved within sizes that the captured chain fits.
pub open spec fn good_value(code: Code, st: StoreModel, v: Value) -> bool {
    match v {
        Value::Closure(k, captured) => exists|shape: Seq<nat>|
            #[trigger] resolved_func(code, k, shape) && fits(st, captured, shape),
        _ => true,
    }
}

pub open spec fn good_values(code: Code, st: StoreModel, vs: Seq<Value>) -> bool {
    forall|i: int| 0 <= i < vs.len() ==> good_value(code, st, #[trigger] vs[i])
}

pub open spec fn good_pairs(code: Code, st: StoreModel, pairs: Seq<(Value, Value)>)
    -> bool {
    forall|i: int|
        0 <= i < pairs.len() ==> good_value(code, st, (#[trigger] pairs[i]).0) && good_value(
            code,
            st,
            pairs[i].1,
        )
}

/// Whether every value that the store holds is good.
pub open spec fn good_store(code: Code, st: StoreModel) -> bool {
    &&& forall|i: int|
        0 <= i < st.frames.len() ==> good_values(code, st, (#[trigger] st.frames[i]).slots)
    &&& forall|h: int| 0 <= h < st.vectors.len() ==> good_values(code, st, #[trigger] st.vectors[h])
    &&& forall|h: int| 0 <= h < st.maps.len() ==> good_pairs(code, st, #[trigger] st.maps[h])
}

/// Whether `after` has the frames of `before`, each with its parent and
/// with no fewer slots.
pub open spec fn frames_held(before: StoreModel, after: StoreModel) -> bool {
    &&& before.frames.len() <= after.frames.len()
    &&& forall|i: int|
        0 <= i < before.frames.len() ==> (#[trigger] before.frames[i]).parent
            == after.frames[i].parent && before.frames[i].slots.len()
            <= after.frames[i].slots.len()
}

/// A chain that leads to a frame leads to the same frame where the frames
/// are held.
pub proof fn lemma_chain_held(before: StoreModel, after: StoreModel, env: usize, depth: nat)
    requires
        frames_held(before, after),
        before.frame_at(env, depth) is Some,
    ensures
        after.frame_at(env, depth) == before.frame_at(env, depth),
    decreases depth,
{
    if depth > 0 {
        match before.frames[env as int].parent {
            Some(parent) => lemma_chain_held(before, after, parent, (depth - 1) as nat),
            None => {},
        }
    }
}

/// A chain that fits sizes still fits them where the frames are held.
pub proof fn lemma_fits_held(before: StoreModel, after: StoreModel, env: usize, shape: Seq<nat>)
    requires
        frames_held(before, after),
        fits(before, env, shape),
    ensures
        fits(after, env, shape),
{
    assert forall|d: nat| d < shape.len() implies ((#[trigger] after.frame_at(env, d)) matches Some(
        f,
    ) && shape[d as int] <= after.frames[f as int].slots.len()) by {
        assert(before.frame_at(env, d) is Some);
        lemma_chain_held(before, after, env, d);
        lemma_chain_ends_in_store(before, env, d);
    }
}

/// A good value stays good where the frames are held and the functions
/// kept.
pub proof fn lemma_value_held(
    code: Code,
    before: StoreModel,
    more: Code,
    after: StoreModel,
    v: Value,
)
    requires
        frames_held(before, after),
        code_kept(code, more),
        good_value(code, before, v),
    ensures
        good_value(more, after, v),
{
    match v {
        Value::Closure(k, captured) => {
            let shape = choose|shape: Seq<nat>|
                #[trigger] resolved_func(code, k, shape) && fits(before, captured, shape);
            lemma_fits_held(before, after, captured, shape);
            lemma_func_stays_resolved(code, k, shape, more, shape);
        },
        _ => {},
    }
}

pub proof fn lemma_values_held(
    code: Code,
    before: StoreModel,
    more: Code,
    after: StoreModel,
    vs: Seq<Value>,
)
    requires
        frames_held(before, after),
        code_kept(code, more),
        good_values(code, before, vs),
    ensures
        good_values(more, after, vs),
{
    assert forall|i: int| 0 <= i < vs.len() implies good_value(more, after, #[trigger] vs[i]) by {
        lemma_value_held(code, before, more, after, vs[i]);
    }
}

pub proof fn lemma_pairs_held(
    code: Code,
    before: StoreModel,
    more: Code,
    after: StoreModel,
    pairs: Seq<(Value, Value)>,
)
    requires
        frames_held(before, after),
        code_kept(code, more),
        good_pairs(code, before, pairs),
    ensures
        good_pairs(more, after, pairs),
{
    assert forall|i: int| 0 <= i < pairs.len() implies good_value(
        more,
        after,
        (#[trigger] pairs[i]).0,
    ) && good_value(more, after, pairs[i].1) by {
        lemma_value_held(code, before, more, after, pairs[i].0);
        lemma_value_held(code, before, more, after, pairs[i].1);
    }
}

/// A store is good where its frames are those of a good store, held, and
/// each of its frames, vectors and maps holds good values: those that the
/// good store held there, or others that are good.
pub proof fn lemma_store_held(
    code: Code,
    before: StoreModel,
    more: Code,
    after: StoreModel,
)
    requires
        good_store(code, before),
        frames_held(before, after),
        code_kept(code, more),
        forall|i: int|
            0 <= i < after.frames.len() ==> (i < before.frames.len() && (
            #[trigger] after.frames[i]).slots == before.frames[i].slots) || good_values(
                more,
                after,
                after.frames[i].slots,
            ),
        forall|h: int|
            0 <= h < after.vectors.len() ==> (h < before.vectors.len()
                && #[trigger] after.vectors[h] == before.vectors[h]) || good_values(
                more,
                after,
                after.vectors[h],
            ),
        forall|h: int|
            0 <= h < after.maps.len() ==> (h < before.maps.len() && #[trigger] after.maps[h]
                == before.maps[h]) || good_pairs(more, after, after.maps[h]),
    ensures
        good_store(more, after),
{
    assert forall|i: int| 0 <= i < after.frames.len() implies good_values(
        more,
        after,
        (#[trigger] after.frames[i]).slots,
    ) by {
        if i < before.frames.len() && after.frames[i].slots == before.frames[i].slots {
            lemma_values_held(code, before, more, after, before.frames[i].slots);
        }
    }
    assert forall|h: int| 0 <= h < after.vectors.len() implies good_values(
        more,
        after,
        #[trigger] after.vectors[h],
    ) by {
        if h < before.vectors.len() && after.vectors[h] == before.vectors[h] {
            lemma_values_held(code, before, more, after, before.vectors[h]);
        }
    }
    assert forall|h: int| 0 <= h < after.maps.len() implies good_pairs(
        more,
        after,
        #[trigger] after.maps[h],
    ) by {
        if h < before.maps.len() && after.maps[h] == before.maps[h] {
            lemma_pairs_held(code, before, more, after, before.maps[h]);
        }
    }
}

/// Assigning a good value to a variable keeps the store good.
pub proof fn lemma_write_keeps_good(
    code: Code,
    st: StoreModel,
    env: usize,
    depth: nat,
    slot: nat,
    v: Value,
)
    requires
        good_store(code, st),
        good_value(code, st, v),
        st.write_var(env, depth, slot, v) is Some,
    ensures
        good_store(code, st.write_var(env, depth, slot, v).unwrap()),
        frames_held(st, st.write_var(env, depth, slot, v).unwrap()),
{
    let after = st.write_var(env, depth, slot, v).unwrap();
    let f = st.frame_at(env, depth).unwrap();
    lemma_chain_ends_in_store(st, env, depth);
    assert(frames_held(st, after));
    lemma_value_held(code, st, code, after, v);
    assert(good_values(code, after, after.frames[f as int].slots)) by {
        let slots = after.frames[f as int].slots;
        assert forall|j: int| 0 <= j < slots.len() implies good_value(
            code,
            after,
            #[trigger] slots[j],
        ) by {
            if j != slot {
                assert(slots[j] == st.frames[f as int].slots[j]);
                lemma_value_held(code, st, code, after, st.frames[f as int].slots[j]);
            }
        }
    }
    lemma_store_held(code, st, code, after);
}

/// Assigning a good value to an element, at a good index, keeps the store
/// good.
pub proof fn lemma_set_keeps_good(
    code: Code,
    st: StoreModel,
    c: Value,
    index: Value,
    v: Value,
)
    requires
        good_store(code, st),
        good_value(code, st, index),
        good_value(code, st, v),
        st.set_element(c, index, v) is Ok,
    ensures
        good_store(code, st.set_element(c, index, v).unwrap()),
        frames_held(st, st.set_element(c, index, v).unwrap()),
{
    let after = st.set_element(c, index, v).unwrap();
    assert(frames_held(st, after));
    lemma_value_held(code, st, code, after, v);
    lemma_value_held(code, st, code, after, index);
    match c {
        Value::Vector(h) => {
            let items = after.vectors[h as int];
            lemma_values_held(code, st, code, after, st.vectors[h as int]);
            assert forall|j: int| 0 <= j < items.len() implies good_value(
                code,
                after,
                #[trigger] items[j],
            ) by {
                if items[j] != v {
                    assert(items[j] == st.vectors[h as int][j]);
                }
            }
        },
        Value::Mapping(h) => {
            let pairs = after.maps[h as int];
            let old_pairs = st.maps[h as int];
            lemma_pairs_held(code, st, code, after, old_pairs);
            crate::store::lemma_key_position_holds_key(st.strings, old_pairs, index, 0);
            assert forall|j: int| 0 <= j < pairs.len() implies good_value(
                code,
                after,
                (#[trigger] pairs[j]).0,
            ) && good_value(code, after, pairs[j].1) by {
                match key_position(st.strings, old_pairs, index, 0) {
                    Some(at) => {
                        if j != at {
                            assert(pairs[j] == old_pairs[j]);
                        } else {
                            assert(pairs[j].0 == old_pairs[j].0);
                        }
                    },
                    None => {
                        if j < old_pairs.len() {
                            assert(pairs[j] == old_pairs[j]);
                        }
                    },
                }
            }
        },
        _ => {},
    }
    lemma_store_held(code, st, code, after);
}

/// A new frame of good values keeps the store good, and its chain fits the
/// sizes that the chain of its parent fits, after its own size.
pub proof fn lemma_frame_keeps_good(
    code: Code,
    st: StoreModel,
    slots: Seq<Value>,
    parent: usize,
    shape: Seq<nat>,
)
    requires
        good_store(code, st),
        good_values(code, st, slots),
        fits(st, parent, shape),
        st.frames.len() <= usize::MAX,
    ensures
        good_store(code, st.push_frame(slots, Some(parent))),
        frames_held(st, st.push_frame(slots, Some(parent))),
        fits(
            st.push_frame(slots, Some(parent)),
            st.frames.len() as usize,
            seq![slots.len()] + shape,
        ),
{
    let after = st.push_frame(slots, Some(parent));
    let frame = st.frames.len() as usize;
    assert(frames_held(st, after));
    lemma_values_held(code, st, code, after, slots);
    lemma_store_held(code, st, code, after);
    let inner = seq![slots.len()] + shape;
    assert forall|d: nat| d < inner.len() implies ((#[trigger] after.frame_at(frame, d)) matches Some(
        f,
    ) && inner[d as int] <= after.frames[f as int].slots.len()) by {
        if d > 0 {
            let up = (d - 1) as nat;
            assert(st.frame_at(parent, up) is Some);
            lemma_chain_held(st, after, parent, up);
            lemma_chain_ends_in_store(st, parent, up);
            assert(after.frame_at(frame, d) == after.frame_at(parent, up));
            assert(inner[d as int] == shape[up as int]);
        }
    }
}

/// One more slot with a good value keeps the store good.
pub proof fn lemma_extend_keeps_good(code: Code, st: StoreModel, frame: usize, v: Value)
    requires
        good_store(code, st),
        good_value(code, st, v),
        st.extend_frame(frame, v) is Some,
    ensures
        good_store(code, st.extend_frame(frame, v).unwrap()),
        frames_held(st, st.extend_frame(frame, v).unwrap()),
{
    let after = st.extend_frame(frame, v).unwrap();
    assert(frames_held(st, after));
    lemma_value_held(code, st, code, after, v);
    lemma_values_held(code, st, code, after, st.frames[frame as int].slots);
    assert(good_values(code, after, after.frames[frame as int].slots)) by {
        let slots = after.frames[frame as int].slots;
        assert forall|j: int| 0 <= j < slots.len() implies good_value(
            code,
            after,
            #[trigger] slots[j],
        ) by {
            if j < st.frames[frame as int].slots.len() {
                assert(slots[j] == st.frames[frame as int].slots[j]);
            }
        }
    }
    lemma_store_held(code, st, code, after);
}

/// A good store stays good where the program gains functions.
pub proof fn lemma_more_funcs_keep_good(code: Code, more: Code, st: StoreModel)
    requires
        good_store(code, st),
        code_kept(code, more),
    ensures
        good_store(more, st),
{
    assert(frames_held(st, st));
    lemma_store_held(code, st, more, st);
}

/// A new vector of good values keeps the store good.
pub proof fn lemma_vector_keeps_good(code: Code, st: StoreModel, items: Seq<Value>)
    requires
        good_store(code, st),
        good_values(code, st, items),
    ensures
        good_store(code, st.push_vector(items)),
{
    let after = st.push_vector(items);
    assert(frames_held(st, after));
    lemma_values_held(code, st, code, after, items);
    lemma_store_held(code, st, code, after);
}

/// A new map without entries keeps the store good.
pub proof fn lemma_map_keeps_good(code: Code, st: StoreModel)
    requires
        good_store(code, st),
    ensures
        good_store(code, st.push_map(Seq::empty())),
{
    let after = st.push_map(Seq::empty());
    assert(frames_held(st, after));
    lemma_store_held(code, st, code, after);
}

/// A new string keeps the store good.
pub proof fn lemma_string_keeps_good(code: Code, st: StoreModel, text: Seq<char>)
    requires
        good_store(code, st),
    ensures
        good_store(code, st.push_string(text)),
{
    let after = st.push_string(text);
    assert(frames_held(st, after));
    lemma_store_held(code, st, code, after);
}

/// The record of a call keeps the store good.
pub proof fn lemma_record_keeps_good(
    code: Code,
    st: StoreModel,
    rec: crate::store::CallRecord,
)
    requires
        good_store(code, st),
    ensures
        good_store(code, st.record_call(rec)),
{
    let after = st.record_call(rec);
    assert(frames_held(st, after));
    lemma_store_held(code, st, code, after);
}

/// What a good store holds in a variable is good.
pub proof fn lemma_read_is_good(
    code: Code,
    st: StoreModel,
    env: usize,
    depth: nat,
    slot: nat,
)
    requires
        good_store(code, st),
    ensures
        st.read_var(env, depth, slot) matches Some(v) ==> good_value(code, st, v),
{
    lemma_chain_ends_in_store(st, env, depth);
    match st.frame_at(env, depth) {
        Some(f) => {
            if slot < st.frames[f as int].slots.len() {
                assert(good_values(code, st, st.frames[f as int].slots));
            }
        },
        None => {},
    }
}

/// What a good store holds in an element is good.
pub proof fn lemma_element_is_good(code: Code, st: StoreModel, c: Value, index: Value)
    requires
        good_store(code, st),
    ensures
        st.get_element(c, index) matches Ok(v) ==> good_value(code, st, v),
{
    match c {
        Value::Vector(h) => {
            if h < st.vectors.len() {
                assert(good_values(code, st, st.vectors[h as int]));
            }
        },
        Value::Mapping(h) => {
            if h < st.maps.len() {
                crate::store::lemma_key_position_holds_key(st.strings, st.maps[h as int], index, 0);
                assert(good_pairs(code, st, st.maps[h as int]));
            }
        },
        _ => {},
    }
}

/// Whether the host never answers a call with a closure, nor with the
/// error of a bad address or of a bad constant.
pub open spec fn tame(o: Oracle) -> bool {
    forall|n: nat|
        !((#[trigger] o(n)) matches Ok(Value::Closure(_, _))) && o(n) != Err::<Value, RunError>(
            RunError::BadAddress,
        ) && o(n) != Err::<Value, RunError>(RunError::BadConstant)
}

/// Whether no call of the record was answered with a closure, nor with
/// the error of a bad address or of a bad constant.
pub open spec fn tame_trace(trace: Seq<crate::store::CallRecord>) -> bool {
    forall|i: int|
        0 <= i < trace.len() ==> !((#[trigger] trace[i]).reply matches Ok(Value::Closure(_, _)))
            && trace[i].reply != Err::<Value, RunError>(RunError::BadAddress) && trace[i].reply
            != Err::<Value, RunError>(RunError::BadConstant)
}

/// An oracle that gives the answers of the record, and `Null` after them.
pub open spec fn oracle_of(trace: Seq<crate::store::CallRecord>) -> Oracle {
    |n: nat|
        if n < trace.len() {
            trace[n as int].reply
        } else {
            Ok(Value::Null)
        }
}

/// Whether the result of an evaluation from the good store `st` is safe:
/// the store is still good, the result is no bad address, and a value
/// that came out is good.
pub open spec fn safe_value(
    code: Code,
    st: StoreModel,
    res: (StoreModel, Result<Value, RunError>),
) -> bool {
    &&& persists(st, res.0)
    &&& good_store(code, res.0)
    &&& res.1 != Err::<Value, RunError>(RunError::BadAddress)
    &&& res.1 != Err::<Value, RunError>(RunError::BadConstant)
    &&& (res.1 matches Ok(v) ==> good_value(code, res.0, v))
}

pub open spec fn safe_values(
    code: Code,
    st: StoreModel,
    res: (StoreModel, Result<Seq<Value>, RunError>),
) -> bool {
    &&& persists(st, res.0)
    &&& good_store(code, res.0)
    &&& res.1 != Err::<Seq<Value>, RunError>(RunError::BadAddress)
    &&& res.1 != Err::<Seq<Value>, RunError>(RunError::BadConstant)
    &&& (res.1 matches Ok(vs) ==> good_values(code, res.0, vs))
}

pub open spec fn safe_unit(
    code: Code,
    st: StoreModel,
    res: (StoreModel, Result<(), RunError>),
) -> bool {
    &&& persists(st, res.0)
    &&& good_store(code, res.0)
    &&& res.1 != Err::<(), RunError>(RunError::BadAddress)
    &&& res.1 != Err::<(), RunError>(RunError::BadConstant)
}

pub open spec fn safe_outcome(
    code: Code,
    st: StoreModel,
    res: (StoreModel, Result<Outcome, RunError>),
) -> bool {
    &&& persists(st, res.0)
    &&& good_store(code, res.0)
    &&& res.1 != Err::<Outcome, RunError>(RunError::BadAddress)
    &&& res.1 != Err::<Outcome, RunError>(RunError::BadConstant)
    &&& (res.1 matches Ok(Outcome::Returned(v)) ==> good_value(code, res.0, v))
}

/// What fits and what is good are carried along where the store persists.
pub proof fn lemma_carry(
    code: Code,
    st: StoreModel,
    after: StoreModel,
    env: usize,
    shape: Seq<nat>,
)
    requires
        persists(st, after),
        fits(st, env, shape),
    ensures
        fits(after, env, shape),
{
    lemma_fits_held(st, after, env, shape);
}

pub proof fn lemma_carry_value(code: Code, st: StoreModel, after: StoreModel, v: Value)
    requires
        persists(st, after),
        good_value(code, st, v),
    ensures
        good_value(code, after, v),
{
    lemma_value_held(code, st, code, after, v);
}

pub proof fn lemma_carry_values(
    code: Code,
    st: StoreModel,
    after: StoreModel,
    vs: Seq<Value>,
)
    requires
        persists(st, after),
        good_values(code, st, vs),
    ensures
        good_values(code, after, vs),
{
    lemma_values_held(code, st, code, after, vs);
}

/// An address within sizes that a chain fits finds its slot.
pub proof fn lemma_address_is_found(
    st: StoreModel,
    env: usize,
    shape: Seq<nat>,
    depth: usize,
    slot: usize,
)
    requires
        fits(st, env, shape),
        address_ok(shape, depth, slot),
    ensures
        st.read_var(env, depth as nat, slot as nat) is Some,
        forall|v: Value| st.write_var(env, depth as nat, slot as nat, v) is Some,
{
    assert(st.frame_at(env, depth as nat) is Some);
}

/// A closure of a resolved function over a chain that fits is good.
pub proof fn lemma_closure_is_good(
    code: Code,
    st: StoreModel,
    k: usize,
    env: usize,
    shape: Seq<nat>,
)
    requires
        resolved_func(code, k, shape),
        fits(st, env, shape),
    ensures
        good_value(code, st, Value::Closure(k, env)),
{
    let v = Value::Closure(k, env);
    assert(resolved_func(code, k, shape) && fits(st, env, shape));
    assert(exists|s: Seq<nat>| #[trigger] resolved_func(code, k, s) && fits(st, env, s));
    assert(v matches Value::Closure(a, b) && a == k && b == env);
}

/// The slots of the frame of a call are good where the arguments are.
pub proof fn lemma_call_slots_good(
    code: Code,
    st: StoreModel,
    args: Seq<Value>,
    num_params: nat,
    size: nat,
)
    requires
        good_values(code, st, args),
    ensures
        good_values(code, st, call_slots(args, num_params, size)),
        call_slots(args, num_params, size).len() == size,
{
    let slots = call_slots(args, num_params, size);
    assert forall|i: int| 0 <= i < slots.len() implies good_value(code, st, #[trigger] slots[i]) by {
        if i < num_params && i < args.len() {
            assert(slots[i] == args[i]);
        }
    }
}

/// The evaluation of a resolved expression, in a good store and in a
/// frame whose chain fits the sizes the expression was resolved within,
/// meets no bad address, and leaves the store good.
#[verifier::spinoff_prover]
#[verifier::rlimit(60)]
pub proof fn lemma_eval_expr_safe(
    p: ProgramModel,
    o: Oracle,
    st: StoreModel,
    env: usize,
    e: Expr,
    fuel: nat,
    limit: nat,
    shape: Seq<nat>,
)
    requires
        good_store(code_of(p), st),
        fits(st, env, shape),
        resolved_expr(code_of(p), limit, shape, e),
        tame(o),
        eval_expr(p, o, st, env, e, fuel).0.frames.len() <= usize::MAX,
    ensures
        safe_value(code_of(p), st, eval_expr(p, o, st, env, e, fuel)),
    decreases fuel, 1nat, e,
{
    let code = code_of(p);
    lemma_eval_expr_persists(p, o, st, env, e, fuel);
    match e {
        Expr::NumberLiteral(_) => {},
        Expr::StringLiteral(k) => {
            if k < p.strings.len() {
                lemma_string_keeps_good(code, st, p.strings[k as int]);
            }
        },
        Expr::VariableRef(depth, slot) => {
            lemma_address_is_found(st, env, shape, depth, slot);
            lemma_read_is_good(code, st, env, depth as nat, slot as nat);
        },
        Expr::VecLiteral(items) => {
            let (st1, r1) = eval_list(p, o, st, env, items, fuel, Seq::empty());
            lemma_eval_list_safe(p, o, st, env, items, fuel, Seq::empty(), limit, shape);
            if r1 is Ok {
                lemma_vector_keeps_good(code, st1, r1.unwrap());
            }
        },
        Expr::MapLiteral(entries) => {
            let map = Value::Mapping(st.maps.len() as usize);
            let st0 = st.push_map(Seq::empty());
            lemma_map_keeps_good(code, st);
            assert(persists(st, st0));
            lemma_carry(code, st, st0, env, shape);
            lemma_eval_entries_safe(p, o, st0, env, map, entries, fuel, limit, shape);
        },
        Expr::ElementAccess(container, index) => {
            let (st1, r1) = eval_expr(p, o, st, env, *container, fuel);
            if r1 is Ok {
                lemma_eval_expr_persists(p, o, st1, env, *index, fuel);
            }
            lemma_eval_expr_safe(p, o, st, env, *container, fuel, limit, shape);
            if r1 is Ok {
                lemma_carry(code, st, st1, env, shape);
                lemma_eval_expr_safe(p, o, st1, env, *index, fuel, limit, shape);
                let (st2, r2) = eval_expr(p, o, st1, env, *index, fuel);
                if r2 is Ok {
                    lemma_element_is_good(code, st2, r1.unwrap(), r2.unwrap());
                }
            }
        },
        Expr::VarAssign(depth, slot, value) => {
            let (st1, r1) = eval_expr(p, o, st, env, *value, fuel);
            if r1 is Ok {
                lemma_write_persists(st1, env, depth as nat, slot as nat, r1.unwrap());
            }
            lemma_eval_expr_safe(p, o, st, env, *value, fuel, limit, shape);
            if r1 is Ok {
                lemma_carry(code, st, st1, env, shape);
                lemma_address_is_found(st1, env, shape, depth, slot);
                lemma_write_keeps_good(code, st1, env, depth as nat, slot as nat, r1.unwrap());
                let st2 = st1.write_var(env, depth as nat, slot as nat, r1.unwrap()).unwrap();
                lemma_carry_value(code, st1, st2, r1.unwrap());
            }
        },
        Expr::ElemAssign(container, index, value) => {
            let (st1, r1) = eval_expr(p, o, st, env, *container, fuel);
            if r1 is Ok {
                let (st2, r2) = eval_expr(p, o, st1, env, *index, fuel);
                lemma_eval_expr_persists(p, o, st1, env, *index, fuel);
                if r2 is Ok {
                    let (st3, r3) = eval_expr(p, o, st2, env, *value, fuel);
                    lemma_eval_expr_persists(p, o, st2, env, *value, fuel);
                    if r3 is Ok {
                        lemma_set_persists(st3, r1.unwrap(), r2.unwrap(), r3.unwrap());
                    }
                }
            }
            lemma_eval_expr_safe(p, o, st, env, *container, fuel, limit, shape);
            if r1 is Ok {
                let (st2, r2) = eval_expr(p, o, st1, env, *index, fuel);
                lemma_carry(code, st, st1, env, shape);
                lemma_eval_expr_safe(p, o, st1, env, *index, fuel, limit, shape);
                if r2 is Ok {
                    let (st3, r3) = eval_expr(p, o, st2, env, *value, fuel);
                    lemma_carry(code, st1, st2, env, shape);
                    lemma_eval_expr_safe(p, o, st2, env, *value, fuel, limit, shape);
                    if r3 is Ok {
                        lemma_carry_value(code, st2, st3, r2.unwrap());
                        match st3.set_element(r1.unwrap(), r2.unwrap(), r3.unwrap()) {
                            Ok(st4) => {
                                lemma_set_keeps_good(
                                    code,
                                    st3,
                                    r1.unwrap(),
                                    r2.unwrap(),
                                    r3.unwrap(),
                                );
                                lemma_carry_value(code, st3, st4, r3.unwrap());
                            },
                            Err(_) => {},
                        }
                    }
                }
            }
        },
        Expr::BinaryOp(depth, slot, left, right) => {
            let (st1, r1) = eval_expr(p, o, st, env, *left, fuel);
            if r1 is Ok {
                let (st2, r2) = eval_expr(p, o, st1, env, *right, fuel);
                lemma_eval_expr_persists(p, o, st1, env, *right, fuel);
                if r2 is Ok {
                    match st2.read_var(env, depth as nat, slot as nat) {
                        Some(f) => {
                            lemma_call_value_persists(
                                p,
                                o,
                                st2,
                                env,
                                f,
                                seq![r1.unwrap(), r2.unwrap()],
                                fuel,
                            );
                        },
                        None => {},
                    }
                }
            }
            lemma_eval_expr_safe(p, o, st, env, *left, fuel, limit, shape);
            if r1 is Ok {
                let (st2, r2) = eval_expr(p, o, st1, env, *right, fuel);
                lemma_carry(code, st, st1, env, shape);
                lemma_eval_expr_safe(p, o, st1, env, *right, fuel, limit, shape);
                if r2 is Ok {
                    lemma_carry(code, st1, st2, env, shape);
                    lemma_carry_value(code, st1, st2, r1.unwrap());
                    lemma_address_is_found(st2, env, shape, depth, slot);
                    lemma_read_is_good(code, st2, env, depth as nat, slot as nat);
                    let f = st2.read_var(env, depth as nat, slot as nat).unwrap();
                    let args = seq![r1.unwrap(), r2.unwrap()];
                    assert(good_values(code, st2, args));
                    lemma_call_value_safe(p, o, st2, env, f, args, fuel);
                }
            }
        },
        Expr::PrefixOp(depth, slot, operand) => {
            let (st1, r1) = eval_expr(p, o, st, env, *operand, fuel);
            if r1 is Ok {
                match st1.read_var(env, depth as nat, slot as nat) {
                    Some(f) => {
                        lemma_call_value_persists(p, o, st1, env, f, seq![r1.unwrap()], fuel);
                    },
                    None => {},
                }
            }
            lemma_eval_expr_safe(p, o, st, env, *operand, fuel, limit, shape);
            if r1 is Ok {
                lemma_carry(code, st, st1, env, shape);
                lemma_address_is_found(st1, env, shape, depth, slot);
                lemma_read_is_good(code, st1, env, depth as nat, slot as nat);
                let f = st1.read_var(env, depth as nat, slot as nat).unwrap();
                let args = seq![r1.unwrap()];
                assert(good_values(code, st1, args));
                lemma_call_value_safe(p, o, st1, env, f, args, fuel);
            }
        },
        Expr::FuncCall(callee, args) => {
            let (st1, r1) = eval_expr(p, o, st, env, *callee, fuel);
            if r1 is Ok {
                let (st2, r2) = eval_list(p, o, st1, env, args, fuel, Seq::empty());
                lemma_eval_list_persists(p, o, st1, env, args, fuel, Seq::empty());
                if r2 is Ok {
                    lemma_call_value_persists(p, o, st2, env, r1.unwrap(), r2.unwrap(), fuel);
                }
            }
            lemma_eval_expr_safe(p, o, st, env, *callee, fuel, limit, shape);
            if r1 is Ok {
                let (st2, r2) = eval_list(p, o, st1, env, args, fuel, Seq::empty());
                lemma_carry(code, st, st1, env, shape);
                lemma_eval_list_safe(p, o, st1, env, args, fuel, Seq::empty(), limit, shape);
                if r2 is Ok {
                    lemma_carry_value(code, st1, st2, r1.unwrap());
                    lemma_call_value_safe(p, o, st2, env, r1.unwrap(), r2.unwrap(), fuel);
                }
            }
        },
        Expr::FuncDefLiteral(k) => {
            lemma_closure_is_good(code, st, k, env, shape);
        },
    }
}

pub proof fn lemma_eval_list_safe(
    p: ProgramModel,
    o: Oracle,
    st: StoreModel,
    env: usize,
    l: ExprList,
    fuel: nat,
    acc: Seq<Value>,
    limit: nat,
    shape: Seq<nat>,
)
    requires
        good_store(code_of(p), st),
        good_values(code_of(p), st, acc),
        fits(st, env, shape),
        resolved_list(code_of(p), limit, shape, l),
        tame(o),
        eval_list(p, o, st, env, l, fuel, acc).0.frames.len() <= usize::MAX,
    ensures
        safe_values(code_of(p), st, eval_list(p, o, st, env, l, fuel, acc)),
    decreases fuel, 1nat, l,
{
    let code = code_of(p);
    lemma_eval_list_persists(p, o, st, env, l, fuel, acc);
    match l {
        ExprList::Nil => {},
        ExprList::Cons(first, rest) => {
            let (st1, r1) = eval_expr(p, o, st, env, *first, fuel);
            if r1 is Ok {
                lemma_eval_list_persists(p, o, st1, env, *rest, fuel, acc.push(r1.unwrap()));
            }
            lemma_eval_expr_safe(p, o, st, env, *first, fuel, limit, shape);
            if r1 is Ok {
                lemma_carry(code, st, st1, env, shape);
                lemma_carry_values(code, st, st1, acc);
                let longer = acc.push(r1.unwrap());
                assert(good_values(code, st1, longer)) by {
                    assert forall|i: int| 0 <= i < longer.len() implies good_value(
                        code,
                        st1,
                        #[trigger] longer[i],
                    ) by {
                        if i < acc.len() {
                            assert(longer[i] == acc[i]);
                        }
                    }
                }
                lemma_eval_list_safe(p, o, st1, env, *rest, fuel, longer, limit, shape);
            }
        },
    }
}

pub proof fn lemma_eval_entries_safe(
    p: ProgramModel,
    o: Oracle,
    st: StoreModel,
    env: usize,
    map: Value,
    l: EntryList,
    fuel: nat,
    limit: nat,
    shape: Seq<nat>,
)
    requires
        good_store(code_of(p), st),
        fits(st, env, shape),
        resolved_entries(code_of(p), limit, shape, l),
        tame(o),
        !(map is Closure),
        eval_entries(p, o, st, env, map, l, fuel).0.frames.len() <= usize::MAX,
    ensures
        safe_unit(code_of(p), st, eval_entries(p, o, st, env, map, l, fuel)),
    decreases fuel, 1nat, l,
{
    let code = code_of(p);
    lemma_eval_entries_persists(p, o, st, env, map, l, fuel);
    match l {
        EntryList::Nil => {},
        EntryList::Cons(k, value, rest) => {
            if k < p.strings.len() {
                let key = Value::Str(st.strings.len() as usize);
                let st0 = st.push_string(p.strings[k as int]);
                lemma_string_keeps_good(code, st, p.strings[k as int]);
                assert(persists(st, st0));
                lemma_carry(code, st, st0, env, shape);
                let (st1, r1) = eval_expr(p, o, st0, env, *value, fuel);
                if r1 is Ok {
                    lemma_set_persists(st1, map, key, r1.unwrap());
                    match st1.set_element(map, key, r1.unwrap()) {
                        Ok(st2) => {
                            lemma_eval_entries_persists(p, o, st2, env, map, *rest, fuel);
                        },
                        Err(_) => {},
                    }
                }
                lemma_eval_expr_safe(p, o, st0, env, *value, fuel, limit, shape);
                if r1 is Ok {
                    match st1.set_element(map, key, r1.unwrap()) {
                        Ok(st2) => {
                            lemma_set_keeps_good(code, st1, map, key, r1.unwrap());
                            lemma_carry(code, st0, st1, env, shape);
                            lemma_carry(code, st1, st2, env, shape);
                            lemma_eval_entries_safe(p, o, st2, env, map, *rest, fuel, limit, shape);
                        },
                        Err(_) => {},
                    }
                }
            }
        },
    }
}

pub proof fn lemma_call_value_safe(
    p: ProgramModel,
    o: Oracle,
    st: StoreModel,
    caller: usize,
    f: Value,
    args: Seq<Value>,
    fuel: nat,
)
    requires
        good_store(code_of(p), st),
        good_value(code_of(p), st, f),
        good_values(code_of(p), st, args),
        tame(o),
        call_value(p, o, st, caller, f, args, fuel).0.frames.len() <= usize::MAX,
    ensures
        safe_value(code_of(p), st, call_value(p, o, st, caller, f, args, fuel)),
    decreases fuel, 0nat, f,
{
    let code = code_of(p);
    lemma_call_value_persists(p, o, st, caller, f, args, fuel);
    if fuel > 0 {
        match f {
            Value::Closure(k, captured) => {
                let shape = choose|shape: Seq<nat>|
                    #[trigger] resolved_func(code, k, shape) && fits(st, captured, shape);
                let def = code.funcs[k as int];
                let size = (def.num_params + def.body.decl_slots()) as nat;
                assert(call_shape(def, shape)[0] == size);
                let slots = call_slots(args, def.num_params as nat, size);
                let st1 = st.push_frame(slots, Some(captured));
                let frame = st.frames.len() as usize;
                lemma_run_block_persists(
                    p,
                    o,
                    st1,
                    frame,
                    def.body,
                    def.num_params as nat,
                    (fuel - 1) as nat,
                );
                lemma_call_slots_good(code, st, args, def.num_params as nat, size);
                lemma_frame_keeps_good(code, st, slots, captured, shape);
                assert(seq![slots.len()] + shape == call_shape(def, shape));
                lemma_run_block_safe(
                    p,
                    o,
                    st1,
                    frame,
                    def.body,
                    def.num_params as nat,
                    (fuel - 1) as nat,
                    k as nat,
                    call_shape(def, shape),
                );
            },
            Value::Native(native) => {
                let reply = o(st.trace.len());
                lemma_record_keeps_good(
                    code,
                    st,
                    crate::store::CallRecord { native, args, caller, reply },
                );
            },
            _ => {},
        }
    }
}

pub proof fn lemma_run_block_safe(
    p: ProgramModel,
    o: Oracle,
    st: StoreModel,
    frame: usize,
    b: Block,
    slot: nat,
    fuel: nat,
    limit: nat,
    shape: Seq<nat>,
)
    requires
        good_store(code_of(p), st),
        fits(st, frame, shape),
        resolved_block(code_of(p), limit, shape, b, slot),
        tame(o),
        run_block(p, o, st, frame, b, slot, fuel).0.frames.len() <= usize::MAX,
    ensures
        safe_outcome(code_of(p), st, run_block(p, o, st, frame, b, slot, fuel)),
    decreases fuel, 2nat, b,
{
    let code = code_of(p);
    lemma_run_block_persists(p, o, st, frame, b, slot, fuel);
    match b.decl {
        Declaration::VarInit(init) => {
            let (st1, r1) = eval_expr(p, o, st, frame, init, fuel);
            if r1 is Ok {
                lemma_write_persists(st1, frame, 0, slot, r1.unwrap());
                match st1.write_var(frame, 0, slot, r1.unwrap()) {
                    Some(st2) => {
                        lemma_exec_list_persists(p, o, st2, frame, b.stmts, fuel);
                    },
                    None => {},
                }
            }
            lemma_eval_expr_safe(p, o, st, frame, init, fuel, limit, shape);
            if r1 is Ok {
                lemma_carry(code, st, st1, frame, shape);
                assert(st1.frame_at(frame, 0) is Some);
                assert(st1.write_var(frame, 0, slot, r1.unwrap()) is Some);
                lemma_write_keeps_good(code, st1, frame, 0, slot, r1.unwrap());
                let st2 = st1.write_var(frame, 0, slot, r1.unwrap()).unwrap();
                lemma_carry(code, st1, st2, frame, shape);
                lemma_exec_list_safe(p, o, st2, frame, b.stmts, fuel, limit, shape);
            }
        },
        _ => {
            lemma_exec_list_safe(p, o, st, frame, b.stmts, fuel, limit, shape);
        },
    }
}

pub proof fn lemma_exec_list_safe(
    p: ProgramModel,
    o: Oracle,
    st: StoreModel,
    env: usize,
    l: StmtList,
    fuel: nat,
    limit: nat,
    shape: Seq<nat>,
)
    requires
        good_store(code_of(p), st),
        fits(st, env, shape),
        resolved_stmts(code_of(p), limit, shape, l),
        tame(o),
        exec_list(p, o, st, env, l, fuel).0.frames.len() <= usize::MAX,
    ensures
        safe_outcome(code_of(p), st, exec_list(p, o, st, env, l, fuel)),
    decreases fuel, 2nat, l,
{
    let code = code_of(p);
    lemma_exec_list_persists(p, o, st, env, l, fuel);
    match l {
        StmtList::Nil => {},
        StmtList::Cons(first, rest) => {
            let (st1, r1) = exec_stmt(p, o, st, env, *first, fuel);
            if r1 == Ok::<Outcome, RunError>(Outcome::Completed) {
                lemma_exec_list_persists(p, o, st1, env, *rest, fuel);
            }
            lemma_exec_stmt_safe(p, o, st, env, *first, fuel, limit, shape);
            if r1 == Ok::<Outcome, RunError>(Outcome::Completed) {
                lemma_carry(code, st, st1, env, shape);
                lemma_exec_list_safe(p, o, st1, env, *rest, fuel, limit, shape);
            }
        },
    }
}

pub proof fn lemma_exec_stmt_safe(
    p: ProgramModel,
    o: Oracle,
    st: StoreModel,
    env: usize,
    s: Stmt,
    fuel: nat,
    limit: nat,
    shape: Seq<nat>,
)
    requires
        good_store(code_of(p), st),
        fits(st, env, shape),
        resolved_stmt(code_of(p), limit, shape, s),
        tame(o),
        exec_stmt(p, o, st, env, s, fuel).0.frames.len() <= usize::MAX,
    ensures
        safe_outcome(code_of(p), st, exec_stmt(p, o, st, env, s, fuel)),
    decreases fuel, 2nat, s,
{
    let code = code_of(p);
    lemma_exec_stmt_persists(p, o, st, env, s, fuel);
    match s {
        Stmt::Expression(e) => {
            lemma_eval_expr_safe(p, o, st, env, e, fuel, limit, shape);
        },
        Stmt::Block(b) => {
            let slots = call_slots(Seq::empty(), 0, b.decl_slots());
            let st1 = st.push_frame(slots, Some(env));
            let frame = st.frames.len() as usize;
            lemma_run_block_persists(p, o, st1, frame, b, 0, fuel);
            assert(good_values(code, st, Seq::<Value>::empty()));
            lemma_call_slots_good(code, st, Seq::empty(), 0, b.decl_slots());
            lemma_frame_keeps_good(code, st, slots, env, shape);
            lemma_run_block_safe(p, o, st1, frame, b, 0, fuel, limit, seq![b.decl_slots()] + shape);
        },
        Stmt::If(test, then_stmt, else_stmt) => {
            let (st1, r1) = eval_expr(p, o, st, env, test, fuel);
            if r1 is Ok {
                if r1.unwrap().truthy() {
                    lemma_exec_stmt_persists(p, o, st1, env, *then_stmt, fuel);
                } else {
                    match else_stmt {
                        Some(other) => lemma_exec_stmt_persists(p, o, st1, env, *other, fuel),
                        None => {},
                    }
                }
            }
            lemma_eval_expr_safe(p, o, st, env, test, fuel, limit, shape);
            if r1 is Ok {
                lemma_carry(code, st, st1, env, shape);
                if r1.unwrap().truthy() {
                    lemma_exec_stmt_safe(p, o, st1, env, *then_stmt, fuel, limit, shape);
                } else {
                    match else_stmt {
                        Some(other) => lemma_exec_stmt_safe(
                            p,
                            o,
                            st1,
                            env,
                            *other,
                            fuel,
                            limit,
                            shape,
                        ),
                        None => {},
                    }
                }
            }
        },
        Stmt::While(test, body) => {
            let (st1, r1) = eval_expr(p, o, st, env, test, fuel);
            if r1 is Ok && r1.unwrap().truthy() {
                let (st2, r2) = exec_stmt(p, o, st1, env, *body, fuel);
                lemma_exec_stmt_persists(p, o, st1, env, *body, fuel);
                if r2 == Ok::<Outcome, RunError>(Outcome::Completed) && fuel > 0 {
                    lemma_exec_stmt_persists(p, o, st2, env, s, (fuel - 1) as nat);
                }
            }
            lemma_eval_expr_safe(p, o, st, env, test, fuel, limit, shape);
            if r1 is Ok && r1.unwrap().truthy() {
                let (st2, r2) = exec_stmt(p, o, st1, env, *body, fuel);
                lemma_carry(code, st, st1, env, shape);
                lemma_exec_stmt_safe(p, o, st1, env, *body, fuel, limit, shape);
                if r2 == Ok::<Outcome, RunError>(Outcome::Completed) && fuel > 0 {
                    lemma_carry(code, st1, st2, env, shape);
                    lemma_exec_stmt_safe(p, o, st2, env, s, (fuel - 1) as nat, limit, shape);
                }
            }
        },
        Stmt::Return(Some(e)) => {
            lemma_eval_expr_safe(p, o, st, env, e, fuel, limit, shape);
        },
        _ => {},
    }
}

} // verus!
