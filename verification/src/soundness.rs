//! The resolver's promise: every address in a tree that the grammar yields
//! lies within the scopes that were open where the address was read, and
//! so within the frames that will be around it when it runs.

use crate::ast::{Block, EntryList, Expr, ExprList, FuncDef, Stmt, StmtList};
use crate::grammar::{
    address_of, binary_level, binary_name, declare_here, expect, forward, kind_at, onward,
    parse_binary, parse_body, parse_declared_body, parse_entries, parse_expr, parse_function,
    parse_items, parse_more_entries, parse_more_items, parse_operands, parse_params,
    parse_postfix, parse_prefix, parse_primary, parse_program, parse_statement,
    parse_statements, parse_suffixes, parse_test, prefix_name, text_at, ParserModel,
};
use crate::lexer::{TokenKind, TokenModel};
use crate::resolution::{
    address_ok, call_shape, code_kept, funcs_kept, Code, lemma_block_stays_resolved, lemma_expr_stays_resolved, lemma_resolved_address_ok,
    lemma_func_stays_resolved, lemma_stmt_stays_resolved, resolved_block, resolved_entries,
    resolved_expr, resolved_func, resolved_list, resolved_stmt, resolved_stmts, shape_of,
    shape_within,
};
use vstd::prelude::*;

verus! {

/// Whether the counts of the state fit the machine's numbers even when
/// every token still to read adds to them.
pub open spec fn room(toks: Seq<TokenModel>, st: ParserModel) -> bool {
    &&& 0 <= st.pos <= toks.len()
    &&& st.scopes.len() >= 1
    &&& st.scopes.len() + (toks.len() - st.pos) <= usize::MAX
    &&& forall|i: int|
        0 <= i < st.scopes.len() ==> (#[trigger] st.scopes[i]).len() + (toks.len() - st.pos)
            <= usize::MAX
    &&& st.funcs.len() + (toks.len() - st.pos) <= usize::MAX
    &&& st.numbers.len() + (toks.len() - st.pos) <= usize::MAX
    &&& st.strings.len() + (toks.len() - st.pos) <= usize::MAX
}

/// Whether one more scope can be opened before a token is read.
pub open spec fn spare(toks: Seq<TokenModel>, st: ParserModel) -> bool {
    st.scopes.len() + (toks.len() - st.pos) < usize::MAX
}

/// Whether `after` is a state that parsing can reach from `st`: it has
/// not gone back, it has kept the functions and the constants, and it has
/// added no more of either than it has read tokens.
pub open spec fn reached(toks: Seq<TokenModel>, st: ParserModel, after: ParserModel) -> bool {
    &&& st.pos <= after.pos <= toks.len()
    &&& funcs_kept(st.funcs, after.funcs)
    &&& after.funcs.len() + st.pos <= st.funcs.len() + after.pos
    &&& st.numbers.len() <= after.numbers.len()
    &&& after.numbers.len() + st.pos <= st.numbers.len() + after.pos
    &&& st.strings.len() <= after.strings.len()
    &&& after.strings.len() + st.pos <= st.strings.len() + after.pos
}

/// Whether `after` has the scopes of `st`, but for names that the innermost
/// scope has gained, no more of them than tokens were read.
pub open spec fn declared(st: ParserModel, after: ParserModel, gained: nat) -> bool {
    &&& after.scopes.len() == st.scopes.len()
    &&& after.scopes.drop_last() == st.scopes.drop_last()
    &&& after.scopes.last().len() == st.scopes.last().len() + gained
    &&& gained + st.pos <= after.pos
}

/// What the program offers to its trees in the state.
pub open spec fn code_at(st: ParserModel) -> Code {
    Code { funcs: st.funcs, numbers: st.numbers.len(), strings: st.strings.len() }
}

/// Whether the expression is resolved in the state.
pub open spec fn sound_expr(st: ParserModel, e: Expr) -> bool {
    resolved_expr(code_at(st), st.funcs.len(), shape_of(st.scopes), e)
}

pub open spec fn sound_list(st: ParserModel, l: ExprList) -> bool {
    resolved_list(code_at(st), st.funcs.len(), shape_of(st.scopes), l)
}

pub open spec fn sound_entries(st: ParserModel, l: EntryList) -> bool {
    resolved_entries(code_at(st), st.funcs.len(), shape_of(st.scopes), l)
}

pub open spec fn sound_stmt(st: ParserModel, s: Stmt) -> bool {
    resolved_stmt(code_at(st), st.funcs.len(), shape_of(st.scopes), s)
}

pub open spec fn sound_stmts(st: ParserModel, l: StmtList) -> bool {
    resolved_stmts(code_at(st), st.funcs.len(), shape_of(st.scopes), l)
}

/// Sizes are within themselves.
pub proof fn lemma_shape_within_itself(shape: Seq<nat>)
    ensures
        shape_within(shape, shape),
{
}

/// An expression that is resolved in a state is resolved in every state
/// reached from it that has the same scopes.
pub proof fn lemma_lift_expr(toks: Seq<TokenModel>, st: ParserModel, after: ParserModel, e: Expr)
    requires
        sound_expr(st, e),
        code_kept(code_at(st), code_at(after)),
        after.scopes == st.scopes,
    ensures
        sound_expr(after, e),
{
    lemma_expr_stays_resolved(
        code_at(st),
        st.funcs.len(),
        shape_of(st.scopes),
        e,
        code_at(after),
        after.funcs.len(),
        shape_of(after.scopes),
    );
}

pub proof fn lemma_lift_stmt(toks: Seq<TokenModel>, st: ParserModel, after: ParserModel, s: Stmt)
    requires
        sound_stmt(st, s),
        code_kept(code_at(st), code_at(after)),
        after.scopes == st.scopes,
    ensures
        sound_stmt(after, s),
{
    lemma_stmt_stays_resolved(
        code_at(st),
        st.funcs.len(),
        shape_of(st.scopes),
        s,
        code_at(after),
        after.funcs.len(),
        shape_of(after.scopes),
    );
}

/// The address of a name lies within the scopes, and is the same as a pair
/// of machine numbers.
pub proof fn lemma_address(toks: Seq<TokenModel>, st: ParserModel, name: Seq<char>)
    requires
        room(toks, st),
    ensures
        address_of(toks, st, name) matches Ok((depth, slot)) ==> address_ok(
            shape_of(st.scopes),
            depth,
            slot,
        ),
{
    lemma_resolved_address_ok(st.scopes, name);
    match crate::resolver::resolve_in(st.scopes, name) {
        Some((depth, slot)) => {
            assert(st.scopes[st.scopes.len() - 1 - depth].len() <= usize::MAX);
        },
        None => {},
    }
}

#[verifier::spinoff_prover]
pub proof fn lemma_parse_primary(toks: Seq<TokenModel>, st: ParserModel)
    requires
        room(toks, st),
        spare(toks, st),
    ensures
        parse_primary(toks, st) matches Ok((e, after)) ==> reached(toks, st, after)
            && after.scopes == st.scopes && sound_expr(after, e),
    decreases toks.len() - st.pos, 1int,
{
    reveal_with_fuel(parse_primary, 1);
    match kind_at(toks, st.pos) {
        TokenKind::Name => {
            lemma_address(toks, st, text_at(toks, st.pos));
        },
        TokenKind::OpenParen => {
            lemma_parse_expr(toks, st.step());
        },
        TokenKind::OpenBracket => {
            lemma_parse_items(toks, st.step(), TokenKind::CloseBracket);
        },
        TokenKind::OpenBrace => {
            lemma_parse_entries(toks, st.step());
        },
        TokenKind::Function => {
            lemma_parse_function(toks, st.step());
        },
        _ => {},
    }
}

#[verifier::spinoff_prover]
pub proof fn lemma_parse_postfix(toks: Seq<TokenModel>, st: ParserModel)
    requires
        room(toks, st),
        spare(toks, st),
    ensures
        parse_postfix(toks, st) matches Ok((e, after)) ==> reached(toks, st, after)
            && after.scopes == st.scopes && sound_expr(after, e),
    decreases toks.len() - st.pos, 2int,
{
    reveal_with_fuel(parse_postfix, 1);
    lemma_parse_primary(toks, st);
    match forward(toks, st, parse_primary(toks, st)) {
        Ok((e, st1)) => {
            lemma_parse_suffixes(toks, st1, e);
        },
        Err(_) => {},
    }
}

#[verifier::spinoff_prover]
pub proof fn lemma_parse_suffixes(toks: Seq<TokenModel>, st: ParserModel, e: Expr)
    requires
        room(toks, st),
        spare(toks, st),
        sound_expr(st, e),
    ensures
        parse_suffixes(toks, st, e) matches Ok((r, after)) ==> reached(toks, st, after)
            && after.scopes == st.scopes && sound_expr(after, r),
    decreases toks.len() - st.pos, 0int,
{
    reveal_with_fuel(parse_suffixes, 1);
    match kind_at(toks, st.pos) {
        TokenKind::OpenParen => {
            lemma_parse_items(toks, st.step(), TokenKind::CloseParen);
            match onward(toks, st.step(), parse_items(toks, st.step(), TokenKind::CloseParen)) {
                Ok((args, st1)) => match expect(toks, st1, TokenKind::CloseParen) {
                    Ok((_, st2)) => {
                        lemma_lift_expr(toks, st, st2, e);
                        lemma_parse_suffixes(toks, st2, Expr::FuncCall(Box::new(e), args));
                    },
                    Err(_) => {},
                },
                Err(_) => {},
            }
        },
        TokenKind::OpenBracket => {
            lemma_parse_expr(toks, st.step());
            match onward(toks, st.step(), parse_expr(toks, st.step())) {
                Ok((index, st1)) => match expect(toks, st1, TokenKind::CloseBracket) {
                    Ok((_, st2)) => {
                        lemma_lift_expr(toks, st, st2, e);
                        lemma_parse_suffixes(
                            toks,
                            st2,
                            Expr::ElementAccess(Box::new(e), Box::new(index)),
                        );
                    },
                    Err(_) => {},
                },
                Err(_) => {},
            }
        },
        _ => {},
    }
}

#[verifier::spinoff_prover]
pub proof fn lemma_parse_prefix(toks: Seq<TokenModel>, st: ParserModel)
    requires
        room(toks, st),
        spare(toks, st),
    ensures
        parse_prefix(toks, st) matches Ok((e, after)) ==> reached(toks, st, after)
            && after.scopes == st.scopes && sound_expr(after, e),
    decreases toks.len() - st.pos, 3int,
{
    reveal_with_fuel(parse_prefix, 1);
    let kind = kind_at(toks, st.pos);
    if kind == TokenKind::Minus || kind == TokenKind::Bang {
        lemma_address(toks, st, prefix_name(kind));
        lemma_parse_prefix(toks, st.step());
    } else {
        lemma_parse_postfix(toks, st);
    }
}

#[verifier::spinoff_prover]
pub proof fn lemma_parse_binary(toks: Seq<TokenModel>, st: ParserModel, level: int)
    requires
        room(toks, st),
        spare(toks, st),
    ensures
        parse_binary(toks, st, level) matches Ok((e, after)) ==> reached(toks, st, after)
            && after.scopes == st.scopes && sound_expr(after, e),
    decreases toks.len() - st.pos, crate::grammar::level_rank(level),
{
    reveal_with_fuel(parse_binary, 1);
    if level < 1 || level > 5 {
        lemma_parse_prefix(toks, st);
    } else {
        lemma_parse_binary(toks, st, level + 1);
        match forward(toks, st, parse_binary(toks, st, level + 1)) {
            Ok((left, st1)) => {
                lemma_parse_operands(toks, st1, level, left);
            },
            Err(_) => {},
        }
    }
}

#[verifier::spinoff_prover]
pub proof fn lemma_parse_operands(toks: Seq<TokenModel>, st: ParserModel, level: int, left: Expr)
    requires
        room(toks, st),
        spare(toks, st),
        sound_expr(st, left),
    ensures
        parse_operands(toks, st, level, left) matches Ok((e, after)) ==> reached(toks, st, after)
            && after.scopes == st.scopes && sound_expr(after, e),
    decreases toks.len() - st.pos, 0int,
{
    reveal_with_fuel(parse_operands, 1);
    let kind = kind_at(toks, st.pos);
    if 1 <= level <= 5 && binary_level(kind) == level {
        lemma_address(toks, st, binary_name(kind));
        match address_of(toks, st, binary_name(kind)) {
            Ok((depth, slot)) => {
                lemma_parse_binary(toks, st.step(), level + 1);
                match onward(toks, st.step(), parse_binary(toks, st.step(), level + 1)) {
                    Ok((right, st1)) => {
                        lemma_lift_expr(toks, st, st1, left);
                        lemma_parse_operands(
                            toks,
                            st1,
                            level,
                            Expr::BinaryOp(depth, slot, Box::new(left), Box::new(right)),
                        );
                    },
                    Err(_) => {},
                }
            },
            Err(_) => {},
        }
    }
}

#[verifier::spinoff_prover]
pub proof fn lemma_parse_expr(toks: Seq<TokenModel>, st: ParserModel)
    requires
        room(toks, st),
        spare(toks, st),
    ensures
        parse_expr(toks, st) matches Ok((e, after)) ==> reached(toks, st, after) && after.scopes
            == st.scopes && sound_expr(after, e),
    decreases toks.len() - st.pos, 10int,
{
    reveal_with_fuel(parse_expr, 1);
    lemma_parse_binary(toks, st, 1);
    match forward(toks, st, parse_binary(toks, st, 1)) {
        Ok((target, st1)) => {
            if kind_at(toks, st1.pos) == TokenKind::Assign {
                lemma_parse_expr(toks, st1.step());
                match parse_expr(toks, st1.step()) {
                    Ok((value, st2)) => {
                        lemma_lift_expr(toks, st1, st2, target);
                    },
                    Err(_) => {},
                }
            }
        },
        Err(_) => {},
    }
}

#[verifier::spinoff_prover]
pub proof fn lemma_parse_items(toks: Seq<TokenModel>, st: ParserModel, close: TokenKind)
    requires
        room(toks, st),
        spare(toks, st),
    ensures
        parse_items(toks, st, close) matches Ok((l, after)) ==> reached(toks, st, after)
            && after.scopes == st.scopes && sound_list(after, l),
    decreases toks.len() - st.pos, 12int,
{
    reveal_with_fuel(parse_items, 1);
    if kind_at(toks, st.pos) != close {
        lemma_parse_more_items(toks, st);
    }
}

#[verifier::spinoff_prover]
pub proof fn lemma_parse_more_items(toks: Seq<TokenModel>, st: ParserModel)
    requires
        room(toks, st),
        spare(toks, st),
    ensures
        parse_more_items(toks, st) matches Ok((l, after)) ==> reached(toks, st, after)
            && after.scopes == st.scopes && sound_list(after, l),
    decreases toks.len() - st.pos, 11int,
{
    reveal_with_fuel(parse_more_items, 1);
    lemma_parse_expr(toks, st);
    match forward(toks, st, parse_expr(toks, st)) {
        Ok((first, st1)) => {
            if kind_at(toks, st1.pos) == TokenKind::Comma {
                lemma_parse_more_items(toks, st1.step());
                match parse_more_items(toks, st1.step()) {
                    Ok((rest, st2)) => {
                        lemma_lift_expr(toks, st1, st2, first);
                    },
                    Err(_) => {},
                }
            } else {
                assert(sound_list(st1, ExprList::Nil));
            }
        },
        Err(_) => {},
    }
}

#[verifier::spinoff_prover]
pub proof fn lemma_parse_entries(toks: Seq<TokenModel>, st: ParserModel)
    requires
        room(toks, st),
        spare(toks, st),
    ensures
        parse_entries(toks, st) matches Ok((l, after)) ==> reached(toks, st, after)
            && after.scopes == st.scopes && sound_entries(after, l),
    decreases toks.len() - st.pos, 12int,
{
    reveal_with_fuel(parse_entries, 1);
    if kind_at(toks, st.pos) != TokenKind::CloseBrace {
        lemma_parse_more_entries(toks, st);
    }
}

#[verifier::spinoff_prover]
pub proof fn lemma_parse_more_entries(toks: Seq<TokenModel>, st: ParserModel)
    requires
        room(toks, st),
        spare(toks, st),
    ensures
        parse_more_entries(toks, st) matches Ok((l, after)) ==> reached(toks, st, after)
            && after.scopes == st.scopes && sound_entries(after, l),
    decreases toks.len() - st.pos, 11int,
{
    reveal_with_fuel(parse_more_entries, 1);
    let kind = kind_at(toks, st.pos);
    if kind == TokenKind::Name || kind == TokenKind::Text {
        let st1 = ParserModel { strings: st.strings.push(text_at(toks, st.pos)), ..st.step() };
        match expect(toks, st1, TokenKind::Colon) {
            Ok((_, st2)) => {
                lemma_parse_expr(toks, st2);
                match onward(toks, st2, parse_expr(toks, st2)) {
                    Ok((value, st3)) => {
                        if kind_at(toks, st3.pos) == TokenKind::Comma {
                            lemma_parse_more_entries(toks, st3.step());
                            match parse_more_entries(toks, st3.step()) {
                                Ok((rest, st4)) => {
                                    lemma_lift_expr(toks, st3, st4, value);
                                },
                                Err(_) => {},
                            }
                        } else {
                            assert(sound_entries(st3, EntryList::Nil));
                        }
                    },
                    Err(_) => {},
                }
            },
            Err(_) => {},
        }
    }
}

/// Declaring a name adds it to the innermost scope and reads its token.
pub proof fn lemma_declare_here(toks: Seq<TokenModel>, st: ParserModel)
    requires
        room(toks, st),
    ensures
        declare_here(toks, st) matches Ok((slot, after)) ==> reached(toks, st, after) && declared(
            st,
            after,
            1,
        ) && slot == st.scopes.last().len() && after.pos == st.pos + 1 && code_at(after) == code_at(st),
{
    match declare_here(toks, st) {
        Ok((slot, after)) => {
            assert(st.scopes[st.scopes.len() - 1].len() + (toks.len() - st.pos) <= usize::MAX);
            assert(after.scopes.drop_last() =~= st.scopes.drop_last());
        },
        Err(_) => {},
    }
}

/// A state reached with names declared has room where the state before had.
pub proof fn lemma_room_after(
    toks: Seq<TokenModel>,
    st: ParserModel,
    after: ParserModel,
    gained: nat,
)
    requires
        room(toks, st),
        reached(toks, st, after),
        declared(st, after, gained),
    ensures
        room(toks, after),
        spare(toks, st) ==> spare(toks, after),
        st.pos < after.pos ==> spare(toks, after),
{
    assert forall|i: int| 0 <= i < after.scopes.len() implies (#[trigger] after.scopes[i]).len() + (
    toks.len() - after.pos) <= usize::MAX by {
        if i < after.scopes.len() - 1 {
            assert(after.scopes[i] == after.scopes.drop_last()[i]);
            assert(st.scopes[i] == st.scopes.drop_last()[i]);
        } else {
            assert(st.scopes[i].len() + (toks.len() - st.pos) <= usize::MAX);
        }
    }
}

/// The parameters join the innermost scope, one for each that was counted.
pub proof fn lemma_parse_params(toks: Seq<TokenModel>, st: ParserModel, count: nat)
    requires
        room(toks, st),
    ensures
        parse_params(toks, st, count) matches Ok((n, after)) ==> reached(toks, st, after)
            && code_at(after) == code_at(st) && n >= count && declared(st, after, (n - count) as nat)
            && (count > 0 ==> n > count),
    decreases toks.len() - st.pos,
{
    reveal_with_fuel(parse_params, 1);
    if count == 0 && kind_at(toks, st.pos) == TokenKind::CloseParen {
    } else {
        lemma_declare_here(toks, st);
        match declare_here(toks, st) {
            Ok((_, st1)) => {
                lemma_room_after(toks, st, st1, 1);
                if kind_at(toks, st1.pos) == TokenKind::Comma {
                    lemma_parse_params(toks, st1.step(), count + 1);
                    match parse_params(toks, st1.step(), count + 1) {
                        Ok((n, after)) => {
                            assert(after.scopes.drop_last() == st.scopes.drop_last());
                        },
                        Err(_) => {},
                    }
                }
            },
            Err(_) => {},
        }
    }
}

/// The sizes of the scopes with one more scope inside.
pub proof fn lemma_shape_of_inner(scopes: Seq<Seq<Seq<char>>>, inner: Seq<Seq<char>>)
    ensures
        shape_of(scopes.push(inner)) == seq![inner.len()] + shape_of(scopes),
{
    let a = shape_of(scopes.push(inner));
    let b = seq![inner.len()] + shape_of(scopes);
    assert(a.len() == b.len());
    assert forall|i: int| 0 <= i < a.len() implies a[i] == b[i] by {
        if i > 0 {
            assert(scopes.push(inner)[scopes.len() - i] == scopes[scopes.len() - i]);
        }
    }
    assert(a =~= b);
}

#[verifier::spinoff_prover]
pub proof fn lemma_parse_function(toks: Seq<TokenModel>, st: ParserModel)
    requires
        room(toks, st),
        spare(toks, st),
    ensures
        parse_function(toks, st) matches Ok((k, after)) ==> reached(toks, st, after)
            && after.scopes == st.scopes && st.pos < after.pos && k == after.funcs.len() - 1
            && resolved_func(code_at(after), k, shape_of(after.scopes)),
    decreases toks.len() - st.pos, 30int,
{
    reveal_with_fuel(parse_function, 1);
    match expect(toks, st, TokenKind::OpenParen) {
        Ok((_, st1)) => {
            lemma_parse_params(toks, st1.enter(), 0);
            match onward(toks, st1, parse_params(toks, st1.enter(), 0)) {
                Ok((num_params, st2)) => {
                    lemma_room_after(toks, st1.enter(), st2, num_params);
                    match expect(toks, st2, TokenKind::CloseParen) {
                        Ok((_, st3)) => match expect(toks, st3, TokenKind::OpenBrace) {
                            Ok((_, st4)) => {
                                lemma_parse_body(toks, st4);
                                match onward(toks, st4, parse_body(toks, st4)) {
                                    Ok((body, st5)) => match expect(
                                        toks,
                                        st5,
                                        TokenKind::CloseBrace,
                                    ) {
                                        Ok((_, st6)) => {
                                            let def = FuncDef {
                                                num_params: num_params as usize,
                                                body,
                                            };
                                            let after = ParserModel {
                                                funcs: st6.funcs.push(def),
                                                ..st6.leave()
                                            };
                                            let inner = st5.scopes.last();
                                            assert(st1.enter().scopes.drop_last() =~= st.scopes);
                                            assert(st5.scopes.drop_last() == st.scopes);
                                            assert(st5.scopes =~= st.scopes.push(inner));
                                            assert(after.scopes == st.scopes);
                                            lemma_shape_of_inner(st.scopes, inner);
                                            assert(st1.enter().scopes.last().len() == 0);
                                            assert(inner.len() == num_params + body.decl_slots());
                                            assert(inner.len() + (toks.len() - st5.pos)
                                                <= usize::MAX) by {
                                                assert(st5.scopes[st5.scopes.len() - 1] == inner);
                                            }
                                            assert(shape_of(st5.scopes) == call_shape(
                                                def,
                                                shape_of(st.scopes),
                                            ));
                                            lemma_shape_within_itself(shape_of(st5.scopes));
                                            lemma_block_stays_resolved(
                                                code_at(st5),
                                                st5.funcs.len(),
                                                shape_of(st5.scopes),
                                                body,
                                                num_params,
                                                code_at(after),
                                                st5.funcs.len(),
                                                shape_of(st5.scopes),
                                            );
                                        },
                                        Err(_) => {},
                                    },
                                    Err(_) => {},
                                }
                            },
                            Err(_) => {},
                        },
                        Err(_) => {},
                    }
                },
                Err(_) => {},
            }
        },
        Err(_) => {},
    }
}

#[verifier::spinoff_prover]
pub proof fn lemma_parse_body(toks: Seq<TokenModel>, st: ParserModel)
    requires
        room(toks, st),
        spare(toks, st),
    ensures
        parse_body(toks, st) matches Ok((b, after)) ==> reached(toks, st, after) && declared(
            st,
            after,
            b.decl_slots(),
        ) && resolved_block(
            code_at(after),
            after.funcs.len(),
            shape_of(after.scopes),
            b,
            st.scopes.last().len(),
        ),
    decreases toks.len() - st.pos, 22int,
{
    reveal_with_fuel(parse_body, 1);
    if kind_at(toks, st.pos) == TokenKind::Var {
        lemma_parse_declared_body(toks, st);
    } else {
        lemma_parse_statements(toks, st);
    }
}

#[verifier::spinoff_prover]
pub proof fn lemma_parse_declared_body(toks: Seq<TokenModel>, st: ParserModel)
    requires
        room(toks, st),
    ensures
        parse_declared_body(toks, st) matches Ok((b, after)) ==> reached(toks, st, after)
            && declared(st, after, 1) && b.decl_slots() == 1 && st.pos < after.pos
            && resolved_block(
            code_at(after),
            after.funcs.len(),
            shape_of(after.scopes),
            b,
            st.scopes.last().len(),
        ),
    decreases toks.len() - st.pos, 20int,
{
    reveal_with_fuel(parse_declared_body, 1);
    match expect(toks, st, TokenKind::Var) {
        Ok((_, st1)) => {
            lemma_declare_here(toks, st1);
            match declare_here(toks, st1) {
                Ok((_, st2)) => {
                    lemma_room_after(toks, st1, st2, 1);
                    let here = shape_of(st2.scopes);
                    assert(here[0] == st2.scopes.last().len());
                    if kind_at(toks, st2.pos) == TokenKind::Assign {
                        lemma_parse_expr(toks, st2.step());
                        match onward(toks, st2.step(), parse_expr(toks, st2.step())) {
                            Ok((init, st3)) => match expect(toks, st3, TokenKind::Semicolon) {
                                Ok((_, st4)) => {
                                    lemma_parse_statements(toks, st4);
                                    match parse_statements(toks, st4) {
                                        Ok((stmts, st5)) => {
                                            lemma_lift_expr(toks, st3, st5, init);
                                        },
                                        Err(_) => {},
                                    }
                                },
                                Err(_) => {},
                            },
                            Err(_) => {},
                        }
                    } else {
                        match expect(toks, st2, TokenKind::Semicolon) {
                            Ok((_, st3)) => {
                                lemma_parse_statements(toks, st3);
                            },
                            Err(_) => {},
                        }
                    }
                },
                Err(_) => {},
            }
        },
        Err(_) => {},
    }
}

#[verifier::spinoff_prover]
pub proof fn lemma_parse_statements(toks: Seq<TokenModel>, st: ParserModel)
    requires
        room(toks, st),
        spare(toks, st),
    ensures
        parse_statements(toks, st) matches Ok((l, after)) ==> reached(toks, st, after)
            && after.scopes == st.scopes && sound_stmts(after, l),
    decreases toks.len() - st.pos, 21int,
{
    reveal_with_fuel(parse_statements, 1);
    let kind = kind_at(toks, st.pos);
    if kind == TokenKind::CloseBrace || kind == TokenKind::End {
    } else if kind == TokenKind::Var {
        assert(st.enter().scopes.drop_last() =~= st.scopes);
        lemma_parse_declared_body(toks, st.enter());
        match parse_declared_body(toks, st.enter()) {
            Ok((inner, st1)) => {
                let scope = st1.scopes.last();
                assert(st1.scopes =~= st.scopes.push(scope));
                assert(st1.leave().scopes == st.scopes);
                lemma_shape_of_inner(st.scopes, scope);
                assert(st.enter().scopes.last().len() == 0);
                assert(scope.len() == inner.decl_slots());
                assert(shape_of(st1.scopes) == seq![inner.decl_slots()] + shape_of(st.scopes));
                let after = st1.leave();
                assert(sound_stmt(after, Stmt::Block(inner)));
                assert(sound_stmts(after, StmtList::Nil));
            },
            Err(_) => {},
        }
    } else {
        lemma_parse_statement(toks, st);
        match forward(toks, st, parse_statement(toks, st)) {
            Ok((first, st1)) => {
                lemma_parse_statements(toks, st1);
                match parse_statements(toks, st1) {
                    Ok((rest, st2)) => {
                        lemma_lift_stmt(toks, st1, st2, first);
                    },
                    Err(_) => {},
                }
            },
            Err(_) => {},
        }
    }
}

#[verifier::spinoff_prover]
pub proof fn lemma_parse_test(toks: Seq<TokenModel>, st: ParserModel)
    requires
        room(toks, st),
        spare(toks, st),
    ensures
        parse_test(toks, st) matches Ok((e, after)) ==> reached(toks, st, after) && after.scopes
            == st.scopes && sound_expr(after, e),
    decreases toks.len() - st.pos, 14int,
{
    reveal_with_fuel(parse_test, 1);
    match expect(toks, st, TokenKind::OpenParen) {
        Ok((_, st1)) => {
            lemma_parse_expr(toks, st1);
        },
        Err(_) => {},
    }
}

#[verifier::spinoff_prover]
pub proof fn lemma_parse_statement(toks: Seq<TokenModel>, st: ParserModel)
    requires
        room(toks, st),
        spare(toks, st),
    ensures
        parse_statement(toks, st) matches Ok((s, after)) ==> reached(toks, st, after)
            && after.scopes == st.scopes && sound_stmt(after, s),
    decreases toks.len() - st.pos, 15int,
{
    reveal_with_fuel(parse_statement, 1);
    match kind_at(toks, st.pos) {
        TokenKind::Semicolon => {},
        TokenKind::OpenBrace => {
            let entered = st.step().enter();
            assert(entered.scopes.drop_last() =~= st.scopes);
            lemma_parse_body(toks, entered);
            match onward(toks, st.step(), parse_body(toks, entered)) {
                Ok((block, st1)) => match expect(toks, st1, TokenKind::CloseBrace) {
                    Ok((_, st2)) => {
                        let scope = st1.scopes.last();
                        assert(st1.scopes =~= st.scopes.push(scope));
                        assert(st2.leave().scopes == st.scopes);
                        lemma_shape_of_inner(st.scopes, scope);
                        assert(scope.len() == block.decl_slots());
                    },
                    Err(_) => {},
                },
                Err(_) => {},
            }
        },
        TokenKind::If => {
            lemma_parse_test(toks, st.step());
            match forward(toks, st, parse_test(toks, st.step())) {
                Ok((test, st1)) => {
                    lemma_parse_statement(toks, st1);
                    match forward(toks, st1, parse_statement(toks, st1)) {
                        Ok((then_stmt, st2)) => {
                            lemma_lift_expr(toks, st1, st2, test);
                            if kind_at(toks, st2.pos) == TokenKind::Else {
                                lemma_parse_statement(toks, st2.step());
                                match parse_statement(toks, st2.step()) {
                                    Ok((else_stmt, st3)) => {
                                        lemma_lift_expr(toks, st2, st3, test);
                                        lemma_lift_stmt(toks, st2, st3, then_stmt);
                                    },
                                    Err(_) => {},
                                }
                            }
                        },
                        Err(_) => {},
                    }
                },
                Err(_) => {},
            }
        },
        TokenKind::While => {
            lemma_parse_test(toks, st.step());
            match forward(toks, st, parse_test(toks, st.step())) {
                Ok((test, st1)) => {
                    lemma_parse_statement(toks, st1);
                    match parse_statement(toks, st1) {
                        Ok((body, st2)) => {
                            lemma_lift_expr(toks, st1, st2, test);
                        },
                        Err(_) => {},
                    }
                },
                Err(_) => {},
            }
        },
        TokenKind::Break => {},
        TokenKind::Return => {
            if kind_at(toks, st.pos + 1) != TokenKind::Semicolon {
                lemma_parse_expr(toks, st.step());
            }
        },
        _ => {
            lemma_parse_expr(toks, st);
        },
    }
}

/// Whether every function bound from the index `from` on is resolved
/// within the scopes of the state, and is bound to a slot of the innermost
/// of them.
pub open spec fn sound_bindings(st: ParserModel, bound: Seq<(usize, usize)>, from: int) -> bool {
    forall|i: int|
        from <= i < bound.len() ==> resolved_func(
            code_at(st),
            (#[trigger] bound[i]).1,
            shape_of(st.scopes),
        ) && bound[i].0 < st.scopes.last().len()
}

/// The sizes of scopes grow where the innermost scope gains names.
pub proof fn lemma_shape_grows(st: ParserModel, after: ParserModel, gained: nat)
    requires
        st.scopes.len() >= 1,
        after.scopes.len() == st.scopes.len(),
        after.scopes.drop_last() == st.scopes.drop_last(),
        after.scopes.last().len() == st.scopes.last().len() + gained,
    ensures
        shape_within(shape_of(st.scopes), shape_of(after.scopes)),
{
    let a = shape_of(st.scopes);
    let b = shape_of(after.scopes);
    assert forall|i: int| 0 <= i < a.len() implies #[trigger] a[i] <= b[i] by {
        if i > 0 {
            let j = st.scopes.len() - 1 - i;
            assert(st.scopes[j] == st.scopes.drop_last()[j]);
            assert(after.scopes[j] == after.scopes.drop_last()[j]);
        }
    }
}

/// Every function of a program is resolved within the scopes of the
/// program, and is bound to a slot of the innermost of them.
pub proof fn lemma_parse_program(
    toks: Seq<TokenModel>,
    st: ParserModel,
    acc: Seq<(usize, usize)>,
)
    requires
        room(toks, st),
        spare(toks, st),
    ensures
        parse_program(toks, st, acc) matches Ok((bound, after)) ==> reached(toks, st, after)
            && after.scopes.len() == st.scopes.len() && after.scopes.drop_last()
            == st.scopes.drop_last() && st.scopes.last().len() <= after.scopes.last().len()
            && acc.len() <= bound.len() && bound.take(acc.len() as int) == acc && sound_bindings(
            after,
            bound,
            acc.len() as int,
        ),
    decreases toks.len() - st.pos,
{
    reveal_with_fuel(parse_program, 1);
    match kind_at(toks, st.pos) {
        TokenKind::End => {
            assert(acc.take(acc.len() as int) =~= acc);
        },
        TokenKind::Function => {
            lemma_declare_here(toks, st.step());
            match declare_here(toks, st.step()) {
                Ok((slot, st1)) => {
                    lemma_room_after(toks, st.step(), st1, 1);
                    lemma_parse_function(toks, st1);
                    match forward(toks, st, parse_function(toks, st1)) {
                        Ok((k, st2)) => {
                            let longer = acc.push((slot, k));
                            lemma_room_after(toks, st1, st2, 0);
                            lemma_parse_program(toks, st2, longer);
                            match parse_program(toks, st2, longer) {
                                Ok((bound, after)) => {
                                    assert(bound.take(acc.len() as int) =~= longer.take(
                                        acc.len() as int,
                                    )) by {
                                        assert(bound.take(longer.len() as int) == longer);
                                        assert forall|i: int| 0 <= i < acc.len() implies bound[i]
                                            == longer[i] by {
                                            assert(bound.take(longer.len() as int)[i] == bound[i]);
                                        }
                                    }
                                    assert(longer.take(acc.len() as int) =~= acc);
                                    assert(bound[acc.len() as int] == (slot, k)) by {
                                        assert(bound.take(longer.len() as int)[acc.len() as int]
                                            == bound[acc.len() as int]);
                                    }
                                    lemma_shape_grows(
                                        st2,
                                        after,
                                        (after.scopes.last().len() - st2.scopes.last().len()) as nat,
                                    );
                                    lemma_func_stays_resolved(
                                        code_at(st2),
                                        k,
                                        shape_of(st2.scopes),
                                        code_at(after),
                                        shape_of(after.scopes),
                                    );
                                    assert(st1.scopes.drop_last() == st.scopes.drop_last());
                                },
                                Err(_) => {},
                            }
                        },
                        Err(_) => {},
                    }
                },
                Err(_) => {},
            }
        },
        _ => {},
    }
}

} // verus!
