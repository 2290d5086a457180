//! The grammar: which tree a sequence of tokens denotes.
//!
//! Parsing is defined as a function from the tokens and a state to a tree
//! and the state after, or to the first error. The state is the index of
//! the token to read next, the scopes that are open, and what the program
//! has collected so far: its functions and its constants. Scopes are part
//! of the grammar because a name is resolved where it is read: a name that
//! no open scope declares is an error of the source, as is a name declared
//! twice in one scope.
//!
//! Operators bind in five levels, the loosest first: `||`; `&&`; the six
//! comparisons; `+` and `-`; `*`, `/` and `%`. All associate to the left.
//! Assignment binds looser than all of them and associates to the right;
//! the prefix operators `-` and `!` bind tighter, calls and element
//! accesses tightest.

use crate::ast::{Block, Declaration, EntryList, Expr, ExprList, FuncDef, Stmt, StmtList};
use crate::error::{ParseError, ParseErrorKind};
use crate::lexer::{TokenKind, TokenModel};
use crate::resolver::{declare_in, declares, leave_in, resolve_in, ScopeModel};
use vstd::prelude::*;

verus! {

/// The state of parsing.
#[verifier::ext_equal]
pub struct ParserModel {
    /// The index of the token to read next.
    pub pos: int,
    /// The scopes that are open, the innermost last.
    pub scopes: Seq<ScopeModel>,
    /// The functions parsed so far; a function's index is its place here.
    pub funcs: Seq<FuncDef>,
    /// The texts of the number literals read so far.
    pub numbers: Seq<Seq<char>>,
    /// The texts of the string literals and map keys read so far.
    pub strings: Seq<Seq<char>>,
}

/// A tree and the state after it, or an error.
pub type Parsed<T> = Result<(T, ParserModel), ParseError>;

impl ParserModel {
    /// The state after one token was read.
    pub open spec fn step(self) -> ParserModel {
        ParserModel { pos: self.pos + 1, ..self }
    }

    /// The state with a new innermost scope.
    pub open spec fn enter(self) -> ParserModel {
        ParserModel { scopes: self.scopes.push(Seq::empty()), ..self }
    }

    /// The state without its innermost scope; the outermost scope stays.
    pub open spec fn leave(self) -> ParserModel {
        ParserModel { scopes: leave_in(self.scopes), ..self }
    }

    /// The state after `name` was declared in the innermost scope.
    pub open spec fn declare(self, name: Seq<char>) -> ParserModel {
        ParserModel { scopes: declare_in(self.scopes, name), ..self }
    }
}

/// The kind of the token at `pos`; past the tokens it is the end.
pub open spec fn kind_at(toks: Seq<TokenModel>, pos: int) -> TokenKind {
    if 0 <= pos < toks.len() {
        toks[pos].kind
    } else {
        TokenKind::End
    }
}

/// The text of the token at `pos`.
pub open spec fn text_at(toks: Seq<TokenModel>, pos: int) -> Seq<char> {
    if 0 <= pos < toks.len() {
        toks[pos].text
    } else {
        Seq::empty()
    }
}

/// An error at the token at `pos`.
pub open spec fn error_at(toks: Seq<TokenModel>, pos: int, kind: ParseErrorKind) -> ParseError {
    if 0 <= pos < toks.len() {
        ParseError { kind, line: toks[pos].line, col: toks[pos].col }
    } else {
        ParseError { kind, line: 0, col: 0 }
    }
}

/// The result `r` of parsing from the state `st`, where it has read at
/// least one token.
pub open spec fn forward<T>(toks: Seq<TokenModel>, st: ParserModel, r: Parsed<T>) -> Parsed<T> {
    match r {
        Ok((_, after)) => if st.pos < after.pos <= toks.len() {
            r
        } else {
            Err(error_at(toks, st.pos, ParseErrorKind::UnexpectedToken))
        },
        Err(_) => r,
    }
}

/// The result `r` of parsing from the state `st`, where it has not gone
/// back.
pub open spec fn onward<T>(toks: Seq<TokenModel>, st: ParserModel, r: Parsed<T>) -> Parsed<T> {
    match r {
        Ok((_, after)) => if st.pos <= after.pos <= toks.len() {
            r
        } else {
            Err(error_at(toks, st.pos, ParseErrorKind::UnexpectedToken))
        },
        Err(_) => r,
    }
}

/// Whether the result `r` and the state `after` are what `spec` says: the
/// tree and the state, or the error.
pub open spec fn yields<T>(spec: Parsed<T>, r: Result<T, ParseError>, after: ParserModel) -> bool {
    match spec {
        Ok((tree, st)) => r == Ok::<T, ParseError>(tree) && after == st,
        Err(err) => r == Err::<T, ParseError>(err),
    }
}

/// Reads a token of the kind `kind`, which is not the end.
pub open spec fn expect(toks: Seq<TokenModel>, st: ParserModel, kind: TokenKind) -> Parsed<()> {
    if kind_at(toks, st.pos) == kind && kind != TokenKind::End {
        Ok(((), st.step()))
    } else {
        Err(error_at(toks, st.pos, ParseErrorKind::UnexpectedToken))
    }
}

/// The level at which a binary operator binds, from 1, the loosest, to 5;
/// 0 for a token that is no binary operator.
pub open spec fn binary_level(kind: TokenKind) -> int {
    match kind {
        TokenKind::Or => 1,
        TokenKind::And => 2,
        TokenKind::Equal
        | TokenKind::NotEqual
        | TokenKind::Less
        | TokenKind::LessEqual
        | TokenKind::Greater
        | TokenKind::GreaterEqual => 3,
        TokenKind::Plus | TokenKind::Minus => 4,
        TokenKind::Star | TokenKind::Slash | TokenKind::Percent => 5,
        _ => 0,
    }
}

/// The name that a binary operator is bound to.
pub open spec fn binary_name(kind: TokenKind) -> Seq<char> {
    match kind {
        TokenKind::Or => "__or"@,
        TokenKind::And => "__and"@,
        TokenKind::Equal => "__eq"@,
        TokenKind::NotEqual => "__ne"@,
        TokenKind::Less => "__lt"@,
        TokenKind::LessEqual => "__le"@,
        TokenKind::Greater => "__gt"@,
        TokenKind::GreaterEqual => "__ge"@,
        TokenKind::Plus => "__add"@,
        TokenKind::Minus => "__sub"@,
        TokenKind::Star => "__mul"@,
        TokenKind::Slash => "__div"@,
        TokenKind::Percent => "__mod"@,
        _ => Seq::empty(),
    }
}

/// The name that a prefix operator is bound to.
pub open spec fn prefix_name(kind: TokenKind) -> Seq<char> {
    match kind {
        TokenKind::Minus => "__neg"@,
        TokenKind::Bang => "__not"@,
        _ => Seq::empty(),
    }
}

/// The address of `name`, read at the token at the state's position.
pub open spec fn address_of(toks: Seq<TokenModel>, st: ParserModel, name: Seq<char>) -> Result<
    (usize, usize),
    ParseError,
> {
    match resolve_in(st.scopes, name) {
        Some((depth, slot)) => Ok((depth as usize, slot as usize)),
        None => Err(error_at(toks, st.pos, ParseErrorKind::UndeclaredVariable)),
    }
}

/// Declares the name that the token at the state's position spells, and
/// reads the token: the slot of the name and the state after.
pub open spec fn declare_here(toks: Seq<TokenModel>, st: ParserModel) -> Parsed<usize> {
    let name = text_at(toks, st.pos);
    if kind_at(toks, st.pos) != TokenKind::Name {
        Err(error_at(toks, st.pos, ParseErrorKind::UnexpectedToken))
    } else if declares(st.scopes.last(), name) {
        Err(error_at(toks, st.pos, ParseErrorKind::DuplicateDeclaration))
    } else {
        Ok((st.scopes.last().len() as usize, st.declare(name).step()))
    }
}

/// A literal, a name, an expression in parentheses, a vector, a map or a
/// function.
#[verifier::opaque]
pub open spec fn parse_primary(toks: Seq<TokenModel>, st: ParserModel) -> Parsed<Expr>
    decreases toks.len() - st.pos, 1int,
{
    match kind_at(toks, st.pos) {
        TokenKind::Number => Ok(
            (
                Expr::NumberLiteral(st.numbers.len() as usize),
                ParserModel { numbers: st.numbers.push(text_at(toks, st.pos)), ..st.step() },
            ),
        ),
        TokenKind::Text => Ok(
            (
                Expr::StringLiteral(st.strings.len() as usize),
                ParserModel { strings: st.strings.push(text_at(toks, st.pos)), ..st.step() },
            ),
        ),
        TokenKind::Name => match address_of(toks, st, text_at(toks, st.pos)) {
            Ok((depth, slot)) => Ok((Expr::VariableRef(depth, slot), st.step())),
            Err(err) => Err(err),
        },
        TokenKind::OpenParen => match onward(toks, st.step(), parse_expr(toks, st.step())) {
            Ok((e, st1)) => match expect(toks, st1, TokenKind::CloseParen) {
                Ok((_, st2)) => Ok((e, st2)),
                Err(err) => Err(err),
            },
            Err(err) => Err(err),
        },
        TokenKind::OpenBracket => match onward(toks, st.step(), parse_items(toks, st.step(), TokenKind::CloseBracket)) {
            Ok((items, st1)) => match expect(toks, st1, TokenKind::CloseBracket) {
                Ok((_, st2)) => Ok((Expr::VecLiteral(items), st2)),
                Err(err) => Err(err),
            },
            Err(err) => Err(err),
        },
        TokenKind::OpenBrace => match onward(toks, st.step(), parse_entries(toks, st.step())) {
            Ok((entries, st1)) => match expect(toks, st1, TokenKind::CloseBrace) {
                Ok((_, st2)) => Ok((Expr::MapLiteral(entries), st2)),
                Err(err) => Err(err),
            },
            Err(err) => Err(err),
        },
        TokenKind::Function => match parse_function(toks, st.step()) {
            Ok((k, st1)) => Ok((Expr::FuncDefLiteral(k), st1)),
            Err(err) => Err(err),
        },
        _ => Err(error_at(toks, st.pos, ParseErrorKind::UnexpectedToken)),
    }
}

/// A primary expression and the calls and element accesses that follow it.
#[verifier::opaque]
pub open spec fn parse_postfix(toks: Seq<TokenModel>, st: ParserModel) -> Parsed<Expr>
    decreases toks.len() - st.pos, 2int,
{
    match forward(toks, st, parse_primary(toks, st)) {
        Ok((e, st1)) => parse_suffixes(toks, st1, e),
        Err(err) => Err(err),
    }
}

/// The calls and element accesses that follow the expression `e`.
#[verifier::opaque]
pub open spec fn parse_suffixes(toks: Seq<TokenModel>, st: ParserModel, e: Expr) -> Parsed<Expr>
    decreases toks.len() - st.pos, 0int,
{
    match kind_at(toks, st.pos) {
        TokenKind::OpenParen => match onward(toks, st.step(), parse_items(toks, st.step(), TokenKind::CloseParen)) {
            Ok((args, st1)) => match expect(toks, st1, TokenKind::CloseParen) {
                Ok((_, st2)) => parse_suffixes(toks, st2, Expr::FuncCall(Box::new(e), args)),
                Err(err) => Err(err),
            },
            Err(err) => Err(err),
        },
        TokenKind::OpenBracket => match onward(toks, st.step(), parse_expr(toks, st.step())) {
            Ok((index, st1)) => match expect(toks, st1, TokenKind::CloseBracket) {
                Ok((_, st2)) => parse_suffixes(
                    toks,
                    st2,
                    Expr::ElementAccess(Box::new(e), Box::new(index)),
                ),
                Err(err) => Err(err),
            },
            Err(err) => Err(err),
        },
        _ => Ok((e, st)),
    }
}

/// An expression under any number of prefix operators.
#[verifier::opaque]
pub open spec fn parse_prefix(toks: Seq<TokenModel>, st: ParserModel) -> Parsed<Expr>
    decreases toks.len() - st.pos, 3int,
{
    let kind = kind_at(toks, st.pos);
    if kind == TokenKind::Minus || kind == TokenKind::Bang {
        match address_of(toks, st, prefix_name(kind)) {
            Ok((depth, slot)) => match parse_prefix(toks, st.step()) {
                Ok((operand, st1)) => Ok((Expr::PrefixOp(depth, slot, Box::new(operand)), st1)),
                Err(err) => Err(err),
            },
            Err(err) => Err(err),
        }
    } else {
        parse_postfix(toks, st)
    }
}

/// The rank of the binary level `level` among the parsers of expressions.
pub open spec fn level_rank(level: int) -> int {
    if level < 1 {
        9
    } else if level > 5 {
        4
    } else {
        10 - level
    }
}

/// An expression of binary operators of the level `level` and tighter.
#[verifier::opaque]
pub open spec fn parse_binary(toks: Seq<TokenModel>, st: ParserModel, level: int) -> Parsed<Expr>
    decreases toks.len() - st.pos, level_rank(level),
{
    if level < 1 || level > 5 {
        parse_prefix(toks, st)
    } else {
        match forward(toks, st, parse_binary(toks, st, level + 1)) {
            Ok((left, st1)) => parse_operands(toks, st1, level, left),
            Err(err) => Err(err),
        }
    }
}

/// The operators of the level `level` that follow the operand `left`, each
/// with its right operand: they associate to the left.
#[verifier::opaque]
pub open spec fn parse_operands(
    toks: Seq<TokenModel>,
    st: ParserModel,
    level: int,
    left: Expr,
) -> Parsed<Expr>
    decreases toks.len() - st.pos, 0int,
{
    let kind = kind_at(toks, st.pos);
    if 1 <= level <= 5 && binary_level(kind) == level {
        match address_of(toks, st, binary_name(kind)) {
            Ok((depth, slot)) => match onward(toks, st.step(), parse_binary(toks, st.step(), level + 1)) {
                Ok((right, st1)) => parse_operands(
                    toks,
                    st1,
                    level,
                    Expr::BinaryOp(depth, slot, Box::new(left), Box::new(right)),
                ),
                Err(err) => Err(err),
            },
            Err(err) => Err(err),
        }
    } else {
        Ok((left, st))
    }
}

/// An expression: a binary expression, or an assignment of an expression
/// to a variable or to an element.
#[verifier::opaque]
pub open spec fn parse_expr(toks: Seq<TokenModel>, st: ParserModel) -> Parsed<Expr>
    decreases toks.len() - st.pos, 10int,
{
    match forward(toks, st, parse_binary(toks, st, 1)) {
        Ok((target, st1)) => if kind_at(toks, st1.pos) == TokenKind::Assign {
            match target {
                Expr::VariableRef(depth, slot) => match parse_expr(toks, st1.step()) {
                    Ok((value, st2)) => Ok((Expr::VarAssign(depth, slot, Box::new(value)), st2)),
                    Err(err) => Err(err),
                },
                Expr::ElementAccess(container, index) => match parse_expr(toks, st1.step()) {
                    Ok((value, st2)) => Ok(
                        (Expr::ElemAssign(container, index, Box::new(value)), st2),
                    ),
                    Err(err) => Err(err),
                },
                _ => Err(error_at(toks, st1.pos, ParseErrorKind::UnexpectedToken)),
            }
        } else {
            Ok((target, st1))
        },
        Err(err) => Err(err),
    }
}

/// Expressions separated by commas, up to the token `close`, which is not
/// read.
#[verifier::opaque]
pub open spec fn parse_items(toks: Seq<TokenModel>, st: ParserModel, close: TokenKind) -> Parsed<
    ExprList,
>
    decreases toks.len() - st.pos, 12int,
{
    if kind_at(toks, st.pos) == close {
        Ok((ExprList::Nil, st))
    } else {
        parse_more_items(toks, st)
    }
}

/// One expression or more, separated by commas.
#[verifier::opaque]
pub open spec fn parse_more_items(toks: Seq<TokenModel>, st: ParserModel) -> Parsed<ExprList>
    decreases toks.len() - st.pos, 11int,
{
    match forward(toks, st, parse_expr(toks, st)) {
        Ok((first, st1)) => if kind_at(toks, st1.pos) == TokenKind::Comma {
            match parse_more_items(toks, st1.step()) {
                Ok((rest, st2)) => Ok((ExprList::Cons(Box::new(first), Box::new(rest)), st2)),
                Err(err) => Err(err),
            }
        } else {
            Ok((ExprList::Cons(Box::new(first), Box::new(ExprList::Nil)), st1))
        },
        Err(err) => Err(err),
    }
}

/// The entries of a map literal, up to the closing brace, which is not
/// read.
#[verifier::opaque]
pub open spec fn parse_entries(toks: Seq<TokenModel>, st: ParserModel) -> Parsed<EntryList>
    decreases toks.len() - st.pos, 12int,
{
    if kind_at(toks, st.pos) == TokenKind::CloseBrace {
        Ok((EntryList::Nil, st))
    } else {
        parse_more_entries(toks, st)
    }
}

/// One entry or more, separated by commas: each a key, which is a name or
/// a string, a colon and an expression.
#[verifier::opaque]
pub open spec fn parse_more_entries(toks: Seq<TokenModel>, st: ParserModel) -> Parsed<EntryList>
    decreases toks.len() - st.pos, 11int,
{
    let kind = kind_at(toks, st.pos);
    if kind != TokenKind::Name && kind != TokenKind::Text {
        Err(error_at(toks, st.pos, ParseErrorKind::UnexpectedToken))
    } else {
        let key = st.strings.len() as usize;
        let st1 = ParserModel { strings: st.strings.push(text_at(toks, st.pos)), ..st.step() };
        match expect(toks, st1, TokenKind::Colon) {
            Ok((_, st2)) => match onward(toks, st2, parse_expr(toks, st2)) {
                Ok((value, st3)) => if kind_at(toks, st3.pos) == TokenKind::Comma {
                    match parse_more_entries(toks, st3.step()) {
                        Ok((rest, st4)) => Ok(
                            (EntryList::Cons(key, Box::new(value), Box::new(rest)), st4),
                        ),
                        Err(err) => Err(err),
                    }
                } else {
                    Ok((EntryList::Cons(key, Box::new(value), Box::new(EntryList::Nil)), st3))
                },
                Err(err) => Err(err),
            },
            Err(err) => Err(err),
        }
    }
}

/// The parameters of a function, up to the closing parenthesis, which is
/// not read: names separated by commas, each declared in the innermost
/// scope. The result is their number, added to `count`.
#[verifier::opaque]
pub open spec fn parse_params(toks: Seq<TokenModel>, st: ParserModel, count: nat) -> Parsed<nat>
    decreases toks.len() - st.pos,
{
    if count == 0 && kind_at(toks, st.pos) == TokenKind::CloseParen {
        Ok((0, st))
    } else {
        match declare_here(toks, st) {
            Ok((_, st1)) => if kind_at(toks, st1.pos) == TokenKind::Comma {
                parse_params(toks, st1.step(), count + 1)
            } else {
                Ok((count + 1, st1))
            },
            Err(err) => Err(err),
        }
    }
}

/// A function after its keyword: parameters in parentheses and a body in
/// braces, in a scope of their own. The function joins the functions of
/// the program; the result is its index.
#[verifier::opaque]
pub open spec fn parse_function(toks: Seq<TokenModel>, st: ParserModel) -> Parsed<usize>
    decreases toks.len() - st.pos, 30int,
{
    match expect(toks, st, TokenKind::OpenParen) {
        Ok((_, st1)) => match onward(toks, st1, parse_params(toks, st1.enter(), 0)) {
            Ok((num_params, st2)) => match expect(toks, st2, TokenKind::CloseParen) {
                Ok((_, st3)) => match expect(toks, st3, TokenKind::OpenBrace) {
                    Ok((_, st4)) => match onward(toks, st4, parse_body(toks, st4)) {
                        Ok((body, st5)) => match expect(toks, st5, TokenKind::CloseBrace) {
                            Ok((_, st6)) => Ok(
                                (
                                    st6.funcs.len() as usize,
                                    ParserModel {
                                        funcs: st6.funcs.push(
                                            FuncDef { num_params: num_params as usize, body },
                                        ),
                                        ..st6.leave()
                                    },
                                ),
                            ),
                            Err(err) => Err(err),
                        },
                        Err(err) => Err(err),
                    },
                    Err(err) => Err(err),
                },
                Err(err) => Err(err),
            },
            Err(err) => Err(err),
        },
        Err(err) => Err(err),
    }
}

/// What stands between the braces of a block: a declaration or none, then
/// statements.
#[verifier::opaque]
pub open spec fn parse_body(toks: Seq<TokenModel>, st: ParserModel) -> Parsed<Block>
    decreases toks.len() - st.pos, 22int,
{
    if kind_at(toks, st.pos) == TokenKind::Var {
        parse_declared_body(toks, st)
    } else {
        match parse_statements(toks, st) {
            Ok((stmts, st1)) => Ok((Block { decl: Declaration::NoVar, stmts }, st1)),
            Err(err) => Err(err),
        }
    }
}

/// A declaration and the statements after it. The name is declared before
/// its initializer is read, so the initializer of a function may call the
/// function by its name.
#[verifier::opaque]
pub open spec fn parse_declared_body(toks: Seq<TokenModel>, st: ParserModel) -> Parsed<Block>
    decreases toks.len() - st.pos, 20int,
{
    match expect(toks, st, TokenKind::Var) {
        Ok((_, st1)) => match declare_here(toks, st1) {
            Ok((_, st2)) => if kind_at(toks, st2.pos) == TokenKind::Assign {
                match onward(toks, st2.step(), parse_expr(toks, st2.step())) {
                    Ok((init, st3)) => match expect(toks, st3, TokenKind::Semicolon) {
                        Ok((_, st4)) => match parse_statements(toks, st4) {
                            Ok((stmts, st5)) => Ok(
                                (Block { decl: Declaration::VarInit(init), stmts }, st5),
                            ),
                            Err(err) => Err(err),
                        },
                        Err(err) => Err(err),
                    },
                    Err(err) => Err(err),
                }
            } else {
                match expect(toks, st2, TokenKind::Semicolon) {
                    Ok((_, st3)) => match parse_statements(toks, st3) {
                        Ok((stmts, st4)) => Ok((Block { decl: Declaration::Var, stmts }, st4)),
                        Err(err) => Err(err),
                    },
                    Err(err) => Err(err),
                }
            },
            Err(err) => Err(err),
        },
        Err(err) => Err(err),
    }
}

/// Statements up to the closing brace or the end, neither of which is read.
/// A declaration among them opens a block of its own, which holds the
/// declaration and every statement after it.
#[verifier::opaque]
pub open spec fn parse_statements(toks: Seq<TokenModel>, st: ParserModel) -> Parsed<StmtList>
    decreases toks.len() - st.pos, 21int,
{
    let kind = kind_at(toks, st.pos);
    if kind == TokenKind::CloseBrace || kind == TokenKind::End {
        Ok((StmtList::Nil, st))
    } else if kind == TokenKind::Var {
        match parse_declared_body(toks, st.enter()) {
            Ok((inner, st1)) => Ok(
                (
                    StmtList::Cons(Box::new(Stmt::Block(inner)), Box::new(StmtList::Nil)),
                    st1.leave(),
                ),
            ),
            Err(err) => Err(err),
        }
    } else {
        match forward(toks, st, parse_statement(toks, st)) {
            Ok((first, st1)) => match parse_statements(toks, st1) {
                Ok((rest, st2)) => Ok((StmtList::Cons(Box::new(first), Box::new(rest)), st2)),
                Err(err) => Err(err),
            },
            Err(err) => Err(err),
        }
    }
}

/// A test in parentheses.
#[verifier::opaque]
pub open spec fn parse_test(toks: Seq<TokenModel>, st: ParserModel) -> Parsed<Expr>
    decreases toks.len() - st.pos, 14int,
{
    match expect(toks, st, TokenKind::OpenParen) {
        Ok((_, st1)) => match onward(toks, st1, parse_expr(toks, st1)) {
            Ok((test, st2)) => match expect(toks, st2, TokenKind::CloseParen) {
                Ok((_, st3)) => Ok((test, st3)),
                Err(err) => Err(err),
            },
            Err(err) => Err(err),
        },
        Err(err) => Err(err),
    }
}

#[verifier::opaque]
pub open spec fn parse_statement(toks: Seq<TokenModel>, st: ParserModel) -> Parsed<Stmt>
    decreases toks.len() - st.pos, 15int,
{
    match kind_at(toks, st.pos) {
        TokenKind::Semicolon => Ok((Stmt::Empty, st.step())),
        TokenKind::OpenBrace => match onward(toks, st.step(), parse_body(toks, st.step().enter())) {
            Ok((block, st1)) => match expect(toks, st1, TokenKind::CloseBrace) {
                Ok((_, st2)) => Ok((Stmt::Block(block), st2.leave())),
                Err(err) => Err(err),
            },
            Err(err) => Err(err),
        },
        TokenKind::If => match forward(toks, st, parse_test(toks, st.step())) {
            Ok((test, st1)) => match forward(toks, st1, parse_statement(toks, st1)) {
                Ok((then_stmt, st2)) => if kind_at(toks, st2.pos) == TokenKind::Else {
                    match parse_statement(toks, st2.step()) {
                        Ok((else_stmt, st3)) => Ok(
                            (
                                Stmt::If(test, Box::new(then_stmt), Some(Box::new(else_stmt))),
                                st3,
                            ),
                        ),
                        Err(err) => Err(err),
                    }
                } else {
                    Ok((Stmt::If(test, Box::new(then_stmt), None), st2))
                },
                Err(err) => Err(err),
            },
            Err(err) => Err(err),
        },
        TokenKind::While => match forward(toks, st, parse_test(toks, st.step())) {
            Ok((test, st1)) => match parse_statement(toks, st1) {
                Ok((body, st2)) => Ok((Stmt::While(test, Box::new(body)), st2)),
                Err(err) => Err(err),
            },
            Err(err) => Err(err),
        },
        TokenKind::Break => match expect(toks, st.step(), TokenKind::Semicolon) {
            Ok((_, st1)) => Ok((Stmt::Break, st1)),
            Err(err) => Err(err),
        },
        TokenKind::Return => if kind_at(toks, st.pos + 1) == TokenKind::Semicolon {
            Ok((Stmt::Return(None), st.step().step()))
        } else {
            match parse_expr(toks, st.step()) {
                Ok((value, st1)) => match expect(toks, st1, TokenKind::Semicolon) {
                    Ok((_, st2)) => Ok((Stmt::Return(Some(value)), st2)),
                    Err(err) => Err(err),
                },
                Err(err) => Err(err),
            }
        },
        _ => match parse_expr(toks, st) {
            Ok((e, st1)) => match expect(toks, st1, TokenKind::Semicolon) {
                Ok((_, st2)) => Ok((Stmt::Expression(e), st2)),
                Err(err) => Err(err),
            },
            Err(err) => Err(err),
        },
    }
}

/// A program: functions, each the keyword, a name and what
/// `parse_function` reads. A function's name is declared in the innermost
/// scope before its body is read, so a function may call itself and those
/// above it. The result pairs the slot of each name with the index of its
/// function, after the pairs of `acc`.
#[verifier::opaque]
pub open spec fn parse_program(
    toks: Seq<TokenModel>,
    st: ParserModel,
    acc: Seq<(usize, usize)>,
) -> Parsed<Seq<(usize, usize)>>
    decreases toks.len() - st.pos,
{
    match kind_at(toks, st.pos) {
        TokenKind::End => Ok((acc, st)),
        TokenKind::Function => match declare_here(toks, st.step()) {
            Ok((slot, st1)) => match forward(toks, st, parse_function(toks, st1)) {
                Ok((k, st2)) => parse_program(toks, st2, acc.push((slot, k))),
                Err(err) => Err(err),
            },
            Err(err) => Err(err),
        },
        _ => Err(error_at(toks, st.pos, ParseErrorKind::UnexpectedToken)),
    }
}

} // verus!
