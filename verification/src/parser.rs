//! The parser: recursive descent over the tokens, with one function for
//! each function of the grammar, which it computes.

use crate::ast::{Block, Declaration, EntryList, Expr, ExprList, FuncDef, Stmt, StmtList};
use crate::error::{ParseError, ParseErrorKind};
use crate::grammar;
use crate::grammar::{
    address_of, binary_level, binary_name, error_at, kind_at, prefix_name, yields, ParserModel,
};
use crate::lexer::{tokens_of, Token, TokenKind, TokenModel};
use crate::resolver::Resolver;
use crate::text::{copy_text, text_of};
use vstd::prelude::*;

verus! {

/// The tokens of a source, the place reached in them, and what has been
/// gathered on the way.
pub struct Parser {
    pub tokens: Vec<Token>,
    pub pos: usize,
    pub resolver: Resolver,
    pub funcs: Vec<FuncDef>,
    pub numbers: Vec<Vec<char>>,
    pub strings: Vec<Vec<char>>,
}

/// The texts of a vector of texts.
pub open spec fn texts_of(texts: Vec<Vec<char>>) -> Seq<Seq<char>> {
    Seq::new(texts@.len(), |i: int| texts@[i]@)
}

impl View for Parser {
    type V = ParserModel;

    open spec fn view(&self) -> ParserModel {
        ParserModel {
            pos: self.pos as int,
            scopes: self.resolver@,
            funcs: self.funcs@,
            numbers: texts_of(self.numbers),
            strings: texts_of(self.strings),
        }
    }
}

fn level_of(kind: TokenKind) -> (level: u8)
    ensures
        level == binary_level(kind),
{
    match kind {
        TokenKind::Or => 1,
        TokenKind::And => 2,
        TokenKind::Equal
        | TokenKind::NotEqual
        | TokenKind::Less
        | TokenKind::LessEqual
        | TokenKind::Greater
        | TokenKind::GreaterEqual => 3,
        TokenKind::Plus | TokenKind::Minus => 4,
        TokenKind::Star | TokenKind::Slash | TokenKind::Percent => 5,
        _ => 0,
    }
}

fn name_of_binary(kind: TokenKind) -> (name: Vec<char>)
    ensures
        name@ == binary_name(kind),
{
    match kind {
        TokenKind::Or => text_of("__or"),
        TokenKind::And => text_of("__and"),
        TokenKind::Equal => text_of("__eq"),
        TokenKind::NotEqual => text_of("__ne"),
        TokenKind::Less => text_of("__lt"),
        TokenKind::LessEqual => text_of("__le"),
        TokenKind::Greater => text_of("__gt"),
        TokenKind::GreaterEqual => text_of("__ge"),
        TokenKind::Plus => text_of("__add"),
        TokenKind::Minus => text_of("__sub"),
        TokenKind::Star => text_of("__mul"),
        TokenKind::Slash => text_of("__div"),
        TokenKind::Percent => text_of("__mod"),
        _ => Vec::new(),
    }
}

fn name_of_prefix(kind: TokenKind) -> (name: Vec<char>)
    ensures
        name@ == prefix_name(kind),
{
    match kind {
        TokenKind::Minus => text_of("__neg"),
        TokenKind::Bang => text_of("__not"),
        _ => Vec::new(),
    }
}

impl Parser {
    /// The tokens that are parsed.
    pub open spec fn toks(&self) -> Seq<TokenModel> {
        tokens_of(self.tokens)
    }

    /// The place reached lies within the tokens or at their end.
    pub open spec fn wf(&self) -> bool {
        self.pos <= self.tokens@.len()
    }

    /// The kind of the token to read next.
    fn kind(&self) -> (k: TokenKind)
        requires
            self.wf(),
        ensures
            k == kind_at(self.toks(), self@.pos),
            k != TokenKind::End ==> self.pos < self.tokens@.len(),
    {
        if self.pos < self.tokens.len() {
            self.tokens[self.pos].kind
        } else {
            TokenKind::End
        }
    }

    /// An error at the token to read next.
    fn fail(&self, kind: ParseErrorKind) -> (err: ParseError)
        requires
            self.wf(),
        ensures
            err == error_at(self.toks(), self@.pos, kind),
    {
        if self.pos < self.tokens.len() {
            ParseError { kind, line: self.tokens[self.pos].line, col: self.tokens[self.pos].col }
        } else {
            ParseError { kind, line: 0, col: 0 }
        }
    }

    /// Reads one token, which is not the end.
    fn advance(&mut self)
        requires
            old(self).pos < old(self).tokens@.len(),
        ensures
            final(self).wf(),
            final(self).tokens == old(self).tokens,
            final(self)@ == old(self)@.step(),
    {
        let n = self.tokens.len();
        if self.pos < n {
            self.pos = self.pos + 1;
        }
    }

    /// Reads a token of the kind `kind`.
    fn expect(&mut self, kind: TokenKind) -> (r: Result<(), ParseError>)
        requires
            old(self).wf(),
        ensures
            final(self).wf(),
            final(self).tokens == old(self).tokens,
            yields(grammar::expect(old(self).toks(), old(self)@, kind), r, final(self)@),
            r is Ok ==> final(self).pos == old(self).pos + 1,
    {
        let k = self.kind();
        if k == kind && k != TokenKind::End {
            self.advance();
            Ok(())
        } else {
            Err(self.fail(ParseErrorKind::UnexpectedToken))
        }
    }

    /// The address of `name`, read at the token to read next.
    fn address(&self, name: &Vec<char>) -> (r: Result<(usize, usize), ParseError>)
        requires
            self.wf(),
        ensures
            r == address_of(self.toks(), self@, name@),
    {
        match self.resolver.resolve(name) {
            Ok(address) => Ok(address),
            Err(kind) => Err(self.fail(kind)),
        }
    }

    /// Declares the name that the token to read next spells, and reads the
    /// token.
    fn declare_here(&mut self) -> (r: Result<usize, ParseError>)
        requires
            old(self).wf(),
        ensures
            final(self).wf(),
            final(self).tokens == old(self).tokens,
            yields(grammar::declare_here(old(self).toks(), old(self)@), r, final(self)@),
            r is Ok ==> final(self).pos == old(self).pos + 1,
    {
        match self.kind() {
            TokenKind::Name => {},
            _ => {
                return Err(self.fail(ParseErrorKind::UnexpectedToken));
            },
        }
        let name = copy_text(&self.tokens[self.pos].text);
        match self.resolver.declare(name) {
            Ok(slot) => {
                self.advance();
                Ok(slot)
            },
            Err(kind) => Err(self.fail(kind)),
        }
    }

    #[verifier::spinoff_prover]
    fn parse_primary(&mut self) -> (r: Result<Expr, ParseError>)
        requires
            old(self).wf(),
        ensures
            final(self).wf(),
            final(self).tokens == old(self).tokens,
            yields(grammar::parse_primary(old(self).toks(), old(self)@), r, final(self)@),
            r is Ok ==> old(self).pos < final(self).pos,
        decreases old(self).tokens@.len() - old(self).pos, 1int,
    {
        proof {
            reveal_with_fuel(grammar::parse_primary, 1);
        }
        match self.kind() {
            TokenKind::Number => {
                let k = self.numbers.len();
                let text = copy_text(&self.tokens[self.pos].text);
                self.numbers.push(text);
                self.advance();
                assert(self@ =~= (ParserModel {
                    numbers: old(self)@.numbers.push(text@),
                    ..old(self)@.step()
                }));
                Ok(Expr::NumberLiteral(k))
            },
            TokenKind::Text => {
                let k = self.strings.len();
                let text = copy_text(&self.tokens[self.pos].text);
                self.strings.push(text);
                self.advance();
                assert(self@ =~= (ParserModel {
                    strings: old(self)@.strings.push(text@),
                    ..old(self)@.step()
                }));
                Ok(Expr::StringLiteral(k))
            },
            TokenKind::Name => {
                let (depth, slot) = self.address(&self.tokens[self.pos].text)?;
                self.advance();
                Ok(Expr::VariableRef(depth, slot))
            },
            TokenKind::OpenParen => {
                self.advance();
                let e = self.parse_expr()?;
                self.expect(TokenKind::CloseParen)?;
                Ok(e)
            },
            TokenKind::OpenBracket => {
                self.advance();
                let items = self.parse_items(TokenKind::CloseBracket)?;
                self.expect(TokenKind::CloseBracket)?;
                Ok(Expr::VecLiteral(items))
            },
            TokenKind::OpenBrace => {
                self.advance();
                let entries = self.parse_entries()?;
                self.expect(TokenKind::CloseBrace)?;
                Ok(Expr::MapLiteral(entries))
            },
            TokenKind::Function => {
                self.advance();
                let k = self.parse_function()?;
                Ok(Expr::FuncDefLiteral(k))
            },
            _ => Err(self.fail(ParseErrorKind::UnexpectedToken)),
        }
    }

    #[verifier::spinoff_prover]
    fn parse_postfix(&mut self) -> (r: Result<Expr, ParseError>)
        requires
            old(self).wf(),
        ensures
            final(self).wf(),
            final(self).tokens == old(self).tokens,
            yields(grammar::parse_postfix(old(self).toks(), old(self)@), r, final(self)@),
            r is Ok ==> old(self).pos < final(self).pos,
        decreases old(self).tokens@.len() - old(self).pos, 2int,
    {
        proof {
            reveal_with_fuel(grammar::parse_postfix, 1);
        }
        let e = self.parse_primary()?;
        self.parse_suffixes(e)
    }

    #[verifier::spinoff_prover]
    fn parse_suffixes(&mut self, e: Expr) -> (r: Result<Expr, ParseError>)
        requires
            old(self).wf(),
        ensures
            final(self).wf(),
            final(self).tokens == old(self).tokens,
            yields(grammar::parse_suffixes(old(self).toks(), old(self)@, e), r, final(self)@),
            r is Ok ==> old(self).pos <= final(self).pos,
        decreases old(self).tokens@.len() - old(self).pos, 0int,
    {
        proof {
            reveal_with_fuel(grammar::parse_suffixes, 1);
        }
        match self.kind() {
            TokenKind::OpenParen => {
                self.advance();
                let args = self.parse_items(TokenKind::CloseParen)?;
                self.expect(TokenKind::CloseParen)?;
                self.parse_suffixes(Expr::FuncCall(Box::new(e), args))
            },
            TokenKind::OpenBracket => {
                self.advance();
                let index = self.parse_expr()?;
                self.expect(TokenKind::CloseBracket)?;
                self.parse_suffixes(Expr::ElementAccess(Box::new(e), Box::new(index)))
            },
            _ => Ok(e),
        }
    }

    #[verifier::spinoff_prover]
    fn parse_prefix(&mut self) -> (r: Result<Expr, ParseError>)
        requires
            old(self).wf(),
        ensures
            final(self).wf(),
            final(self).tokens == old(self).tokens,
            yields(grammar::parse_prefix(old(self).toks(), old(self)@), r, final(self)@),
            r is Ok ==> old(self).pos < final(self).pos,
        decreases old(self).tokens@.len() - old(self).pos, 3int,
    {
        proof {
            reveal_with_fuel(grammar::parse_prefix, 1);
        }
        let kind = self.kind();
        if kind == TokenKind::Minus || kind == TokenKind::Bang {
            let name = name_of_prefix(kind);
            let (depth, slot) = self.address(&name)?;
            self.advance();
            let operand = self.parse_prefix()?;
            Ok(Expr::PrefixOp(depth, slot, Box::new(operand)))
        } else {
            self.parse_postfix()
        }
    }

    #[verifier::spinoff_prover]
    fn parse_binary(&mut self, level: u8) -> (r: Result<Expr, ParseError>)
        requires
            old(self).wf(),
        ensures
            final(self).wf(),
            final(self).tokens == old(self).tokens,
            yields(
                grammar::parse_binary(old(self).toks(), old(self)@, level as int),
                r,
                final(self)@,
            ),
            r is Ok ==> old(self).pos < final(self).pos,
        decreases old(self).tokens@.len() - old(self).pos, grammar::level_rank(level as int),
    {
        proof {
            reveal_with_fuel(grammar::parse_binary, 1);
        }
        if level < 1 || level > 5 {
            self.parse_prefix()
        } else {
            let left = self.parse_binary(level + 1)?;
            self.parse_operands(level, left)
        }
    }

    #[verifier::spinoff_prover]
    fn parse_operands(&mut self, level: u8, left: Expr) -> (r: Result<Expr, ParseError>)
        requires
            old(self).wf(),
        ensures
            final(self).wf(),
            final(self).tokens == old(self).tokens,
            yields(
                grammar::parse_operands(old(self).toks(), old(self)@, level as int, left),
                r,
                final(self)@,
            ),
            r is Ok ==> old(self).pos <= final(self).pos,
        decreases old(self).tokens@.len() - old(self).pos, 0int,
    {
        proof {
            reveal_with_fuel(grammar::parse_operands, 1);
        }
        let kind = self.kind();
        if 1 <= level && level <= 5 && level_of(kind) == level {
            let name = name_of_binary(kind);
            let (depth, slot) = self.address(&name)?;
            self.advance();
            let right = self.parse_binary(level + 1)?;
            self.parse_operands(level, Expr::BinaryOp(depth, slot, Box::new(left), Box::new(right)))
        } else {
            Ok(left)
        }
    }

    /// Parses an expression.
    #[verifier::spinoff_prover]
    pub fn parse_expr(&mut self) -> (r: Result<Expr, ParseError>)
        requires
            old(self).wf(),
        ensures
            final(self).wf(),
            final(self).tokens == old(self).tokens,
            yields(grammar::parse_expr(old(self).toks(), old(self)@), r, final(self)@),
            r is Ok ==> old(self).pos < final(self).pos,
        decreases old(self).tokens@.len() - old(self).pos, 10int,
    {
        proof {
            reveal_with_fuel(grammar::parse_expr, 1);
        }
        let target = self.parse_binary(1)?;
        match self.kind() {
            TokenKind::Assign => {},
            _ => {
                return Ok(target);
            },
        }
        match target {
            Expr::VariableRef(depth, slot) => {
                self.advance();
                let value = self.parse_expr()?;
                Ok(Expr::VarAssign(depth, slot, Box::new(value)))
            },
            Expr::ElementAccess(container, index) => {
                self.advance();
                let value = self.parse_expr()?;
                Ok(Expr::ElemAssign(container, index, Box::new(value)))
            },
            _ => Err(self.fail(ParseErrorKind::UnexpectedToken)),
        }
    }

    #[verifier::spinoff_prover]
    fn parse_items(&mut self, close: TokenKind) -> (r: Result<ExprList, ParseError>)
        requires
            old(self).wf(),
        ensures
            final(self).wf(),
            final(self).tokens == old(self).tokens,
            yields(grammar::parse_items(old(self).toks(), old(self)@, close), r, final(self)@),
            r is Ok ==> old(self).pos <= final(self).pos,
        decreases old(self).tokens@.len() - old(self).pos, 12int,
    {
        proof {
            reveal_with_fuel(grammar::parse_items, 1);
        }
        if self.kind() == close {
            Ok(ExprList::Nil)
        } else {
            self.parse_more_items()
        }
    }

    #[verifier::spinoff_prover]
    fn parse_more_items(&mut self) -> (r: Result<ExprList, ParseError>)
        requires
            old(self).wf(),
        ensures
            final(self).wf(),
            final(self).tokens == old(self).tokens,
            yields(grammar::parse_more_items(old(self).toks(), old(self)@), r, final(self)@),
            r is Ok ==> old(self).pos < final(self).pos,
        decreases old(self).tokens@.len() - old(self).pos, 11int,
    {
        proof {
            reveal_with_fuel(grammar::parse_more_items, 1);
        }
        let first = self.parse_expr()?;
        match self.kind() {
            TokenKind::Comma => {
                self.advance();
                let rest = self.parse_more_items()?;
                Ok(ExprList::Cons(Box::new(first), Box::new(rest)))
            },
            _ => Ok(ExprList::Cons(Box::new(first), Box::new(ExprList::Nil))),
        }
    }

    #[verifier::spinoff_prover]
    fn parse_entries(&mut self) -> (r: Result<EntryList, ParseError>)
        requires
            old(self).wf(),
        ensures
            final(self).wf(),
            final(self).tokens == old(self).tokens,
            yields(grammar::parse_entries(old(self).toks(), old(self)@), r, final(self)@),
            r is Ok ==> old(self).pos <= final(self).pos,
        decreases old(self).tokens@.len() - old(self).pos, 12int,
    {
        proof {
            reveal_with_fuel(grammar::parse_entries, 1);
        }
        match self.kind() {
            TokenKind::CloseBrace => Ok(EntryList::Nil),
            _ => self.parse_more_entries(),
        }
    }

    #[verifier::spinoff_prover]
    fn parse_more_entries(&mut self) -> (r: Result<EntryList, ParseError>)
        requires
            old(self).wf(),
        ensures
            final(self).wf(),
            final(self).tokens == old(self).tokens,
            yields(grammar::parse_more_entries(old(self).toks(), old(self)@), r, final(self)@),
            r is Ok ==> old(self).pos < final(self).pos,
        decreases old(self).tokens@.len() - old(self).pos, 11int,
    {
        proof {
            reveal_with_fuel(grammar::parse_more_entries, 1);
        }
        match self.kind() {
            TokenKind::Name | TokenKind::Text => {},
            _ => {
                return Err(self.fail(ParseErrorKind::UnexpectedToken));
            },
        }
        let key = self.strings.len();
        let text = copy_text(&self.tokens[self.pos].text);
        self.strings.push(text);
        self.advance();
        assert(self@ =~= (ParserModel {
            strings: old(self)@.strings.push(text@),
            ..old(self)@.step()
        }));
        self.expect(TokenKind::Colon)?;
        let value = self.parse_expr()?;
        match self.kind() {
            TokenKind::Comma => {
                self.advance();
                let rest = self.parse_more_entries()?;
                Ok(EntryList::Cons(key, Box::new(value), Box::new(rest)))
            },
            _ => Ok(EntryList::Cons(key, Box::new(value), Box::new(EntryList::Nil))),
        }
    }

    #[verifier::spinoff_prover]
    fn parse_params(&mut self, count: usize) -> (r: Result<usize, ParseError>)
        requires
            old(self).wf(),
            count <= old(self).pos,
        ensures
            final(self).wf(),
            final(self).tokens == old(self).tokens,
            match grammar::parse_params(old(self).toks(), old(self)@, count as nat) {
                Ok((n, st)) => r == Ok::<usize, ParseError>(n as usize) && n <= usize::MAX
                    && final(self)@ == st,
                Err(err) => r == Err::<usize, ParseError>(err),
            },
            r is Ok ==> old(self).pos <= final(self).pos,
        decreases old(self).tokens@.len() - old(self).pos,
    {
        proof {
            reveal_with_fuel(grammar::parse_params, 1);
        }
        if count == 0 {
            match self.kind() {
                TokenKind::CloseParen => {
                    return Ok(0);
                },
                _ => {},
            }
        }
        self.declare_here()?;
        match self.kind() {
            TokenKind::Comma => {
                self.advance();
                self.parse_params(count + 1)
            },
            _ => Ok(count + 1),
        }
    }

    #[verifier::spinoff_prover]
    fn parse_function(&mut self) -> (r: Result<usize, ParseError>)
        requires
            old(self).wf(),
        ensures
            final(self).wf(),
            final(self).tokens == old(self).tokens,
            yields(grammar::parse_function(old(self).toks(), old(self)@), r, final(self)@),
            r is Ok ==> old(self).pos < final(self).pos,
        decreases old(self).tokens@.len() - old(self).pos, 30int,
    {
        proof {
            reveal_with_fuel(grammar::parse_function, 1);
        }
        self.expect(TokenKind::OpenParen)?;
        self.resolver.enter_scope();
        let num_params = self.parse_params(0)?;
        self.expect(TokenKind::CloseParen)?;
        self.expect(TokenKind::OpenBrace)?;
        let body = self.parse_body()?;
        self.expect(TokenKind::CloseBrace)?;
        self.resolver.leave_scope();
        let k = self.funcs.len();
        self.funcs.push(FuncDef { num_params, body });
        Ok(k)
    }

    #[verifier::spinoff_prover]
    fn parse_body(&mut self) -> (r: Result<Block, ParseError>)
        requires
            old(self).wf(),
        ensures
            final(self).wf(),
            final(self).tokens == old(self).tokens,
            yields(grammar::parse_body(old(self).toks(), old(self)@), r, final(self)@),
            r is Ok ==> old(self).pos <= final(self).pos,
        decreases old(self).tokens@.len() - old(self).pos, 22int,
    {
        proof {
            reveal_with_fuel(grammar::parse_body, 1);
        }
        match self.kind() {
            TokenKind::Var => self.parse_declared_body(),
            _ => {
                let stmts = self.parse_statements()?;
                Ok(Block { decl: Declaration::NoVar, stmts })
            },
        }
    }

    #[verifier::spinoff_prover]
    fn parse_declared_body(&mut self) -> (r: Result<Block, ParseError>)
        requires
            old(self).wf(),
        ensures
            final(self).wf(),
            final(self).tokens == old(self).tokens,
            yields(grammar::parse_declared_body(old(self).toks(), old(self)@), r, final(self)@),
            r is Ok ==> old(self).pos < final(self).pos,
        decreases old(self).tokens@.len() - old(self).pos, 20int,
    {
        proof {
            reveal_with_fuel(grammar::parse_declared_body, 1);
        }
        self.expect(TokenKind::Var)?;
        self.declare_here()?;
        match self.kind() {
            TokenKind::Assign => {
                self.advance();
                let init = self.parse_expr()?;
                self.expect(TokenKind::Semicolon)?;
                let stmts = self.parse_statements()?;
                Ok(Block { decl: Declaration::VarInit(init), stmts })
            },
            _ => {
                self.expect(TokenKind::Semicolon)?;
                let stmts = self.parse_statements()?;
                Ok(Block { decl: Declaration::Var, stmts })
            },
        }
    }

    #[verifier::spinoff_prover]
    fn parse_statements(&mut self) -> (r: Result<StmtList, ParseError>)
        requires
            old(self).wf(),
        ensures
            final(self).wf(),
            final(self).tokens == old(self).tokens,
            yields(grammar::parse_statements(old(self).toks(), old(self)@), r, final(self)@),
            r is Ok ==> old(self).pos <= final(self).pos,
        decreases old(self).tokens@.len() - old(self).pos, 21int,
    {
        proof {
            reveal_with_fuel(grammar::parse_statements, 1);
        }
        match self.kind() {
            TokenKind::CloseBrace | TokenKind::End => Ok(StmtList::Nil),
            TokenKind::Var => {
                self.resolver.enter_scope();
                let inner = self.parse_declared_body()?;
                self.resolver.leave_scope();
                Ok(StmtList::Cons(Box::new(Stmt::Block(inner)), Box::new(StmtList::Nil)))
            },
            _ => {
                let first = self.parse_statement()?;
                let rest = self.parse_statements()?;
                Ok(StmtList::Cons(Box::new(first), Box::new(rest)))
            },
        }
    }

    #[verifier::spinoff_prover]
    fn parse_test(&mut self) -> (r: Result<Expr, ParseError>)
        requires
            old(self).wf(),
        ensures
            final(self).wf(),
            final(self).tokens == old(self).tokens,
            yields(grammar::parse_test(old(self).toks(), old(self)@), r, final(self)@),
            r is Ok ==> old(self).pos < final(self).pos,
        decreases old(self).tokens@.len() - old(self).pos, 14int,
    {
        proof {
            reveal_with_fuel(grammar::parse_test, 1);
        }
        self.expect(TokenKind::OpenParen)?;
        let test = self.parse_expr()?;
        self.expect(TokenKind::CloseParen)?;
        Ok(test)
    }

    /// Parses a statement.
    #[verifier::spinoff_prover]
    pub fn parse_statement(&mut self) -> (r: Result<Stmt, ParseError>)
        requires
            old(self).wf(),
        ensures
            final(self).wf(),
            final(self).tokens == old(self).tokens,
            yields(grammar::parse_statement(old(self).toks(), old(self)@), r, final(self)@),
            r is Ok ==> old(self).pos < final(self).pos,
        decreases old(self).tokens@.len() - old(self).pos, 15int,
    {
        proof {
            reveal_with_fuel(grammar::parse_statement, 1);
        }
        match self.kind() {
            TokenKind::Semicolon => {
                self.advance();
                Ok(Stmt::Empty)
            },
            TokenKind::OpenBrace => {
                self.advance();
                self.resolver.enter_scope();
                let block = self.parse_body()?;
                self.expect(TokenKind::CloseBrace)?;
                self.resolver.leave_scope();
                Ok(Stmt::Block(block))
            },
            TokenKind::If => {
                self.advance();
                let test = self.parse_test()?;
                let then_stmt = self.parse_statement()?;
                match self.kind() {
                    TokenKind::Else => {
                        self.advance();
                        let else_stmt = self.parse_statement()?;
                        Ok(Stmt::If(test, Box::new(then_stmt), Some(Box::new(else_stmt))))
                    },
                    _ => Ok(Stmt::If(test, Box::new(then_stmt), None)),
                }
            },
            TokenKind::While => {
                self.advance();
                let test = self.parse_test()?;
                let body = self.parse_statement()?;
                Ok(Stmt::While(test, Box::new(body)))
            },
            TokenKind::Break => {
                self.advance();
                self.expect(TokenKind::Semicolon)?;
                Ok(Stmt::Break)
            },
            TokenKind::Return => {
                self.advance();
                match self.kind() {
                    TokenKind::Semicolon => {
                        self.advance();
                        Ok(Stmt::Return(None))
                    },
                    _ => {
                        let value = self.parse_expr()?;
                        self.expect(TokenKind::Semicolon)?;
                        Ok(Stmt::Return(Some(value)))
                    },
                }
            },
            _ => {
                let e = self.parse_expr()?;
                self.expect(TokenKind::Semicolon)?;
                Ok(Stmt::Expression(e))
            },
        }
    }

    /// Parses a program: the functions of the source up to its end. The
    /// result pairs the slot of each function's name with the index of the
    /// function.
    #[verifier::spinoff_prover]
    pub fn parse_program(&mut self) -> (r: Result<Vec<(usize, usize)>, ParseError>)
        requires
            old(self).wf(),
        ensures
            final(self).wf(),
            final(self).tokens == old(self).tokens,
            match grammar::parse_program(old(self).toks(), old(self)@, Seq::empty()) {
                Ok((bound, st)) => r is Ok && r.unwrap()@ == bound && final(self)@ == st,
                Err(err) => r == Err::<Vec<(usize, usize)>, ParseError>(err),
            },
    {
        proof {
            reveal_with_fuel(grammar::parse_program, 1);
        }
        let mut bound: Vec<(usize, usize)> = Vec::new();
        loop
            invariant
                self.wf(),
                self.tokens == old(self).tokens,
                grammar::parse_program(self.toks(), self@, bound@) == grammar::parse_program(
                    old(self).toks(),
                    old(self)@,
                    Seq::empty(),
                ),
            decreases self.tokens@.len() - self.pos,
        {
            proof {
                reveal_with_fuel(grammar::parse_program, 1);
            }
            match self.kind() {
                TokenKind::End => {
                    return Ok(bound);
                },
                TokenKind::Function => {
                    self.advance();
                    let slot = self.declare_here()?;
                    let k = self.parse_function()?;
                    bound.push((slot, k));
                },
                _ => {
                    return Err(self.fail(ParseErrorKind::UnexpectedToken));
                },
            }
        }
    }
}

} // verus!
