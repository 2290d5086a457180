use bleepscript::ast::{Block, Declaration, EntryList, Expr, ExprList, FuncDef, Stmt, StmtList};
use bleepscript::char_reader::CharReader;
use bleepscript::error::{ParseError, ParseErrorKind};
use bleepscript::lexer::read_tokens;
use bleepscript::parser::Parser;
use bleepscript::resolver::Resolver;

fn chars(s: &str) -> Vec<char> {
    s.chars().collect()
}

/// A parser over the source, with the names given in the outermost scope.
fn parser(source: &str, names: &[&str]) -> Parser {
    let tokens = read_tokens(&mut CharReader::new(chars(source))).unwrap();
    let resolver = Resolver::with_names(names.iter().map(|n| chars(n)).collect());
    Parser { tokens, pos: 0, resolver, funcs: vec![], numbers: vec![], strings: vec![] }
}

const OPS: [&str; 6] = ["__add", "__mul", "__neg", "__lt", "a", "b"];

fn expr(source: &str) -> Result<Expr, ParseError> {
    parser(source, &OPS).parse_expr()
}

fn var(slot: usize) -> Box<Expr> {
    Box::new(Expr::VariableRef(0, slot))
}

fn list(items: Vec<Expr>) -> ExprList {
    items
        .into_iter()
        .rev()
        .fold(ExprList::Nil, |rest, e| ExprList::Cons(Box::new(e), Box::new(rest)))
}

fn stmts(items: Vec<Stmt>) -> StmtList {
    items
        .into_iter()
        .rev()
        .fold(StmtList::Nil, |rest, s| StmtList::Cons(Box::new(s), Box::new(rest)))
}

#[test]
fn tighter_operator_takes_its_operands_first() {
    let product = Expr::BinaryOp(0, 1, var(5), var(4));
    assert_eq!(expr("a + b * a"), Ok(Expr::BinaryOp(0, 0, var(4), Box::new(product))));
    let product = Expr::BinaryOp(0, 1, var(4), var(5));
    assert_eq!(expr("a * b + a"), Ok(Expr::BinaryOp(0, 0, Box::new(product), var(4))));
}

#[test]
fn operators_of_one_level_associate_to_the_left() {
    let first = Expr::BinaryOp(0, 0, var(4), var(5));
    assert_eq!(expr("a + b + a"), Ok(Expr::BinaryOp(0, 0, Box::new(first), var(4))));
}

#[test]
fn parentheses_group() {
    let sum = Expr::BinaryOp(0, 0, var(5), var(4));
    assert_eq!(expr("a * (b + a)"), Ok(Expr::BinaryOp(0, 1, var(4), Box::new(sum))));
}

#[test]
fn prefix_operator_binds_tighter_than_binary_ones() {
    let negated = Expr::PrefixOp(0, 2, var(4));
    assert_eq!(expr("-a * b"), Ok(Expr::BinaryOp(0, 1, Box::new(negated), var(5))));
    let twice = Expr::PrefixOp(0, 2, Box::new(Expr::PrefixOp(0, 2, var(4))));
    assert_eq!(expr("--a"), Ok(twice));
}

#[test]
fn calls_and_element_accesses_bind_tightest() {
    let call = Expr::FuncCall(var(4), list(vec![*var(5), Expr::NumberLiteral(0)]));
    let element = Expr::ElementAccess(Box::new(call), var(4));
    let again = Expr::FuncCall(Box::new(element), ExprList::Nil);
    assert_eq!(expr("-a(b, 1)[a]()"), Ok(Expr::PrefixOp(0, 2, Box::new(again))));
}

#[test]
fn assignment_takes_everything_to_its_right() {
    let sum = Expr::BinaryOp(0, 0, var(5), var(4));
    assert_eq!(expr("a = b + a"), Ok(Expr::VarAssign(0, 4, Box::new(sum))));
    let inner = Expr::VarAssign(0, 5, var(4));
    assert_eq!(expr("a = b = a"), Ok(Expr::VarAssign(0, 4, Box::new(inner))));
    let element = Expr::ElemAssign(var(4), var(5), var(4));
    assert_eq!(expr("a[b] = a"), Ok(element));
    let e = ParseError { kind: ParseErrorKind::UnexpectedToken, line: 1, col: 7 };
    assert_eq!(expr("a + b = a"), Err(e));
    assert_eq!(expr("a() = b").unwrap_err().kind, ParseErrorKind::UnexpectedToken);
}

#[test]
fn literals_join_the_constants_of_the_program() {
    let mut p = parser("[1, \"x\", 2.5, {k: \"v\", \"w\": 1}]", &[]);
    let entries = EntryList::Cons(
        1,
        Box::new(Expr::StringLiteral(2)),
        Box::new(EntryList::Cons(3, Box::new(Expr::NumberLiteral(2)), Box::new(EntryList::Nil))),
    );
    let items = list(vec![
        Expr::NumberLiteral(0),
        Expr::StringLiteral(0),
        Expr::NumberLiteral(1),
        Expr::MapLiteral(entries),
    ]);
    assert_eq!(p.parse_expr(), Ok(Expr::VecLiteral(items)));
    assert_eq!(p.numbers, vec![chars("1"), chars("2.5"), chars("1")]);
    assert_eq!(p.strings, vec![chars("x"), chars("k"), chars("v"), chars("w")]);
    assert_eq!(p.pos, 17);
}

#[test]
fn lists_take_no_comma_at_their_end() {
    assert_eq!(expr("[]"), Ok(Expr::VecLiteral(ExprList::Nil)));
    assert_eq!(expr("{}"), Ok(Expr::MapLiteral(EntryList::Nil)));
    assert_eq!(expr("[a,]").unwrap_err().kind, ParseErrorKind::UnexpectedToken);
    assert_eq!(expr("a(b,)").unwrap_err().kind, ParseErrorKind::UnexpectedToken);
    assert_eq!(expr("{a: b,}").unwrap_err().kind, ParseErrorKind::UnexpectedToken);
    assert_eq!(expr("{1: b}").unwrap_err().kind, ParseErrorKind::UnexpectedToken);
    assert_eq!(expr("[a b]").unwrap_err().kind, ParseErrorKind::UnexpectedToken);
}

#[test]
fn function_has_a_scope_for_parameters_and_declaration() {
    let mut p = parser("function(x, y) { var z = a; return x + z; }", &OPS);
    assert_eq!(p.parse_expr(), Ok(Expr::FuncDefLiteral(0)));
    let sum = Expr::BinaryOp(1, 0, var(0), var(2));
    let body = Block {
        decl: Declaration::VarInit(Expr::VariableRef(1, 4)),
        stmts: stmts(vec![Stmt::Return(Some(sum))]),
    };
    assert_eq!(p.funcs, vec![FuncDef { num_params: 2, body }]);
    assert_eq!(p.resolver.resolve(&chars("x")), Err(ParseErrorKind::UndeclaredVariable));
}

#[test]
fn inner_function_comes_before_the_one_around_it() {
    let mut p = parser("function() { return function(x) { return x; }; }", &[]);
    assert_eq!(p.parse_expr(), Ok(Expr::FuncDefLiteral(1)));
    let inner = Block {
        decl: Declaration::NoVar,
        stmts: stmts(vec![Stmt::Return(Some(Expr::VariableRef(0, 0)))]),
    };
    let outer = Block {
        decl: Declaration::NoVar,
        stmts: stmts(vec![Stmt::Return(Some(Expr::FuncDefLiteral(0)))]),
    };
    assert_eq!(
        p.funcs,
        vec![FuncDef { num_params: 1, body: inner }, FuncDef { num_params: 0, body: outer }]
    );
}

#[test]
fn declaration_among_statements_opens_a_block_to_the_end() {
    let mut p = parser("{ a; var x; x; var y = x; y; }", &OPS);
    let innermost = Block {
        decl: Declaration::VarInit(Expr::VariableRef(1, 0)),
        stmts: stmts(vec![Stmt::Expression(Expr::VariableRef(0, 0))]),
    };
    let inner = Block {
        decl: Declaration::Var,
        stmts: stmts(vec![Stmt::Expression(Expr::VariableRef(0, 0)), Stmt::Block(innermost)]),
    };
    let outer = Block {
        decl: Declaration::NoVar,
        stmts: stmts(vec![Stmt::Expression(Expr::VariableRef(1, 4)), Stmt::Block(inner)]),
    };
    assert_eq!(p.parse_statement(), Ok(Stmt::Block(outer)));
}

#[test]
fn else_belongs_to_the_nearest_if() {
    let mut p = parser("if (a) if (b) ; else break;", &OPS);
    let inner = Stmt::If(*var(5), Box::new(Stmt::Empty), Some(Box::new(Stmt::Break)));
    assert_eq!(p.parse_statement(), Ok(Stmt::If(*var(4), Box::new(inner), None)));
}

#[test]
fn statements_of_each_kind_are_parsed() {
    let stmt = |s: &str| parser(s, &OPS).parse_statement();
    assert_eq!(stmt(";"), Ok(Stmt::Empty));
    assert_eq!(stmt("break;"), Ok(Stmt::Break));
    assert_eq!(stmt("return;"), Ok(Stmt::Return(None)));
    assert_eq!(stmt("return a;"), Ok(Stmt::Return(Some(*var(4)))));
    assert_eq!(stmt("a;"), Ok(Stmt::Expression(*var(4))));
    assert_eq!(stmt("while (a) b;"), Ok(Stmt::While(*var(4), Box::new(Stmt::Expression(*var(5))))));
    let block = Block { decl: Declaration::NoVar, stmts: StmtList::Nil };
    assert_eq!(stmt("{}"), Ok(Stmt::Block(block)));
    assert_eq!(stmt("var x;").unwrap_err().kind, ParseErrorKind::UnexpectedToken);
    assert_eq!(stmt("if a ;").unwrap_err().kind, ParseErrorKind::UnexpectedToken);
    assert_eq!(stmt("while (a ;").unwrap_err().kind, ParseErrorKind::UnexpectedToken);
    assert_eq!(stmt("a").unwrap_err(), ParseError { kind: ParseErrorKind::UnexpectedToken, line: 1, col: 2 });
    assert_eq!(stmt("break").unwrap_err().kind, ParseErrorKind::UnexpectedToken);
    assert_eq!(stmt("{ a; ").unwrap_err().kind, ParseErrorKind::UnexpectedToken);
    assert_eq!(stmt("else ;").unwrap_err().kind, ParseErrorKind::UnexpectedToken);
}

#[test]
fn program_binds_each_function_to_the_slot_of_its_name() {
    let mut p = parser("function f() { return g; } function g(x) { return f; }", &["g"]);
    assert_eq!(p.parse_program().unwrap_err().kind, ParseErrorKind::DuplicateDeclaration);
    let mut p = parser("function f() { return h; } function g(x) { return f; }", &["h"]);
    assert_eq!(p.parse_program(), Ok(vec![(1, 0), (2, 1)]));
    assert_eq!(p.funcs.len(), 2);
    assert_eq!(p.funcs[1].num_params, 1);
    let mut p = parser("function f() { } return;", &[]);
    let e = ParseError { kind: ParseErrorKind::UnexpectedToken, line: 1, col: 18 };
    assert_eq!(p.parse_program(), Err(e));
    assert_eq!(parser("", &[]).parse_program(), Ok(vec![]));
}
