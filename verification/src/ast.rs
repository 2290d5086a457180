//! The syntax tree of a program, with every name resolved to an address.
//!
//! An address is a pair of a depth and a slot: the number of frames to walk
//! up from the current one, and the place in the frame found there. An
//! operator is a use of the name bound to it, so the nodes of operators
//! carry an address where other designs carry an operator tag.

use vstd::prelude::*;

verus! {

#[derive(Debug, PartialEq, Eq)]
pub enum Expr {
    /// A number, by its index among the program's number constants.
    NumberLiteral(usize),
    /// A string, by its index among the program's string constants.
    StringLiteral(usize),
    /// The variable at `(depth, slot)`.
    VariableRef(usize, usize),
    /// A new vector of the values of the items.
    VecLiteral(ExprList),
    /// A new map of the entries, in their order.
    MapLiteral(EntryList),
    /// The element of a container at an index.
    ElementAccess(Box<Expr>, Box<Expr>),
    /// Assignment to the variable at `(depth, slot)`.
    VarAssign(usize, usize, Box<Expr>),
    /// Assignment to the element of a container at an index.
    ElemAssign(Box<Expr>, Box<Expr>, Box<Expr>),
    /// A call of the operator at `(depth, slot)` on two operands.
    BinaryOp(usize, usize, Box<Expr>, Box<Expr>),
    /// A call of the operator at `(depth, slot)` on one operand.
    PrefixOp(usize, usize, Box<Expr>),
    /// A call of the value of the callee on the values of the arguments.
    FuncCall(Box<Expr>, ExprList),
    /// A function, by its index among the program's functions.
    FuncDefLiteral(usize),
}

/// Expressions in order.
#[derive(Debug, PartialEq, Eq)]
pub enum ExprList {
    Nil,
    Cons(Box<Expr>, Box<ExprList>),
}

/// The entries of a map literal in order: each a key, by its index among
/// the program's string constants, and the expression of its value.
#[derive(Debug, PartialEq, Eq)]
pub enum EntryList {
    Nil,
    Cons(usize, Box<Expr>, Box<EntryList>),
}

#[derive(Debug, PartialEq, Eq)]
pub enum Stmt {
    Empty,
    Expression(Expr),
    Block(Block),
    /// A test, the statement for a true test, and the one for a false test.
    If(Expr, Box<Stmt>, Option<Box<Stmt>>),
    /// A test and the statement to repeat while it is true.
    While(Expr, Box<Stmt>),
    Break,
    Return(Option<Expr>),
}

/// Statements in order.
#[derive(Debug, PartialEq, Eq)]
pub enum StmtList {
    Nil,
    Cons(Box<Stmt>, Box<StmtList>),
}

/// The one variable that a block may declare.
#[derive(Debug, PartialEq, Eq)]
pub enum Declaration {
    NoVar,
    /// A variable that starts as `Null`.
    Var,
    /// A variable that starts as the value of the expression, which is
    /// evaluated with the variable in scope already.
    VarInit(Expr),
}

/// A declaration, in scope for the whole block, and statements. A block
/// runs in a frame of its own; the body of a function runs in the frame of
/// the call, after the parameters.
#[derive(Debug, PartialEq, Eq)]
pub struct Block {
    pub decl: Declaration,
    pub stmts: StmtList,
}

/// A function: parameters, which take the slots from 0, and a body, whose
/// declaration takes the slot after them.
#[derive(Debug, PartialEq, Eq)]
pub struct FuncDef {
    pub num_params: usize,
    pub body: Block,
}

/// What a program is to a run: its functions and its constants.
pub struct Program {
    pub funcs: Vec<FuncDef>,
    /// The number constants, each the encoding of a double-precision number.
    pub numbers: Vec<u64>,
    pub strings: Vec<Vec<char>>,
}

/// What a program holds.
pub struct ProgramModel {
    pub funcs: Seq<FuncDef>,
    pub numbers: Seq<u64>,
    pub strings: Seq<Seq<char>>,
}

impl View for Program {
    type V = ProgramModel;

    open spec fn view(&self) -> ProgramModel {
        ProgramModel {
            funcs: self.funcs@,
            numbers: self.numbers@,
            strings: Seq::new(self.strings@.len(), |i: int| self.strings@[i]@),
        }
    }
}

impl Block {
    /// The number of slots that the block's declaration takes.
    pub open spec fn decl_slots(self) -> nat {
        match self.decl {
            Declaration::NoVar => 0,
            _ => 1,
        }
    }
}

} // verus!
