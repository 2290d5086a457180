//! A rendering of the resolved tree for diagnosis: source-like text in
//! which every name has given way to its address.
//!
//! A variable reads `<slot@depth>`, an operator ` <slot:depth> `. A block
//! puts each statement on a line of its own, two columns further in than
//! the block. Every function here appends to a text; what it appends is
//! defined by the function of the same name among the spec functions.

use crate::ast::{
    Block, Declaration, EntryList, Expr, ExprList, FuncDef, Program, ProgramModel, Stmt, StmtList,
};
use crate::parser::texts_of;
use crate::text::text_of;
use vstd::prelude::*;

verus! {

/// What the `Debug` formatting of the standard library makes of a string
/// of the characters `text`: the string in quotes, with escapes.
pub uninterp spec fn debug_quoted(text: Seq<char>) -> Seq<char>;

/// The `Debug` formatting of `str`, `<str as core::fmt::Debug>::fmt`,
/// applied to a string of the characters of `text`. The contract names the
/// result; it claims nothing of it but that it depends on the characters
/// alone.
#[verifier::external_body]
fn quote(text: &Vec<char>) -> (quoted: Vec<char>)
    ensures
        quoted@ == debug_quoted(text@),
{
    let plain: String = text.iter().collect();
    format!("{:?}", plain).chars().collect()
}

/// The character of a decimal digit.
pub open spec fn digit(d: nat) -> char {
    if d == 0 {
        '0'
    } else if d == 1 {
        '1'
    } else if d == 2 {
        '2'
    } else if d == 3 {
        '3'
    } else if d == 4 {
        '4'
    } else if d == 5 {
        '5'
    } else if d == 6 {
        '6'
    } else if d == 7 {
        '7'
    } else if d == 8 {
        '8'
    } else {
        '9'
    }
}

/// A number in decimal digits, without leading zeros.
pub open spec fn decimal(n: nat) -> Seq<char>
    decreases n,
{
    if n < 10 {
        seq![digit(n)]
    } else {
        decimal(n / 10).push(digit(n % 10))
    }
}

/// The indentation one level further in.
pub open spec fn deeper(indent: usize) -> usize {
    if indent <= usize::MAX - 2 {
        (indent + 2) as usize
    } else {
        indent
    }
}

/// `n` blanks.
pub open spec fn blanks(n: nat) -> Seq<char> {
    Seq::new(n, |i: int| ' ')
}

/// The address of a variable.
pub open spec fn variable(slot: usize, depth: usize) -> Seq<char> {
    "<"@ + decimal(slot as nat) + "@"@ + decimal(depth as nat) + ">"@
}

/// The address of an operator, between blanks.
pub open spec fn operator(slot: usize, depth: usize) -> Seq<char> {
    " <"@ + decimal(slot as nat) + ":"@ + decimal(depth as nat) + "> "@
}

/// The parameters of a function from the index `i` on, separated by commas.
pub open spec fn render_params(out: Seq<char>, num_params: usize, i: usize) -> Seq<char>
    decreases num_params - i,
{
    if i < num_params {
        let separated = if i > 0 {
            out + ", "@
        } else {
            out
        };
        render_params(separated + variable(i, 0), num_params, (i + 1) as usize)
    } else {
        out
    }
}

/// The text `out` with the expression `e` appended. A function literal is
/// rendered in full where its index is below `limit`, and as its index in
/// angle brackets otherwise.
pub open spec fn render_expr(
    p: ProgramModel,
    texts: Seq<Seq<char>>,
    out: Seq<char>,
    e: Expr,
    indent: usize,
    limit: usize,
) -> Seq<char>
    decreases limit, 1nat, e,
{
    match e {
        Expr::NumberLiteral(k) => if k < texts.len() {
            out + texts[k as int]
        } else {
            out + "?"@
        },
        Expr::StringLiteral(k) => if k < p.strings.len() {
            out + debug_quoted(p.strings[k as int])
        } else {
            out + "?"@
        },
        Expr::VariableRef(depth, slot) => out + variable(slot, depth),
        Expr::VecLiteral(items) => render_list(p, texts, out + "["@, items, indent, limit, true)
            + "]"@,
        Expr::MapLiteral(entries) => render_entries(
            p,
            texts,
            out + "{"@,
            entries,
            indent,
            limit,
            true,
        ) + "}"@,
        Expr::ElementAccess(container, index) => render_expr(
            p,
            texts,
            render_expr(p, texts, out, *container, indent, limit) + "["@,
            *index,
            indent,
            limit,
        ) + "]"@,
        Expr::VarAssign(depth, slot, value) => render_expr(
            p,
            texts,
            out + variable(slot, depth) + " = "@,
            *value,
            indent,
            limit,
        ),
        Expr::ElemAssign(container, index, value) => render_expr(
            p,
            texts,
            render_expr(
                p,
                texts,
                render_expr(p, texts, out, *container, indent, limit) + "["@,
                *index,
                indent,
                limit,
            ) + "] = "@,
            *value,
            indent,
            limit,
        ),
        Expr::BinaryOp(depth, slot, left, right) => render_expr(
            p,
            texts,
            render_expr(p, texts, out + "("@, *left, indent, limit) + operator(slot, depth),
            *right,
            indent,
            limit,
        ) + ")"@,
        Expr::PrefixOp(depth, slot, operand) => render_expr(
            p,
            texts,
            out + "("@ + operator(slot, depth),
            *operand,
            indent,
            limit,
        ) + ")"@,
        Expr::FuncCall(callee, args) => render_list(
            p,
            texts,
            render_expr(p, texts, out, *callee, indent, limit) + "("@,
            args,
            indent,
            limit,
            true,
        ) + ")"@,
        Expr::FuncDefLiteral(k) => if k < limit && k < p.funcs.len() {
            render_func(p, texts, out, p.funcs[k as int], indent, k)
        } else {
            out + "<"@ + decimal(k as nat) + ">"@
        },
    }
}

/// The text `out` with the expressions of a list appended, separated by
/// commas; `first` says that none was appended before.
pub open spec fn render_list(
    p: ProgramModel,
    texts: Seq<Seq<char>>,
    out: Seq<char>,
    l: ExprList,
    indent: usize,
    limit: usize,
    first: bool,
) -> Seq<char>
    decreases limit, 1nat, l,
{
    match l {
        ExprList::Nil => out,
        ExprList::Cons(head, rest) => {
            let separated = if first {
                out
            } else {
                out + ", "@
            };
            render_list(
                p,
                texts,
                render_expr(p, texts, separated, *head, indent, limit),
                *rest,
                indent,
                limit,
                false,
            )
        },
    }
}

/// The text `out` with the entries of a map literal appended, separated by
/// commas, each as its key, a colon and its value.
pub open spec fn render_entries(
    p: ProgramModel,
    texts: Seq<Seq<char>>,
    out: Seq<char>,
    l: EntryList,
    indent: usize,
    limit: usize,
    first: bool,
) -> Seq<char>
    decreases limit, 1nat, l,
{
    match l {
        EntryList::Nil => out,
        EntryList::Cons(k, value, rest) => {
            let separated = if first {
                out
            } else {
                out + ", "@
            };
            let key = if k < p.strings.len() {
                debug_quoted(p.strings[k as int])
            } else {
                "?"@
            };
            render_entries(
                p,
                texts,
                render_expr(p, texts, separated + key + ": "@, *value, indent, limit),
                *rest,
                indent,
                limit,
                false,
            )
        },
    }
}

/// The text `out` with a function appended: the keyword, the addresses of
/// the parameters in parentheses, and the body.
pub open spec fn render_func(
    p: ProgramModel,
    texts: Seq<Seq<char>>,
    out: Seq<char>,
    def: FuncDef,
    indent: usize,
    limit: usize,
) -> Seq<char>
    decreases limit, 4nat, def,
{
    render_block(
        p,
        texts,
        render_params(out + "function ("@, def.num_params, 0) + ") "@,
        def.body,
        def.num_params,
        indent,
        limit,
    )
}

/// The text `out` with a block appended, whose variable has the slot
/// `slot`: a brace, the declaration and each statement on lines of their
/// own, and a brace at the indentation of the block.
pub open spec fn render_block(
    p: ProgramModel,
    texts: Seq<Seq<char>>,
    out: Seq<char>,
    b: Block,
    slot: usize,
    indent: usize,
    limit: usize,
) -> Seq<char>
    decreases limit, 3nat, b,
{
    let opened = out + "{\n"@;
    let declared = match b.decl {
        Declaration::NoVar => opened,
        Declaration::Var => opened + blanks(deeper(indent) as nat) + "var "@ + variable(slot, 0)
            + ";\n"@,
        Declaration::VarInit(init) => render_expr(
            p,
            texts,
            opened + blanks(deeper(indent) as nat) + "var "@ + variable(slot, 0) + " = "@,
            init,
            deeper(indent),
            limit,
        ) + ";\n"@,
    };
    render_stmts(p, texts, declared, b.stmts, deeper(indent), limit) + blanks(indent as nat) + "}"@
}

/// The text `out` with each statement of a list appended, on a line of its
/// own that starts with `indent` blanks.
pub open spec fn render_stmts(
    p: ProgramModel,
    texts: Seq<Seq<char>>,
    out: Seq<char>,
    l: StmtList,
    indent: usize,
    limit: usize,
) -> Seq<char>
    decreases limit, 3nat, l,
{
    match l {
        StmtList::Nil => out,
        StmtList::Cons(head, rest) => render_stmts(
            p,
            texts,
            render_stmt(p, texts, out + blanks(indent as nat), *head, indent, limit) + "\n"@,
            *rest,
            indent,
            limit,
        ),
    }
}

/// The text `out` with a statement appended.
pub open spec fn render_stmt(
    p: ProgramModel,
    texts: Seq<Seq<char>>,
    out: Seq<char>,
    s: Stmt,
    indent: usize,
    limit: usize,
) -> Seq<char>
    decreases limit, 3nat, s,
{
    match s {
        Stmt::Empty => out + ";"@,
        Stmt::Expression(e) => render_expr(p, texts, out, e, indent, limit) + ";"@,
        Stmt::Block(b) => render_block(p, texts, out, b, 0, indent, limit),
        Stmt::If(test, then_stmt, else_stmt) => {
            let tested = render_stmt(
                p,
                texts,
                render_expr(p, texts, out + "if ("@, test, indent, limit) + ") "@,
                *then_stmt,
                indent,
                limit,
            );
            match else_stmt {
                Some(other) => render_stmt(p, texts, tested + " else "@, *other, indent, limit),
                None => tested,
            }
        },
        Stmt::While(test, body) => render_stmt(
            p,
            texts,
            render_expr(p, texts, out + "while ("@, test, indent, limit) + ") "@,
            *body,
            indent,
            limit,
        ),
        Stmt::Break => out + "break;"@,
        Stmt::Return(None) => out + "return;"@,
        Stmt::Return(Some(e)) => render_expr(p, texts, out + "return "@, e, indent, limit) + ";"@,
    }
}

/// The text `out` with every function of the program from the index `k`
/// on appended, each after its index and followed by a line break.
pub open spec fn render_program(
    p: ProgramModel,
    texts: Seq<Seq<char>>,
    out: Seq<char>,
    k: usize,
) -> Seq<char>
    decreases p.funcs.len() - k,
{
    if k < p.funcs.len() && k < usize::MAX {
        render_program(
            p,
            texts,
            render_func(p, texts, out + decimal(k as nat) + ": "@, p.funcs[k as int], 0, k) + "\n"@,
            (k + 1) as usize,
        )
    } else {
        out
    }
}

/// Appends `word` to `out`.
fn put(out: &mut Vec<char>, word: &str)
    ensures
        final(out)@ == old(out)@ + word@,
{
    let mut text = text_of(word);
    out.append(&mut text);
}

/// Appends `text` to `out`.
pub fn put_text(out: &mut Vec<char>, text: &Vec<char>)
    ensures
        final(out)@ == old(out)@ + text@,
{
    let mut i: usize = 0;
    assert(out@ =~= old(out)@ + text@.take(0));
    while i < text.len()
        invariant
            i <= text@.len(),
            out@ == old(out)@ + text@.take(i as int),
        decreases text@.len() - i,
    {
        out.push(text[i]);
        assert(text@.take(i + 1) =~= text@.take(i as int).push(text@[i as int]));
        assert(out@ =~= old(out)@ + text@.take(i + 1));
        i += 1;
    }
    assert(text@.take(i as int) =~= text@);
}

/// Appends `n` blanks to `out`.
fn put_blanks(out: &mut Vec<char>, n: usize)
    ensures
        final(out)@ == old(out)@ + blanks(n as nat),
{
    let mut i: usize = 0;
    assert(out@ =~= old(out)@ + blanks(0));
    while i < n
        invariant
            i <= n,
            out@ == old(out)@ + blanks(i as nat),
        decreases n - i,
    {
        out.push(' ');
        i += 1;
        assert(out@ =~= old(out)@ + blanks(i as nat));
    }
}

fn digit_of(d: usize) -> (c: char)
    requires
        d < 10,
    ensures
        c == digit(d as nat),
{
    if d == 0 {
        '0'
    } else if d == 1 {
        '1'
    } else if d == 2 {
        '2'
    } else if d == 3 {
        '3'
    } else if d == 4 {
        '4'
    } else if d == 5 {
        '5'
    } else if d == 6 {
        '6'
    } else if d == 7 {
        '7'
    } else if d == 8 {
        '8'
    } else {
        '9'
    }
}

/// The decimal digits of `n`.
pub fn decimal_of(n: usize) -> (text: Vec<char>)
    ensures
        text@ == decimal(n as nat),
    decreases n,
{
    if n < 10 {
        let mut text: Vec<char> = Vec::new();
        text.push(digit_of(n));
        text
    } else {
        let mut text = decimal_of(n / 10);
        text.push(digit_of(n % 10));
        text
    }
}

fn put_variable(out: &mut Vec<char>, slot: usize, depth: usize)
    ensures
        final(out)@ == old(out)@ + variable(slot, depth),
{
    put(out, "<");
    put_text(out, &decimal_of(slot));
    put(out, "@");
    put_text(out, &decimal_of(depth));
    put(out, ">");
    assert(out@ =~= old(out)@ + variable(slot, depth));
}

fn put_operator(out: &mut Vec<char>, slot: usize, depth: usize)
    ensures
        final(out)@ == old(out)@ + operator(slot, depth),
{
    put(out, " <");
    put_text(out, &decimal_of(slot));
    put(out, ":");
    put_text(out, &decimal_of(depth));
    put(out, "> ");
    assert(out@ =~= old(out)@ + operator(slot, depth));
}

fn put_params(out: &mut Vec<char>, num_params: usize)
    ensures
        final(out)@ == render_params(old(out)@, num_params, 0),
{
    let mut i: usize = 0;
    while i < num_params
        invariant
            i <= num_params,
            render_params(out@, num_params, i) == render_params(old(out)@, num_params, 0),
        decreases num_params - i,
    {
        if i > 0 {
            put(out, ", ");
        }
        put_variable(out, i, 0);
        i += 1;
    }
}

fn indent_deeper(indent: usize) -> (r: usize)
    ensures
        r == deeper(indent),
{
    if indent <= usize::MAX - 2 {
        indent + 2
    } else {
        indent
    }
}

impl Expr {
    /// Appends the expression `e` to `out`.
    pub fn fmt_indent(
        &self,
        prog: &Program,
        texts: &Vec<Vec<char>>,
        out: &mut Vec<char>,
        indent: usize,
        limit: usize,
    )
        ensures
            final(out)@ == render_expr(prog@, texts_of(*texts), old(out)@, *self, indent, limit),
        decreases limit, 1nat, *self,
    {
        match self {
            Expr::NumberLiteral(k) => {
                if *k < texts.len() {
                    put_text(out, &texts[*k]);
                } else {
                    put(out, "?");
                }
            },
            Expr::StringLiteral(k) => {
                if *k < prog.strings.len() {
                    put_text(out, &quote(&prog.strings[*k]));
                } else {
                    put(out, "?");
                }
            },
            Expr::VariableRef(depth, slot) => {
                put_variable(out, *slot, *depth);
            },
            Expr::VecLiteral(items) => {
                put(out, "[");
                fmt_list(prog, texts, out, items, indent, limit, true);
                put(out, "]");
            },
            Expr::MapLiteral(entries) => {
                put(out, "{");
                fmt_entries(prog, texts, out, entries, indent, limit, true);
                put(out, "}");
            },
            Expr::ElementAccess(container, index) => {
                container.fmt_indent(prog, texts, out, indent, limit);
                put(out, "[");
                index.fmt_indent(prog, texts, out, indent, limit);
                put(out, "]");
            },
            Expr::VarAssign(depth, slot, value) => {
                put_variable(out, *slot, *depth);
                put(out, " = ");
                value.fmt_indent(prog, texts, out, indent, limit);
            },
            Expr::ElemAssign(container, index, value) => {
                container.fmt_indent(prog, texts, out, indent, limit);
                put(out, "[");
                index.fmt_indent(prog, texts, out, indent, limit);
                put(out, "] = ");
                value.fmt_indent(prog, texts, out, indent, limit);
            },
            Expr::BinaryOp(depth, slot, left, right) => {
                put(out, "(");
                left.fmt_indent(prog, texts, out, indent, limit);
                put_operator(out, *slot, *depth);
                right.fmt_indent(prog, texts, out, indent, limit);
                put(out, ")");
            },
            Expr::PrefixOp(depth, slot, operand) => {
                put(out, "(");
                put_operator(out, *slot, *depth);
                operand.fmt_indent(prog, texts, out, indent, limit);
                put(out, ")");
            },
            Expr::FuncCall(callee, args) => {
                callee.fmt_indent(prog, texts, out, indent, limit);
                put(out, "(");
                fmt_list(prog, texts, out, args, indent, limit, true);
                put(out, ")");
            },
            Expr::FuncDefLiteral(k) => {
                if *k < limit && *k < prog.funcs.len() {
                    (&prog.funcs[*k]).fmt_indent(prog, texts, out, indent, *k);
                } else {
                    put(out, "<");
                    put_text(out, &decimal_of(*k));
                    put(out, ">");
                }
            },
        }
    }
}

fn fmt_list(
    prog: &Program,
    texts: &Vec<Vec<char>>,
    out: &mut Vec<char>,
    l: &ExprList,
    indent: usize,
    limit: usize,
    first: bool,
)
    ensures
        final(out)@ == render_list(prog@, texts_of(*texts), old(out)@, *l, indent, limit, first),
    decreases limit, 1nat, *l,
{
    match l {
        ExprList::Nil => {},
        ExprList::Cons(head, rest) => {
            if !first {
                put(out, ", ");
            }
            head.fmt_indent(prog, texts, out, indent, limit);
            fmt_list(prog, texts, out, rest, indent, limit, false);
        },
    }
}

fn fmt_entries(
    prog: &Program,
    texts: &Vec<Vec<char>>,
    out: &mut Vec<char>,
    l: &EntryList,
    indent: usize,
    limit: usize,
    first: bool,
)
    ensures
        final(out)@ == render_entries(
            prog@,
            texts_of(*texts),
            old(out)@,
            *l,
            indent,
            limit,
            first,
        ),
    decreases limit, 1nat, *l,
{
    match l {
        EntryList::Nil => {},
        EntryList::Cons(k, value, rest) => {
            if !first {
                put(out, ", ");
            }
            if *k < prog.strings.len() {
                put_text(out, &quote(&prog.strings[*k]));
            } else {
                put(out, "?");
            }
            put(out, ": ");
            value.fmt_indent(prog, texts, out, indent, limit);
            fmt_entries(prog, texts, out, rest, indent, limit, false);
        },
    }
}

impl FuncDef {
    /// Appends the function `def` to `out`.
    pub fn fmt_indent(
        &self,
        prog: &Program,
        texts: &Vec<Vec<char>>,
        out: &mut Vec<char>,
        indent: usize,
        limit: usize,
    )
        ensures
            final(out)@ == render_func(prog@, texts_of(*texts), old(out)@, *self, indent, limit),
        decreases limit, 4nat, *self,
    {
        put(out, "function (");
        put_params(out, self.num_params);
        put(out, ") ");
        (&self.body).fmt_indent(prog, texts, out, self.num_params, indent, limit);
    }
}

impl Block {
    /// Appends the block `b`, whose variable has the slot `slot`, to `out`.
    pub fn fmt_indent(
        &self,
        prog: &Program,
        texts: &Vec<Vec<char>>,
        out: &mut Vec<char>,
        slot: usize,
        indent: usize,
        limit: usize,
    )
        ensures
            final(out)@ == render_block(prog@, texts_of(*texts), old(out)@, *self, slot, indent, limit),
        decreases limit, 3nat, *self,
    {
        let inner = indent_deeper(indent);
        put(out, "{\n");
        match &self.decl {
            Declaration::NoVar => {},
            Declaration::Var => {
                put_blanks(out, inner);
                put(out, "var ");
                put_variable(out, slot, 0);
                put(out, ";\n");
            },
            Declaration::VarInit(init) => {
                put_blanks(out, inner);
                put(out, "var ");
                put_variable(out, slot, 0);
                put(out, " = ");
                init.fmt_indent(prog, texts, out, inner, limit);
                put(out, ";\n");
            },
        }
        fmt_stmts(prog, texts, out, &self.stmts, inner, limit);
        put_blanks(out, indent);
        put(out, "}");
    }
}

fn fmt_stmts(
    prog: &Program,
    texts: &Vec<Vec<char>>,
    out: &mut Vec<char>,
    l: &StmtList,
    indent: usize,
    limit: usize,
)
    ensures
        final(out)@ == render_stmts(prog@, texts_of(*texts), old(out)@, *l, indent, limit),
    decreases limit, 3nat, *l,
{
    match l {
        StmtList::Nil => {},
        StmtList::Cons(head, rest) => {
            put_blanks(out, indent);
            head.fmt_indent(prog, texts, out, indent, limit);
            put(out, "\n");
            fmt_stmts(prog, texts, out, rest, indent, limit);
        },
    }
}

impl Stmt {
    /// Appends the statement `s` to `out`.
    pub fn fmt_indent(
        &self,
        prog: &Program,
        texts: &Vec<Vec<char>>,
        out: &mut Vec<char>,
        indent: usize,
        limit: usize,
    )
        ensures
            final(out)@ == render_stmt(prog@, texts_of(*texts), old(out)@, *self, indent, limit),
        decreases limit, 3nat, *self,
    {
        match self {
            Stmt::Empty => {
                put(out, ";");
            },
            Stmt::Expression(e) => {
                e.fmt_indent(prog, texts, out, indent, limit);
                put(out, ";");
            },
            Stmt::Block(b) => {
                (b).fmt_indent(prog, texts, out, 0, indent, limit);
            },
            Stmt::If(test, then_stmt, else_stmt) => {
                put(out, "if (");
                test.fmt_indent(prog, texts, out, indent, limit);
                put(out, ") ");
                then_stmt.fmt_indent(prog, texts, out, indent, limit);
                match else_stmt {
                    Some(other) => {
                        put(out, " else ");
                        other.fmt_indent(prog, texts, out, indent, limit);
                    },
                    None => {},
                }
            },
            Stmt::While(test, body) => {
                put(out, "while (");
                test.fmt_indent(prog, texts, out, indent, limit);
                put(out, ") ");
                body.fmt_indent(prog, texts, out, indent, limit);
            },
            Stmt::Break => {
                put(out, "break;");
            },
            Stmt::Return(None) => {
                put(out, "return;");
            },
            Stmt::Return(Some(e)) => {
                put(out, "return ");
                e.fmt_indent(prog, texts, out, indent, limit);
                put(out, ";");
            },
        }
    }
}

/// The rendering of every function of the program, each after its index.
pub fn fmt_program(prog: &Program, texts: &Vec<Vec<char>>) -> (out: Vec<char>)
    ensures
        out@ == render_program(prog@, texts_of(*texts), Seq::empty(), 0),
{
    let mut out: Vec<char> = Vec::new();
    let mut k: usize = 0;
    while k < prog.funcs.len()
        invariant
            k <= prog.funcs@.len(),
            render_program(prog@, texts_of(*texts), out@, k) == render_program(
                prog@,
                texts_of(*texts),
                Seq::empty(),
                0,
            ),
        decreases prog.funcs@.len() - k,
    {
        put_text(&mut out, &decimal_of(k));
        put(&mut out, ": ");
        prog.funcs[k].fmt_indent(prog, texts, &mut out, 0, k);
        put(&mut out, "\n");
        k += 1;
    }
    out
}

} // verus!
