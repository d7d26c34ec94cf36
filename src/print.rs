//! The mapping from syntax trees to documents, one rule per node kind, and
//! the text that each rule lays out.

use vstd::prelude::*;
use crate::ast::{Decl, Expr, Function, Module, Parallel, Port, Sequential, Stmt, Ty};
use crate::doc::{join_layout, layout, newline, Doc, INDENT};
use crate::num::{decimal, decimal_string};

verus! {

/// The one way in which a tree cannot be rendered.
#[derive(Debug, PartialEq, Eq, Structural)]
pub enum RenderError {
    /// A rendered bit vector type has width zero.
    ZeroWidth,
}

/// Whether `t` is a legal type: no zero-width vector.
pub open spec fn ty_ok(t: Ty) -> bool {
    !(t == Ty::Width(0))
}

/// The text of a type: a vector of width one has none, a wider one its range.
pub open spec fn ty_text(t: Ty) -> Seq<char> {
    match t {
        Ty::Void => "void"@,
        Ty::Int => "int"@,
        Ty::Width(w) => if w <= 1 {
            seq![]
        } else {
            "["@ + decimal((w - 1) as nat) + ":"@ + "0"@ + "]"@
        },
    }
}

/// The text of an expression.
pub open spec fn expr_text(e: Expr) -> Seq<char> {
    match e {
        Expr::Ident(s) => s@,
        Expr::Const(n) => decimal(n as nat),
    }
}

/// Whether every type that the text of `s` shows is legal.
pub open spec fn seq_ok(s: Sequential) -> bool
    decreases s,
{
    match s {
        Sequential::Assign(_, _, t) => ty_ok(t),
        Sequential::Event(t, _) => ty_ok(t),
        Sequential::Assert(_, r) => match r {
            Some(b) => seq_ok(*b),
            None => true,
        },
        _ => true,
    }
}

/// The text of an assertion's condition part.
pub open spec fn assert_head(e: Expr) -> Seq<char> {
    "assert"@ + "("@ + expr_text(e) + ")"@
}

/// The text of a procedural action; a branch shows its condition only.
pub open spec fn seq_text(s: Sequential) -> Seq<char>
    decreases s,
{
    match s {
        Sequential::Error(m) => "$"@ + "error"@ + "("@ + "\""@ + m@ + "\""@ + ")"@,
        Sequential::Assign(id, e, t) => id@ + " "@ + ty_text(t) + " "@ + expr_text(e),
        Sequential::Event(t, e) => ty_text(t) + " "@ + expr_text(e),
        Sequential::Assert(e, r) => match r {
            Some(b) => assert_head(e) + " "@ + "else"@ + " "@ + seq_text(*b),
            None => assert_head(e),
        },
        Sequential::If(e, _, _) => "if"@ + " "@ + "("@ + expr_text(e) + ")"@,
    }
}

/// Whether every type that the text of `p` shows is legal.
pub open spec fn par_ok(p: Parallel) -> bool {
    match p {
        Parallel::Inst(t) => ty_ok(t),
        _ => true,
    }
}

/// The text of a structural construct; a process shows its keyword only.
pub open spec fn par_text(p: Parallel) -> Seq<char> {
    match p {
        Parallel::Inst(t) => ty_text(t),
        Parallel::Assign => "assign"@,
        Parallel::AlwaysComb(_) => "always_comb"@,
        Parallel::AlwaysFF(_, _) => "always_ff"@,
    }
}


/// Whether every type that the text of `d` shows is legal.
pub open spec fn decl_ok(d: Decl) -> bool
    decreases d,
{
    match d {
        Decl::Int(_, t) => ty_ok(t),
        Decl::Logic(_, t) => ty_ok(t),
        Decl::Func(f) => function_ok(f),
        Decl::Param(_, t, _) => ty_ok(t),
    }
}

/// Whether every type that the text of `p` shows is legal.
pub open spec fn port_ok(p: Port) -> bool
    decreases p,
{
    match p {
        Port::Input(d) => decl_ok(d),
        Port::Output(d) => decl_ok(d),
    }
}

/// Whether the first `n` ports of `ps` are all renderable.
pub open spec fn ports_ok(ps: Seq<Port>, n: nat) -> bool
    decreases ps, n,
{
    if n == 0 || n > ps.len() {
        true
    } else {
        ports_ok(ps, (n - 1) as nat) && port_ok(ps[n - 1])
    }
}

/// Whether every type that the text of `f` shows is legal.
pub open spec fn function_ok(f: Function) -> bool
    decreases f,
{
    ty_ok(f.ret) && ports_ok(f.inputs@, f.inputs@.len()) && actions_ok(f.body@, f.body@.len())
}

/// Whether the first `n` actions of `b` are all renderable.
pub open spec fn actions_ok(b: Seq<Sequential>, n: nat) -> bool
    decreases n,
{
    if n == 0 || n > b.len() {
        true
    } else {
        actions_ok(b, (n - 1) as nat) && seq_ok(b[n - 1])
    }
}

/// The text of a declaration at indentation `ind`; a one-bit logic type
/// leaves no space of its own before the name.
pub open spec fn decl_text(d: Decl, ind: nat) -> Seq<char>
    decreases d,
{
    match d {
        Decl::Int(n, t) => ty_text(t) + " "@ + n@,
        Decl::Logic(n, t) => "logic"@ + " "@ + ty_text(t) + (if t.spec_width() == 1 {
            seq![]
        } else {
            " "@
        }) + n@,
        Decl::Func(f) => function_text(f, ind),
        Decl::Param(n, t, e) => "parameter"@ + " "@ + ty_text(t) + " "@ + n@ + " "@ + "="@
            + " "@ + expr_text(e),
    }
}

/// The text of a port at indentation `ind`.
pub open spec fn port_text(p: Port, ind: nat) -> Seq<char>
    decreases p,
{
    match p {
        Port::Input(d) => "input"@ + " "@ + decl_text(d, ind),
        Port::Output(d) => "output"@ + " "@ + decl_text(d, ind),
    }
}

/// The first `n` ports of `ps`, each on a line of its own at indentation
/// `ind` and closed by a separator.
pub open spec fn port_lines(ps: Seq<Port>, n: nat, ind: nat) -> Seq<char>
    decreases ps, n,
{
    if n == 0 || n > ps.len() {
        seq![]
    } else {
        port_lines(ps, (n - 1) as nat, ind) + newline(ind) + port_text(ps[n - 1], ind) + ";"@
    }
}

/// The first `n` actions of `b`, each on a line of its own at indentation
/// `ind` and closed by a separator.
pub open spec fn action_lines(b: Seq<Sequential>, n: nat, ind: nat) -> Seq<char>
    decreases n,
{
    if n == 0 || n > b.len() {
        seq![]
    } else {
        action_lines(b, (n - 1) as nat, ind) + newline(ind) + seq_text(b[n - 1]) + ";"@
    }
}

/// The input block of a function: empty without inputs, else one indented
/// line per input and a break.
pub open spec fn inputs_block(ps: Seq<Port>, ind: nat) -> Seq<char>
    decreases ps,
{
    if ps.len() == 0 {
        seq![]
    } else {
        port_lines(ps, ps.len(), (ind + INDENT) as nat) + newline(ind)
    }
}

/// The body of a function: empty without actions, else the actions between
/// `begin` and `end`, one indented line each.
pub open spec fn body_block(b: Seq<Sequential>, ind: nat) -> Seq<char> {
    if b.len() == 0 {
        seq![]
    } else {
        "begin"@ + action_lines(b, b.len(), (ind + INDENT) as nat) + newline(ind) + "end"@
    }
}

/// The text of a function at indentation `ind`.
pub open spec fn function_text(f: Function, ind: nat) -> Seq<char>
    decreases f,
{
    "function"@ + " "@ + ty_text(f.ret) + " "@ + f.name@ + ";"@ + inputs_block(f.inputs@, ind)
        + body_block(f.body@, ind) + newline(ind) + "endfunction"@
}

/// A failing port among the first `n` makes them not all renderable.
proof fn lemma_ports_ok_each(ps: Seq<Port>, n: nat, j: int)
    requires
        ports_ok(ps, n),
        n <= ps.len(),
        0 <= j < n,
    ensures
        port_ok(ps[j]),
    decreases n,
{
    if j < n - 1 {
        lemma_ports_ok_each(ps, (n - 1) as nat, j);
    }
}

/// A failing action among the first `n` makes them not all renderable.
proof fn lemma_actions_ok_each(b: Seq<Sequential>, n: nat, j: int)
    requires
        actions_ok(b, n),
        n <= b.len(),
        0 <= j < n,
    ensures
        seq_ok(b[j]),
    decreases n,
{
    if j < n - 1 {
        lemma_actions_ok_each(b, (n - 1) as nat, j);
    }
}

/// Whether every type that the text of `s` shows is legal.
pub open spec fn stmt_ok(s: Stmt) -> bool {
    match s {
        Stmt::Decl(d) => decl_ok(d),
        Stmt::Parallel(p) => par_ok(p),
    }
}

/// The text of a statement at indentation `ind`.
pub open spec fn stmt_text(s: Stmt, ind: nat) -> Seq<char> {
    match s {
        Stmt::Decl(d) => decl_text(d, ind),
        Stmt::Parallel(p) => par_text(p),
    }
}

/// Whether `s` closes itself, so that no separator follows it.
pub open spec fn self_terminating(s: Stmt) -> bool {
    s matches Stmt::Decl(Decl::Func(_))
}

/// Whether the first `n` statements of `ss` are all renderable.
pub open spec fn stmts_ok(ss: Seq<Stmt>, n: nat) -> bool
    decreases n,
{
    if n == 0 || n > ss.len() {
        true
    } else {
        stmts_ok(ss, (n - 1) as nat) && stmt_ok(ss[n - 1])
    }
}

/// The first `n` statements of `ss` at indentation `ind`, each after a
/// blank line and closed by a separator unless it closes itself.
pub open spec fn stmt_lines(ss: Seq<Stmt>, n: nat, ind: nat) -> Seq<char>
    decreases n,
{
    if n == 0 || n > ss.len() {
        seq![]
    } else {
        stmt_lines(ss, (n - 1) as nat, ind) + newline(ind) + newline(ind) + stmt_text(ss[n - 1], ind)
            + (if self_terminating(ss[n - 1]) {
            seq![]
        } else {
            ";"@
        })
    }
}

/// The ports of `ps` from the `i`-th on at indentation `ind`, with a comma
/// and a break between consecutive ones.
pub open spec fn port_list(ps: Seq<Port>, i: nat, ind: nat) -> Seq<char>
    decreases ps.len() - i,
{
    if i >= ps.len() {
        seq![]
    } else if i + 1 == ps.len() {
        port_text(ps[i as int], ind)
    } else {
        port_text(ps[i as int], ind) + ","@ + newline(ind) + port_list(ps, i + 1, ind)
    }
}

/// The port block of a module: empty without ports, else each port on an
/// indented line of its own.
pub open spec fn ports_block(ps: Seq<Port>, ind: nat) -> Seq<char> {
    if ps.len() == 0 {
        seq![]
    } else {
        newline((ind + INDENT) as nat) + port_list(ps, 0, (ind + INDENT) as nat)
    }
}

/// The body of a module: empty without statements, else the statements
/// one indentation level deeper and a break.
pub open spec fn module_body(ss: Seq<Stmt>, ind: nat) -> Seq<char> {
    if ss.len() == 0 {
        seq![]
    } else {
        stmt_lines(ss, ss.len(), (ind + INDENT) as nat) + newline(ind)
    }
}

/// Whether every type that the text of `m` shows is legal.
pub open spec fn module_ok(m: Module) -> bool {
    ports_ok(m.ports@, m.ports@.len()) && stmts_ok(m.body@, m.body@.len())
}

/// The text of a module at indentation `ind`, closed by a break.
pub open spec fn module_text(m: Module, ind: nat) -> Seq<char> {
    "module"@ + " "@ + m.name@ + " "@ + "("@ + ports_block(m.ports@, ind) + ")"@ + ";"@
        + module_body(m.body@, ind) + newline(ind) + "endmodule"@ + newline(ind)
}

/// Interspersed port documents lay out as the port list.
proof fn lemma_port_list(docs: Seq<Doc>, ps: Seq<Port>, sep: Doc, i: nat, ind: nat)
    requires
        docs.len() == ps.len(),
        i <= ps.len(),
        forall|j: int| 0 <= j < ps.len() ==> layout(#[trigger] docs[j], ind) == port_text(ps[j], ind),
        layout(sep, ind) == ","@ + newline(ind),
    ensures
        join_layout(docs.subrange(i as int, docs.len() as int), sep, ind) == port_list(ps, i, ind),
    decreases ps.len() - i,
{
    let tail = docs.subrange(i as int, docs.len() as int);
    if i + 1 < ps.len() {
        lemma_port_list(docs, ps, sep, i + 1, ind);
        assert(tail.drop_first() =~= docs.subrange((i + 1) as int, docs.len() as int));
        assert(tail[0] == docs[i as int]);
        assert(layout(docs[i as int], ind) + layout(sep, ind) + join_layout(tail.drop_first(), sep, ind)
            =~= port_text(ps[i as int], ind) + ","@ + newline(ind) + port_list(ps, i + 1, ind));
    } else if i + 1 == ps.len() {
        assert(tail.len() == 1);
        assert(tail[0] == docs[i as int]);
    } else {
        assert(tail.len() == 0);
    }
}

/// A failing statement among the first `n` makes them not all renderable.
proof fn lemma_stmts_ok_each(ss: Seq<Stmt>, n: nat, j: int)
    requires
        stmts_ok(ss, n),
        n <= ss.len(),
        0 <= j < n,
    ensures
        stmt_ok(ss[j]),
    decreases n,
{
    if j < n - 1 {
        lemma_stmts_ok_each(ss, (n - 1) as nat, j);
    }
}

impl Ty {
    /// The document of this type; an error for a zero-width vector.
    pub fn to_doc(&self) -> (r: Result<Doc, RenderError>)
        ensures
            r is Ok <==> ty_ok(*self),
            r matches Ok(d) ==> forall|ind: nat| #[trigger] layout(d, ind) == ty_text(*self),
    {
        match self {
            Ty::Void => Ok(Doc::text("void")),
            Ty::Int => Ok(Doc::text("int")),
            Ty::Width(w) => {
                if *w == 0 {
                    Err(RenderError::ZeroWidth)
                } else if *w == 1 {
                    Ok(Doc::nil())
                } else {
                    Ok(
                        Doc::text("[").append(Doc::string(decimal_string(*w - 1))).append(
                            Doc::text(":"),
                        ).append(Doc::text("0")).append(Doc::text("]")),
                    )
                }
            },
        }
    }
}

impl Expr {
    /// The document of this expression.
    pub fn to_doc(&self) -> (r: Doc)
        ensures
            forall|ind: nat| #[trigger] layout(r, ind) == expr_text(*self),
    {
        match self {
            Expr::Ident(s) => Doc::string(s.clone()),
            Expr::Const(n) => Doc::string(decimal_string(*n)),
        }
    }
}

impl Sequential {
    /// The document of this action.
    pub fn to_doc(&self) -> (r: Result<Doc, RenderError>)
        ensures
            r is Ok <==> seq_ok(*self),
            r matches Ok(d) ==> forall|ind: nat| #[trigger] layout(d, ind) == seq_text(*self),
        decreases self,
    {
        match self {
            Sequential::Error(msg) => {
                let d = Doc::text("$").append(Doc::text("error")).append(Doc::text("(")).append(
                    Doc::text("\""),
                ).append(Doc::string(msg.clone())).append(Doc::text("\"")).append(
                    Doc::text(")"),
                );
                Ok(d)
            },
            Sequential::Assign(id, expr, ty) => {
                let t = match ty.to_doc() {
                    Ok(x) => x,
                    Err(e) => return Err(e),
                };
                let d = Doc::string(id.clone()).append(Doc::space()).append(t).append(
                    Doc::space(),
                ).append(expr.to_doc());
                Ok(d)
            },
            Sequential::Event(ty, expr) => {
                let t = match ty.to_doc() {
                    Ok(x) => x,
                    Err(e) => return Err(e),
                };
                Ok(t.append(Doc::space()).append(expr.to_doc()))
            },
            Sequential::Assert(expr, branch) => {
                let cond = Doc::text("assert").append(Doc::text("(")).append(
                    expr.to_doc(),
                ).append(Doc::text(")"));
                match branch {
                    Some(block) => {
                        let b = match block.to_doc() {
                    Ok(x) => x,
                    Err(e) => return Err(e),
                };
                        Ok(
                            cond.append(Doc::space()).append(Doc::text("else")).append(
                                Doc::space(),
                            ).append(b),
                        )
                    },
                    None => Ok(cond),
                }
            },
            Sequential::If(expr, _, _) => Ok(
                Doc::text("if").append(Doc::space()).append(Doc::text("(")).append(
                    expr.to_doc(),
                ).append(Doc::text(")")),
            ),
        }
    }
}

impl Parallel {
    /// The document of this construct.
    pub fn to_doc(&self) -> (r: Result<Doc, RenderError>)
        ensures
            r is Ok <==> par_ok(*self),
            r matches Ok(d) ==> forall|ind: nat| #[trigger] layout(d, ind) == par_text(*self),
    {
        match self {
            Parallel::Inst(ty) => ty.to_doc(),
            Parallel::Assign => Ok(Doc::text("assign")),
            Parallel::AlwaysComb(_) => Ok(Doc::text("always_comb")),
            Parallel::AlwaysFF(_, _) => Ok(Doc::text("always_ff")),
        }
    }
}

impl Decl {
    /// The document of this declaration.
    pub fn to_doc(&self) -> (r: Result<Doc, RenderError>)
        ensures
            r is Ok <==> decl_ok(*self),
            r matches Ok(d) ==> forall|ind: nat| #[trigger] layout(d, ind) == decl_text(*self, ind),
        decreases self,
    {
        match self {
            Decl::Int(name, ty) => {
                let t = match ty.to_doc() {
                    Ok(x) => x,
                    Err(e) => return Err(e),
                };
                Ok(t.append(Doc::space()).append(Doc::string(name.clone())))
            },
            Decl::Logic(name, ty) => {
                let t = match ty.to_doc() {
                    Ok(x) => x,
                    Err(e) => return Err(e),
                };
                let extra_space = if ty.width() == 1 {
                    Doc::nil()
                } else {
                    Doc::space()
                };
                Ok(
                    Doc::text("logic").append(Doc::space()).append(t).append(extra_space).append(
                        Doc::string(name.clone()),
                    ),
                )
            },
            Decl::Func(function) => function.to_doc(),
            Decl::Param(name, ty, expr) => {
                let t = match ty.to_doc() {
                    Ok(x) => x,
                    Err(e) => return Err(e),
                };
                Ok(
                    Doc::text("parameter").append(Doc::space()).append(t).append(
                        Doc::space(),
                    ).append(Doc::string(name.clone())).append(Doc::space()).append(
                        Doc::text("="),
                    ).append(Doc::space()).append(expr.to_doc()),
                )
            },
        }
    }
}

impl Port {
    /// The document of this port.
    pub fn to_doc(&self) -> (r: Result<Doc, RenderError>)
        ensures
            r is Ok <==> port_ok(*self),
            r matches Ok(d) ==> forall|ind: nat| #[trigger] layout(d, ind) == port_text(*self, ind),
        decreases self,
    {
        match self {
            Port::Input(decl) => {
                let d = match decl.to_doc() {
                    Ok(x) => x,
                    Err(e) => return Err(e),
                };
                Ok(Doc::text("input").append(Doc::space()).append(d))
            },
            Port::Output(decl) => {
                let d = match decl.to_doc() {
                    Ok(x) => x,
                    Err(e) => return Err(e),
                };
                Ok(Doc::text("output").append(Doc::space()).append(d))
            },
        }
    }
}

impl Function {
    /// The document of this function.
    pub fn to_doc(&self) -> (r: Result<Doc, RenderError>)
        ensures
            r is Ok <==> function_ok(*self),
            r matches Ok(d) ==> forall|ind: nat| #[trigger] layout(d, ind) == function_text(*self, ind),
        decreases self,
    {
        let ret = match self.ret.to_doc() {
            Ok(x) => x,
            Err(e) => return Err(e),
        };
        let ghost ps = self.inputs@;
        let n = self.inputs.len();
        let mut lines = Doc::nil();
        let mut i: usize = 0;
        while i < n
            invariant
                n == ps.len(),
                ps == self.inputs@,
                i <= n,
                ports_ok(ps, i as nat),
                forall|ind: nat| #[trigger] layout(lines, ind) == port_lines(ps, i as nat, ind),
            decreases n - i,
        {
            let p = match self.inputs[i].to_doc() {
                Ok(x) => x,
                Err(e) => {
                    proof {
                        if ports_ok(ps, n as nat) {
                            lemma_ports_ok_each(ps, n as nat, i as int);
                        }
                    }
                    return Err(e);
                },
            };
            lines = lines.append(Doc::hardline()).append(p).append(Doc::text(";"));
            i = i + 1;
        }
        let input_doc = if n == 0 {
            Doc::nil()
        } else {
            lines.nest(INDENT).append(Doc::hardline())
        };
        let ghost b = self.body@;
        let m = self.body.len();
        let mut actions = Doc::nil();
        let mut j: usize = 0;
        while j < m
            invariant
                m == b.len(),
                b == self.body@,
                j <= m,
                actions_ok(b, j as nat),
                forall|ind: nat| #[trigger] layout(actions, ind) == action_lines(b, j as nat, ind),
            decreases m - j,
        {
            let a = match self.body[j].to_doc() {
                Ok(x) => x,
                Err(e) => {
                    proof {
                        if actions_ok(b, m as nat) {
                            lemma_actions_ok_each(b, m as nat, j as int);
                        }
                    }
                    return Err(e);
                },
            };
            actions = actions.append(Doc::hardline()).append(a).append(Doc::text(";"));
            j = j + 1;
        }
        let body_doc = if m == 0 {
            Doc::nil()
        } else {
            Doc::text("begin").append(actions.nest(INDENT)).append(Doc::hardline()).append(
                Doc::text("end"),
            )
        };
        Ok(
            Doc::text("function").append(Doc::space()).append(ret).append(Doc::space()).append(
                Doc::string(self.name.clone()),
            ).append(Doc::text(";")).append(input_doc).append(body_doc).append(
                Doc::hardline(),
            ).append(Doc::text("endfunction")),
        )
    }
}

impl Stmt {
    /// The document of this statement.
    pub fn to_doc(&self) -> (r: Result<Doc, RenderError>)
        ensures
            r is Ok <==> stmt_ok(*self),
            r matches Ok(d) ==> forall|ind: nat| #[trigger] layout(d, ind) == stmt_text(*self, ind),
    {
        match self {
            Stmt::Decl(decl) => decl.to_doc(),
            Stmt::Parallel(par) => par.to_doc(),
        }
    }
}

impl Module {
    /// The document of this module.
    pub fn to_doc(&self) -> (r: Result<Doc, RenderError>)
        ensures
            r is Ok <==> module_ok(*self),
            r matches Ok(d) ==> forall|ind: nat| #[trigger] layout(d, ind) == module_text(*self, ind),
    {
        let ghost ss = self.body@;
        let m = self.body.len();
        let mut stmts = Doc::nil();
        let mut j: usize = 0;
        while j < m
            invariant
                m == ss.len(),
                ss == self.body@,
                j <= m,
                stmts_ok(ss, j as nat),
                forall|ind: nat| #[trigger] layout(stmts, ind) == stmt_lines(ss, j as nat, ind),
            decreases m - j,
        {
            let stmt = &self.body[j];
            let d = match stmt.to_doc() {
                Ok(x) => x,
                Err(e) => {
                    proof {
                        if stmts_ok(ss, m as nat) {
                            lemma_stmts_ok_each(ss, m as nat, j as int);
                        }
                    }
                    return Err(e);
                },
            };
            stmts = stmts.append(Doc::hardline()).append(Doc::hardline()).append(d);
            let closes_itself = match stmt {
                Stmt::Decl(Decl::Func(_)) => true,
                _ => false,
            };
            if !closes_itself {
                stmts = stmts.append(Doc::text(";"));
            }
            j = j + 1;
        }
        let body_doc = if m == 0 {
            Doc::nil()
        } else {
            stmts.nest(INDENT).append(Doc::hardline())
        };
        let ghost ps = self.ports@;
        let n = self.ports.len();
        let mut docs: Vec<Doc> = Vec::new();
        let mut i: usize = 0;
        while i < n
            invariant
                n == ps.len(),
                ps == self.ports@,
                i <= n,
                docs@.len() == i,
                ports_ok(ps, i as nat),
                forall|k: int, ind: nat|
                    0 <= k < i ==> #[trigger] layout(docs@[k], ind) == port_text(ps[k], ind),
            decreases n - i,
        {
            let p = match self.ports[i].to_doc() {
                Ok(x) => x,
                Err(e) => {
                    proof {
                        if ports_ok(ps, n as nat) {
                            lemma_ports_ok_each(ps, n as nat, i as int);
                        }
                    }
                    return Err(e);
                },
            };
            docs.push(p);
            i = i + 1;
        }
        let ghost all = docs@;
        let sep = Doc::text(",").append(Doc::hardline());
        let ports_doc = if n == 0 {
            Doc::nil()
        } else {
            Doc::hardline().append(Doc::intersperse(docs, sep)).nest(INDENT)
        };
        proof {
            assert forall|ind: nat| n > 0 implies #[trigger] layout(ports_doc, ind) == ports_block(ps, ind) by {
                let inner = (ind + INDENT) as nat;
                lemma_port_list(all, ps, sep, 0, inner);
                assert(all.subrange(0, all.len() as int) =~= all);
            }
        }
        Ok(
            Doc::text("module").append(Doc::space()).append(Doc::string(self.name.clone())).append(
                Doc::space(),
            ).append(Doc::text("(")).append(ports_doc).append(Doc::text(")")).append(
                Doc::text(";"),
            ).append(body_doc).append(Doc::hardline()).append(Doc::text("endmodule")).append(
                Doc::hardline(),
            ),
        )
    }
}

} // verus!
