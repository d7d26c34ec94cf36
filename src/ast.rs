//! The syntax tree that is rendered: types, declarations, statements, ports,
//! functions and modules.

use vstd::prelude::*;

verus! {

/// A signal or value type.
pub enum Ty {
    Void,
    Int,
    /// A bit vector of the given width; width zero is not a legal type.
    Width(u64),
}

/// An expression, as it appears in conditions and default values.
pub enum Expr {
    Ident(String),
    Const(u64),
}

/// A declaration.
pub enum Decl {
    /// An integer binding: type, then name.
    Int(String, Ty),
    /// A sized logic binding.
    Logic(String, Ty),
    /// A nested function definition.
    Func(Function),
    /// A parameter binding with a default expression.
    Param(String, Ty, Expr),
}

/// A procedural action.
pub enum Sequential {
    /// A diagnostic error with its message.
    Error(String),
    /// A blocking assignment to a name, with its value and type annotation.
    Assign(String, Expr, Ty),
    /// A timing or event wait.
    Event(Ty, Expr),
    /// An assertion with an optional recovery action.
    Assert(Expr, Option<Box<Sequential>>),
    /// A conditional branch: condition, then-branch and else-branch.
    If(Expr, Vec<Sequential>, Vec<Sequential>),
}

/// A structural or continuous construct.
pub enum Parallel {
    /// A sub-component instantiation.
    Inst(Ty),
    /// A continuous-assignment marker.
    Assign,
    /// A combinational process and its body.
    AlwaysComb(Vec<Sequential>),
    /// A clocked process: its clock and its body.
    AlwaysFF(Expr, Vec<Sequential>),
}

/// A module body statement.
pub enum Stmt {
    Decl(Decl),
    Parallel(Parallel),
}

/// A module port, or an input of a function.
pub enum Port {
    Input(Decl),
    Output(Decl),
}

/// A function: return type, name, input ports and body actions.
pub struct Function {
    pub ret: Ty,
    pub name: String,
    pub inputs: Vec<Port>,
    pub body: Vec<Sequential>,
}

/// A module: name, ports and body statements.
pub struct Module {
    pub name: String,
    pub ports: Vec<Port>,
    pub body: Vec<Stmt>,
}

impl Ty {
    /// The bit width of a vector type; zero for other types.
    pub open spec fn spec_width(self) -> nat {
        match self {
            Ty::Width(w) => w as nat,
            _ => 0,
        }
    }

    /// The bit width of a vector type; zero for other types.
    pub fn width(&self) -> (r: u64)
        ensures
            r == self.spec_width(),
    {
        match self {
            Ty::Width(w) => *w,
            _ => 0,
        }
    }
}

impl Function {
    pub fn new(ret: Ty, name: String, inputs: Vec<Port>, body: Vec<Sequential>) -> (r: Function)
        ensures
            r == (Function { ret, name, inputs, body }),
    {
        Function { ret, name, inputs, body }
    }
}

impl Module {
    pub fn new(name: String, ports: Vec<Port>, body: Vec<Stmt>) -> (r: Module)
        ensures
            r == (Module { name, ports, body }),
    {
        Module { name, ports, body }
    }
}

} // verus!
