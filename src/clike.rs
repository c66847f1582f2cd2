use vstd::prelude::*;
use crate::ast;
use crate::ast::ExprData;
use crate::token::Kind;

verus! {

pub type Label = String;

/// A literal or a name; floating-point literals keep their source text.
#[derive(Debug)]
pub enum Atom {
    Int(i64),
    Float(String),
    Bool(bool),
    Name(String),
}

/// An expression whose operands are atoms.
#[derive(Debug)]
pub enum Expr {
    Atom(Atom),
    Prim { op: Kind, operands: Vec<Atom> },
    Call { name: Atom, args: Vec<Atom> },
}

/// A statement of a basic block; `Return`, `Goto` and `If` end a block.
#[derive(Debug)]
pub enum Stmt {
    Exp(Expr),
    Assign { name: Atom, binding: Expr },
    Return(Expr),
    Goto(Label),
    If { cond: Expr, then: Label, else_: Label },
}

#[derive(Debug, PartialEq, Eq, Structural)]
pub enum ClikeError {
    IntoAtom,
    IntoExpr,
}

impl ClikeError {
    /// A description of the error.
    pub fn message(&self) -> (r: &'static str) {
        match self {
            ClikeError::IntoExpr => "Cannot be converted to Expr.",
            ClikeError::IntoAtom => "Cannot be converted to Atom.",
        }
    }
}

pub open spec fn is_tail_spec(s: Stmt) -> bool {
    s is Return || s is Goto || s is If
}

impl Stmt {
    pub fn is_tail(&self) -> (r: bool)
        ensures
            r == is_tail_spec(*self),
    {
        match self {
            Stmt::Return(_) | Stmt::Goto(_) | Stmt::If { .. } => true,
            _ => false,
        }
    }
}

/// A sequence of statements that ends with exactly one tail statement.
pub open spec fn wf_block(b: Seq<Stmt>) -> bool {
    b.len() >= 1 && is_tail_spec(b.last()) && forall|i: int| 0 <= i < b.len() - 1 ==> !is_tail_spec(#[trigger] b[i])
}

/// The atom stands for the literal or name `e`.
pub open spec fn atom_matches(a: Atom, e: ast::Expr) -> bool {
    match (a, e.data) {
        (Atom::Int(x), ExprData::Int(y)) => x == y,
        (Atom::Bool(x), ExprData::Bool(y)) => x == y,
        (Atom::Float(x), ExprData::Float(y)) => x@ == y@,
        (Atom::Name(x), ExprData::Name(t)) => x@ == t.text(),
        _ => false,
    }
}

/// The flat expression stands for `e`: the same atom, or the same operator or
/// callee on the same atoms.
pub open spec fn expr_matches(c: Expr, e: ast::Expr) -> bool {
    match c {
        Expr::Atom(a) => atom_matches(a, e),
        Expr::Prim { op, operands } => e.data is Prim && op == e.data->Prim_op.kind_spec()
            && operands@.len() == e.data->Prim_operands@.len() && forall|i: int|
            0 <= i < operands@.len() ==> atom_matches(#[trigger] operands@[i], e.data->Prim_operands@[i]),
        Expr::Call { name, args } => e.data is Call && atom_matches(name, *e.data->Call_name)
            && args@.len() == e.data->Call_args@.len() && forall|i: int|
            0 <= i < args@.len() ==> atom_matches(#[trigger] args@[i], e.data->Call_args@[i]),
    }
}

impl Atom {
    /// The atom that a literal or a name is.
    pub fn from_expr(e: &ast::Expr) -> (r: Result<Atom, ClikeError>)
        ensures
            r is Ok <==> ast::is_atom_spec(*e),
            r is Ok ==> atom_matches(r->Ok_0, *e),
            r is Err ==> r->Err_0 == ClikeError::IntoAtom,
    {
        match &e.data {
            ExprData::Int(i) => Ok(Atom::Int(*i)),
            ExprData::Bool(b) => Ok(Atom::Bool(*b)),
            ExprData::Float(f) => Ok(Atom::Float(f.clone())),
            ExprData::Name(tk) => Ok(Atom::Name(tk.lexeme().to_owned())),
            _ => Err(ClikeError::IntoAtom),
        }
    }

    pub fn duplicate(&self) -> (r: Atom) {
        match self {
            Atom::Int(i) => Atom::Int(*i),
            Atom::Float(f) => Atom::Float(f.clone()),
            Atom::Bool(b) => Atom::Bool(*b),
            Atom::Name(n) => Atom::Name(n.clone()),
        }
    }
}

/// An atom, or an operator or call whose operands are all atoms.
pub open spec fn is_flat_expr(e: ast::Expr) -> bool {
    ast::is_atom_spec(e) || match e.data {
        ExprData::Prim { op, operands } => forall|i: int|
            0 <= i < operands@.len() ==> ast::is_atom_spec(#[trigger] operands@[i]),
        ExprData::Call { name, args } => ast::is_atom_spec(*name) && forall|i: int|
            0 <= i < args@.len() ==> ast::is_atom_spec(#[trigger] args@[i]),
        _ => false,
    }
}

fn atoms_of(v: &Vec<ast::Expr>) -> (r: Result<Vec<Atom>, ClikeError>)
    ensures
        r is Ok <==> forall|i: int| 0 <= i < v@.len() ==> ast::is_atom_spec(#[trigger] v@[i]),
        r is Ok ==> r->Ok_0@.len() == v@.len(),
        r is Ok ==> forall|i: int| 0 <= i < v@.len() ==> atom_matches(#[trigger] r->Ok_0@[i], v@[i]),
        r is Err ==> r->Err_0 == ClikeError::IntoAtom,
{
    let mut out: Vec<Atom> = Vec::new();
    let mut i: usize = 0;
    while i < v.len()
        invariant
            i <= v@.len(),
            out@.len() == i,
            forall|k: int| 0 <= k < i ==> ast::is_atom_spec(#[trigger] v@[k]),
            forall|k: int| 0 <= k < i ==> atom_matches(#[trigger] out@[k], v@[k]),
        decreases v.len() - i,
    {
        match Atom::from_expr(&v[i]) {
            Ok(a) => out.push(a),
            Err(e) => return Err(e),
        }
        i = i + 1;
    }
    Ok(out)
}

impl Expr {
    /// The flat expression that an atom, or an operator or call on atoms, is.
    pub fn from_expr(e: &ast::Expr) -> (r: Result<Expr, ClikeError>)
        ensures
            r is Ok <==> is_flat_expr(*e),
            r is Ok ==> expr_matches(r->Ok_0, *e),
    {
        match Atom::from_expr(e) {
            Ok(a) => Ok(Expr::Atom(a)),
            Err(_) => match &e.data {
                ExprData::Prim { op, operands } => {
                    let atoms = atoms_of(operands)?;
                    Ok(Expr::Prim { op: op.kind(), operands: atoms })
                },
                ExprData::Call { name, args } => {
                    let name = Atom::from_expr(name)?;
                    let atoms = atoms_of(args)?;
                    Ok(Expr::Call { name, args: atoms })
                },
                _ => Err(ClikeError::IntoExpr),
            },
        }
    }

    pub fn duplicate(&self) -> (r: Expr) {
        match self {
            Expr::Atom(a) => Expr::Atom(a.duplicate()),
            Expr::Prim { op, operands } => {
                let mut v: Vec<Atom> = Vec::new();
                let mut i: usize = 0;
                while i < operands.len()
                    decreases operands.len() - i,
                {
                    v.push(operands[i].duplicate());
                    i = i + 1;
                }
                Expr::Prim { op: *op, operands: v }
            },
            Expr::Call { name, args } => {
                let mut v: Vec<Atom> = Vec::new();
                let mut i: usize = 0;
                while i < args.len()
                    decreases args.len() - i,
                {
                    v.push(args[i].duplicate());
                    i = i + 1;
                }
                Expr::Call { name: name.duplicate(), args: v }
            },
        }
    }
}

/// A program of labelled basic blocks.
pub struct CProgrom {
    pub blocks: Vec<(Label, Vec<Stmt>)>,
}

/// Whether some block of `blocks` is labelled `l`.
pub open spec fn has_label(blocks: Seq<(Label, Vec<Stmt>)>, l: Seq<char>) -> bool {
    exists|i: int| 0 <= i < blocks.len() && #[trigger] blocks[i].0@ == l
}

/// Every label that `s` jumps to is a block of `blocks`.
pub open spec fn targets_in(s: Stmt, blocks: Seq<(Label, Vec<Stmt>)>) -> bool {
    match s {
        Stmt::Goto(l) => has_label(blocks, l@),
        Stmt::If { cond, then, else_ } => has_label(blocks, then@) && has_label(blocks, else_@),
        _ => true,
    }
}

/// A well-formed block whose jumps all land on blocks of `blocks`.
pub open spec fn closed_block(b: Seq<Stmt>, blocks: Seq<(Label, Vec<Stmt>)>) -> bool {
    wf_block(b) && forall|i: int| 0 <= i < b.len() ==> targets_in(#[trigger] b[i], blocks)
}

impl CProgrom {
    /// Every block ends with exactly one tail and jumps only to blocks of the program.
    pub open spec fn wf(&self) -> bool {
        forall|i: int| 0 <= i < self.blocks@.len() ==> closed_block((#[trigger] self.blocks@[i]).1@, self.blocks@)
    }
}

} // verus!
