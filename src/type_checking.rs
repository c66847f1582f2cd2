use vstd::prelude::*;
use crate::ast::{Expr, ExprData, Stmt, StmtData};
use crate::env::Env;
use crate::token::Kind;
use vstd::string::StringExecFns;

verus! {

/// The types of the source language.
#[derive(Debug)]
pub enum Type {
    Any,
    Unit,
    Int,
    Float,
    Bool,
    Func { params: Vec<Type>, ret: Box<Type> },
}

/// `Any` fits everything; functions fit when their results and the parameters
/// they share fit.
pub open spec fn compatible(a: Type, b: Type) -> bool
    decreases a,
{
    match (a, b) {
        (Type::Any, _) => true,
        (_, Type::Any) => true,
        (Type::Unit, Type::Unit) => true,
        (Type::Int, Type::Int) => true,
        (Type::Float, Type::Float) => true,
        (Type::Bool, Type::Bool) => true,
        (Type::Func { params: p1, ret: r1 }, Type::Func { params: p2, ret: r2 }) => compatible(*r1, *r2)
            && forall|i: int|
            0 <= i < p1@.len() && i < p2@.len() ==> compatible(#[trigger] p1@[i], p2@[i]),
        _ => false,
    }
}

impl Type {
    pub fn is_compatible(&self, other: &Self) -> (r: bool)
        ensures
            r == compatible(*self, *other),
        decreases self,
    {
        match (self, other) {
            (Type::Any, _) | (_, Type::Any) => true,
            (Type::Unit, Type::Unit) | (Type::Int, Type::Int) | (Type::Float, Type::Float) | (
                Type::Bool,
                Type::Bool,
            ) => true,
            (Type::Func { params: p1, ret: r1 }, Type::Func { params: p2, ret: r2 }) => {
                r1.is_compatible(r2) && Self::all_compatible(p1, p2)
            },
            _ => false,
        }
    }

    /// Whether the parameters that both lists have fit pairwise.
    fn all_compatible(p1: &Vec<Type>, p2: &Vec<Type>) -> (r: bool)
        ensures
            r == forall|i: int| 0 <= i < p1@.len() && i < p2@.len() ==> compatible(#[trigger] p1@[i], p2@[i]),
        decreases p1,
    {
        let mut i: usize = 0;
        while i < p1.len() && i < p2.len()
            invariant
                i <= p1@.len(),
                forall|k: int| 0 <= k < i && k < p2@.len() ==> compatible(#[trigger] p1@[k], p2@[k]),
            decreases p1.len() - i,
        {
            if !p1[i].is_compatible(&p2[i]) {
                return false;
            }
            i = i + 1;
        }
        true
    }

    fn duplicate_all(v: &Vec<Type>) -> (r: Vec<Type>)
        decreases v,
    {
        let mut ps: Vec<Type> = Vec::new();
        let mut i: usize = 0;
        while i < v.len()
            decreases v.len() - i,
        {
            ps.push(v[i].duplicate());
            i = i + 1;
        }
        ps
    }

    /// The type as text: `int`, `bool`, `(int,) => ()` and so on.
    pub fn to_text(&self) -> String
        decreases self,
    {
        match self {
            Type::Any => String::from_str("any"),
            Type::Unit => String::from_str("()"),
            Type::Int => String::from_str("int"),
            Type::Float => String::from_str("float"),
            Type::Bool => String::from_str("bool"),
            Type::Func { params, ret } => {
                let mut s = String::from_str("(");
                s.append(Self::params_text(params).as_str());
                s.append(") => ");
                s.append(ret.to_text().as_str());
                s
            },
        }
    }

    fn params_text(v: &Vec<Type>) -> String
        decreases v,
    {
        let mut s = String::new();
        let mut i: usize = 0;
        while i < v.len()
            decreases v.len() - i,
        {
            s.append(v[i].to_text().as_str());
            s.append(",");
            i = i + 1;
        }
        s
    }

    /// A copy of the type.
    pub fn duplicate(&self) -> (r: Self)
        decreases self,
    {
        match self {
            Type::Any => Type::Any,
            Type::Unit => Type::Unit,
            Type::Int => Type::Int,
            Type::Float => Type::Float,
            Type::Bool => Type::Bool,
            Type::Func { params, ret } => Type::Func {
                params: Self::duplicate_all(params),
                ret: Box::new(ret.duplicate()),
            },
        }
    }
}

/// A type error, with the source span it is about.
#[derive(Debug)]
pub enum TypeError {
    /// Two types that should fit do not.
    Mismatch { left: Type, right: Type, range: (usize, usize) },
    UnknownName { name: String, range: (usize, usize) },
    NotAFunction { range: (usize, usize) },
    NonBoolCondition { range: (usize, usize) },
    /// An operator the checker has no rule for, or scopes nested too deeply.
    Unsupported { range: (usize, usize) },
}

impl TypeError {
    /// The message to show for the error.
    pub fn message(&self) -> String {
        match self {
            TypeError::Mismatch { left, right, .. } => {
                let mut s = left.to_text();
                s.append(" != ");
                s.append(right.to_text().as_str());
                s
            },
            TypeError::UnknownName { .. } => String::from_str("cannot find name"),
            TypeError::NotAFunction { .. } => String::from_str("Expected a function"),
            TypeError::NonBoolCondition { .. } => String::from_str("cond should be boolean type."),
            TypeError::Unsupported { .. } => String::from_str("unsupported operation"),
        }
    }

    /// The source span the error is about.
    pub fn range(&self) -> (usize, usize) {
        match self {
            TypeError::Mismatch { range, .. } => *range,
            TypeError::UnknownName { range, .. } => *range,
            TypeError::NotAFunction { range } => *range,
            TypeError::NonBoolCondition { range } => *range,
            TypeError::Unsupported { range } => *range,
        }
    }
}

/// Checks that a program is well typed.
pub struct TypeChecker {
    env: Env<Type>,
}

impl TypeChecker {
    pub closed spec fn wf(&self) -> bool {
        self.env.wf()
    }

    /// A checker that knows the built-ins `print_int`, `input_int` and `print`.
    pub fn new() -> (r: Self)
        ensures
            r.wf(),
    {
        let mut env: Env<Type> = Env::new();
        env.insert("print_int".to_owned(), Type::Func { params: vec![Type::Int], ret: Box::new(Type::Unit) });
        env.insert("input_int".to_owned(), Type::Func { params: vec![], ret: Box::new(Type::Int) });
        env.insert("print".to_owned(), Type::Func { params: vec![Type::Any], ret: Box::new(Type::Unit) });
        Self { env }
    }

    /// Checks every statement; the last error found, if any, is returned.
    pub fn check(self, ast: &Vec<Stmt>) -> Result<(), TypeError>
        requires
            self.wf(),
    {
        let mut me = self;
        me.check_stmts(ast)
    }

    fn expect_same_type(&self, t1: &Type, t2: &Type, e: &Expr) -> (r: Result<(), TypeError>)
        ensures
            r is Ok <==> compatible(*t1, *t2),
    {
        if !t1.is_compatible(t2) {
            Err(TypeError::Mismatch { left: t1.duplicate(), right: t2.duplicate(), range: e.range })
        } else {
            Ok(())
        }
    }

    fn check_stmts(&mut self, stmts: &Vec<Stmt>) -> (r: Result<(), TypeError>)
        requires
            old(self).wf(),
        ensures
            final(self).wf(),
            final(self).env.level_spec() == old(self).env.level_spec(),
        decreases stmts,
    {
        let mut res: Result<(), TypeError> = Ok(());
        let mut i: usize = 0;
        while i < stmts.len()
            invariant
                self.wf(),
                self.env.level_spec() == old(self).env.level_spec(),
                i <= stmts@.len(),
            decreases stmts.len() - i,
        {
            if let Err(e) = self.check_stmt(&stmts[i]) {
                res = Err(e);
            }
            i = i + 1;
        }
        res
    }

    /// Checks a branch in a scope of its own.
    fn check_scoped(&mut self, e: &Expr) -> (r: Result<Type, TypeError>)
        requires
            old(self).wf(),
        ensures
            final(self).wf(),
            final(self).env.level_spec() == old(self).env.level_spec(),
        decreases e, 1nat,
    {
        if self.env.level() == usize::MAX {
            return Err(TypeError::Unsupported { range: e.range });
        }
        self.env.init_scope();
        let t = self.check_exp(e);
        self.env.exit_scope();
        t
    }

    fn check_stmt(&mut self, s: &Stmt) -> (r: Result<(), TypeError>)
        requires
            old(self).wf(),
        ensures
            final(self).wf(),
            final(self).env.level_spec() == old(self).env.level_spec(),
        decreases s,
    {
        match &s.stmt {
            StmtData::Expr(e) => {
                self.check_exp(e)?;
            },
            StmtData::If { condition, then, else_ } => {
                let cond = self.check_exp(condition)?;
                self.expect_same_type(&cond, &Type::Bool, condition)?;
                let t1 = self.check_scoped(then)?;
                let t2 = self.check_scoped(else_)?;
                self.expect_same_type(&t1, &t2, then)?;
            },
            StmtData::Assign { name, binding } => {
                let val_ty = self.check_exp(binding)?;
                self.env.insert(name.lexeme().to_owned(), val_ty);
            },
        }
        Ok(())
    }

    /// The type of each expression, in order.
    fn check_all(&mut self, v: &Vec<Expr>) -> (r: Result<Vec<Type>, TypeError>)
        requires
            old(self).wf(),
        ensures
            final(self).wf(),
            final(self).env.level_spec() == old(self).env.level_spec(),
            r is Ok ==> r->Ok_0@.len() == v@.len(),
        decreases v,
    {
        let mut tys: Vec<Type> = Vec::new();
        let mut i: usize = 0;
        while i < v.len()
            invariant
                self.wf(),
                self.env.level_spec() == old(self).env.level_spec(),
                i <= v@.len(),
                tys@.len() == i,
            decreases v.len() - i,
        {
            tys.push(self.check_exp(&v[i])?);
            i = i + 1;
        }
        Ok(tys)
    }

    /// The type of an expression.
    fn check_exp(&mut self, e: &Expr) -> (r: Result<Type, TypeError>)
        requires
            old(self).wf(),
        ensures
            final(self).wf(),
            final(self).env.level_spec() == old(self).env.level_spec(),
            e.data is Int ==> r == Ok::<Type, TypeError>(Type::Int),
            e.data is Bool ==> r == Ok::<Type, TypeError>(Type::Bool),
            e.data is Float ==> r == Ok::<Type, TypeError>(Type::Float),
            e.data is Name ==> (r is Ok <==> old(self).env.binding(e.data->Name_0.text()) is Some),
            e.data is Prim && e.data->Prim_operands@.len() != 1 && e.data->Prim_operands@.len() != 2 ==> r is Err,
            e.data is Prim && (e.data->Prim_op.kind_spec() == Kind::Star || e.data->Prim_op.kind_spec()
                == Kind::Slash) ==> r is Err,
        decreases e, 0nat,
    {
        match &e.data {
            ExprData::Name(n) => match self.env.lookup(n.lexeme()) {
                Some(ty) => Ok(ty.duplicate()),
                None => Err(TypeError::UnknownName { name: n.lexeme().to_owned(), range: e.range }),
            },
            ExprData::Int(_) => Ok(Type::Int),
            ExprData::Float(_) => Ok(Type::Float),
            ExprData::Bool(_) => Ok(Type::Bool),
            ExprData::Call { name, args } => {
                let fun_ty = self.check_exp(name)?;
                let arg_tys = self.check_all(args)?;
                match fun_ty {
                    Type::Func { params, ret } => {
                        let mut k: usize = 0;
                        while k < arg_tys.len() && k < params.len()
                            invariant
                                self.wf(),
                                self.env.level_spec() == old(self).env.level_spec(),
                                e.data is Call,
                                arg_tys@.len() == args@.len(),
                                k <= arg_tys@.len(),
                            decreases arg_tys.len() - k,
                        {
                            self.expect_same_type(&arg_tys[k], &params[k], &args[k])?;
                            k = k + 1;
                        }
                        Ok(*ret)
                    },
                    _ => Err(TypeError::NotAFunction { range: name.range }),
                }
            },
            ExprData::Prim { op, operands } => {
                let tys = self.check_all(operands)?;
                let want = if operands.len() == 2 {
                    match op.kind() {
                        Kind::Plus | Kind::Minus | Kind::Greater | Kind::GreaterEqual | Kind::Less
                        | Kind::LessEqual => Some(Type::Int),
                        Kind::And | Kind::Or => Some(Type::Bool),
                        Kind::EqualEqual | Kind::BangEqual => {
                            self.expect_same_type(&tys[0], &tys[1], e)?;
                            None
                        },
                        _ => return Err(TypeError::Unsupported { range: e.range }),
                    }
                } else if operands.len() == 1 {
                    match op.kind() {
                        Kind::Minus => Some(Type::Int),
                        Kind::Bang => Some(Type::Bool),
                        _ => return Err(TypeError::Unsupported { range: e.range }),
                    }
                } else {
                    return Err(TypeError::Unsupported { range: e.range });
                };
                if let Some(w) = &want {
                    let mut k: usize = 0;
                    while k < tys.len()
                        invariant
                            self.wf(),
                            self.env.level_spec() == old(self).env.level_spec(),
                            e.data is Prim,
                            tys@.len() == operands@.len(),
                            k <= tys@.len(),
                        decreases tys.len() - k,
                    {
                        self.expect_same_type(&tys[k], w, &operands[k])?;
                        k = k + 1;
                    }
                }
                match op.kind() {
                    Kind::Plus | Kind::Minus => Ok(Type::Int),
                    _ => Ok(Type::Bool),
                }
            },
            ExprData::Condition { condition, then, else_ } => {
                let condty = self.check_exp(condition)?;
                if let Type::Bool = condty {
                    let then_ty = self.check_exp(then)?;
                    let else_ty = self.check_exp(else_)?;
                    self.expect_same_type(&then_ty, &else_ty, e)?;
                    Ok(then_ty)
                } else {
                    Err(TypeError::NonBoolCondition { range: e.range })
                }
            },
            ExprData::Block { body, result } => {
                if self.env.level() == usize::MAX {
                    return Err(TypeError::Unsupported { range: e.range });
                }
                self.env.init_scope();
                let checked = self.check_stmts(body);
                let ty = match result {
                    Some(r) => self.check_exp(r),
                    None => Ok(Type::Unit),
                };
                self.env.exit_scope();
                checked?;
                ty
            },
        }
    }
}

} // verus!
