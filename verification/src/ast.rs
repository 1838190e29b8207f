//! The parse-tree expression language that the constant folder reduces.
use vstd::prelude::*;

verus! {

/// A source position, carried for diagnostics.
#[derive(Clone, Copy, PartialEq, Eq, Structural, Debug)]
pub struct Location {
    pub file: u32,
    pub line: u32,
    pub column: u32,
}

/// The separator that introduced a path segment. The folder ignores it when
/// rebuilding an absolute path.
#[derive(Clone, Copy, PartialEq, Eq, Structural, Debug)]
pub enum PathOp {
    Slash,
    Dot,
    Colon,
}

/// One segment of a type path: its separator and its name.
#[derive(Debug)]
pub struct PathSegment {
    pub op: PathOp,
    pub name: String,
}

/// A declared type path: a sequence of segments, e.g. `/obj/item`.
pub type TypePath = Vec<PathSegment>;

#[derive(Clone, Copy, PartialEq, Eq, Structural, Debug)]
pub enum UnaryOp {
    Neg,
    Not,
    BitNot,
}

#[derive(Clone, Copy, PartialEq, Eq, Structural, Debug)]
pub enum BinaryOp {
    Add,
    Sub,
    Mul,
    Div,
    BitOr,
    BitAnd,
    LShift,
    RShift,
    Or,
}

/// A type reference with per-field override values; the value type is the
/// expression language before folding and the reduced constant after.
#[derive(Debug)]
pub struct Prefab<T> {
    pub path: TypePath,
    pub vars: Vec<(String, T)>,
}

/// The type part of a `new` term.
#[derive(Debug)]
pub enum NewType<T> {
    Implicit,
    Prefab(Prefab<T>),
    Ident(String),
}

#[derive(Debug)]
pub enum Follow {
    Field(String),
    Index(Box<Expression>),
    Call(String, Vec<Expression>),
}

#[derive(Debug)]
pub enum Term {
    Null,
    Int(i32),
    /// A float literal, stored as its IEEE 754 single-precision bit pattern.
    Float(u32),
    Ident(String),
    String(String),
    Resource(String),
    Expr(Box<Expression>),
    Prefab(Prefab<Expression>),
    Call(String, Vec<Expression>),
    List(Vec<(Expression, Option<Expression>)>),
    New { type_: NewType<Expression>, args: Option<Vec<Expression>> },
}

#[derive(Debug)]
pub enum Expression {
    Base { unary: Vec<UnaryOp>, term: Box<Term>, follow: Vec<Follow> },
    BinaryOp { op: BinaryOp, lhs: Box<Expression>, rhs: Box<Expression> },
    AssignOp { lhs: Box<Expression>, rhs: Box<Expression> },
}

/// Structural size of an expression; the second component of the folder's
/// termination measure.
pub open spec fn expr_size(e: Expression) -> nat
    decreases e, 0int,
{
    match e {
        Expression::Base { unary, term, follow } => 1 + term_size(*term) + follows_size_from(
            follow,
            0,
        ),
        Expression::BinaryOp { op, lhs, rhs } => 1 + expr_size(*lhs) + expr_size(*rhs),
        Expression::AssignOp { lhs, rhs } => 1 + expr_size(*lhs) + expr_size(*rhs),
    }
}

pub open spec fn term_size(t: Term) -> nat
    decreases t, 0int,
{
    match t {
        Term::Expr(inner) => 1 + expr_size(*inner),
        Term::Prefab(p) => 1 + prefab_size(p),
        Term::Call(_, args) => 1 + exprs_size_from(args, 0),
        Term::List(elems) => 1 + elems_size_from(elems, 0),
        Term::New { type_, args } => {
            1 + newtype_size(type_) + match args {
                Some(v) => 1 + exprs_size_from(v, 0),
                None => 0,
            }
        },
        _ => 1,
    }
}

pub open spec fn follow_size(f: Follow) -> nat
    decreases f, 0int,
{
    match f {
        Follow::Field(_) => 1,
        Follow::Index(e) => 1 + expr_size(*e),
        Follow::Call(_, args) => 1 + exprs_size_from(args, 0),
    }
}

pub open spec fn prefab_size(p: Prefab<Expression>) -> nat
    decreases p, 0int,
{
    1 + pairs_size_from(p.vars, 0)
}

pub open spec fn newtype_size(n: NewType<Expression>) -> nat
    decreases n, 0int,
{
    match n {
        NewType::Prefab(p) => 1 + prefab_size(p),
        _ => 1,
    }
}

pub open spec fn exprs_size_from(v: Vec<Expression>, i: int) -> nat
    decreases v, v.len() - i,
{
    if i < 0 || i >= v.len() {
        0
    } else {
        1 + expr_size(v[i as int]) + exprs_size_from(v, i + 1)
    }
}

pub open spec fn follows_size_from(v: Vec<Follow>, i: int) -> nat
    decreases v, v.len() - i,
{
    if i < 0 || i >= v.len() {
        0
    } else {
        1 + follow_size(v[i as int]) + follows_size_from(v, i + 1)
    }
}

pub open spec fn pairs_size_from(v: Vec<(String, Expression)>, i: int) -> nat
    decreases v, v.len() - i,
{
    if i < 0 || i >= v.len() {
        0
    } else {
        1 + expr_size(v[i as int].1) + pairs_size_from(v, i + 1)
    }
}

pub open spec fn elems_size_from(v: Vec<(Expression, Option<Expression>)>, i: int) -> nat
    decreases v, v.len() - i,
{
    if i < 0 || i >= v.len() {
        0
    } else {
        2 + expr_size(v[i as int].0) + match v[i as int].1 {
            Some(val) => 1 + expr_size(val),
            None => 0,
        } + elems_size_from(v, i + 1)
    }
}

/// Segment-wise equality of path segments: same separator, same name.
pub open spec fn seg_eq(a: PathSegment, b: PathSegment) -> bool {
    a.op == b.op && a.name@ == b.name@
}

/// Value equality of type paths.
pub open spec fn path_eq(a: TypePath, b: TypePath) -> bool {
    a@.len() == b@.len() && forall|i: int| 0 <= i < a@.len() ==> seg_eq(a@[i], b@[i])
}

pub open spec fn opt_path_eq(a: Option<TypePath>, b: Option<TypePath>) -> bool {
    match (a, b) {
        (None, None) => true,
        (Some(x), Some(y)) => path_eq(x, y),
        _ => false,
    }
}

/// Copies a type path; paths are plain data, so the copy is segment-wise equal.
pub fn dup_path(p: &TypePath) -> (r: TypePath)
    ensures
        path_eq(r, *p),
{
    let mut out: TypePath = Vec::new();
    let mut i: usize = 0;
    while i < p.len()
        invariant
            i <= p.len(),
            out@.len() == i,
            forall|j: int| 0 <= j < i ==> seg_eq(out@[j], p@[j]),
        decreases p.len() - i,
    {
        let seg = PathSegment { op: p[i].op, name: p[i].name.clone() };
        out.push(seg);
        i = i + 1;
    }
    out
}

} // verus!
