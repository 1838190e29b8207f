//! Diagnostics: every fold failure is a source location plus a structured
//! kind; the one warning kind goes through the same channel.
use vstd::prelude::*;

use crate::ast::{BinaryOp, Follow, Location, UnaryOp};
use crate::constant::Constant;

verus! {

/// The shape of a constant, used in messages about unsupported operands.
#[derive(Clone, Copy, PartialEq, Eq, Structural, Debug)]
pub enum ConstKind {
    Null,
    New,
    List,
    Call,
    Prefab,
    String,
    Resource,
    Int,
    Float,
}

pub open spec fn const_kind(c: Constant) -> ConstKind {
    match c {
        Constant::Null(_) => ConstKind::Null,
        Constant::New { .. } => ConstKind::New,
        Constant::List(_) => ConstKind::List,
        Constant::Call(_, _) => ConstKind::Call,
        Constant::Prefab(_) => ConstKind::Prefab,
        Constant::String(_) => ConstKind::String,
        Constant::Resource(_) => ConstKind::Resource,
        Constant::Int(_) => ConstKind::Int,
        Constant::Float(_) => ConstKind::Float,
    }
}

pub fn kind_of(c: &Constant) -> (r: ConstKind)
    ensures
        r == const_kind(*c),
{
    match c {
        Constant::Null(_) => ConstKind::Null,
        Constant::New { .. } => ConstKind::New,
        Constant::List(_) => ConstKind::List,
        Constant::Call(_, _) => ConstKind::Call,
        Constant::Prefab(_) => ConstKind::Prefab,
        Constant::String(_) => ConstKind::String,
        Constant::Resource(_) => ConstKind::Resource,
        Constant::Int(_) => ConstKind::Int,
        Constant::Float(_) => ConstKind::Float,
    }
}

/// The shape of an expression follower, for messages about unsupported pairs.
#[derive(Clone, Copy, PartialEq, Eq, Structural, Debug)]
pub enum FollowKind {
    Field,
    Index,
    Call,
}

pub open spec fn follow_kind(f: Follow) -> FollowKind {
    match f {
        Follow::Field(_) => FollowKind::Field,
        Follow::Index(_) => FollowKind::Index,
        Follow::Call(_, _) => FollowKind::Call,
    }
}

pub fn kind_of_follow(f: &Follow) -> (r: FollowKind)
    ensures
        r == follow_kind(*f),
{
    match f {
        Follow::Field(_) => FollowKind::Field,
        Follow::Index(_) => FollowKind::Index,
        Follow::Call(_, _) => FollowKind::Call,
    }
}

/// What went wrong (or, for the list-key warning, what was tolerated).
#[derive(Debug, PartialEq)]
pub enum DiagKind {
    /// A slot was re-entered while already being evaluated.
    CyclicReference(String),
    /// An initializer had to fold but its declaration is not marked constant.
    NonConstVariable(String),
    /// A field access through a typed null demanded a class-wide variable but
    /// found a per-instance one.
    NonStaticVariable(String),
    /// The parent chain was exhausted with no declaration.
    UnknownVariable(String),
    /// A field access through a typed null named a class that does not exist.
    UnknownTypepath(String),
    NonConstantUnary(UnaryOp, ConstKind),
    NonConstantBinary(ConstKind, BinaryOp, ConstKind),
    NonConstantFunctionCall(String),
    NonConstantNewExpression,
    NonConstantExpressionFollower(ConstKind, FollowKind),
    NonConstantAugmentedAssignment,
    MalformedRgbCall,
    /// An integer division by zero; the host language faults here, so the
    /// folder reports instead of computing.
    IntegerDivisionByZero,
    /// The warning: a bare identifier used as a list key is kept as a string.
    IdentUsedAsListKey(String),
}

#[derive(Debug, PartialEq)]
pub struct Diagnostic {
    pub location: Location,
    pub kind: DiagKind,
}

/// Everything the folder itself appends to the sink is the one warning kind:
/// errors are returned to the caller, never recorded by the folder.
pub open spec fn warnings_only(a: Seq<Diagnostic>, b: Seq<Diagnostic>) -> bool {
    forall|w: int|
        a.len() <= w < b.len() ==> (#[trigger] b[w]).kind matches DiagKind::IdentUsedAsListKey(_)
}

/// The diagnostic sink only grows: what was recorded stays recorded.
pub open spec fn diags_extend(a: Seq<Diagnostic>, b: Seq<Diagnostic>) -> bool {
    b.len() >= a.len() && forall|k: int| 0 <= k < a.len() ==> b[k] == a[k]
}

} // verus!
