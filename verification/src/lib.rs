//! A verified constant folder for a class-based scripting language: walks an
//! inheritance tree of classes, reduces every constant-evaluable variable
//! initializer to a literal value, memoizes results in the tree's slots, and
//! detects cyclic references between initializers.
pub mod ast;
pub mod constant;
pub mod diag;
pub mod floatbits;
pub mod fold;
pub mod objtree;
pub mod render;

pub use ast::{
    BinaryOp, Expression, Follow, Location, NewType, PathOp, PathSegment, Prefab, Term, TypePath,
    UnaryOp,
};
pub use constant::{Constant, ConstFn, TypedConstant};
pub use diag::{ConstKind, DiagKind, Diagnostic};
pub use fold::{ConstLookup, constant_ident_lookup, evaluate_all, fold_binary, fold_unary, recursive_lookup};
pub use objtree::{ClassNode, Declaration, ObjectTree, VarSlot};
