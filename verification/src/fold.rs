//! The folder itself: the driver, the identifier resolver with its cycle
//! detector, and the recursive expression reducer.
use vstd::prelude::*;
use vstd::math::abs;
use vstd::wrapping::i32_specs;

use crate::ast::{
    BinaryOp, Expression, Follow, Location, NewType, PathOp, Prefab, Term, TypePath, UnaryOp, dup_path,
    elems_size_from, expr_size, exprs_size_from, follow_size, follows_size_from, pairs_size_from,
    path_eq, prefab_size, term_size,
};
use crate::constant::{Constant, ConstFn, const_eq, dup_constant};
use crate::diag::{ConstKind, DiagKind, Diagnostic, const_kind, follow_kind, kind_of, kind_of_follow};
use crate::floatbits::{
    float_add, float_add_bits, float_div, float_div_bits, float_mul, float_mul_bits, float_neg_bits,
    float_of_int, float_of_int_bits, float_sub, float_sub_bits,
};
use crate::objtree::{
    ClassNode, ObjectTree, VarSlot, decl_search, find_var, find_var_index, lemma_busy_close_slot,
    lemma_decl_search_evolves, lemma_evolves_busy_le, lemma_evolves_refl, lemma_evolves_trans,
    lemma_evolves_wf, lemma_find_var_evolves, lemma_find_var_range, slot_at, tree_busy,
    tree_evolves, tree_wf,
};

verus! {

/// Truncating integer division as the host language computes it, wrapped to
/// the 32-bit range (the one overflowing case wraps to the minimum).
pub open spec fn quot_trunc(a: int, b: int) -> int {
    if (a >= 0) == (b >= 0) {
        (abs(a) / abs(b)) as int
    } else {
        -((abs(a) / abs(b)) as int)
    }
}

pub open spec fn div_i32(a: i32, b: i32) -> i32
    recommends
        b != 0,
{
    i32_specs::signed_crop(quot_trunc(a as int, b as int))
}

/// Truncating 32-bit division, total for every nonzero divisor.
fn div_trunc(a: i32, b: i32) -> (r: i32)
    requires
        b != 0,
    ensures
        r == div_i32(a, b),
{
    let neg: bool = (a < 0) != (b < 0);
    let ua: u32 = if a < 0 {
        (-(a as i64)) as u32
    } else {
        a as u32
    };
    let ub: u32 = if b < 0 {
        (-(b as i64)) as u32
    } else {
        b as u32
    };
    assert(ua == abs(a as int));
    assert(ub == abs(b as int));
    assert(ub > 0);
    let q: u32 = ua / ub;
    assert(q == abs(a as int) / abs(b as int));
    assert(q <= ua) by {
        vstd::arithmetic::div_mod::lemma_div_is_ordered_by_denominator(ua as int, 1, ub as int);
    }
    assert(q <= 0x8000_0000u32);
    let out: i32 = if q == 0x8000_0000u32 {
        i32::MIN
    } else if neg {
        -(q as i32)
    } else {
        q as i32
    };
    proof {
        let quot = quot_trunc(a as int, b as int);
        let range: int = 0x1_0000_0000;
        assert(quot == if neg { -(q as int) } else { q as int });
        if quot >= 0 {
            vstd::arithmetic::div_mod::lemma_small_mod(quot as nat, range as nat);
            assert(quot % range == quot);
        } else {
            vstd::arithmetic::div_mod::lemma_mod_add_multiples_vanish(quot, range);
            vstd::arithmetic::div_mod::lemma_small_mod((quot + range) as nat, range as nat);
            assert(quot % range == quot + range);
        }
        assert(i32_specs::signed_crop(quot) == out);
    }
    out
}

/// Applies a unary operator to a reduced value: defined on integers and, for
/// negation, on floats; anything else is a non-constant unary operation.
pub fn fold_unary(location: Location, term: Constant, op: UnaryOp) -> (r: Result<
    Constant,
    Diagnostic,
>)
    ensures
        match (op, term) {
            (UnaryOp::Neg, Constant::Int(i)) => r == Ok::<Constant, Diagnostic>(
                Constant::Int(i32_specs::wrapping_sub(0i32, i)),
            ),
            (UnaryOp::BitNot, Constant::Int(i)) => r == Ok::<Constant, Diagnostic>(
                Constant::Int((!(i as u32)) as i32),
            ),
            (UnaryOp::Not, Constant::Int(i)) => r == Ok::<Constant, Diagnostic>(
                Constant::Int(
                    if i == 0 {
                        1i32
                    } else {
                        0i32
                    },
                ),
            ),
            (UnaryOp::Neg, Constant::Float(b)) => r == Ok::<Constant, Diagnostic>(
                Constant::Float(b ^ 0x8000_0000u32),
            ),
            _ => r matches Err(d) && d.location == location && (d.kind matches
                DiagKind::NonConstantUnary(o, k) && o == op && k == const_kind(term)),
        },
{
    match (op, term) {
        (UnaryOp::Neg, Constant::Int(i)) => Ok(Constant::Int((0i32).wrapping_sub(i))),
        (UnaryOp::BitNot, Constant::Int(i)) => Ok(Constant::Int((!(i as u32)) as i32)),
        (UnaryOp::Not, Constant::Int(i)) => Ok(
            Constant::Int(
                if i == 0 {
                    1
                } else {
                    0
                },
            ),
        ),
        (UnaryOp::Neg, Constant::Float(b)) => Ok(Constant::Float(float_neg_bits(b))),
        (o, t) => Err(
            Diagnostic { location, kind: DiagKind::NonConstantUnary(o, kind_of(&t)) },
        ),
    }
}

/// Applies a binary operator to two reduced values. The numeric operators
/// promote to single precision when either side is a float; the bit operators
/// take integers only; `Add` concatenates strings. Integer division by zero
/// is a fault in the host language; verified code cannot fault, so the folder
/// reports it as a diagnostic of its own kind instead.
pub fn fold_binary(location: Location, lhs: Constant, rhs: Constant, op: BinaryOp) -> (r: Result<
    Constant,
    Diagnostic,
>)
    ensures
        match (op, lhs, rhs) {
            (BinaryOp::Add, Constant::Int(a), Constant::Int(b)) => r == Ok::<Constant, Diagnostic>(
                Constant::Int(i32_specs::wrapping_add(a, b)),
            ),
            (BinaryOp::Add, Constant::Int(a), Constant::Float(fb)) => r == Ok::<
                Constant,
                Diagnostic,
            >(Constant::Float(float_add(float_of_int(a), fb))),
            (BinaryOp::Add, Constant::Float(fa), Constant::Int(b)) => r == Ok::<
                Constant,
                Diagnostic,
            >(Constant::Float(float_add(fa, float_of_int(b)))),
            (BinaryOp::Add, Constant::Float(fa), Constant::Float(fb)) => r == Ok::<
                Constant,
                Diagnostic,
            >(Constant::Float(float_add(fa, fb))),
            (BinaryOp::Add, Constant::String(sa), Constant::String(sb)) => r matches Ok(c)
                && c matches Constant::String(s) && s@ == sa@ + sb@,
            (BinaryOp::Sub, Constant::Int(a), Constant::Int(b)) => r == Ok::<Constant, Diagnostic>(
                Constant::Int(i32_specs::wrapping_sub(a, b)),
            ),
            (BinaryOp::Sub, Constant::Int(a), Constant::Float(fb)) => r == Ok::<
                Constant,
                Diagnostic,
            >(Constant::Float(float_sub(float_of_int(a), fb))),
            (BinaryOp::Sub, Constant::Float(fa), Constant::Int(b)) => r == Ok::<
                Constant,
                Diagnostic,
            >(Constant::Float(float_sub(fa, float_of_int(b)))),
            (BinaryOp::Sub, Constant::Float(fa), Constant::Float(fb)) => r == Ok::<
                Constant,
                Diagnostic,
            >(Constant::Float(float_sub(fa, fb))),
            (BinaryOp::Mul, Constant::Int(a), Constant::Int(b)) => r == Ok::<Constant, Diagnostic>(
                Constant::Int(i32_specs::wrapping_mul(a, b)),
            ),
            (BinaryOp::Mul, Constant::Int(a), Constant::Float(fb)) => r == Ok::<
                Constant,
                Diagnostic,
            >(Constant::Float(float_mul(float_of_int(a), fb))),
            (BinaryOp::Mul, Constant::Float(fa), Constant::Int(b)) => r == Ok::<
                Constant,
                Diagnostic,
            >(Constant::Float(float_mul(fa, float_of_int(b)))),
            (BinaryOp::Mul, Constant::Float(fa), Constant::Float(fb)) => r == Ok::<
                Constant,
                Diagnostic,
            >(Constant::Float(float_mul(fa, fb))),
            (BinaryOp::Div, Constant::Int(a), Constant::Int(b)) => if b == 0 {
                r matches Err(d) && d.location == location && d.kind matches
                    DiagKind::IntegerDivisionByZero
            } else {
                r == Ok::<Constant, Diagnostic>(Constant::Int(div_i32(a, b)))
            },
            (BinaryOp::Div, Constant::Int(a), Constant::Float(fb)) => r == Ok::<
                Constant,
                Diagnostic,
            >(Constant::Float(float_div(float_of_int(a), fb))),
            (BinaryOp::Div, Constant::Float(fa), Constant::Int(b)) => r == Ok::<
                Constant,
                Diagnostic,
            >(Constant::Float(float_div(fa, float_of_int(b)))),
            (BinaryOp::Div, Constant::Float(fa), Constant::Float(fb)) => r == Ok::<
                Constant,
                Diagnostic,
            >(Constant::Float(float_div(fa, fb))),
            (BinaryOp::BitOr, Constant::Int(a), Constant::Int(b)) => r == Ok::<
                Constant,
                Diagnostic,
            >(Constant::Int(((a as u32) | (b as u32)) as i32)),
            (BinaryOp::BitAnd, Constant::Int(a), Constant::Int(b)) => r == Ok::<
                Constant,
                Diagnostic,
            >(Constant::Int(((a as u32) & (b as u32)) as i32)),
            (BinaryOp::LShift, Constant::Int(a), Constant::Int(b)) => r == Ok::<
                Constant,
                Diagnostic,
            >(Constant::Int(i32_specs::wrapping_shl(a, b as u32))),
            (BinaryOp::RShift, Constant::Int(a), Constant::Int(b)) => r == Ok::<
                Constant,
                Diagnostic,
            >(Constant::Int(i32_specs::wrapping_shr(a, b as u32))),
            _ => r matches Err(d) && d.location == location && (d.kind matches
                DiagKind::NonConstantBinary(lk, o, rk) && lk == const_kind(lhs) && o == op && rk
                == const_kind(rhs)),
        },
{
    match (op, lhs, rhs) {
        (BinaryOp::Add, Constant::Int(a), Constant::Int(b)) => Ok(Constant::Int(a.wrapping_add(b))),
        (BinaryOp::Add, Constant::Int(a), Constant::Float(fb)) => Ok(
            Constant::Float(float_add_bits(float_of_int_bits(a), fb)),
        ),
        (BinaryOp::Add, Constant::Float(fa), Constant::Int(b)) => Ok(
            Constant::Float(float_add_bits(fa, float_of_int_bits(b))),
        ),
        (BinaryOp::Add, Constant::Float(fa), Constant::Float(fb)) => Ok(
            Constant::Float(float_add_bits(fa, fb)),
        ),
        (BinaryOp::Add, Constant::String(sa), Constant::String(sb)) => Ok(
            Constant::String(sa.concat(sb.as_str())),
        ),
        (BinaryOp::Sub, Constant::Int(a), Constant::Int(b)) => Ok(Constant::Int(a.wrapping_sub(b))),
        (BinaryOp::Sub, Constant::Int(a), Constant::Float(fb)) => Ok(
            Constant::Float(float_sub_bits(float_of_int_bits(a), fb)),
        ),
        (BinaryOp::Sub, Constant::Float(fa), Constant::Int(b)) => Ok(
            Constant::Float(float_sub_bits(fa, float_of_int_bits(b))),
        ),
        (BinaryOp::Sub, Constant::Float(fa), Constant::Float(fb)) => Ok(
            Constant::Float(float_sub_bits(fa, fb)),
        ),
        (BinaryOp::Mul, Constant::Int(a), Constant::Int(b)) => Ok(Constant::Int(a.wrapping_mul(b))),
        (BinaryOp::Mul, Constant::Int(a), Constant::Float(fb)) => Ok(
            Constant::Float(float_mul_bits(float_of_int_bits(a), fb)),
        ),
        (BinaryOp::Mul, Constant::Float(fa), Constant::Int(b)) => Ok(
            Constant::Float(float_mul_bits(fa, float_of_int_bits(b))),
        ),
        (BinaryOp::Mul, Constant::Float(fa), Constant::Float(fb)) => Ok(
            Constant::Float(float_mul_bits(fa, fb)),
        ),
        (BinaryOp::Div, Constant::Int(a), Constant::Int(b)) => {
            if b == 0 {
                Err(Diagnostic { location, kind: DiagKind::IntegerDivisionByZero })
            } else {
                Ok(Constant::Int(div_trunc(a, b)))
            }
        },
        (BinaryOp::Div, Constant::Int(a), Constant::Float(fb)) => Ok(
            Constant::Float(float_div_bits(float_of_int_bits(a), fb)),
        ),
        (BinaryOp::Div, Constant::Float(fa), Constant::Int(b)) => Ok(
            Constant::Float(float_div_bits(fa, float_of_int_bits(b))),
        ),
        (BinaryOp::Div, Constant::Float(fa), Constant::Float(fb)) => Ok(
            Constant::Float(float_div_bits(fa, fb)),
        ),
        (BinaryOp::BitOr, Constant::Int(a), Constant::Int(b)) => Ok(
            Constant::Int(((a as u32) | (b as u32)) as i32),
        ),
        (BinaryOp::BitAnd, Constant::Int(a), Constant::Int(b)) => Ok(
            Constant::Int(((a as u32) & (b as u32)) as i32),
        ),
        (BinaryOp::LShift, Constant::Int(a), Constant::Int(b)) => Ok(
            Constant::Int(a.wrapping_shl(b as u32)),
        ),
        (BinaryOp::RShift, Constant::Int(a), Constant::Int(b)) => Ok(
            Constant::Int(a.wrapping_shr(b as u32)),
        ),
        (o, l, rr) => Err(
            Diagnostic {
                location,
                kind: DiagKind::NonConstantBinary(kind_of(&l), o, kind_of(&rr)),
            },
        ),
    }
}

/// One lowercase hexadecimal digit.
pub open spec fn hex_digit(d: int) -> char {
    if d == 0 {
        '0'
    } else if d == 1 {
        '1'
    } else if d == 2 {
        '2'
    } else if d == 3 {
        '3'
    } else if d == 4 {
        '4'
    } else if d == 5 {
        '5'
    } else if d == 6 {
        '6'
    } else if d == 7 {
        '7'
    } else if d == 8 {
        '8'
    } else if d == 9 {
        '9'
    } else if d == 10 {
        'a'
    } else if d == 11 {
        'b'
    } else if d == 12 {
        'c'
    } else if d == 13 {
        'd'
    } else if d == 14 {
        'e'
    } else {
        'f'
    }
}

/// Two lowercase hexadecimal digits of a byte value.
pub open spec fn hex_byte(v: int) -> Seq<char> {
    seq![hex_digit(v / 16), hex_digit(v % 16)]
}

/// An `rgb()` component clamped to the byte range.
pub open spec fn clamp255(v: i32) -> int {
    if v > 255 {
        255
    } else if v < 0 {
        0
    } else {
        v as int
    }
}

fn push_hex_digit(out: &mut String, d: u32)
    requires
        d < 16,
    ensures
        final(out)@ == old(out)@ + seq![hex_digit(d as int)],
{
    let s: &str = match d {
        0 => "0",
        1 => "1",
        2 => "2",
        3 => "3",
        4 => "4",
        5 => "5",
        6 => "6",
        7 => "7",
        8 => "8",
        9 => "9",
        10 => "a",
        11 => "b",
        12 => "c",
        13 => "d",
        14 => "e",
        _ => "f",
    };
    proof {
        reveal_strlit("0");
        reveal_strlit("1");
        reveal_strlit("2");
        reveal_strlit("3");
        reveal_strlit("4");
        reveal_strlit("5");
        reveal_strlit("6");
        reveal_strlit("7");
        reveal_strlit("8");
        reveal_strlit("9");
        reveal_strlit("a");
        reveal_strlit("b");
        reveal_strlit("c");
        reveal_strlit("d");
        reveal_strlit("e");
        reveal_strlit("f");
        assert(s@ =~= seq![hex_digit(d as int)]);
    }
    out.append(s);
}

/// Clamps an `rgb()` component and appends its two hex digits.
fn push_rgb_component(out: &mut String, v: i32)
    ensures
        final(out)@ == old(out)@ + hex_byte(clamp255(v)),
{
    let c: u32 = if v > 255 {
        255
    } else if v < 0 {
        0
    } else {
        v as u32
    };
    assert(c == clamp255(v));
    push_hex_digit(out, c / 16);
    push_hex_digit(out, c % 16);
    proof {
        assert(final(out)@ =~= old(out)@ + hex_byte(clamp255(v)));
    }
}

} // verus!

verus! {

/// The resolver's answer: either a value (with the declaration's type hint),
/// or an instruction to continue the search at the parent.
pub enum ConstLookup {
    Found(TypePath, Constant),
    Continue(Option<usize>),
}

/// Which of the resolver's branches applies to a lookup, judged on the tree
/// as it stands when the resolver is entered.
pub enum LookupCase {
    NoDecl,
    NoSlot,
    Cached,
    Cyclic,
    NonConst,
    NonStatic,
    NullInit,
    Evaluate,
}

pub open spec fn lookup_case(
    nodes: Seq<ClassNode>,
    ty: int,
    name: Seq<char>,
    must_be_static: bool,
) -> LookupCase {
    match decl_search(nodes, ty, name) {
        None => LookupCase::NoDecl,
        Some(decl) => match find_var(nodes[ty], name) {
            None => LookupCase::NoSlot,
            Some(vi) => {
                let slot = nodes[ty].vars@[vi].1;
                if slot.constant is Some {
                    LookupCase::Cached
                } else if slot.being_evaluated {
                    LookupCase::Cyclic
                } else if !decl.is_const_evaluable {
                    LookupCase::NonConst
                } else if must_be_static && !decl.is_static {
                    LookupCase::NonStatic
                } else if slot.expression is None {
                    LookupCase::NullInit
                } else {
                    LookupCase::Evaluate
                }
            },
        },
    }
}

/// The first class at or above `ty` that owns a slot for the name, or `None`
/// when the name is not declared along the chain.
pub open spec fn first_owner(nodes: Seq<ClassNode>, ty: int, name: Seq<char>) -> Option<int>
    decreases ty,
{
    if ty < 0 || ty >= nodes.len() {
        None
    } else if decl_search(nodes, ty, name) is None {
        None
    } else if find_var(nodes[ty], name) is Some {
        Some(ty)
    } else {
        match nodes[ty].parent {
            Some(p) => if p < ty {
                first_owner(nodes, p as int, name)
            } else {
                None
            },
            None => None,
        }
    }
}

/// Whether a produced optional path agrees with the optional hint it copies.
pub open spec fn hint_matches(op: Option<TypePath>, hint: Option<&TypePath>) -> bool {
    match (op, hint) {
        (None, None) => true,
        (Some(a), Some(b)) => path_eq(a, *b),
        _ => false,
    }
}

fn dup_opt_path(p: Option<&TypePath>) -> (r: Option<TypePath>)
    ensures
        hint_matches(r, p),
        opt_path_view(r) == hint_view(p),
{
    match p {
        Some(x) => {
            let d = dup_path(x);
            proof {
                lemma_path_view_eq(d, *x);
            }
            Some(d)
        },
        None => None,
    }
}

proof fn lemma_exprs_size_elem(v: Vec<Expression>, j: int, i: int)
    requires
        0 <= j <= i < v.len(),
    ensures
        exprs_size_from(v, j) > expr_size(v[i]),
    decreases i - j,
{
    if j < i {
        lemma_exprs_size_elem(v, j + 1, i);
    }
}

proof fn lemma_follows_size_elem(v: Vec<Follow>, j: int, i: int)
    requires
        0 <= j <= i < v.len(),
    ensures
        follows_size_from(v, j) > follow_size(v[i]),
    decreases i - j,
{
    if j < i {
        lemma_follows_size_elem(v, j + 1, i);
    }
}

proof fn lemma_pairs_size_elem(v: Vec<(String, Expression)>, j: int, i: int)
    requires
        0 <= j <= i < v.len(),
    ensures
        pairs_size_from(v, j) > expr_size(v[i].1),
    decreases i - j,
{
    if j < i {
        lemma_pairs_size_elem(v, j + 1, i);
    }
}

proof fn lemma_elems_size_elem(v: Vec<(Expression, Option<Expression>)>, j: int, i: int)
    requires
        0 <= j <= i < v.len(),
    ensures
        elems_size_from(v, j) > expr_size(v[i].0),
        v[i].1 matches Some(val) ==> elems_size_from(v, j) > expr_size(val),
    decreases i - j,
{
    if j < i {
        lemma_elems_size_elem(v, j + 1, i);
    }
}

/// One step of the tree that changes a single slot within the frame
/// discipline is an evolution.
proof fn lemma_evolves_update_slot(a: ObjectTree, b: ObjectTree, ci: int, vi: int)
    requires
        a.nodes@.len() == b.nodes@.len(),
        0 <= ci < a.nodes@.len(),
        0 <= vi < a.nodes@[ci].vars@.len(),
        forall|k: int| 0 <= k < a.nodes@.len() && k != ci ==> #[trigger] b.nodes@[k] == a.nodes@[k],
        b.nodes@[ci].path == a.nodes@[ci].path,
        b.nodes@[ci].parent == a.nodes@[ci].parent,
        b.nodes@[ci].decls == a.nodes@[ci].decls,
        b.nodes@[ci].vars@.len() == a.nodes@[ci].vars@.len(),
        forall|j: int|
            0 <= j < a.nodes@[ci].vars@.len() && j != vi ==> #[trigger] b.nodes@[ci].vars@[j]
                == a.nodes@[ci].vars@[j],
        b.nodes@[ci].vars@[vi].0 == a.nodes@[ci].vars@[vi].0,
        crate::objtree::slot_frame(a.nodes@[ci].vars@[vi].1, b.nodes@[ci].vars@[vi].1),
    ensures
        tree_evolves(a, b),
{
    assert forall|i: int| 0 <= i < a.nodes@.len() implies crate::objtree::class_frame(
        a.nodes@[i],
        #[trigger] b.nodes@[i],
    ) by {
        if i != ci {
            assert(b.nodes@[i] == a.nodes@[i]);
        }
    }
}

/// Only variables declared constant-evaluable are ever resolved: a slot whose
/// declaration lacks the marker (or has no declaration) keeps its value.
/// Together with `tree_evolves`, such a slot is entirely unchanged.
pub open spec fn nonconst_frame(a: ObjectTree, b: ObjectTree) -> bool {
    forall|ci: int, vi: int|
        0 <= ci < a.nodes@.len() && 0 <= vi < a.nodes@[ci].vars@.len() && !(
        #[trigger] const_evaluable_at(a, ci, vi)) ==> slot_at(b, ci, vi).constant == slot_at(
            a,
            ci,
            vi,
        ).constant
}

/// The declaration search reads only parents and declarations.
pub proof fn lemma_decl_search_same(a: ObjectTree, b: ObjectTree, ty: int, name: Seq<char>)
    requires
        b.nodes@.len() == a.nodes@.len(),
        forall|k: int|
            0 <= k < a.nodes@.len() ==> (#[trigger] b.nodes@[k]).parent == a.nodes@[k].parent
                && b.nodes@[k].decls == a.nodes@[k].decls,
    ensures
        decl_search(b.nodes@, ty, name) == decl_search(a.nodes@, ty, name),
    decreases ty,
{
    if 0 <= ty < a.nodes@.len() {
        match a.nodes@[ty].parent {
            Some(p) => {
                if p < ty {
                    lemma_decl_search_same(a, b, p as int, name);
                }
            },
            None => {},
        }
    }
}

/// Which variables are constant-evaluable never changes across a fold step.
pub proof fn lemma_const_evaluable_stable(a: ObjectTree, b: ObjectTree, ci: int, vi: int)
    requires
        tree_evolves(a, b),
        0 <= ci < a.nodes@.len(),
        0 <= vi < a.nodes@[ci].vars@.len(),
    ensures
        const_evaluable_at(b, ci, vi) == const_evaluable_at(a, ci, vi),
{
    assert(crate::objtree::class_frame(a.nodes@[ci], b.nodes@[ci]));
    lemma_decl_search_evolves(a, b, ci, a.nodes@[ci].vars@[vi].0@);
}

/// Two fold steps compose: the frame and the non-const discipline carry over.
pub proof fn lemma_step_trans(a: ObjectTree, b: ObjectTree, c: ObjectTree)
    requires
        tree_evolves(a, b),
        tree_evolves(b, c),
        nonconst_frame(a, b),
        nonconst_frame(b, c),
    ensures
        tree_evolves(a, c),
        nonconst_frame(a, c),
{
    lemma_evolves_trans(a, b, c);
    assert forall|ci: int, vi: int|
        0 <= ci < a.nodes@.len() && 0 <= vi < a.nodes@[ci].vars@.len() && !(
    #[trigger] const_evaluable_at(a, ci, vi)) implies slot_at(c, ci, vi).constant == slot_at(
        a,
        ci,
        vi,
    ).constant by {
        assert(crate::objtree::class_frame(a.nodes@[ci], b.nodes@[ci]));
        lemma_const_evaluable_stable(a, b, ci, vi);
    }
}

/// A step that rewrote one slot and nothing else.
pub open spec fn changed_only(a: ObjectTree, b: ObjectTree, ci: int, vi: int) -> bool {
    &&& b.nodes@.len() == a.nodes@.len()
    &&& forall|k: int| 0 <= k < a.nodes@.len() && k != ci ==> #[trigger] b.nodes@[k] == a.nodes@[k]
    &&& b.nodes@[ci].path == a.nodes@[ci].path
    &&& b.nodes@[ci].parent == a.nodes@[ci].parent
    &&& b.nodes@[ci].decls == a.nodes@[ci].decls
    &&& b.nodes@[ci].vars@.len() == a.nodes@[ci].vars@.len()
    &&& forall|j: int|
        0 <= j < a.nodes@[ci].vars@.len() && j != vi ==> #[trigger] b.nodes@[ci].vars@[j]
            == a.nodes@[ci].vars@[j]
}

/// Elementwise value equality of vectors, extracted from the indexed form.
proof fn lemma_consts_eq_elem(a: Vec<Constant>, b: Vec<Constant>, i: int, j: int)
    requires
        crate::constant::consts_eq_from(a, b, i),
        0 <= i <= j < a.len(),
    ensures
        const_eq(a[j], b[j]),
    decreases j - i,
{
    if i < j {
        lemma_consts_eq_elem(a, b, i + 1, j);
    }
}

proof fn lemma_cpairs_eq_elem(a: Vec<(String, Constant)>, b: Vec<(String, Constant)>, i: int, j: int)
    requires
        crate::constant::cpairs_eq_from(a, b, i),
        0 <= i <= j < a.len(),
    ensures
        a[j].0@ == b[j].0@,
        const_eq(a[j].1, b[j].1),
    decreases j - i,
{
    if i < j {
        lemma_cpairs_eq_elem(a, b, i + 1, j);
    }
}

proof fn lemma_elems_eq_elem(
    a: Vec<(Constant, Option<Constant>)>,
    b: Vec<(Constant, Option<Constant>)>,
    i: int,
    j: int,
)
    requires
        crate::constant::elems_eq_from(a, b, i),
        0 <= i <= j < a.len(),
    ensures
        const_eq(a[j].0, b[j].0),
        crate::constant::opt_const_eq(a[j].1, b[j].1),
    decreases j - i,
{
    if i < j {
        lemma_elems_eq_elem(a, b, i + 1, j);
    }
}

proof fn lemma_pairs_match_respects_eq(
    a: Vec<(String, Constant)>,
    b: Vec<(String, Constant)>,
    sv: Seq<(Seq<char>, ConstantV)>,
)
    requires
        crate::constant::cpairs_eq_from(a, b, 0),
        pairs_match_v(b, sv),
    ensures
        pairs_match_v(a, sv),
    decreases a, 1int,
{
    assert forall|j: int| 0 <= j < sv.len() implies (#[trigger] a@[j]).0@ == sv[j].0 && matches_v(
        a@[j].1,
        sv[j].1,
    ) by {
        lemma_cpairs_eq_elem(a, b, 0, j);
        lemma_matches_respects_eq(a@[j].1, b@[j].1, sv[j].1);
    }
}

proof fn lemma_args_match_respects_eq(a: Vec<Constant>, b: Vec<Constant>, sv: Seq<ConstantV>)
    requires
        crate::constant::consts_eq_from(a, b, 0),
        args_match_v(b, sv),
    ensures
        args_match_v(a, sv),
    decreases a, 1int,
{
    assert forall|j: int| 0 <= j < sv.len() implies matches_v(#[trigger] a@[j], sv[j]) by {
        lemma_consts_eq_elem(a, b, 0, j);
        lemma_matches_respects_eq(a@[j], b@[j], sv[j]);
    }
}

/// Value equality carries the ghost-value relation.
pub proof fn lemma_matches_respects_eq(c: Constant, v: Constant, sv: ConstantV)
    requires
        const_eq(c, v),
        matches_v(v, sv),
    ensures
        matches_v(c, sv),
    decreases c, 2int,
{
    match (c, v) {
        (Constant::Null(Some(p)), Constant::Null(Some(q))) => {
            lemma_path_view_eq(p, q);
        },
        (Constant::List(ce), Constant::List(ve)) => {
            let ev = sv->ListV_0;
            assert forall|j: int| 0 <= j < ev.len() implies matches_v(
                (#[trigger] ce@[j]).0,
                ev[j].0,
            ) && (match (ce@[j].1, ev[j].1) {
                (None, None) => true,
                (Some(x), Some(y)) => matches_v(x, y),
                _ => false,
            }) by {
                lemma_elems_eq_elem(ce, ve, 0, j);
                lemma_matches_respects_eq(ce@[j].0, ve@[j].0, ev[j].0);
                match (ce@[j].1, ve@[j].1, ev[j].1) {
                    (Some(x), Some(y), Some(z)) => {
                        lemma_matches_respects_eq(x, y, z);
                    },
                    _ => {},
                }
            }
        },
        (Constant::Call(f, ca), Constant::Call(g, va)) => {
            lemma_args_match_respects_eq(ca, va, sv->CallV_1);
        },
        (Constant::Prefab(cp), Constant::Prefab(vp)) => {
            lemma_path_view_eq(cp.path, vp.path);
            lemma_pairs_match_respects_eq(cp.vars, vp.vars, sv->PrefV_vars);
        },
        (Constant::New { type_: ct, args: ca }, Constant::New { type_: vt, args: va }) => {
            assert(crate::constant::newtype_eq(ct, vt));
            assert(newtype_match_v(vt, sv->NewV_typ));
            match (ct, vt) {
                (NewType::Prefab(cp), NewType::Prefab(vp)) => {
                    assert(crate::constant::prefab_eq(cp, vp));
                    lemma_path_view_eq(cp.path, vp.path);
                    match sv->NewV_typ {
                        NewTypeV::PrefabTV { path, vars } => {
                            assert(pairs_match_v(vp.vars, vars));
                            lemma_pairs_match_respects_eq(cp.vars, vp.vars, vars);
                        },
                        _ => {},
                    }
                },
                _ => {},
            }
            assert(newtype_match_v(ct, sv->NewV_typ));
            match (ca, va) {
                (Some(x), Some(y)) => {
                    match sv->NewV_args {
                        Some(z) => {
                            lemma_args_match_respects_eq(x, y, z);
                        },
                        None => {},
                    }
                },
                _ => {},
            }
        },
        _ => {},
    }
}

/// Resolves an identifier at exactly one class: the heart of the resolver.
/// Either answers from the memoized slot, reports an error, computes and
/// stores the value, or directs the caller to the parent class.
pub fn constant_ident_lookup(
    tree: &mut ObjectTree,
    ty: usize,
    name: &str,
    must_be_static: bool,
    diags: &mut Vec<Diagnostic>,
) -> (r: Result<ConstLookup, Diagnostic>)
    requires
        tree_wf(*old(tree)),
        ty < old(tree).nodes@.len(),
    ensures
        tree_wf(*final(tree)),
        tree_evolves(*old(tree), *final(tree)),
        nonconst_frame(*old(tree), *final(tree)),
        crate::diag::diags_extend(old(diags)@, final(diags)@),
        crate::diag::warnings_only(old(diags)@, final(diags)@),
        !(lookup_case(old(tree).nodes@, ty as int, name@, must_be_static) is Evaluate)
            ==> final(diags)@ == old(diags)@,
        ({
            let nodes = old(tree).nodes@;
            let tyi = ty as int;
            match lookup_case(nodes, tyi, name@, must_be_static) {
                LookupCase::NoDecl => r == Ok::<ConstLookup, Diagnostic>(
                    ConstLookup::Continue(Option::<usize>::None),
                ) && *final(tree) == *old(tree),
                LookupCase::NoSlot => r == Ok::<ConstLookup, Diagnostic>(
                    ConstLookup::Continue(nodes[tyi].parent),
                ) && *final(tree) == *old(tree),
                LookupCase::Cached => *final(tree) == *old(tree) && (r matches Ok(k) && (k matches
                    ConstLookup::Found(h, v) && path_eq(
                    h,
                    decl_search(nodes, tyi, name@)->Some_0.type_path,
                ) && const_eq(
                    v,
                    slot_at(*old(tree), tyi, find_var(nodes[tyi], name@)->Some_0).constant->Some_0,
                ))),
                LookupCase::Cyclic => *final(tree) == *old(tree) && (r matches Err(d) && d.location
                    == slot_at(*old(tree), tyi, find_var(nodes[tyi], name@)->Some_0).location && (
                d.kind matches DiagKind::CyclicReference(n) && n@ == name@)),
                LookupCase::NonConst => *final(tree) == *old(tree) && (r matches Err(d)
                    && d.location == slot_at(
                    *old(tree),
                    tyi,
                    find_var(nodes[tyi], name@)->Some_0,
                ).location && (d.kind matches DiagKind::NonConstVariable(n) && n@ == name@)),
                LookupCase::NonStatic => *final(tree) == *old(tree) && (r matches Err(d)
                    && d.location == slot_at(
                    *old(tree),
                    tyi,
                    find_var(nodes[tyi], name@)->Some_0,
                ).location && (d.kind matches DiagKind::NonStaticVariable(n) && n@ == name@)),
                LookupCase::NullInit => changed_only(
                    *old(tree),
                    *final(tree),
                    tyi,
                    find_var(nodes[tyi], name@)->Some_0,
                ) && (r matches Ok(k) && (k matches ConstLookup::Found(h, v) && path_eq(
                    h,
                    decl_search(nodes, tyi, name@)->Some_0.type_path,
                ) && (v matches Constant::Null(op) && (op matches Some(p) && path_eq(
                    p,
                    decl_search(nodes, tyi, name@)->Some_0.type_path,
                ))) && (slot_at(
                    *final(tree),
                    tyi,
                    find_var(nodes[tyi], name@)->Some_0,
                ).constant matches Some(c) && const_eq(c, v)))),
                LookupCase::Evaluate => {
                    let vi = find_var(nodes[tyi], name@)->Some_0;
                    &&& (r matches Ok(k) ==> k matches ConstLookup::Found(h, v) && path_eq(
                        h,
                        decl_search(nodes, tyi, name@)->Some_0.type_path,
                    ) && (slot_at(*final(tree), tyi, vi).constant matches Some(c) && const_eq(
                        c,
                        v,
                    )))
                    &&& (r is Err ==> slot_at(*final(tree), tyi, vi).constant is None)
                    &&& ({
                        let slot = slot_at(*old(tree), tyi, vi);
                        let sd = decl_search(nodes, tyi, name@)->Some_0;
                        let hint0: Option<Seq<(PathOp, Seq<char>)>> = if sd.type_path@.len()
                            == 0 {
                            None
                        } else {
                            Some(path_view(sd.type_path))
                        };
                        slot.expression matches Some(e) ==> lit_expr(e) ==> ({
                            let sr = sfold_expr(e, hint0, slot.location);
                            &&& changed_only(*old(tree), *final(tree), tyi, vi)
                            &&& (r matches Ok(k) ==> k matches ConstLookup::Found(h2, v2) && (
                            sr matches Ok(sv) && matches_v(v2, sv)))
                            &&& (r matches Err(d) ==> sr == Err::<ConstantV, Diagnostic>(d))
                        })
                    })
                },
            }
        }),
    decreases tree_busy(*old(tree)), 0nat, 0nat,
{
    let ghost t0 = *tree;
    let decl = match tree.declaration_of(ty, name) {
        Some(d) => d,
        None => {
            return Ok(ConstLookup::Continue(None));
        },
    };
    let vi = match find_var_index(&tree.nodes[ty], name) {
        Some(vi) => vi,
        None => {
            let parent = tree.nodes[ty].parent;
            return Ok(ConstLookup::Continue(parent));
        },
    };
    proof {
        lemma_find_var_range(t0.nodes@[ty as int].vars@, name@, 0);
    }
    let cached = match &tree.nodes[ty].vars[vi].1.constant {
        Some(c) => Some(dup_constant(c)),
        None => None,
    };
    match cached {
        Some(v) => {
            return Ok(ConstLookup::Found(decl.type_path, v));
        },
        None => {},
    }
    let location = tree.nodes[ty].vars[vi].1.location;
    if tree.nodes[ty].vars[vi].1.being_evaluated {
        return Err(
            Diagnostic { location, kind: DiagKind::CyclicReference(String::from_str(name)) },
        );
    }
    if !decl.is_const_evaluable {
        return Err(
            Diagnostic { location, kind: DiagKind::NonConstVariable(String::from_str(name)) },
        );
    }
    if must_be_static && !decl.is_static {
        return Err(
            Diagnostic { location, kind: DiagKind::NonStaticVariable(String::from_str(name)) },
        );
    }
    if tree.nodes[ty].vars[vi].1.expression.is_none() {
        let stored = Constant::Null(Some(dup_path(&decl.type_path)));
        tree.nodes[ty].vars[vi].1.constant = Some(stored);
        proof {
            lemma_evolves_update_slot(t0, *tree, ty as int, vi as int);
            lemma_evolves_wf(t0, *tree);
            assert(const_evaluable_at(t0, ty as int, vi as int));
            assert forall|cj: int, vj: int|
                0 <= cj < t0.nodes@.len() && 0 <= vj < t0.nodes@[cj].vars@.len() && !(
            #[trigger] const_evaluable_at(t0, cj, vj)) implies slot_at(
                *tree,
                cj,
                vj,
            ).constant == slot_at(t0, cj, vj).constant by {
                if cj != ty as int {
                    assert(tree.nodes@[cj] == t0.nodes@[cj]);
                }
            }
        }
        let ret = Constant::Null(Some(dup_path(&decl.type_path)));
        return Ok(ConstLookup::Found(decl.type_path, ret));
    }
    let expr = match tree.nodes[ty].vars[vi].1.expression.take() {
        Some(e) => e,
        None => {
            proof {
                assert(false);
            }
            return Err(
                Diagnostic { location, kind: DiagKind::CyclicReference(String::from_str(name)) },
            );
        },
    };
    tree.nodes[ty].vars[vi].1.being_evaluated = true;
    let ghost t1 = *tree;
    proof {
        assert forall|i: int|
            0 <= i < t1.nodes@.len() implies match (#[trigger] t1.nodes@[i]).parent {
            Some(p) => p < i,
            None => true,
        } by {
            if i != ty as int {
                assert(t1.nodes@[i] == t0.nodes@[i]);
            }
        }
        assert(tree_wf(t1));
        lemma_busy_close_slot(t0, t1, ty as int, vi as int);
    }
    let hint: Option<&TypePath> = if decl.type_path.len() == 0 {
        None
    } else {
        Some(&decl.type_path)
    };
    proof {
        let sd = decl_search(t0.nodes@, ty as int, name@)->Some_0;
        lemma_path_view_eq(decl.type_path, sd.type_path);
    }
    let result = fold_expr(tree, ty, location, diags, &expr, hint);
    let ghost t2 = *tree;
    tree.nodes[ty].vars[vi].1.expression = Some(expr);
    tree.nodes[ty].vars[vi].1.being_evaluated = false;
    match result {
        Ok(v) => {
            let stored = dup_constant(&v);
            tree.nodes[ty].vars[vi].1.constant = Some(stored);
            proof {
                assert(crate::objtree::class_frame(t1.nodes@[ty as int], t2.nodes@[ty as int]));
                assert forall|i: int|
                    0 <= i < t0.nodes@.len() && i != ty as int implies crate::objtree::class_frame(
                    t0.nodes@[i],
                    #[trigger] tree.nodes@[i],
                ) by {
                    assert(t1.nodes@[i] == t0.nodes@[i]);
                    assert(crate::objtree::class_frame(t1.nodes@[i], t2.nodes@[i]));
                    assert(tree.nodes@[i] == t2.nodes@[i]);
                }
                assert forall|j: int|
                    0 <= j < t0.nodes@[ty as int].vars@.len() && j != vi as int implies (#[trigger] tree.nodes@[ty as int].vars@[j]).0 == t0.nodes@[ty as int].vars@[j].0
                    && crate::objtree::slot_frame(
                    t0.nodes@[ty as int].vars@[j].1,
                    tree.nodes@[ty as int].vars@[j].1,
                ) by {
                    assert(t1.nodes@[ty as int].vars@[j] == t0.nodes@[ty as int].vars@[j]);
                    assert(tree.nodes@[ty as int].vars@[j] == t2.nodes@[ty as int].vars@[j]);
                }
                assert(crate::objtree::slot_frame(
                    t0.nodes@[ty as int].vars@[vi as int].1,
                    tree.nodes@[ty as int].vars@[vi as int].1,
                ));
                assert(tree_evolves(t0, *tree)) by {
                    assert forall|i: int|
                        0 <= i < t0.nodes@.len() implies crate::objtree::class_frame(
                        t0.nodes@[i],
                        #[trigger] tree.nodes@[i],
                    ) by {}
                }
                lemma_evolves_wf(t0, *tree);
                assert(const_evaluable_at(t0, ty as int, vi as int));
                assert forall|cj: int, vj: int|
                    0 <= cj < t0.nodes@.len() && 0 <= vj < t0.nodes@[cj].vars@.len() && !(
                #[trigger] const_evaluable_at(t0, cj, vj)) implies slot_at(
                    *tree,
                    cj,
                    vj,
                ).constant == slot_at(t0, cj, vj).constant by {
                    assert(slot_at(t1, cj, vj).constant == slot_at(t0, cj, vj).constant);
                    assert(t1.nodes@[cj].vars@[vj].0 == t0.nodes@[cj].vars@[vj].0);
                    lemma_decl_search_same(t0, t1, cj, t0.nodes@[cj].vars@[vj].0@);
                    assert(!const_evaluable_at(t1, cj, vj));
                    assert(slot_at(t2, cj, vj).constant == slot_at(t1, cj, vj).constant);
                    if !(cj == ty as int && vj == vi as int) {
                        assert(slot_at(*tree, cj, vj).constant == slot_at(t2, cj, vj).constant);
                    }
                }
            }
            Ok(ConstLookup::Found(decl.type_path, v))
        },
        Err(e) => {
            proof {
                assert(crate::objtree::class_frame(t1.nodes@[ty as int], t2.nodes@[ty as int]));
                assert forall|i: int|
                    0 <= i < t0.nodes@.len() && i != ty as int implies crate::objtree::class_frame(
                    t0.nodes@[i],
                    #[trigger] tree.nodes@[i],
                ) by {
                    assert(t1.nodes@[i] == t0.nodes@[i]);
                    assert(crate::objtree::class_frame(t1.nodes@[i], t2.nodes@[i]));
                    assert(tree.nodes@[i] == t2.nodes@[i]);
                }
                assert forall|j: int|
                    0 <= j < t0.nodes@[ty as int].vars@.len() && j != vi as int implies (#[trigger] tree.nodes@[ty as int].vars@[j]).0 == t0.nodes@[ty as int].vars@[j].0
                    && crate::objtree::slot_frame(
                    t0.nodes@[ty as int].vars@[j].1,
                    tree.nodes@[ty as int].vars@[j].1,
                ) by {
                    assert(t1.nodes@[ty as int].vars@[j] == t0.nodes@[ty as int].vars@[j]);
                    assert(tree.nodes@[ty as int].vars@[j] == t2.nodes@[ty as int].vars@[j]);
                }
                assert(crate::objtree::slot_frame(
                    t0.nodes@[ty as int].vars@[vi as int].1,
                    tree.nodes@[ty as int].vars@[vi as int].1,
                ));
                assert(tree_evolves(t0, *tree)) by {
                    assert forall|i: int|
                        0 <= i < t0.nodes@.len() implies crate::objtree::class_frame(
                        t0.nodes@[i],
                        #[trigger] tree.nodes@[i],
                    ) by {}
                }
                lemma_evolves_wf(t0, *tree);
                assert(const_evaluable_at(t0, ty as int, vi as int));
                assert forall|cj: int, vj: int|
                    0 <= cj < t0.nodes@.len() && 0 <= vj < t0.nodes@[cj].vars@.len() && !(
                #[trigger] const_evaluable_at(t0, cj, vj)) implies slot_at(
                    *tree,
                    cj,
                    vj,
                ).constant == slot_at(t0, cj, vj).constant by {
                    assert(slot_at(t1, cj, vj).constant == slot_at(t0, cj, vj).constant);
                    assert(t1.nodes@[cj].vars@[vj].0 == t0.nodes@[cj].vars@[vj].0);
                    lemma_decl_search_same(t0, t1, cj, t0.nodes@[cj].vars@[vj].0@);
                    assert(!const_evaluable_at(t1, cj, vj));
                    assert(slot_at(t2, cj, vj).constant == slot_at(t1, cj, vj).constant);
                    if !(cj == ty as int && vj == vi as int) {
                        assert(slot_at(*tree, cj, vj).constant == slot_at(t2, cj, vj).constant);
                    }
                }
            }
            Err(e)
        },
    }
}

/// What the chain lookup returns and stores, judged on the tree at entry:
/// an unknown-variable error at the reference site when the chain is
/// exhausted, else the resolver's outcome at the first owning class, with
/// every failure keeping the offending slot's location, and the spec-level
/// fold pinning the value of a tree-independent initializer.
pub open spec fn chain_lookup_claim(
    t0: ObjectTree,
    t1: ObjectTree,
    ty: int,
    location: Location,
    name: Seq<char>,
    must_be_static: bool,
    r: Result<Constant, Diagnostic>,
) -> bool {
    ({
            let nodes = t0.nodes@;
            match first_owner(nodes, ty, name) {
                None => (r matches Err(d) && d.location == location && (d.kind matches
                    DiagKind::UnknownVariable(n) && n@ == name)) && t1 == t0,
                Some(a) => match lookup_case(nodes, a, name, must_be_static) {
                    LookupCase::NoDecl => false,
                    LookupCase::NoSlot => false,
                    LookupCase::Cached => t1 == t0 && (r matches Ok(v)
                        && const_eq(
                        v,
                        slot_at(t0, a, find_var(nodes[a], name)->Some_0).constant->Some_0,
                    )),
                    LookupCase::Cyclic => t1 == t0 && (r matches Err(d)
                        && d.location == slot_at(
                        t0,
                        a,
                        find_var(nodes[a], name)->Some_0,
                    ).location && (d.kind matches DiagKind::CyclicReference(n) && n@ == name)),
                    LookupCase::NonConst => t1 == t0 && (r matches Err(d)
                        && d.location == slot_at(
                        t0,
                        a,
                        find_var(nodes[a], name)->Some_0,
                    ).location && (d.kind matches DiagKind::NonConstVariable(n) && n@ == name)),
                    LookupCase::NonStatic => t1 == t0 && (r matches Err(d)
                        && d.location == slot_at(
                        t0,
                        a,
                        find_var(nodes[a], name)->Some_0,
                    ).location && (d.kind matches DiagKind::NonStaticVariable(n) && n@ == name)),
                    LookupCase::NullInit => r matches Ok(v) && (v matches Constant::Null(op) && (
                    op matches Some(p) && path_eq(
                        p,
                        decl_search(nodes, a, name)->Some_0.type_path,
                    ))) && (slot_at(
                        t1,
                        a,
                        find_var(nodes[a], name)->Some_0,
                    ).constant matches Some(c) && const_eq(c, v)),
                    LookupCase::Evaluate => {
                        &&& (r matches Ok(v) ==> (slot_at(
                            t1,
                            a,
                            find_var(nodes[a], name)->Some_0,
                        ).constant matches Some(c) && const_eq(c, v)))
                        &&& ({
                            let slot = slot_at(t0, a, find_var(nodes[a], name)->Some_0);
                            let sd = decl_search(nodes, a, name)->Some_0;
                            let hint0: Option<Seq<(PathOp, Seq<char>)>> = if sd.type_path@.len()
                                == 0 {
                                None
                            } else {
                                Some(path_view(sd.type_path))
                            };
                            slot.expression matches Some(e) ==> lit_expr(e) ==> ({
                                let sr = sfold_expr(e, hint0, slot.location);
                                &&& (r matches Ok(v) ==> (sr matches Ok(sv) && matches_v(v, sv)))
                                &&& (r matches Err(d) ==> sr == Err::<ConstantV, Diagnostic>(d))
                            })
                        })
                    },
                },
            }
        })
}

/// Resolves an identifier from `ty` upward along the parent chain, failing
/// with an unknown-variable error when the chain is exhausted. Every failure
/// keeps the offending slot's own source location; only the unknown-variable
/// error, which has no slot, carries the reference site passed in.
#[verifier::loop_isolation(false)]
pub fn recursive_lookup(
    tree: &mut ObjectTree,
    ty: usize,
    location: Location,
    name: &str,
    must_be_static: bool,
    diags: &mut Vec<Diagnostic>,
) -> (r: Result<Constant, Diagnostic>)
    requires
        tree_wf(*old(tree)),
        ty < old(tree).nodes@.len(),
    ensures
        tree_wf(*final(tree)),
        tree_evolves(*old(tree), *final(tree)),
        nonconst_frame(*old(tree), *final(tree)),
        crate::diag::diags_extend(old(diags)@, final(diags)@),
        crate::diag::warnings_only(old(diags)@, final(diags)@),
        chain_lookup_claim(
            *old(tree),
            *final(tree),
            ty as int,
            location,
            name@,
            must_be_static,
            r,
        ),
    decreases tree_busy(*old(tree)), 0nat, 1nat,
{
    let ghost t0 = *tree;
    let mut idx_opt: Option<usize> = Some(ty);
    loop
        invariant
            tree_wf(*tree),
            *tree == t0,
            diags@ == old(diags)@,
            match idx_opt {
                Some(cur) => cur < t0.nodes@.len() && first_owner(t0.nodes@, ty as int, name@)
                    == first_owner(t0.nodes@, cur as int, name@),
                None => first_owner(t0.nodes@, ty as int, name@) is None,
            },
        decreases match idx_opt {
            Some(c) => c as int + 1,
            None => 0int,
        },
    {
        match idx_opt {
            None => {
                return Err(
                    Diagnostic {
                        location,
                        kind: DiagKind::UnknownVariable(String::from_str(name)),
                    },
                );
            },
            Some(cur) => {
                match constant_ident_lookup(tree, cur, name, must_be_static, diags) {
                    Ok(ConstLookup::Found(_, v)) => {
                        return Ok(v);
                    },
                    Ok(ConstLookup::Continue(next)) => {
                        proof {
                            assert(lookup_case(t0.nodes@, cur as int, name@, must_be_static)
                                is NoDecl || lookup_case(
                                t0.nodes@,
                                cur as int,
                                name@,
                                must_be_static,
                            ) is NoSlot);
                        }
                        idx_opt = next;
                    },
                    Err(e) => {
                        return Err(e);
                    },
                }
            },
        }
    }
}

} // verus!

verus! {

/// The absolute path that a field access through a typed null resolves
/// against: each segment's name after a slash, its own separator discarded.
pub open spec fn path_text_upto(p: TypePath, i: int) -> Seq<char>
    decreases i,
{
    if i <= 0 {
        Seq::empty()
    } else {
        path_text_upto(p, i - 1) + seq!['/'] + p[i - 1].name@
    }
}

/// If an expression is a bare identifier, that identifier.
fn as_bare_ident(e: &Expression) -> (r: Option<&String>)
    ensures
        r is Some <==> is_bare_ident_expr(*e),
{
    match e {
        Expression::Base { unary, term, follow } => {
            if unary.len() == 0 && follow.len() == 0 {
                match &**term {
                    Term::Ident(n) => Some(n),
                    _ => None,
                }
            } else {
                None
            }
        },
        _ => None,
    }
}

/// Reduces an expression to a constant, resolving identifiers through the
/// tree and memoizing what they force along the way.
#[verifier::loop_isolation(false)]
fn fold_expr(
    tree: &mut ObjectTree,
    ty: usize,
    location: Location,
    diags: &mut Vec<Diagnostic>,
    e: &Expression,
    type_hint: Option<&TypePath>,
) -> (r: Result<Constant, Diagnostic>)
    requires
        tree_wf(*old(tree)),
        ty < old(tree).nodes@.len(),
    ensures
        tree_wf(*final(tree)),
        tree_evolves(*old(tree), *final(tree)),
        nonconst_frame(*old(tree), *final(tree)),
        crate::diag::diags_extend(old(diags)@, final(diags)@),
        crate::diag::warnings_only(old(diags)@, final(diags)@),
        e matches Expression::AssignOp { .. } ==> (r matches Err(d) && d.location == location
            && d.kind matches DiagKind::NonConstantAugmentedAssignment),
        folded_base_claim(*e, location, type_hint, r),
        lit_expr(*e) ==> *final(tree) == *old(tree) && final(diags)@ == old(diags)@ && res_matches(
            r,
            sfold_expr(*e, hint_view(type_hint), location),
        ),
    decreases tree_busy(*old(tree)), expr_size(*e), 3nat,
{
    let ghost t0 = *tree;
    match e {
        Expression::Base { unary, term, follow } => {
            let use_hint: Option<&TypePath> = if follow.len() == 0 && unary.len() == 0 {
                type_hint
            } else {
                None
            };
            let mut value = match fold_term(tree, ty, location, diags, term, use_hint) {
                Ok(v) => v,
                Err(d) => {
                    proof {
                        assert(folded_base_claim(*e, location, type_hint, Err(d)));
                    }
                    return Err(d);
                },
            };
            let ghost v0 = value;
            let ghost tterm = *tree;
            let ghost dterm = diags@;
            let mut fi: usize = 0;
            while fi < follow.len()
                invariant
                    fi <= follow@.len(),
                    tree_wf(*tree),
                    tree_evolves(t0, *tree),
                    nonconst_frame(t0, *tree),
                    crate::diag::diags_extend(old(diags)@, diags@),
                    crate::diag::warnings_only(old(diags)@, diags@),
                    follow@.len() == 0 ==> value == v0 && *tree == tterm && diags@ == dterm,
                decreases follow@.len() - fi,
            {
                proof {
                    lemma_evolves_busy_le(t0, *tree);
                    lemma_follows_size_elem(*follow, 0, fi as int);
                    assert(expr_size(*e) == 1 + term_size(**term) + follows_size_from(*follow, 0));
                }
                let ghost tp = *tree;
                value = match fold_follow(tree, location, diags, value, &follow[fi]) {
                    Ok(v) => v,
                    Err(d) => {
                        proof {
                            lemma_step_trans(t0, tp, *tree);
                        }
                        return Err(d);
                    },
                };
                proof {
                    lemma_step_trans(t0, tp, *tree);
                }
                fi = fi + 1;
            }
            let r2 = apply_unaries(location, unary, unary.len(), value);
            proof {
                if unary.len() == 0 && follow.len() == 0 {
                    assert(folded_term_claim(**term, location, type_hint, Ok(v0)));
                }
                assert(folded_base_claim(*e, location, type_hint, r2));
                if lit_expr(*e) {
                    let st = sfold_term(**term, hint_view(use_hint), location);
                    assert(st matches Ok(sv0) && matches_v(v0, sv0));
                    assert(res_matches(r2, sfold_expr(*e, hint_view(type_hint), location)));
                }
            }
            r2
        },
        Expression::BinaryOp { op, lhs, rhs } => {
            let l = match fold_expr(tree, ty, location, diags, lhs, None) {
                Ok(v) => v,
                Err(d) => {
                    return Err(d);
                },
            };
            let ghost tp = *tree;
            proof {
                lemma_evolves_busy_le(t0, *tree);
            }
            let rr = match fold_expr(tree, ty, location, diags, rhs, None) {
                Ok(v) => v,
                Err(d) => {
                    proof {
                        lemma_step_trans(t0, tp, *tree);
                    }
                    return Err(d);
                },
            };
            proof {
                lemma_step_trans(t0, tp, *tree);
            }
            let r3 = fold_binary(location, l, rr, *op);
            proof {
                if lit_expr(*e) {
                    let s1 = sfold_expr(**lhs, None, location);
                    let s2 = sfold_expr(**rhs, None, location);
                    assert(s1 matches Ok(sl) && matches_v(l, sl));
                    assert(s2 matches Ok(sr) && matches_v(rr, sr));
                    assert(res_matches(r3, sbinary(*op, s1->Ok_0, s2->Ok_0, location)));
                }
            }
            r3
        },
        Expression::AssignOp { .. } => Err(
            Diagnostic { location, kind: DiagKind::NonConstantAugmentedAssignment },
        ),
    }
}

/// Reduces a sequence of argument expressions left to right.
#[verifier::loop_isolation(false)]
fn fold_expr_vec(
    tree: &mut ObjectTree,
    ty: usize,
    location: Location,
    diags: &mut Vec<Diagnostic>,
    v: &Vec<Expression>,
) -> (r: Result<Vec<Constant>, Diagnostic>)
    requires
        tree_wf(*old(tree)),
        ty < old(tree).nodes@.len(),
    ensures
        tree_wf(*final(tree)),
        tree_evolves(*old(tree), *final(tree)),
        nonconst_frame(*old(tree), *final(tree)),
        crate::diag::diags_extend(old(diags)@, final(diags)@),
        crate::diag::warnings_only(old(diags)@, final(diags)@),
        r matches Ok(out) ==> out@.len() == v@.len(),
        lit_vec(*v, 0) ==> *final(tree) == *old(tree) && final(diags)@ == old(diags)@ && (match (
            r,
            sfold_vec(*v, 0, location),
        ) {
            (Ok(out), Ok(sv)) => args_match_v(out, sv),
            (Err(d), Err(dv)) => d == dv,
            _ => false,
        }),
    decreases tree_busy(*old(tree)), exprs_size_from(*v, 0), 3nat,
{
    let ghost t0 = *tree;
    let mut out: Vec<Constant> = Vec::new();
    let mut i: usize = 0;
    while i < v.len()
        invariant
            i <= v@.len(),
            out@.len() == i,
            tree_wf(*tree),
            tree_evolves(t0, *tree),
                    nonconst_frame(t0, *tree),
            crate::diag::diags_extend(old(diags)@, diags@),
                    crate::diag::warnings_only(old(diags)@, diags@),
            lit_vec(*v, 0) ==> *tree == t0 && diags@ == old(diags)@ && (sfold_vec_upto(
                *v,
                i as int,
                location,
            ) matches Ok(pre) && pre.len() == i && (forall|j: int|
                0 <= j < i ==> matches_v(#[trigger] out@[j], pre[j]))),
        decreases v@.len() - i,
    {
        proof {
            lemma_evolves_busy_le(t0, *tree);
            lemma_exprs_size_elem(*v, 0, i as int);
            if lit_vec(*v, 0) {
                lemma_lit_vec_elem(*v, 0, i as int);
            }
        }
        let ghost tp = *tree;
        let c = match fold_expr(tree, ty, location, diags, &v[i], None) {
            Ok(c) => c,
            Err(d) => {
                proof {
                    lemma_step_trans(t0, tp, *tree);
                    if lit_vec(*v, 0) {
                        lemma_sfold_vec_split(*v, i as int + 1, location);
                    }
                }
                return Err(d);
            },
        };
        proof {
            lemma_step_trans(t0, tp, *tree);
        }
        out.push(c);
        i = i + 1;
    }
    proof {
        if lit_vec(*v, 0) {
            lemma_sfold_vec_split(*v, v@.len() as int, location);
            let pre = sfold_vec_upto(*v, v@.len() as int, location)->Ok_0;
            assert(pre + Seq::<ConstantV>::empty() =~= pre);
        }
    }
    Ok(out)
}

/// Reduces a prefab literal: the path is kept, each override value is folded
/// with no type hint.
#[verifier::loop_isolation(false)]
fn fold_prefab(
    tree: &mut ObjectTree,
    ty: usize,
    location: Location,
    diags: &mut Vec<Diagnostic>,
    p: &Prefab<Expression>,
) -> (r: Result<Prefab<Constant>, Diagnostic>)
    requires
        tree_wf(*old(tree)),
        ty < old(tree).nodes@.len(),
    ensures
        tree_wf(*final(tree)),
        tree_evolves(*old(tree), *final(tree)),
        nonconst_frame(*old(tree), *final(tree)),
        crate::diag::diags_extend(old(diags)@, final(diags)@),
        crate::diag::warnings_only(old(diags)@, final(diags)@),
        r matches Ok(q) ==> path_eq(q.path, p.path) && q.vars@.len() == p.vars@.len(),
        lit_pairs(p.vars, 0) ==> *final(tree) == *old(tree) && final(diags)@ == old(diags)@ && (
        match (r, sfold_pairs(p.vars, 0, location)) {
            (Ok(q), Ok(vs)) => path_view(q.path) == path_view(p.path) && pairs_match_v(
                q.vars,
                vs,
            ),
            (Err(d), Err(dv)) => d == dv,
            _ => false,
        }),
    decreases tree_busy(*old(tree)), prefab_size(*p), 3nat,
{
    let ghost t0 = *tree;
    let mut vars: Vec<(String, Constant)> = Vec::new();
    let mut i: usize = 0;
    while i < p.vars.len()
        invariant
            i <= p.vars@.len(),
            vars@.len() == i,
            tree_wf(*tree),
            tree_evolves(t0, *tree),
                    nonconst_frame(t0, *tree),
            crate::diag::diags_extend(old(diags)@, diags@),
                    crate::diag::warnings_only(old(diags)@, diags@),
            lit_pairs(p.vars, 0) ==> *tree == t0 && diags@ == old(diags)@ && (sfold_pairs_upto(
                p.vars,
                i as int,
                location,
            ) matches Ok(pre) && pre.len() == i && (forall|j: int|
                0 <= j < i ==> (#[trigger] vars@[j]).0@ == pre[j].0 && matches_v(
                    vars@[j].1,
                    pre[j].1,
                ))),
        decreases p.vars@.len() - i,
    {
        proof {
            lemma_evolves_busy_le(t0, *tree);
            lemma_pairs_size_elem(p.vars, 0, i as int);
            if lit_pairs(p.vars, 0) {
                lemma_lit_pairs_elem(p.vars, 0, i as int);
            }
        }
        let ghost tp = *tree;
        let c = match fold_expr(tree, ty, location, diags, &p.vars[i].1, None) {
            Ok(c) => c,
            Err(d) => {
                proof {
                    lemma_step_trans(t0, tp, *tree);
                    if lit_pairs(p.vars, 0) {
                        lemma_sfold_pairs_split(p.vars, i as int + 1, location);
                    }
                }
                return Err(d);
            },
        };
        proof {
            lemma_step_trans(t0, tp, *tree);
        }
        let name = p.vars[i].0.clone();
        vars.push((name, c));
        i = i + 1;
    }
    let path = dup_path(&p.path);
    proof {
        lemma_path_view_eq(path, p.path);
        if lit_pairs(p.vars, 0) {
            lemma_sfold_pairs_split(p.vars, p.vars@.len() as int, location);
            let pre = sfold_pairs_upto(p.vars, p.vars@.len() as int, location)->Ok_0;
            assert(pre + Seq::<(Seq<char>, ConstantV)>::empty() =~= pre);
        }
    }
    Ok(Prefab { path, vars })
}

/// Folds an identifier term: the literal `null` stays null with its hint;
/// anything else resolves along the parent chain.
fn fold_ident(
    tree: &mut ObjectTree,
    ty: usize,
    location: Location,
    diags: &mut Vec<Diagnostic>,
    name: &String,
    type_hint: Option<&TypePath>,
    must_be_static: bool,
) -> (r: Result<Constant, Diagnostic>)
    requires
        tree_wf(*old(tree)),
        ty < old(tree).nodes@.len(),
    ensures
        tree_wf(*final(tree)),
        tree_evolves(*old(tree), *final(tree)),
        nonconst_frame(*old(tree), *final(tree)),
        crate::diag::diags_extend(old(diags)@, final(diags)@),
        crate::diag::warnings_only(old(diags)@, final(diags)@),
        name@ == "null"@ ==> *final(tree) == *old(tree) && final(diags)@ == old(diags)@ && (
        r matches Ok(v) && (v matches Constant::Null(op) && hint_matches(op, type_hint)
            && opt_path_view(op) == hint_view(type_hint))),
        name@ != "null"@ ==> chain_lookup_claim(
            *old(tree),
            *final(tree),
            ty as int,
            location,
            name@,
            must_be_static,
            r,
        ),
    decreases tree_busy(*old(tree)), 0nat, 2nat,
{
    if *name == String::from_str("null") {
        proof {
            lemma_evolves_refl(*tree);
        }
        Ok(Constant::Null(dup_opt_path(type_hint)))
    } else {
        recursive_lookup(tree, ty, location, name.as_str(), must_be_static, diags)
    }
}

/// What one follower application returns: only a field access on a null that
/// carries a type hint is constant-foldable; it resolves the field as a
/// class-wide constant of a class at the joined path. Everything else is a
/// non-constant follower, and an absent class an unknown type path.
pub open spec fn followed_claim(
    t0: ObjectTree,
    t1: ObjectTree,
    location: Location,
    value: Constant,
    f: Follow,
    r: Result<Constant, Diagnostic>,
) -> bool {
    match (value, f) {
        (Constant::Null(op), Follow::Field(field)) => match op {
            Some(hintp) => {
                let joined = path_text_upto(hintp, hintp@.len() as int);
                &&& ((forall|i: int|
                    0 <= i < t0.nodes@.len() ==> (#[trigger] t0.nodes@[i]).path@ != joined) ==> (
                r matches Err(d) && d.location == location && (d.kind matches
                DiagKind::UnknownTypepath(p) && p@ == joined)) && t1 == t0)
                &&& ((exists|i: int|
                    0 <= i < t0.nodes@.len() && (#[trigger] t0.nodes@[i]).path@ == joined)
                    ==> exists|i: int|
                    0 <= i < t0.nodes@.len() && (#[trigger] t0.nodes@[i]).path@ == joined
                        && chain_lookup_claim(t0, t1, i, location, field@, true, r))
            },
            None => (r matches Err(d) && d.location == location && (d.kind matches
                DiagKind::NonConstantExpressionFollower(k, fk) && k == const_kind(value) && fk
                == follow_kind(f))) && t1 == t0,
        },
        (v, fl) => (r matches Err(d) && d.location == location && (d.kind matches
            DiagKind::NonConstantExpressionFollower(k, fk) && k == const_kind(v) && fk
            == follow_kind(fl))) && t1 == t0,
    }
}

/// Applies one follower to a reduced value. The one constant-foldable form is
/// a field access on a null carrying a type hint, which resolves the field as
/// a class-wide constant of the named class.
#[verifier::loop_isolation(false)]
fn fold_follow(
    tree: &mut ObjectTree,
    location: Location,
    diags: &mut Vec<Diagnostic>,
    value: Constant,
    f: &Follow,
) -> (r: Result<Constant, Diagnostic>)
    requires
        tree_wf(*old(tree)),
    ensures
        tree_wf(*final(tree)),
        tree_evolves(*old(tree), *final(tree)),
        nonconst_frame(*old(tree), *final(tree)),
        crate::diag::diags_extend(old(diags)@, final(diags)@),
        crate::diag::warnings_only(old(diags)@, final(diags)@),
        followed_claim(*old(tree), *final(tree), location, value, *f, r),
    decreases tree_busy(*old(tree)), follow_size(*f), 3nat,
{
    let ghost t0 = *tree;
    match (value, f) {
        (Constant::Null(Some(type_hint)), Follow::Field(field_name)) => {
            let mut full_path = String::new();
            let mut i: usize = 0;
            while i < type_hint.len()
                invariant
                    i <= type_hint@.len(),
                    full_path@ == path_text_upto(type_hint, i as int),
                decreases type_hint@.len() - i,
            {
                full_path.append("/");
                full_path.append(type_hint[i].name.as_str());
                proof {
                    reveal_strlit("/");
                    assert(full_path@ =~= path_text_upto(type_hint, i as int + 1));
                }
                i = i + 1;
            }
            match tree.node_by_path(full_path.as_str()) {
                Some(idx) => {
                    let r2 = recursive_lookup(tree, idx, location, field_name.as_str(), true, diags);
                    proof {
                        let joined = path_text_upto(type_hint, type_hint@.len() as int);
                        assert(idx as int >= 0 && (idx as int) < t0.nodes@.len() && t0.nodes@[
                            idx as int].path@ == joined && chain_lookup_claim(
                            t0,
                            *tree,
                            idx as int,
                            location,
                            field_name@,
                            true,
                            r2,
                        ));
                    }
                    r2
                },
                None => {
                    proof {
                        lemma_evolves_refl(*tree);
                    }
                    Err(Diagnostic { location, kind: DiagKind::UnknownTypepath(full_path) })
                },
            }
        },
        (v, fl) => {
            proof {
                lemma_evolves_refl(*tree);
            }
            Err(
                Diagnostic {
                    location,
                    kind: DiagKind::NonConstantExpressionFollower(kind_of(&v), kind_of_follow(fl)),
                },
            )
        },
    }
}

/// Reduces an `rgb()` call to its hexadecimal colour string: three or four
/// integer components, each clamped to a byte and written as two hex digits.
#[verifier::loop_isolation(false)]
fn fold_rgb(
    tree: &mut ObjectTree,
    ty: usize,
    location: Location,
    diags: &mut Vec<Diagnostic>,
    args: &Vec<Expression>,
) -> (r: Result<Constant, Diagnostic>)
    requires
        tree_wf(*old(tree)),
        ty < old(tree).nodes@.len(),
    ensures
        tree_wf(*final(tree)),
        tree_evolves(*old(tree), *final(tree)),
        nonconst_frame(*old(tree), *final(tree)),
        crate::diag::diags_extend(old(diags)@, final(diags)@),
        crate::diag::warnings_only(old(diags)@, final(diags)@),
        r matches Ok(c) ==> c matches Constant::String(s) && s@.len() == 1 + 2 * args@.len() && s@[0]
            == '#',
        lit_vec(*args, 0) ==> *final(tree) == *old(tree) && final(diags)@ == old(diags)@ && ({
            if args@.len() != 3 && args@.len() != 4 {
                r == Err::<Constant, Diagnostic>(
                    Diagnostic { location, kind: DiagKind::MalformedRgbCall },
                )
            } else {
                match srgb_digits(*args, 0, location) {
                    Err(d) => r == Err::<Constant, Diagnostic>(d),
                    Ok(digits) => r matches Ok(c) && (c matches Constant::String(s) && s@ == seq![
                        '#',
                    ] + digits),
                }
            }
        }),
    decreases tree_busy(*old(tree)), exprs_size_from(*args, 0), 3nat,
{
    let ghost t0 = *tree;
    if args.len() != 3 && args.len() != 4 {
        proof {
            lemma_evolves_refl(*tree);
        }
        return Err(Diagnostic { location, kind: DiagKind::MalformedRgbCall });
    }
    let mut out = String::from_str("#");
    proof {
        reveal_strlit("#");
        assert(out@ =~= seq!['#'] + Seq::<char>::empty());
    }
    let mut i: usize = 0;
    while i < args.len()
        invariant
            i <= args@.len(),
            out@.len() == 1 + 2 * i,
            out@[0] == '#',
            tree_wf(*tree),
            tree_evolves(t0, *tree),
                    nonconst_frame(t0, *tree),
            crate::diag::diags_extend(old(diags)@, diags@),
                    crate::diag::warnings_only(old(diags)@, diags@),
            lit_vec(*args, 0) ==> *tree == t0 && diags@ == old(diags)@ && (srgb_upto(
                *args,
                i as int,
                location,
            ) matches Ok(pre) && out@ == seq!['#'] + pre),
        decreases args@.len() - i,
    {
        proof {
            lemma_evolves_busy_le(t0, *tree);
            lemma_exprs_size_elem(*args, 0, i as int);
            if lit_vec(*args, 0) {
                lemma_lit_vec_elem(*args, 0, i as int);
            }
        }
        let ghost tp = *tree;
        let c = match fold_expr(tree, ty, location, diags, &args[i], None) {
            Ok(c) => c,
            Err(d) => {
                proof {
                    lemma_step_trans(t0, tp, *tree);
                    if lit_vec(*args, 0) {
                        lemma_srgb_split(*args, i as int + 1, location);
                    }
                }
                return Err(d);
            },
        };
        proof {
            lemma_step_trans(t0, tp, *tree);
        }
        match c {
            Constant::Int(x) => {
                push_rgb_component(&mut out, x);
                proof {
                    if lit_vec(*args, 0) {
                        let pre = srgb_upto(*args, i as int, location)->Ok_0;
                        assert(srgb_upto(*args, i as int + 1, location) == Ok::<
                            Seq<char>,
                            Diagnostic,
                        >(pre + hex_byte(clamp255(x))));
                        assert(out@ =~= seq!['#'] + (pre + hex_byte(clamp255(x))));
                    }
                }
            },
            _ => {
                proof {
                    if lit_vec(*args, 0) {
                        lemma_srgb_split(*args, i as int + 1, location);
                    }
                }
                return Err(Diagnostic { location, kind: DiagKind::MalformedRgbCall });
            },
        }
        i = i + 1;
    }
    proof {
        if lit_vec(*args, 0) {
            lemma_srgb_split(*args, args@.len() as int, location);
            let pre = srgb_upto(*args, args@.len() as int, location)->Ok_0;
            assert(pre + Seq::<char>::empty() =~= pre);
        }
    }
    Ok(Constant::String(out))
}

/// What `fold_expr` promises of a bare term: with no unary operators and no
/// followers, the expression folds exactly as its term does, hint included.
pub open spec fn folded_base_claim(
    e: Expression,
    location: Location,
    type_hint: Option<&TypePath>,
    r: Result<Constant, Diagnostic>,
) -> bool {
    match e {
        Expression::Base { unary, term, follow } => (unary@.len() == 0 && follow@.len() == 0)
            ==> folded_term_claim(*term, location, type_hint, r),
        _ => true,
    }
}

/// What `fold_term` promises for each term shape.
pub open spec fn folded_term_claim(
    t: Term,
    location: Location,
    type_hint: Option<&TypePath>,
    r: Result<Constant, Diagnostic>,
) -> bool {
    match t {
        Term::Null => r matches Ok(v) && (v matches Constant::Null(op) && hint_matches(
            op,
            type_hint,
        )),
        Term::Int(i) => r == Ok::<Constant, Diagnostic>(Constant::Int(i)),
        Term::Float(b) => r == Ok::<Constant, Diagnostic>(Constant::Float(b)),
        Term::String(s) => r matches Ok(v) && (v matches Constant::String(x) && x@ == s@),
        Term::Resource(s) => r matches Ok(v) && (v matches Constant::Resource(x) && x@ == s@),
        Term::List(elems) => r matches Ok(v) ==> v matches Constant::List(out) && out@.len()
            == elems@.len(),
        Term::New { type_, args } => {
            &&& (type_ matches NewType::Ident(_) ==> (r matches Err(d) && d.location == location
                && d.kind matches DiagKind::NonConstantNewExpression))
            &&& (r matches Ok(v) ==> v matches Constant::New { type_: t2, args: a2 })
        },
        Term::Call(name, args) => {
            &&& (name@ == "matrix"@ ==> (r matches Ok(v) ==> v matches Constant::Call(f, out) && f
                == ConstFn::Matrix && out@.len() == args@.len()))
            &&& (name@ == "newlist"@ ==> (r matches Ok(v) ==> v matches Constant::Call(f, out) && f
                == ConstFn::Newlist && out@.len() == args@.len()))
            &&& (name@ == "icon"@ ==> (r matches Ok(v) ==> v matches Constant::Call(f, out) && f
                == ConstFn::Icon && out@.len() == args@.len()))
            &&& (name@ == "rgb"@ ==> (r matches Ok(v) ==> v matches Constant::String(s) && s@.len()
                == 1 + 2 * args@.len() && s@[0] == '#'))
            &&& (name@ != "matrix"@ && name@ != "newlist"@ && name@ != "icon"@ && name@ != "rgb"@
                ==> (r matches Err(d) && d.location == location && (d.kind matches
            DiagKind::NonConstantFunctionCall(n) && n@ == name@)))
        },
        _ => true,
    }
}

/// Reduces a single term.
#[verifier::loop_isolation(false)]
fn fold_term(
    tree: &mut ObjectTree,
    ty: usize,
    location: Location,
    diags: &mut Vec<Diagnostic>,
    t: &Term,
    type_hint: Option<&TypePath>,
) -> (r: Result<Constant, Diagnostic>)
    requires
        tree_wf(*old(tree)),
        ty < old(tree).nodes@.len(),
    ensures
        tree_wf(*final(tree)),
        tree_evolves(*old(tree), *final(tree)),
        nonconst_frame(*old(tree), *final(tree)),
        crate::diag::diags_extend(old(diags)@, final(diags)@),
        crate::diag::warnings_only(old(diags)@, final(diags)@),
        folded_term_claim(*t, location, type_hint, r),
        lit_term(*t) ==> *final(tree) == *old(tree) && final(diags)@ == old(diags)@ && res_matches(
            r,
            sfold_term(*t, hint_view(type_hint), location),
        ),
        t matches Term::Ident(n) ==> (n@ != "null"@ ==> chain_lookup_claim(
            *old(tree),
            *final(tree),
            ty as int,
            location,
            n@,
            false,
            r,
        )),
    decreases tree_busy(*old(tree)), term_size(*t), 3nat,
{
    let ghost t0 = *tree;
    match t {
        Term::Null => {
            proof {
                lemma_evolves_refl(*tree);
            }
            Ok(Constant::Null(dup_opt_path(type_hint)))
        },
        Term::Int(i) => {
            proof {
                lemma_evolves_refl(*tree);
            }
            Ok(Constant::Int(*i))
        },
        Term::Float(b) => {
            proof {
                lemma_evolves_refl(*tree);
            }
            Ok(Constant::Float(*b))
        },
        Term::String(s) => {
            proof {
                lemma_evolves_refl(*tree);
            }
            Ok(Constant::String(s.clone()))
        },
        Term::Resource(s) => {
            proof {
                lemma_evolves_refl(*tree);
            }
            Ok(Constant::Resource(s.clone()))
        },
        Term::Ident(name) => fold_ident(tree, ty, location, diags, name, type_hint, false),
        Term::Expr(inner) => fold_expr(tree, ty, location, diags, inner, type_hint),
        Term::Prefab(p) => {
            let q = match fold_prefab(tree, ty, location, diags, p) {
                Ok(q) => q,
                Err(d) => {
                    return Err(d);
                },
            };
            let folded = Ok(Constant::Prefab(q));
            proof {
                if lit_term(*t) {
                    assert(res_matches(folded, sfold_term(*t, hint_view(type_hint), location)));
                }
            }
            folded
        },
        Term::New { type_, args } => {
            let folded_type: NewType<Constant> = match type_ {
                NewType::Implicit => NewType::Implicit,
                NewType::Prefab(p) => {
                    let q = match fold_prefab(tree, ty, location, diags, p) {
                        Ok(q) => q,
                        Err(d) => {
                            return Err(d);
                        },
                    };
                    NewType::Prefab(q)
                },
                NewType::Ident(_) => {
                    proof {
                        lemma_evolves_refl(*tree);
                    }
                    return Err(
                        Diagnostic { location, kind: DiagKind::NonConstantNewExpression },
                    );
                },
            };
            let ghost tp = *tree;
            proof {
                lemma_evolves_busy_le(t0, *tree);
            }
            let folded_args: Option<Vec<Constant>> = match args {
                Some(v) => {
                    match fold_expr_vec(tree, ty, location, diags, v) {
                        Ok(out) => Some(out),
                        Err(d) => {
                            proof {
                                lemma_step_trans(t0, tp, *tree);
                            }
                            return Err(d);
                        },
                    }
                },
                None => None,
            };
            proof {
                lemma_step_trans(t0, tp, *tree);
            }
            let ghost ga = folded_args;
            let ghost gt = folded_type;
            let folded = Ok(Constant::New { type_: folded_type, args: folded_args });
            proof {
                if lit_term(*t) {
                    match type_ {
                        NewType::Implicit => {
                            assert(newtype_match_v(gt, NewTypeV::ImplicitV));
                        },
                        NewType::Prefab(p) => {
                            let vs = sfold_pairs(p.vars, 0, location)->Ok_0;
                            assert(newtype_match_v(
                                gt,
                                NewTypeV::PrefabTV { path: path_view(p.path), vars: vs },
                            ));
                        },
                        NewType::Ident(_) => {},
                    }
                    match (args, ga) {
                        (Some(v), Some(out)) => {
                            assert(sfold_vec(*v, 0, location) matches Ok(sv) && args_match_v(
                                out,
                                sv,
                            ));
                        },
                        _ => {},
                    }
                    assert(res_matches(folded, sfold_term(*t, hint_view(type_hint), location)));
                }
            }
            folded
        },
        Term::Call(name, args) => {
            proof {
                reveal_strlit("matrix");
                reveal_strlit("newlist");
                reveal_strlit("icon");
                reveal_strlit("rgb");
                assert("matrix"@.len() == 6);
                assert("newlist"@.len() == 7);
                assert("icon"@.len() == 4);
                assert("rgb"@.len() == 3);
            }
            if *name == String::from_str("matrix") {
                let out = match fold_expr_vec(tree, ty, location, diags, args) {
                    Ok(out) => out,
                    Err(d) => {
                        return Err(d);
                    },
                };
                let folded = Ok(Constant::Call(ConstFn::Matrix, out));
                proof {
                    if lit_term(*t) {
                        assert(res_matches(folded, sfold_term(*t, hint_view(type_hint), location)));
                    }
                }
                folded
            } else if *name == String::from_str("newlist") {
                let out = match fold_expr_vec(tree, ty, location, diags, args) {
                    Ok(out) => out,
                    Err(d) => {
                        return Err(d);
                    },
                };
                let folded = Ok(Constant::Call(ConstFn::Newlist, out));
                proof {
                    if lit_term(*t) {
                        assert(res_matches(folded, sfold_term(*t, hint_view(type_hint), location)));
                    }
                }
                folded
            } else if *name == String::from_str("icon") {
                let out = match fold_expr_vec(tree, ty, location, diags, args) {
                    Ok(out) => out,
                    Err(d) => {
                        return Err(d);
                    },
                };
                let folded = Ok(Constant::Call(ConstFn::Icon, out));
                proof {
                    if lit_term(*t) {
                        assert(res_matches(folded, sfold_term(*t, hint_view(type_hint), location)));
                    }
                }
                folded
            } else if *name == String::from_str("rgb") {
                fold_rgb(tree, ty, location, diags, args)
            } else {
                proof {
                    lemma_evolves_refl(*tree);
                }
                Err(
                    Diagnostic {
                        location,
                        kind: DiagKind::NonConstantFunctionCall(name.clone()),
                    },
                )
            }
        },
        Term::List(elems) => {
            let elem_hint: Option<TypePath> = match type_hint {
                Some(path) => {
                    if path.len() > 0 && path[0].name == String::from_str("list") {
                        let mut rest: TypePath = Vec::new();
                        let mut k: usize = 1;
                        while k < path.len()
                            invariant
                                1 <= k <= path@.len(),
                                rest@.len() == k - 1,
                                forall|j: int|
                                    0 <= j < k - 1 ==> (#[trigger] rest@[j]).op == path@[j + 1].op
                                        && rest@[j].name@ == path@[j + 1].name@,
                            decreases path@.len() - k,
                        {
                            let seg = crate::ast::PathSegment {
                                op: path[k].op,
                                name: path[k].name.clone(),
                            };
                            rest.push(seg);
                            k = k + 1;
                        }
                        proof {
                            assert(path_view(rest) =~= path_view(*path).subrange(
                                1,
                                path@.len() as int,
                            ));
                        }
                        Some(rest)
                    } else {
                        None
                    }
                },
                None => None,
            };
            let hint_ref: Option<&TypePath> = elem_hint.as_ref();
            let ghost ehv = elem_hint_view(hint_view(type_hint));
            proof {
                assert(hint_view(hint_ref) == ehv);
            }
            let mut out: Vec<(Constant, Option<Constant>)> = Vec::new();
            let mut i: usize = 0;
            while i < elems.len()
                invariant
                    i <= elems@.len(),
                    out@.len() == i,
                    tree_wf(*tree),
                    tree_evolves(t0, *tree),
                    nonconst_frame(t0, *tree),
                    crate::diag::diags_extend(old(diags)@, diags@),
                    crate::diag::warnings_only(old(diags)@, diags@),
                    hint_view(hint_ref) == ehv,
                    lit_elems(*elems, 0) ==> *tree == t0 && diags@ == old(diags)@ && (
                    sfold_elems_upto(*elems, i as int, ehv, location) matches Ok(pre) && pre.len()
                        == i && (forall|j: int|
                        0 <= j < i ==> matches_v((#[trigger] out@[j]).0, pre[j].0) && (match (
                            out@[j].1,
                            pre[j].1,
                        ) {
                            (None, None) => true,
                            (Some(x), Some(y)) => matches_v(x, y),
                            _ => false,
                        }))),
                decreases elems@.len() - i,
            {
                proof {
                    lemma_evolves_busy_le(t0, *tree);
                    lemma_elems_size_elem(*elems, 0, i as int);
                    if lit_elems(*elems, 0) {
                        lemma_lit_elems_elem(*elems, 0, i as int);
                    }
                }
                let ghost tp = *tree;
                match &elems[i].1 {
                    Some(val) => {
                        let key_c = match as_bare_ident(&elems[i].0) {
                            Some(n) => {
                                diags.push(
                                    Diagnostic {
                                        location,
                                        kind: DiagKind::IdentUsedAsListKey(n.clone()),
                                    },
                                );
                                Constant::String(n.clone())
                            },
                            None => {
                                match fold_expr(tree, ty, location, diags, &elems[i].0, hint_ref) {
                                    Ok(c) => c,
                                    Err(d) => {
                                        proof {
                                            lemma_step_trans(t0, tp, *tree);
                                            if lit_elems(*elems, 0) {
                                                lemma_sfold_elems_split(
                                                    *elems,
                                                    i as int + 1,
                                                    ehv,
                                                    location,
                                                );
                                            }
                                        }
                                        return Err(d);
                                    },
                                }
                            },
                        };
                        let ghost tq = *tree;
                        proof {
                            lemma_step_trans(t0, tp, *tree);
                            lemma_evolves_busy_le(t0, *tree);
                        }
                        let val_c = match fold_expr(tree, ty, location, diags, val, hint_ref) {
                            Ok(c) => c,
                            Err(d) => {
                                proof {
                                    lemma_step_trans(t0, tq, *tree);
                                    if lit_elems(*elems, 0) {
                                        lemma_sfold_elems_split(*elems, i as int + 1, ehv, location);
                                    }
                                }
                                return Err(d);
                            },
                        };
                        proof {
                            lemma_step_trans(t0, tq, *tree);
                        }
                        out.push((key_c, Some(val_c)));
                    },
                    None => {
                        let key_c = match fold_expr(tree, ty, location, diags, &elems[i].0, hint_ref) {
                            Ok(c) => c,
                            Err(d) => {
                                proof {
                                    lemma_step_trans(t0, tp, *tree);
                                    if lit_elems(*elems, 0) {
                                        lemma_sfold_elems_split(*elems, i as int + 1, ehv, location);
                                    }
                                }
                                return Err(d);
                            },
                        };
                        proof {
                            lemma_step_trans(t0, tp, *tree);
                        }
                        out.push((key_c, None));
                    },
                }
                i = i + 1;
            }
            proof {
                if lit_elems(*elems, 0) {
                    lemma_sfold_elems_split(*elems, elems@.len() as int, ehv, location);
                    let pre = sfold_elems_upto(*elems, elems@.len() as int, ehv, location)->Ok_0;
                    assert(pre + Seq::<(ConstantV, Option<ConstantV>)>::empty() =~= pre);
                }
            }
            Ok(Constant::List(out))
        },
    }
}

} // verus!

verus! {

/// Whether the variable at `(ci, vi)` is declared constant-evaluable.
pub open spec fn const_evaluable_at(t: ObjectTree, ci: int, vi: int) -> bool {
    match decl_search(t.nodes@, ci, t.nodes@[ci].vars@[vi].0@) {
        Some(d) => d.is_const_evaluable,
        None => false,
    }
}

/// Whether the slot at `(ci, vi)` holds a reduced value.
pub open spec fn var_reduced(t: ObjectTree, ci: int, vi: int) -> bool {
    slot_at(t, ci, vi).constant is Some
}

/// A constant-evaluable slot that is still quiescent and whose initializer,
/// if any, is tree-independent.
pub open spec fn lit_slot(t: ObjectTree, ci: int, vi: int) -> bool {
    let slot = slot_at(t, ci, vi);
    &&& !slot.being_evaluated
    &&& slot.constant is None
    &&& (slot.expression matches Some(e) ==> lit_expr(e))
}

/// A tree whose constant-evaluable variables all have tree-independent
/// initializers and are not yet reduced.
pub open spec fn all_lit_consts(t: ObjectTree) -> bool {
    forall|ci: int, vi: int|
        0 <= ci < t.nodes@.len() && 0 <= vi < t.nodes@[ci].vars@.len() && #[trigger] const_evaluable_at(
            t,
            ci,
            vi,
        ) ==> lit_slot(t, ci, vi)
}

/// The phase's outcome for one tree-independent variable: a missing
/// initializer reduces to the declaration-typed null; otherwise the slot ends
/// with the spec-level fold's value, or stays unreduced with the fold's own
/// diagnostic recorded.
pub open spec fn lit_outcome(
    t0: ObjectTree,
    t1: ObjectTree,
    diags: Seq<Diagnostic>,
    ci: int,
    vi: int,
) -> bool {
    let slot = slot_at(t0, ci, vi);
    let name = t0.nodes@[ci].vars@[vi].0@;
    let sd = decl_search(t0.nodes@, ci, name)->Some_0;
    let hint0: Option<Seq<(PathOp, Seq<char>)>> = if sd.type_path@.len() == 0 {
        None
    } else {
        Some(path_view(sd.type_path))
    };
    match slot.expression {
        None => slot_at(t1, ci, vi).constant matches Some(c) && (c matches Constant::Null(op) && (
        op matches Some(p) && path_eq(p, sd.type_path))),
        Some(e) => match sfold_expr(e, hint0, slot.location) {
            Ok(sv) => slot_at(t1, ci, vi).constant matches Some(c) && matches_v(c, sv),
            Err(d) => slot_at(t1, ci, vi).constant is None && diags.contains(d),
        },
    }
}

/// What the sink once recorded it keeps.
pub proof fn lemma_extend_contains(a: Seq<Diagnostic>, b: Seq<Diagnostic>, x: Diagnostic)
    requires
        crate::diag::diags_extend(a, b),
        a.contains(x),
    ensures
        b.contains(x),
{
    let i = choose|i: int| 0 <= i < a.len() && a[i] == x;
    assert(b[i] == x);
}

/// Whether every constant-evaluable variable of the tree is reduced.
pub open spec fn all_consts_reduced(t: ObjectTree) -> bool {
    forall|ci: int, vi: int|
        0 <= ci < t.nodes@.len() && 0 <= vi < t.nodes@[ci].vars@.len() && #[trigger] const_evaluable_at(
            t,
            ci,
            vi,
        ) ==> var_reduced(t, ci, vi)
}

proof fn lemma_find_var_self_from(vars: Seq<(String, VarSlot)>, vi: int, k: int)
    requires
        0 <= k <= vi < vars.len(),
        forall|j1: int, j2: int|
            0 <= j1 < vars.len() && 0 <= j2 < vars.len() && j1 != j2 ==> (#[trigger] vars[j1]).0@
                != (#[trigger] vars[j2]).0@,
    ensures
        crate::objtree::find_var_from(vars, vars[vi].0@, k) == Some(vi),
    decreases vi - k,
{
    if k < vi {
        assert(vars[k].0@ != vars[vi].0@);
        lemma_find_var_self_from(vars, vi, k + 1);
    }
}

/// The folder's driver: walks every class and every variable, asks the
/// resolver to reduce each one declared constant-evaluable, and records every
/// diagnostic without aborting the phase. A tree whose constants are all
/// already reduced is left untouched; if no diagnostic is recorded, every
/// constant-evaluable variable ends up reduced.
#[verifier::loop_isolation(false)]
pub fn evaluate_all(tree: &mut ObjectTree) -> (diags: Vec<Diagnostic>)
    requires
        tree_wf(*old(tree)),
    ensures
        tree_wf(*final(tree)),
        tree_evolves(*old(tree), *final(tree)),
        nonconst_frame(*old(tree), *final(tree)),
        diags@.len() == 0 ==> forall|ci: int, vi: int|
            0 <= ci < old(tree).nodes@.len() && 0 <= vi < old(tree).nodes@[ci].vars@.len()
                && #[trigger] const_evaluable_at(*old(tree), ci, vi) ==> var_reduced(
                *final(tree),
                ci,
                vi,
            ),
        all_consts_reduced(*old(tree)) ==> *final(tree) == *old(tree) && diags@.len() == 0,
        all_lit_consts(*old(tree)) ==> forall|ci: int, vi: int|
            0 <= ci < old(tree).nodes@.len() && 0 <= vi < old(tree).nodes@[ci].vars@.len()
                && #[trigger] const_evaluable_at(*old(tree), ci, vi) ==> lit_outcome(
                *old(tree),
                *final(tree),
                diags@,
                ci,
                vi,
            ),
{
    let ghost t0 = *tree;
    let mut diags: Vec<Diagnostic> = Vec::new();
    let mut ci: usize = 0;
    while ci < tree.nodes.len()
        invariant
            ci <= tree.nodes@.len(),
            tree_wf(*tree),
            tree_evolves(t0, *tree),
                    nonconst_frame(t0, *tree),
            tree.nodes@.len() == t0.nodes@.len(),
            diags@.len() == 0 ==> forall|cj: int, vj: int|
                0 <= cj < ci && 0 <= vj < t0.nodes@[cj].vars@.len() && #[trigger] const_evaluable_at(
                    t0,
                    cj,
                    vj,
                ) ==> var_reduced(*tree, cj, vj),
            all_consts_reduced(t0) ==> *tree == t0 && diags@.len() == 0,
            all_lit_consts(t0) ==> forall|cj: int, vj: int|
                0 <= cj < t0.nodes@.len() && 0 <= vj < t0.nodes@[cj].vars@.len() && cj < ci
                    && #[trigger] const_evaluable_at(t0, cj, vj) ==> lit_outcome(
                    t0,
                    *tree,
                    diags@,
                    cj,
                    vj,
                ),
            all_lit_consts(t0) ==> forall|cj: int, vj: int|
                0 <= cj < t0.nodes@.len() && 0 <= vj < t0.nodes@[cj].vars@.len() && !(cj < ci)
                    && #[trigger] const_evaluable_at(t0, cj, vj) ==> slot_at(*tree, cj, vj)
                    == slot_at(t0, cj, vj),
        decreases tree.nodes@.len() - ci,
    {
        let mut vi: usize = 0;
        while vi < tree.nodes[ci].vars.len()
            invariant
                ci < tree.nodes@.len(),
                vi <= tree.nodes@[ci as int].vars@.len(),
                tree_wf(*tree),
                tree_evolves(t0, *tree),
                    nonconst_frame(t0, *tree),
                tree.nodes@.len() == t0.nodes@.len(),
                diags@.len() == 0 ==> forall|cj: int, vj: int|
                    0 <= cj < t0.nodes@.len() && 0 <= vj < t0.nodes@[cj].vars@.len() && (cj < ci
                        || (cj == ci && vj < vi)) && #[trigger] const_evaluable_at(t0, cj, vj)
                        ==> var_reduced(*tree, cj, vj),
                all_consts_reduced(t0) ==> *tree == t0 && diags@.len() == 0,
                all_lit_consts(t0) ==> forall|cj: int, vj: int|
                    0 <= cj < t0.nodes@.len() && 0 <= vj < t0.nodes@[cj].vars@.len() && (cj < ci
                        || (cj == ci && vj < vi)) && #[trigger] const_evaluable_at(t0, cj, vj)
                        ==> lit_outcome(t0, *tree, diags@, cj, vj),
                all_lit_consts(t0) ==> forall|cj: int, vj: int|
                    0 <= cj < t0.nodes@.len() && 0 <= vj < t0.nodes@[cj].vars@.len() && !(cj < ci
                        || (cj == ci && vj < vi)) && #[trigger] const_evaluable_at(t0, cj, vj)
                        ==> slot_at(*tree, cj, vj) == slot_at(t0, cj, vj),
            decreases tree.nodes@[ci as int].vars@.len() - vi,
        {
            let name = tree.nodes[ci].vars[vi].0.clone();
            proof {
                assert(crate::objtree::class_frame(t0.nodes@[ci as int], tree.nodes@[ci as int]));
                assert(name@ == t0.nodes@[ci as int].vars@[vi as int].0@);
                lemma_decl_search_evolves(t0, *tree, ci as int, name@);
            }
            let d = tree.declaration_of(ci, name.as_str());
            let process = match &d {
                Some(dd) => dd.is_const_evaluable,
                None => false,
            };
            proof {
                assert(process == const_evaluable_at(t0, ci as int, vi as int));
            }
            if process {
                let ghost tp = *tree;
                let ghost dh = diags@;
                proof {
                    lemma_find_var_self_from(t0.nodes@[ci as int].vars@, vi as int, 0);
                    lemma_find_var_evolves(t0, *tree, ci as int, name@);
                    assert(find_var(tp.nodes@[ci as int], name@) == Some(vi as int));
                    if all_lit_consts(t0) {
                        assert(slot_at(tp, ci as int, vi as int) == slot_at(t0, ci as int, vi as int));
                        assert(lit_slot(t0, ci as int, vi as int));
                    }
                }
                let res = constant_ident_lookup(tree, ci, name.as_str(), false, &mut diags);
                proof {
                    lemma_step_trans(t0, tp, *tree);
                    lemma_decl_search_evolves(t0, tp, ci as int, name@);
                }
                match res {
                    Ok(ConstLookup::Found(_, fv)) => {
                        proof {
                            assert(var_reduced(*tree, ci as int, vi as int));
                            if all_lit_consts(t0) {
                                if slot_at(t0, ci as int, vi as int).expression is Some {
                                    assert(lookup_case(tp.nodes@, ci as int, name@, false)
                                        is Evaluate);
                                    let e0 = slot_at(t0, ci as int, vi as int).expression->Some_0;
                                    let sd = decl_search(t0.nodes@, ci as int, name@)->Some_0;
                                    let hint0: Option<Seq<(PathOp, Seq<char>)>> = if sd.type_path@.len() == 0 {
                                        None
                                    } else {
                                        Some(path_view(sd.type_path))
                                    };
                                    let sr = sfold_expr(e0, hint0, slot_at(t0, ci as int, vi as int).location);
                                    assert(sr matches Ok(sv) && matches_v(fv, sv));
                                    let c = slot_at(*tree, ci as int, vi as int).constant->Some_0;
                                    lemma_matches_respects_eq(c, fv, sr->Ok_0);
                                }
                                assert(lit_outcome(t0, *tree, diags@, ci as int, vi as int));
                            }
                        }
                    },
                    Ok(ConstLookup::Continue(_)) => {
                        proof {
                            assert(false);
                        }
                    },
                    Err(e) => {
                        proof {
                            if all_lit_consts(t0) {
                                assert(lookup_case(tp.nodes@, ci as int, name@, false) is Evaluate);
                            }
                        }
                        diags.push(e);
                        proof {
                            if all_lit_consts(t0) {
                                assert(diags@[diags@.len() - 1] == e);
                                assert(diags@.contains(e));
                                assert(lit_outcome(t0, *tree, diags@, ci as int, vi as int));
                            }
                        }
                    },
                }
                proof {
                    assert forall|cj: int, vj: int|
                        0 <= cj < t0.nodes@.len() && 0 <= vj < t0.nodes@[cj].vars@.len() && (cj
                            < ci || (cj == ci && vj <= vi)) && #[trigger] const_evaluable_at(
                            t0,
                            cj,
                            vj,
                        ) && diags@.len() == 0 implies var_reduced(*tree, cj, vj) by {
                        if !(cj == ci && vj == vi) {
                            assert(crate::objtree::class_frame(tp.nodes@[cj], tree.nodes@[cj]));
                        }
                    }
                    if all_lit_consts(t0) {
                        assert(changed_only(tp, *tree, ci as int, vi as int));
                        assert(crate::diag::diags_extend(dh, diags@));
                        assert forall|cj: int, vj: int|
                            0 <= cj < t0.nodes@.len() && 0 <= vj < t0.nodes@[cj].vars@.len() && (cj
                                < ci || (cj == ci && vj <= vi)) && #[trigger] const_evaluable_at(
                                t0,
                                cj,
                                vj,
                            ) implies lit_outcome(t0, *tree, diags@, cj, vj) by {
                            if !(cj == ci && vj == vi) {
                                assert(slot_at(*tree, cj, vj) == slot_at(tp, cj, vj));
                                let slot = slot_at(t0, cj, vj);
                                match slot.expression {
                                    Some(e0) => {
                                        let nm = t0.nodes@[cj].vars@[vj].0@;
                                        let sd = decl_search(t0.nodes@, cj, nm)->Some_0;
                                        let hint0: Option<Seq<(PathOp, Seq<char>)>> = if sd.type_path@.len() == 0 {
                                            None
                                        } else {
                                            Some(path_view(sd.type_path))
                                        };
                                        match sfold_expr(e0, hint0, slot.location) {
                                            Err(d) => {
                                                lemma_extend_contains(dh, diags@, d);
                                            },
                                            Ok(_) => {},
                                        }
                                    },
                                    None => {},
                                }
                            }
                        }
                        assert forall|cj: int, vj: int|
                            0 <= cj < t0.nodes@.len() && 0 <= vj < t0.nodes@[cj].vars@.len() && !(
                            cj < ci || (cj == ci && vj <= vi)) && #[trigger] const_evaluable_at(
                                t0,
                                cj,
                                vj,
                            ) implies slot_at(*tree, cj, vj) == slot_at(t0, cj, vj) by {
                            assert(slot_at(*tree, cj, vj) == slot_at(tp, cj, vj));
                        }
                    }
                }
            }
            vi = vi + 1;
        }
        ci = ci + 1;
    }
    diags
}

} // verus!

verus! {

/// Idempotence of the phase: a run that reported no diagnostic leaves every
/// constant-evaluable variable reduced, and `evaluate_all` promises of such a
/// tree that a further run returns it unchanged. Together with the frame
/// (`tree_evolves`), no slot ever leaves the reduced state.
pub proof fn lemma_clean_run_reduces_all(a: ObjectTree, b: ObjectTree)
    requires
        tree_evolves(a, b),
        forall|ci: int, vi: int|
            0 <= ci < a.nodes@.len() && 0 <= vi < a.nodes@[ci].vars@.len()
                && #[trigger] const_evaluable_at(a, ci, vi) ==> var_reduced(b, ci, vi),
    ensures
        all_consts_reduced(b),
{
    assert forall|ci: int, vi: int|
        0 <= ci < b.nodes@.len() && 0 <= vi < b.nodes@[ci].vars@.len()
            && #[trigger] const_evaluable_at(b, ci, vi) implies var_reduced(b, ci, vi) by {
        assert(crate::objtree::class_frame(a.nodes@[ci], b.nodes@[ci]));
        assert(b.nodes@[ci].vars@[vi].0 == a.nodes@[ci].vars@[vi].0);
        lemma_decl_search_evolves(a, b, ci, a.nodes@[ci].vars@[vi].0@);
        assert(const_evaluable_at(a, ci, vi));
    }
}

} // verus!

verus! {

/// A reduced value in ghost form: strings and paths as character data, so
/// that a spec-level fold can build results (executable strings cannot be
/// constructed in specifications).
pub enum ConstantV {
    NullV(Option<Seq<(PathOp, Seq<char>)>>),
    StrV(Seq<char>),
    ResV(Seq<char>),
    IntV(i32),
    FloatV(u32),
    ListV(Seq<(ConstantV, Option<ConstantV>)>),
    CallV(ConstFn, Seq<ConstantV>),
    PrefV { path: Seq<(PathOp, Seq<char>)>, vars: Seq<(Seq<char>, ConstantV)> },
    NewV { typ: NewTypeV, args: Option<Seq<ConstantV>> },
}

/// The type part of a ghost `new` literal.
pub enum NewTypeV {
    ImplicitV,
    PrefabTV { path: Seq<(PathOp, Seq<char>)>, vars: Seq<(Seq<char>, ConstantV)> },
}

/// A type path reduced to its character-level content.
pub open spec fn path_view(p: TypePath) -> Seq<(PathOp, Seq<char>)> {
    Seq::new(p@.len(), |i: int| (p@[i].op, p@[i].name@))
}

pub open spec fn hint_view(h: Option<&TypePath>) -> Option<Seq<(PathOp, Seq<char>)>> {
    match h {
        Some(p) => Some(path_view(*p)),
        None => None,
    }
}

pub open spec fn opt_path_view(o: Option<TypePath>) -> Option<Seq<(PathOp, Seq<char>)>> {
    match o {
        Some(p) => Some(path_view(p)),
        None => None,
    }
}

/// Whether a reduced constant carries exactly the ghost value.
pub open spec fn matches_v(c: Constant, v: ConstantV) -> bool
    decreases c, 0int,
{
    match (c, v) {
        (Constant::Null(op), ConstantV::NullV(ov)) => opt_path_view(op) == ov,
        (Constant::String(s), ConstantV::StrV(t)) => s@ == t,
        (Constant::Resource(s), ConstantV::ResV(t)) => s@ == t,
        (Constant::Int(i), ConstantV::IntV(j)) => i == j,
        (Constant::Float(a), ConstantV::FloatV(b)) => a == b,
        (Constant::List(elems), ConstantV::ListV(ev)) => elems@.len() == ev.len() && (forall|j: int|
            0 <= j < ev.len() ==> matches_v((#[trigger] elems@[j]).0, ev[j].0) && (match (
                elems@[j].1,
                ev[j].1,
            ) {
                (None, None) => true,
                (Some(x), Some(y)) => matches_v(x, y),
                _ => false,
            })),
        (Constant::Call(f, args), ConstantV::CallV(g, av)) => f == g && args_match_v(args, av),
        (Constant::Prefab(p), ConstantV::PrefV { path, vars }) => path_view(p.path) == path
            && pairs_match_v(p.vars, vars),
        (Constant::New { type_, args }, ConstantV::NewV { typ, args: av }) => newtype_match_v(
            type_,
            typ,
        ) && (match (args, av) {
            (None, None) => true,
            (Some(x), Some(y)) => args_match_v(x, y),
            _ => false,
        }),
        _ => false,
    }
}

/// Elementwise relation between folded arguments and their ghost values.
pub open spec fn args_match_v(a: Vec<Constant>, b: Seq<ConstantV>) -> bool
    decreases a, 0int,
{
    a@.len() == b.len() && forall|j: int| 0 <= j < b.len() ==> matches_v(#[trigger] a@[j], b[j])
}

/// Elementwise relation between folded overrides and their ghost values:
/// names kept character for character, values related.
pub open spec fn pairs_match_v(a: Vec<(String, Constant)>, b: Seq<(Seq<char>, ConstantV)>) -> bool
    decreases a, 0int,
{
    a@.len() == b.len() && forall|j: int|
        0 <= j < b.len() ==> (#[trigger] a@[j]).0@ == b[j].0 && matches_v(a@[j].1, b[j].1)
}

/// Relation between a folded `new` type and its ghost form.
pub open spec fn newtype_match_v(t: NewType<Constant>, v: NewTypeV) -> bool
    decreases t, 0int,
{
    match (t, v) {
        (NewType::Implicit, NewTypeV::ImplicitV) => true,
        (NewType::Prefab(p), NewTypeV::PrefabTV { path, vars }) => path_view(p.path) == path
            && pairs_match_v(p.vars, vars),
        _ => false,
    }
}

pub open spec fn kind_v(v: ConstantV) -> ConstKind {
    match v {
        ConstantV::NullV(_) => ConstKind::Null,
        ConstantV::StrV(_) => ConstKind::String,
        ConstantV::ResV(_) => ConstKind::Resource,
        ConstantV::IntV(_) => ConstKind::Int,
        ConstantV::FloatV(_) => ConstKind::Float,
        ConstantV::ListV(_) => ConstKind::List,
        ConstantV::CallV(_, _) => ConstKind::Call,
        ConstantV::PrefV { .. } => ConstKind::Prefab,
        ConstantV::NewV { .. } => ConstKind::New,
    }
}

pub open spec fn res_matches(r: Result<Constant, Diagnostic>, s: Result<ConstantV, Diagnostic>) -> bool {
    match (r, s) {
        (Ok(c), Ok(v)) => matches_v(c, v),
        (Err(d), Err(dv)) => d == dv,
        _ => false,
    }
}

/// The tree-independent expression fragment: literals, `null`, parenthesised
/// expressions and operator applications. Folding these reads and writes no
/// slot, so their reduction is a pure function that `sfold_expr` states.
pub open spec fn lit_expr(e: Expression) -> bool
    decreases e, 0int,
{
    match e {
        Expression::Base { unary, term, follow } => follow@.len() == 0 && lit_term(*term),
        Expression::BinaryOp { op, lhs, rhs } => lit_expr(*lhs) && lit_expr(*rhs),
        Expression::AssignOp { .. } => true,
    }
}

pub open spec fn lit_term(t: Term) -> bool
    decreases t, 0int,
{
    match t {
        Term::Null => true,
        Term::Int(_) => true,
        Term::Float(_) => true,
        Term::String(_) => true,
        Term::Resource(_) => true,
        Term::Ident(n) => n@ == "null"@,
        Term::Expr(inner) => lit_expr(*inner),
        Term::Call(name, args) => (name@ == "rgb"@ || name@ == "matrix"@ || name@ == "newlist"@
            || name@ == "icon"@) && lit_vec(args, 0),
        Term::List(elems) => lit_elems(elems, 0),
        Term::Prefab(p) => lit_pairs(p.vars, 0),
        Term::New { type_, args } => (match type_ {
            NewType::Prefab(p) => lit_pairs(p.vars, 0),
            _ => true,
        }) && (match args {
            Some(v) => lit_vec(v, 0),
            None => true,
        }),
    }
}

/// A bare identifier expression: what a list key must not be to stay in the
/// tree-independent fragment (such a key becomes a string with a warning).
pub open spec fn is_bare_ident_expr(e: Expression) -> bool {
    match e {
        Expression::Base { unary, term, follow } => unary@.len() == 0 && follow@.len() == 0
            && *term matches Term::Ident(_),
        _ => false,
    }
}

/// List elements in the fragment: keys and values tree-independent, and no
/// bare-identifier key (those produce a warning, which the fragment's
/// untouched-sink clause excludes).
pub open spec fn lit_elems(v: Vec<(Expression, Option<Expression>)>, i: int) -> bool
    decreases v, v.len() - i,
{
    if i < 0 || i >= v.len() {
        true
    } else {
        (match v[i].1 {
            Some(val) => !is_bare_ident_expr(v[i].0) && lit_expr(v[i].0) && lit_expr(val),
            None => lit_expr(v[i].0),
        }) && lit_elems(v, i + 1)
    }
}

/// Prefab overrides in the fragment: every override value tree-independent.
pub open spec fn lit_pairs(v: Vec<(String, Expression)>, i: int) -> bool
    decreases v, v.len() - i,
{
    if i < 0 || i >= v.len() {
        true
    } else {
        lit_expr(v[i].1) && lit_pairs(v, i + 1)
    }
}

pub open spec fn lit_vec(v: Vec<Expression>, i: int) -> bool
    decreases v, v.len() - i,
{
    if i < 0 || i >= v.len() {
        true
    } else {
        lit_expr(v[i]) && lit_vec(v, i + 1)
    }
}

/// One unary step of the spec-level fold, mirroring `fold_unary`.
pub open spec fn sunary(op: UnaryOp, v: ConstantV, loc: Location) -> Result<ConstantV, Diagnostic> {
    match (op, v) {
        (UnaryOp::Neg, ConstantV::IntV(i)) => Ok(ConstantV::IntV(i32_specs::wrapping_sub(0i32, i))),
        (UnaryOp::BitNot, ConstantV::IntV(i)) => Ok(ConstantV::IntV((!(i as u32)) as i32)),
        (UnaryOp::Not, ConstantV::IntV(i)) => Ok(
            ConstantV::IntV(
                if i == 0 {
                    1i32
                } else {
                    0i32
                },
            ),
        ),
        (UnaryOp::Neg, ConstantV::FloatV(b)) => Ok(ConstantV::FloatV(b ^ 0x8000_0000u32)),
        _ => Err(Diagnostic { location: loc, kind: DiagKind::NonConstantUnary(op, kind_v(v)) }),
    }
}

/// Applies the pending unary operators `ops[0..k]`, innermost (highest index)
/// first, as the folder does.
pub open spec fn sapply_unaries(ops: Vec<UnaryOp>, k: int, v: ConstantV, loc: Location) -> Result<
    ConstantV,
    Diagnostic,
>
    decreases k,
{
    if k <= 0 {
        Ok(v)
    } else {
        match sunary(ops[k - 1], v, loc) {
            Err(d) => Err(d),
            Ok(v2) => sapply_unaries(ops, k - 1, v2, loc),
        }
    }
}

/// One binary step of the spec-level fold, mirroring `fold_binary`.
pub open spec fn sbinary(op: BinaryOp, l: ConstantV, r: ConstantV, loc: Location) -> Result<
    ConstantV,
    Diagnostic,
> {
    match (op, l, r) {
        (BinaryOp::Add, ConstantV::IntV(a), ConstantV::IntV(b)) => Ok(
            ConstantV::IntV(i32_specs::wrapping_add(a, b)),
        ),
        (BinaryOp::Add, ConstantV::IntV(a), ConstantV::FloatV(fb)) => Ok(
            ConstantV::FloatV(float_add(float_of_int(a), fb)),
        ),
        (BinaryOp::Add, ConstantV::FloatV(fa), ConstantV::IntV(b)) => Ok(
            ConstantV::FloatV(float_add(fa, float_of_int(b))),
        ),
        (BinaryOp::Add, ConstantV::FloatV(fa), ConstantV::FloatV(fb)) => Ok(
            ConstantV::FloatV(float_add(fa, fb)),
        ),
        (BinaryOp::Add, ConstantV::StrV(sa), ConstantV::StrV(sb)) => Ok(ConstantV::StrV(sa + sb)),
        (BinaryOp::Sub, ConstantV::IntV(a), ConstantV::IntV(b)) => Ok(
            ConstantV::IntV(i32_specs::wrapping_sub(a, b)),
        ),
        (BinaryOp::Sub, ConstantV::IntV(a), ConstantV::FloatV(fb)) => Ok(
            ConstantV::FloatV(float_sub(float_of_int(a), fb)),
        ),
        (BinaryOp::Sub, ConstantV::FloatV(fa), ConstantV::IntV(b)) => Ok(
            ConstantV::FloatV(float_sub(fa, float_of_int(b))),
        ),
        (BinaryOp::Sub, ConstantV::FloatV(fa), ConstantV::FloatV(fb)) => Ok(
            ConstantV::FloatV(float_sub(fa, fb)),
        ),
        (BinaryOp::Mul, ConstantV::IntV(a), ConstantV::IntV(b)) => Ok(
            ConstantV::IntV(i32_specs::wrapping_mul(a, b)),
        ),
        (BinaryOp::Mul, ConstantV::IntV(a), ConstantV::FloatV(fb)) => Ok(
            ConstantV::FloatV(float_mul(float_of_int(a), fb)),
        ),
        (BinaryOp::Mul, ConstantV::FloatV(fa), ConstantV::IntV(b)) => Ok(
            ConstantV::FloatV(float_mul(fa, float_of_int(b))),
        ),
        (BinaryOp::Mul, ConstantV::FloatV(fa), ConstantV::FloatV(fb)) => Ok(
            ConstantV::FloatV(float_mul(fa, fb)),
        ),
        (BinaryOp::Div, ConstantV::IntV(a), ConstantV::IntV(b)) => if b == 0 {
            Err(Diagnostic { location: loc, kind: DiagKind::IntegerDivisionByZero })
        } else {
            Ok(ConstantV::IntV(div_i32(a, b)))
        },
        (BinaryOp::Div, ConstantV::IntV(a), ConstantV::FloatV(fb)) => Ok(
            ConstantV::FloatV(float_div(float_of_int(a), fb)),
        ),
        (BinaryOp::Div, ConstantV::FloatV(fa), ConstantV::IntV(b)) => Ok(
            ConstantV::FloatV(float_div(fa, float_of_int(b))),
        ),
        (BinaryOp::Div, ConstantV::FloatV(fa), ConstantV::FloatV(fb)) => Ok(
            ConstantV::FloatV(float_div(fa, fb)),
        ),
        (BinaryOp::BitOr, ConstantV::IntV(a), ConstantV::IntV(b)) => Ok(
            ConstantV::IntV(((a as u32) | (b as u32)) as i32),
        ),
        (BinaryOp::BitAnd, ConstantV::IntV(a), ConstantV::IntV(b)) => Ok(
            ConstantV::IntV(((a as u32) & (b as u32)) as i32),
        ),
        (BinaryOp::LShift, ConstantV::IntV(a), ConstantV::IntV(b)) => Ok(
            ConstantV::IntV(i32_specs::wrapping_shl(a, b as u32)),
        ),
        (BinaryOp::RShift, ConstantV::IntV(a), ConstantV::IntV(b)) => Ok(
            ConstantV::IntV(i32_specs::wrapping_shr(a, b as u32)),
        ),
        _ => Err(
            Diagnostic { location: loc, kind: DiagKind::NonConstantBinary(kind_v(l), op, kind_v(r)) },
        ),
    }
}

/// The hexadecimal digits of the `rgb()` components from index `i` on, or the
/// first failure.
pub open spec fn srgb_digits(args: Vec<Expression>, i: int, loc: Location) -> Result<
    Seq<char>,
    Diagnostic,
>
    decreases args, args.len() - i, 1int,
{
    if i < 0 || i >= args.len() {
        Ok(Seq::empty())
    } else {
        match sfold_expr(args[i], None, loc) {
            Err(d) => Err(d),
            Ok(v) => match v {
                ConstantV::IntV(x) => match srgb_digits(args, i + 1, loc) {
                    Err(d) => Err(d),
                    Ok(rest) => Ok(hex_byte(clamp255(x)) + rest),
                },
                _ => Err(Diagnostic { location: loc, kind: DiagKind::MalformedRgbCall }),
            },
        }
    }
}

/// The folds of argument expressions from index `i` on (no type hint), or the
/// first failure.
pub open spec fn sfold_vec(v: Vec<Expression>, i: int, loc: Location) -> Result<
    Seq<ConstantV>,
    Diagnostic,
>
    decreases v, v.len() - i, 1int,
{
    if i < 0 || i >= v.len() {
        Ok(Seq::empty())
    } else {
        match sfold_expr(v[i], None, loc) {
            Err(d) => Err(d),
            Ok(c) => match sfold_vec(v, i + 1, loc) {
                Err(d) => Err(d),
                Ok(rest) => Ok(seq![c] + rest),
            },
        }
    }
}

/// The folds of prefab override values from index `i` on: names kept, values
/// folded with no type hint.
pub open spec fn sfold_pairs(v: Vec<(String, Expression)>, i: int, loc: Location) -> Result<
    Seq<(Seq<char>, ConstantV)>,
    Diagnostic,
>
    decreases v, v.len() - i, 1int,
{
    if i < 0 || i >= v.len() {
        Ok(Seq::empty())
    } else {
        match sfold_expr(v[i].1, None, loc) {
            Err(d) => Err(d),
            Ok(c) => match sfold_pairs(v, i + 1, loc) {
                Err(d) => Err(d),
                Ok(rest) => Ok(seq![(v[i].0@, c)] + rest),
            },
        }
    }
}

/// The folds of list elements from index `i` on, key first, each side folded
/// with the element type hint.
pub open spec fn sfold_elems(
    v: Vec<(Expression, Option<Expression>)>,
    i: int,
    eh: Option<Seq<(PathOp, Seq<char>)>>,
    loc: Location,
) -> Result<Seq<(ConstantV, Option<ConstantV>)>, Diagnostic>
    decreases v, v.len() - i, 1int,
{
    if i < 0 || i >= v.len() {
        Ok(Seq::empty())
    } else {
        match sfold_expr(v[i].0, eh, loc) {
            Err(d) => Err(d),
            Ok(k) => match v[i].1 {
                Some(val) => match sfold_expr(val, eh, loc) {
                    Err(d) => Err(d),
                    Ok(c) => match sfold_elems(v, i + 1, eh, loc) {
                        Err(d) => Err(d),
                        Ok(rest) => Ok(seq![(k, Some(c))] + rest),
                    },
                },
                None => match sfold_elems(v, i + 1, eh, loc) {
                    Err(d) => Err(d),
                    Ok(rest) => Ok(seq![(k, Option::<ConstantV>::None)] + rest),
                },
            },
        }
    }
}

/// The element type hint of a list: the hint's tail when it starts with the
/// segment `list`, nothing otherwise.
pub open spec fn elem_hint_view(hint: Option<Seq<(PathOp, Seq<char>)>>) -> Option<
    Seq<(PathOp, Seq<char>)>,
> {
    match hint {
        Some(p) => if p.len() > 0 && p[0].1 == "list"@ {
            Some(p.subrange(1, p.len() as int))
        } else {
            None
        },
        None => None,
    }
}

/// The spec-level fold of a tree-independent expression: what the folder
/// returns for it, stated as a pure function. Cited only where `lit_expr`
/// holds; other shapes take an unspecified value.
pub open spec fn sfold_expr(
    e: Expression,
    hint: Option<Seq<(PathOp, Seq<char>)>>,
    loc: Location,
) -> Result<ConstantV, Diagnostic>
    decreases e, 0int, 0int,
{
    match e {
        Expression::Base { unary, term, follow } => {
            let h = if unary@.len() == 0 && follow@.len() == 0 {
                hint
            } else {
                None
            };
            match sfold_term(*term, h, loc) {
                Err(d) => Err(d),
                Ok(v) => sapply_unaries(unary, unary@.len() as int, v, loc),
            }
        },
        Expression::BinaryOp { op, lhs, rhs } => match sfold_expr(*lhs, None, loc) {
            Err(d) => Err(d),
            Ok(l) => match sfold_expr(*rhs, None, loc) {
                Err(d) => Err(d),
                Ok(r) => sbinary(op, l, r, loc),
            },
        },
        Expression::AssignOp { .. } => Err(
            Diagnostic { location: loc, kind: DiagKind::NonConstantAugmentedAssignment },
        ),
    }
}

/// The spec-level fold of a tree-independent term; like `sfold_expr`, shapes
/// outside the fragment take an unspecified value and are never cited.
pub open spec fn sfold_term(
    t: Term,
    hint: Option<Seq<(PathOp, Seq<char>)>>,
    loc: Location,
) -> Result<ConstantV, Diagnostic>
    decreases t, 0int, 0int,
{
    match t {
        Term::Null => Ok(ConstantV::NullV(hint)),
        Term::Int(i) => Ok(ConstantV::IntV(i)),
        Term::Float(b) => Ok(ConstantV::FloatV(b)),
        Term::String(s) => Ok(ConstantV::StrV(s@)),
        Term::Resource(s) => Ok(ConstantV::ResV(s@)),
        Term::Ident(n) => if n@ == "null"@ {
            Ok(ConstantV::NullV(hint))
        } else {
            vstd::pervasive::arbitrary()
        },
        Term::Expr(inner) => sfold_expr(*inner, hint, loc),
        Term::Call(name, args) => if name@ == "rgb"@ {
            if args@.len() != 3 && args@.len() != 4 {
                Err(Diagnostic { location: loc, kind: DiagKind::MalformedRgbCall })
            } else {
                match srgb_digits(args, 0, loc) {
                    Err(d) => Err(d),
                    Ok(digits) => Ok(ConstantV::StrV(seq!['#'] + digits)),
                }
            }
        } else if name@ == "matrix"@ {
            match sfold_vec(args, 0, loc) {
                Err(d) => Err(d),
                Ok(vs) => Ok(ConstantV::CallV(ConstFn::Matrix, vs)),
            }
        } else if name@ == "newlist"@ {
            match sfold_vec(args, 0, loc) {
                Err(d) => Err(d),
                Ok(vs) => Ok(ConstantV::CallV(ConstFn::Newlist, vs)),
            }
        } else if name@ == "icon"@ {
            match sfold_vec(args, 0, loc) {
                Err(d) => Err(d),
                Ok(vs) => Ok(ConstantV::CallV(ConstFn::Icon, vs)),
            }
        } else {
            vstd::pervasive::arbitrary()
        },
        Term::List(elems) => match sfold_elems(elems, 0, elem_hint_view(hint), loc) {
            Err(d) => Err(d),
            Ok(ev) => Ok(ConstantV::ListV(ev)),
        },
        Term::Prefab(p) => match sfold_pairs(p.vars, 0, loc) {
            Err(d) => Err(d),
            Ok(vs) => Ok(ConstantV::PrefV { path: path_view(p.path), vars: vs }),
        },
        Term::New { type_, args } => match type_ {
            NewType::Ident(_) => Err(
                Diagnostic { location: loc, kind: DiagKind::NonConstantNewExpression },
            ),
            NewType::Implicit => match sfold_new_args(args, loc) {
                Err(d) => Err(d),
                Ok(av) => Ok(ConstantV::NewV { typ: NewTypeV::ImplicitV, args: av }),
            },
            NewType::Prefab(p) => match sfold_pairs(p.vars, 0, loc) {
                Err(d) => Err(d),
                Ok(vs) => match sfold_new_args(args, loc) {
                    Err(d) => Err(d),
                    Ok(av) => Ok(
                        ConstantV::NewV {
                            typ: NewTypeV::PrefabTV { path: path_view(p.path), vars: vs },
                            args: av,
                        },
                    ),
                },
            },
        },
    }
}

/// The folds of the first `i` argument expressions.
pub open spec fn sfold_vec_upto(v: Vec<Expression>, i: int, loc: Location) -> Result<
    Seq<ConstantV>,
    Diagnostic,
>
    decreases i,
{
    if i <= 0 {
        Ok(Seq::empty())
    } else {
        match sfold_vec_upto(v, i - 1, loc) {
            Err(d) => Err(d),
            Ok(pre) => match sfold_expr(v[i - 1], None, loc) {
                Err(d) => Err(d),
                Ok(c) => Ok(pre.push(c)),
            },
        }
    }
}

pub proof fn lemma_sfold_vec_split(v: Vec<Expression>, i: int, loc: Location)
    requires
        0 <= i <= v.len(),
    ensures
        sfold_vec_upto(v, i, loc) matches Ok(pre) ==> sfold_vec(v, 0, loc) == (match sfold_vec(
            v,
            i,
            loc,
        ) {
            Ok(rest) => Ok::<Seq<ConstantV>, Diagnostic>(pre + rest),
            Err(d) => Err::<Seq<ConstantV>, Diagnostic>(d),
        }),
        sfold_vec_upto(v, i, loc) matches Err(d) ==> sfold_vec(v, 0, loc) == Err::<
            Seq<ConstantV>,
            Diagnostic,
        >(d),
    decreases i,
{
    if i == 0 {
        match sfold_vec(v, 0, loc) {
            Ok(rest) => {
                assert(Seq::<ConstantV>::empty() + rest =~= rest);
            },
            Err(_) => {},
        }
    } else {
        lemma_sfold_vec_split(v, i - 1, loc);
        match sfold_vec_upto(v, i - 1, loc) {
            Err(_) => {},
            Ok(pre1) => match sfold_expr(v[i - 1], None, loc) {
                Err(_) => {},
                Ok(c) => {
                    match sfold_vec(v, i, loc) {
                        Ok(rest) => {
                            assert(pre1 + (seq![c] + rest) =~= pre1.push(c) + rest);
                        },
                        Err(_) => {},
                    }
                },
            },
        }
    }
}

/// The folds of the first `i` prefab overrides.
pub open spec fn sfold_pairs_upto(v: Vec<(String, Expression)>, i: int, loc: Location) -> Result<
    Seq<(Seq<char>, ConstantV)>,
    Diagnostic,
>
    decreases i,
{
    if i <= 0 {
        Ok(Seq::empty())
    } else {
        match sfold_pairs_upto(v, i - 1, loc) {
            Err(d) => Err(d),
            Ok(pre) => match sfold_expr(v[i - 1].1, None, loc) {
                Err(d) => Err(d),
                Ok(c) => Ok(pre.push((v[i - 1].0@, c))),
            },
        }
    }
}

pub proof fn lemma_sfold_pairs_split(v: Vec<(String, Expression)>, i: int, loc: Location)
    requires
        0 <= i <= v.len(),
    ensures
        sfold_pairs_upto(v, i, loc) matches Ok(pre) ==> sfold_pairs(v, 0, loc) == (
        match sfold_pairs(v, i, loc) {
            Ok(rest) => Ok::<Seq<(Seq<char>, ConstantV)>, Diagnostic>(pre + rest),
            Err(d) => Err::<Seq<(Seq<char>, ConstantV)>, Diagnostic>(d),
        }),
        sfold_pairs_upto(v, i, loc) matches Err(d) ==> sfold_pairs(v, 0, loc) == Err::<
            Seq<(Seq<char>, ConstantV)>,
            Diagnostic,
        >(d),
    decreases i,
{
    if i == 0 {
        match sfold_pairs(v, 0, loc) {
            Ok(rest) => {
                assert(Seq::<(Seq<char>, ConstantV)>::empty() + rest =~= rest);
            },
            Err(_) => {},
        }
    } else {
        lemma_sfold_pairs_split(v, i - 1, loc);
        match sfold_pairs_upto(v, i - 1, loc) {
            Err(_) => {},
            Ok(pre1) => match sfold_expr(v[i - 1].1, None, loc) {
                Err(_) => {},
                Ok(c) => {
                    match sfold_pairs(v, i, loc) {
                        Ok(rest) => {
                            assert(pre1 + (seq![(v[i - 1].0@, c)] + rest) =~= pre1.push(
                                (v[i - 1].0@, c),
                            ) + rest);
                        },
                        Err(_) => {},
                    }
                },
            },
        }
    }
}

/// The folds of the first `i` list elements.
pub open spec fn sfold_elems_upto(
    v: Vec<(Expression, Option<Expression>)>,
    i: int,
    eh: Option<Seq<(PathOp, Seq<char>)>>,
    loc: Location,
) -> Result<Seq<(ConstantV, Option<ConstantV>)>, Diagnostic>
    decreases i,
{
    if i <= 0 {
        Ok(Seq::empty())
    } else {
        match sfold_elems_upto(v, i - 1, eh, loc) {
            Err(d) => Err(d),
            Ok(pre) => match sfold_expr(v[i - 1].0, eh, loc) {
                Err(d) => Err(d),
                Ok(k) => match v[i - 1].1 {
                    Some(val) => match sfold_expr(val, eh, loc) {
                        Err(d) => Err(d),
                        Ok(c) => Ok(pre.push((k, Some(c)))),
                    },
                    None => Ok(pre.push((k, Option::<ConstantV>::None))),
                },
            },
        }
    }
}

pub proof fn lemma_sfold_elems_split(
    v: Vec<(Expression, Option<Expression>)>,
    i: int,
    eh: Option<Seq<(PathOp, Seq<char>)>>,
    loc: Location,
)
    requires
        0 <= i <= v.len(),
    ensures
        sfold_elems_upto(v, i, eh, loc) matches Ok(pre) ==> sfold_elems(v, 0, eh, loc) == (
        match sfold_elems(v, i, eh, loc) {
            Ok(rest) => Ok::<Seq<(ConstantV, Option<ConstantV>)>, Diagnostic>(pre + rest),
            Err(d) => Err::<Seq<(ConstantV, Option<ConstantV>)>, Diagnostic>(d),
        }),
        sfold_elems_upto(v, i, eh, loc) matches Err(d) ==> sfold_elems(v, 0, eh, loc) == Err::<
            Seq<(ConstantV, Option<ConstantV>)>,
            Diagnostic,
        >(d),
    decreases i,
{
    if i == 0 {
        match sfold_elems(v, 0, eh, loc) {
            Ok(rest) => {
                assert(Seq::<(ConstantV, Option<ConstantV>)>::empty() + rest =~= rest);
            },
            Err(_) => {},
        }
    } else {
        lemma_sfold_elems_split(v, i - 1, eh, loc);
        match sfold_elems_upto(v, i - 1, eh, loc) {
            Err(_) => {},
            Ok(pre1) => match sfold_expr(v[i - 1].0, eh, loc) {
                Err(_) => {},
                Ok(k) => match v[i - 1].1 {
                    Some(val) => match sfold_expr(val, eh, loc) {
                        Err(_) => {},
                        Ok(c) => {
                            match sfold_elems(v, i, eh, loc) {
                                Ok(rest) => {
                                    assert(pre1 + (seq![(k, Some(c))] + rest) =~= pre1.push(
                                        (k, Some(c)),
                                    ) + rest);
                                },
                                Err(_) => {},
                            }
                        },
                    },
                    None => {
                        match sfold_elems(v, i, eh, loc) {
                            Ok(rest) => {
                                assert(pre1 + (seq![(k, Option::<ConstantV>::None)] + rest)
                                    =~= pre1.push((k, Option::<ConstantV>::None)) + rest);
                            },
                            Err(_) => {},
                        }
                    },
                },
            },
        }
    }
}

/// Every list element from `j` on keeps the fragment's conditions.
pub proof fn lemma_lit_elems_elem(v: Vec<(Expression, Option<Expression>)>, j: int, i: int)
    requires
        0 <= j <= i < v.len(),
        lit_elems(v, j),
    ensures
        lit_elems(v, i),
        match v[i].1 {
            Some(val) => !is_bare_ident_expr(v[i].0) && lit_expr(v[i].0) && lit_expr(val),
            None => lit_expr(v[i].0),
        },
    decreases i - j,
{
    if j < i {
        lemma_lit_elems_elem(v, j + 1, i);
    }
}

/// Every prefab override from `j` on keeps the fragment's conditions.
pub proof fn lemma_lit_pairs_elem(v: Vec<(String, Expression)>, j: int, i: int)
    requires
        0 <= j <= i < v.len(),
        lit_pairs(v, j),
    ensures
        lit_pairs(v, i),
        lit_expr(v[i].1),
    decreases i - j,
{
    if j < i {
        lemma_lit_pairs_elem(v, j + 1, i);
    }
}

/// The folds of a `new` literal's optional argument vector.
pub open spec fn sfold_new_args(args: Option<Vec<Expression>>, loc: Location) -> Result<
    Option<Seq<ConstantV>>,
    Diagnostic,
>
    decreases args, 0int, 2int,
{
    match args {
        None => Ok(None),
        Some(v) => match sfold_vec(v, 0, loc) {
            Err(d) => Err(d),
            Ok(vs) => Ok(Some(vs)),
        },
    }
}

} // verus!

verus! {

/// Segment-equal paths have the same character-level view.
pub proof fn lemma_path_view_eq(a: TypePath, b: TypePath)
    requires
        path_eq(a, b),
    ensures
        path_view(a) == path_view(b),
{
    assert(path_view(a) =~= path_view(b));
}

/// Applies the pending unary operators `ops[0..k]`, innermost (highest index)
/// first; the spec-level `sapply_unaries` states the outcome.
fn apply_unaries(location: Location, ops: &Vec<UnaryOp>, k: usize, value: Constant) -> (r: Result<
    Constant,
    Diagnostic,
>)
    requires
        k <= ops@.len(),
    ensures
        k == 0 ==> r == Ok::<Constant, Diagnostic>(value),
        forall|sv: ConstantV|
            matches_v(value, sv) ==> res_matches(r, sapply_unaries(*ops, k as int, sv, location)),
    decreases k,
{
    if k == 0 {
        Ok(value)
    } else {
        let op = ops[k - 1];
        match fold_unary(location, value, op) {
            Err(d) => {
                proof {
                    assert forall|sv: ConstantV| matches_v(value, sv) implies res_matches(
                        Err::<Constant, Diagnostic>(d),
                        sapply_unaries(*ops, k as int, sv, location),
                    ) by {
                        assert(const_kind(value) == kind_v(sv));
                    }
                }
                Err(d)
            },
            Ok(v2) => {
                let r2 = apply_unaries(location, ops, k - 1, v2);
                proof {
                    assert forall|sv: ConstantV| matches_v(value, sv) implies res_matches(
                        r2,
                        sapply_unaries(*ops, k as int, sv, location),
                    ) by {
                        let s1 = sunary(op, sv, location);
                        assert(s1 is Ok && matches_v(v2, s1->Ok_0));
                    }
                }
                r2
            },
        }
    }
}

} // verus!

verus! {

/// Every element of the vector from `j` on is tree-independent.
pub proof fn lemma_lit_vec_elem(v: Vec<Expression>, j: int, i: int)
    requires
        0 <= j <= i < v.len(),
        lit_vec(v, j),
    ensures
        lit_expr(v[i]),
        lit_vec(v, i),
    decreases i - j,
{
    if j < i {
        lemma_lit_vec_elem(v, j + 1, i);
    }
}

/// The hexadecimal digits of the first `i` components of an `rgb()` call.
pub open spec fn srgb_upto(args: Vec<Expression>, i: int, loc: Location) -> Result<
    Seq<char>,
    Diagnostic,
>
    decreases i,
{
    if i <= 0 {
        Ok(Seq::empty())
    } else {
        match srgb_upto(args, i - 1, loc) {
            Err(d) => Err(d),
            Ok(pre) => match sfold_expr(args[i - 1], None, loc) {
                Err(d) => Err(d),
                Ok(v) => match v {
                    ConstantV::IntV(x) => Ok(pre + hex_byte(clamp255(x))),
                    _ => Err(Diagnostic { location: loc, kind: DiagKind::MalformedRgbCall }),
                },
            },
        }
    }
}

/// The digits of the whole call are the digits of a prefix followed by the
/// digits of the rest; a failure in the prefix is the call's failure.
pub proof fn lemma_srgb_split(args: Vec<Expression>, i: int, loc: Location)
    requires
        0 <= i <= args.len(),
    ensures
        srgb_upto(args, i, loc) matches Ok(pre) ==> srgb_digits(args, 0, loc) == (
        match srgb_digits(args, i, loc) {
            Ok(rest) => Ok::<Seq<char>, Diagnostic>(pre + rest),
            Err(d) => Err::<Seq<char>, Diagnostic>(d),
        }),
        srgb_upto(args, i, loc) matches Err(d) ==> srgb_digits(args, 0, loc) == Err::<
            Seq<char>,
            Diagnostic,
        >(d),
    decreases i,
{
    if i == 0 {
        match srgb_digits(args, 0, loc) {
            Ok(rest) => {
                assert(Seq::<char>::empty() + rest =~= rest);
            },
            Err(_) => {},
        }
    } else {
        lemma_srgb_split(args, i - 1, loc);
        match srgb_upto(args, i - 1, loc) {
            Err(_) => {},
            Ok(pre1) => {
                match sfold_expr(args[i - 1], None, loc) {
                    Err(_) => {},
                    Ok(v) => match v {
                        ConstantV::IntV(x) => {
                            match srgb_digits(args, i, loc) {
                                Ok(rest) => {
                                    assert(pre1 + (hex_byte(clamp255(x)) + rest) =~= (pre1
                                        + hex_byte(clamp255(x))) + rest);
                                },
                                Err(_) => {},
                            }
                        },
                        _ => {},
                    },
                }
            },
        }
    }
}

} // verus!
