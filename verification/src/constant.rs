//! The reduced value model: what a constant-evaluable initializer folds to.
use vstd::prelude::*;

use crate::ast::{NewType, PathOp, Prefab, TypePath, dup_path, opt_path_eq, path_eq, seg_eq};

verus! {

/// The whitelisted builtin constructors that are preserved symbolically.
#[derive(Clone, Copy, PartialEq, Eq, Structural, Debug)]
pub enum ConstFn {
    Icon,
    Matrix,
    Newlist,
}

/// A fully reduced constant value.
#[derive(Debug)]
pub enum Constant {
    /// The literal `null`, optionally carrying the declared type path that a
    /// later field access may resolve through.
    Null(Option<TypePath>),
    /// A deferred construction literal, preserved verbatim for the runtime.
    New { type_: NewType<Constant>, args: Option<Vec<Constant>> },
    /// An associative list in insertion order; an absent value means the key
    /// stands alone.
    List(Vec<(Constant, Option<Constant>)>),
    /// A residual call to a whitelisted constructor.
    Call(ConstFn, Vec<Constant>),
    /// A type reference decorated with field overrides.
    Prefab(Prefab<Constant>),
    String(String),
    Resource(String),
    Int(i32),
    /// A float, stored as its IEEE 754 single-precision bit pattern.
    Float(u32),
}

/// A reduced constant together with the declaration's type hint.
#[derive(Debug)]
pub struct TypedConstant {
    pub type_hint: Option<TypePath>,
    pub constant: Constant,
}

/// Value equality of constants: structural, with strings compared by their
/// characters and paths segment by segment.
pub open spec fn const_eq(a: Constant, b: Constant) -> bool
    decreases a, 0int,
{
    match (a, b) {
        (Constant::Null(p), Constant::Null(q)) => opt_path_eq(p, q),
        (Constant::New { type_: ta, args: aa }, Constant::New { type_: tb, args: ab }) => {
            newtype_eq(ta, tb) && match (aa, ab) {
                (None, None) => true,
                (Some(va), Some(vb)) => consts_eq_from(va, vb, 0),
                _ => false,
            }
        },
        (Constant::List(va), Constant::List(vb)) => elems_eq_from(va, vb, 0),
        (Constant::Call(fa, va), Constant::Call(fb, vb)) => fa == fb && consts_eq_from(va, vb, 0),
        (Constant::Prefab(pa), Constant::Prefab(pb)) => prefab_eq(pa, pb),
        (Constant::String(sa), Constant::String(sb)) => sa@ == sb@,
        (Constant::Resource(sa), Constant::Resource(sb)) => sa@ == sb@,
        (Constant::Int(ia), Constant::Int(ib)) => ia == ib,
        (Constant::Float(fa), Constant::Float(fb)) => fa == fb,
        _ => false,
    }
}

pub open spec fn newtype_eq(a: NewType<Constant>, b: NewType<Constant>) -> bool
    decreases a, 0int,
{
    match (a, b) {
        (NewType::Implicit, NewType::Implicit) => true,
        (NewType::Prefab(pa), NewType::Prefab(pb)) => prefab_eq(pa, pb),
        (NewType::Ident(na), NewType::Ident(nb)) => na@ == nb@,
        _ => false,
    }
}

pub open spec fn prefab_eq(a: Prefab<Constant>, b: Prefab<Constant>) -> bool
    decreases a, 0int,
{
    path_eq(a.path, b.path) && cpairs_eq_from(a.vars, b.vars, 0)
}

pub open spec fn consts_eq_from(a: Vec<Constant>, b: Vec<Constant>, i: int) -> bool
    decreases a, a.len() - i,
{
    if i < 0 || i > a.len() || a.len() != b.len() {
        false
    } else if i == a.len() {
        true
    } else {
        const_eq(a[i as int], b[i as int]) && consts_eq_from(a, b, i + 1)
    }
}

pub open spec fn cpairs_eq_from(a: Vec<(String, Constant)>, b: Vec<(String, Constant)>, i: int) -> bool
    decreases a, a.len() - i,
{
    if i < 0 || i > a.len() || a.len() != b.len() {
        false
    } else if i == a.len() {
        true
    } else {
        a[i as int].0@ == b[i as int].0@ && const_eq(a[i as int].1, b[i as int].1)
            && cpairs_eq_from(a, b, i + 1)
    }
}

pub open spec fn elems_eq_from(
    a: Vec<(Constant, Option<Constant>)>,
    b: Vec<(Constant, Option<Constant>)>,
    i: int,
) -> bool
    decreases a, a.len() - i,
{
    if i < 0 || i > a.len() || a.len() != b.len() {
        false
    } else if i == a.len() {
        true
    } else {
        const_eq(a[i as int].0, b[i as int].0) && match (a[i as int].1, b[i as int].1) {
            (None, None) => true,
            (Some(x), Some(y)) => const_eq(x, y),
            _ => false,
        } && elems_eq_from(a, b, i + 1)
    }
}

pub open spec fn opt_const_eq(a: Option<Constant>, b: Option<Constant>) -> bool {
    match (a, b) {
        (None, None) => true,
        (Some(x), Some(y)) => const_eq(x, y),
        _ => false,
    }
}

} // verus!

verus! {

/// First list position whose key equals the given one.
pub open spec fn assoc_first(elems: Seq<(Constant, Option<Constant>)>, key: Constant, i: int) -> Option<int>
    decreases elems.len() - i,
{
    if i < 0 || i >= elems.len() {
        None
    } else if const_eq(elems[i].0, key) {
        Some(i)
    } else {
        assoc_first(elems, key, i + 1)
    }
}

/// What `contains_key` decides: list membership of a key.
pub open spec fn spec_contains_key(c: Constant, key: Constant) -> bool {
    match c {
        Constant::List(elems) => assoc_first(elems@, key, 0) is Some,
        _ => false,
    }
}

/// What `index` returns: position lookup for an integer key, association
/// lookup for any other key.
pub open spec fn spec_index(c: Constant, key: Constant) -> Option<Constant> {
    match (c, key) {
        (Constant::List(elems), Constant::Int(i)) => {
            if 0 <= i && (i as int) < elems@.len() {
                Some(elems@[i as int].0)
            } else {
                None
            }
        },
        (Constant::List(elems), _) => match assoc_first(elems@, key, 0) {
            Some(j) => elems@[j].1,
            None => None,
        },
        _ => None,
    }
}

/// Truthiness in the source language: null, zero and the empty string are
/// false; everything else is true.
pub open spec fn truthy(c: Constant) -> bool {
    match c {
        Constant::Null(_) => false,
        Constant::Int(i) => i != 0,
        Constant::Float(b) => b != 0u32 && b != 0x8000_0000u32,
        Constant::String(s) => s@.len() != 0,
        _ => true,
    }
}

/// Executable value equality, deciding `const_eq`.
pub fn eq_constant(a: &Constant, b: &Constant) -> (r: bool)
    ensures
        r == const_eq(*a, *b),
    decreases *a, 0int,
{
    match (a, b) {
        (Constant::Null(p), Constant::Null(q)) => match (p, q) {
            (None, None) => true,
            (Some(x), Some(y)) => eq_path(x, y),
            _ => false,
        },
        (Constant::New { type_: ta, args: aa }, Constant::New { type_: tb, args: ab }) => {
            let types_match = match (ta, tb) {
                (NewType::Implicit, NewType::Implicit) => true,
                (NewType::Prefab(pa), NewType::Prefab(pb)) => eq_prefab(pa, pb),
                (NewType::Ident(na), NewType::Ident(nb)) => *na == *nb,
                _ => false,
            };
            types_match && match (aa, ab) {
                (None, None) => true,
                (Some(va), Some(vb)) => eq_consts(va, vb),
                _ => false,
            }
        },
        (Constant::List(va), Constant::List(vb)) => eq_elems(va, vb),
        (Constant::Call(fa, va), Constant::Call(fb, vb)) => *fa == *fb && eq_consts(va, vb),
        (Constant::Prefab(pa), Constant::Prefab(pb)) => eq_prefab(pa, pb),
        (Constant::String(sa), Constant::String(sb)) => *sa == *sb,
        (Constant::Resource(sa), Constant::Resource(sb)) => *sa == *sb,
        (Constant::Int(ia), Constant::Int(ib)) => *ia == *ib,
        (Constant::Float(fa), Constant::Float(fb)) => *fa == *fb,
        _ => false,
    }
}

pub fn eq_path(a: &TypePath, b: &TypePath) -> (r: bool)
    ensures
        r == path_eq(*a, *b),
{
    if a.len() != b.len() {
        return false;
    }
    let mut i: usize = 0;
    while i < a.len()
        invariant
            i <= a.len(),
            a@.len() == b@.len(),
            forall|j: int| 0 <= j < i ==> seg_eq(a@[j], b@[j]),
        decreases a.len() - i,
    {
        let ops_match = match (a[i].op, b[i].op) {
            (PathOp::Slash, PathOp::Slash) => true,
            (PathOp::Dot, PathOp::Dot) => true,
            (PathOp::Colon, PathOp::Colon) => true,
            _ => false,
        };
        if !ops_match || !(a[i].name == b[i].name) {
            return false;
        }
        i = i + 1;
    }
    true
}

fn eq_prefab(a: &Prefab<Constant>, b: &Prefab<Constant>) -> (r: bool)
    ensures
        r == prefab_eq(*a, *b),
    decreases *a, 0int,
{
    if !eq_path(&a.path, &b.path) {
        return false;
    }
    if a.vars.len() != b.vars.len() {
        proof {
            assert(!cpairs_eq_from(a.vars, b.vars, 0));
        }
        return false;
    }
    let mut i: usize = 0;
    while i < a.vars.len()
        invariant
            i <= a.vars.len(),
            a.vars@.len() == b.vars@.len(),
            cpairs_eq_from(a.vars, b.vars, i as int) ==> cpairs_eq_from(a.vars, b.vars, 0),
        decreases a.vars.len() - i, 0int,
    {
        if !(a.vars[i].0 == b.vars[i].0) || !eq_constant(&a.vars[i].1, &b.vars[i].1) {
            proof {
                assert(!cpairs_eq_from(a.vars, b.vars, i as int));
                lemma_cpairs_eq_mono(a.vars, b.vars, i as int);
            }
            return false;
        }
        i = i + 1;
    }
    true
}

fn eq_consts(a: &Vec<Constant>, b: &Vec<Constant>) -> (r: bool)
    ensures
        r == consts_eq_from(*a, *b, 0),
    decreases *a, 0int,
{
    if a.len() != b.len() {
        return false;
    }
    let mut i: usize = 0;
    while i < a.len()
        invariant
            i <= a.len(),
            a@.len() == b@.len(),
            consts_eq_from(*a, *b, i as int) ==> consts_eq_from(*a, *b, 0),
        decreases a.len() - i, 0int,
    {
        if !eq_constant(&a[i], &b[i]) {
            proof {
                lemma_consts_eq_mono(*a, *b, i as int);
            }
            return false;
        }
        i = i + 1;
    }
    true
}

fn eq_elems(a: &Vec<(Constant, Option<Constant>)>, b: &Vec<(Constant, Option<Constant>)>) -> (r:
    bool)
    ensures
        r == elems_eq_from(*a, *b, 0),
    decreases *a, 0int,
{
    if a.len() != b.len() {
        return false;
    }
    let mut i: usize = 0;
    while i < a.len()
        invariant
            i <= a.len(),
            a@.len() == b@.len(),
            elems_eq_from(*a, *b, i as int) ==> elems_eq_from(*a, *b, 0),
        decreases a.len() - i, 0int,
    {
        let keys_match = eq_constant(&a[i].0, &b[i].0);
        let vals_match = match (&a[i].1, &b[i].1) {
            (None, None) => true,
            (Some(x), Some(y)) => eq_constant(x, y),
            _ => false,
        };
        if !keys_match || !vals_match {
            proof {
                lemma_elems_eq_mono(*a, *b, i as int);
            }
            return false;
        }
        i = i + 1;
    }
    true
}

proof fn lemma_consts_eq_mono(a: Vec<Constant>, b: Vec<Constant>, i: int)
    requires
        0 <= i <= a.len(),
        a.len() == b.len(),
        !consts_eq_from(a, b, i),
    ensures
        !consts_eq_from(a, b, 0),
    decreases i,
{
    if i > 0 {
        assert(!consts_eq_from(a, b, i - 1));
        lemma_consts_eq_mono(a, b, i - 1);
    }
}

proof fn lemma_cpairs_eq_mono(a: Vec<(String, Constant)>, b: Vec<(String, Constant)>, i: int)
    requires
        0 <= i <= a.len(),
        a.len() == b.len(),
        !cpairs_eq_from(a, b, i),
    ensures
        !cpairs_eq_from(a, b, 0),
    decreases i,
{
    if i > 0 {
        assert(!cpairs_eq_from(a, b, i - 1));
        lemma_cpairs_eq_mono(a, b, i - 1);
    }
}

proof fn lemma_elems_eq_mono(
    a: Vec<(Constant, Option<Constant>)>,
    b: Vec<(Constant, Option<Constant>)>,
    i: int,
)
    requires
        0 <= i <= a.len(),
        a.len() == b.len(),
        !elems_eq_from(a, b, i),
    ensures
        !elems_eq_from(a, b, 0),
    decreases i,
{
    if i > 0 {
        assert(!elems_eq_from(a, b, i - 1));
        lemma_elems_eq_mono(a, b, i - 1);
    }
}

} // verus!

verus! {

/// Copies a constant; the copy is value-equal to the original.
pub fn dup_constant(c: &Constant) -> (r: Constant)
    ensures
        const_eq(r, *c),
    decreases *c, 0int,
{
    match c {
        Constant::Null(p) => Constant::Null(match p {
            Some(x) => Some(dup_path(x)),
            None => None,
        }),
        Constant::New { type_, args } => Constant::New {
            type_: match type_ {
                NewType::Implicit => NewType::Implicit,
                NewType::Prefab(p) => NewType::Prefab(dup_prefab(p)),
                NewType::Ident(n) => NewType::Ident(n.clone()),
            },
            args: match args {
                Some(v) => Some(dup_consts(v)),
                None => None,
            },
        },
        Constant::List(v) => Constant::List(dup_elems(v)),
        Constant::Call(f, v) => Constant::Call(*f, dup_consts(v)),
        Constant::Prefab(p) => Constant::Prefab(dup_prefab(p)),
        Constant::String(s) => Constant::String(s.clone()),
        Constant::Resource(s) => Constant::Resource(s.clone()),
        Constant::Int(i) => Constant::Int(*i),
        Constant::Float(b) => Constant::Float(*b),
    }
}

fn dup_prefab(p: &Prefab<Constant>) -> (r: Prefab<Constant>)
    ensures
        prefab_eq(r, *p),
    decreases *p, 0int,
{
    let path = dup_path(&p.path);
    let mut vars: Vec<(String, Constant)> = Vec::new();
    let mut i: usize = 0;
    while i < p.vars.len()
        invariant
            i <= p.vars.len(),
            vars@.len() == i,
            forall|j: int| 0 <= j < i ==> (#[trigger] vars@[j]).0@ == p.vars@[j].0@ && const_eq(
                vars@[j].1,
                p.vars@[j].1,
            ),
        decreases p.vars.len() - i, 0int,
    {
        let pair = (p.vars[i].0.clone(), dup_constant(&p.vars[i].1));
        vars.push(pair);
        i = i + 1;
    }
    let r = Prefab { path, vars };
    proof {
        lemma_cpairs_eq_pointwise(r.vars, p.vars, 0);
    }
    r
}

fn dup_consts(v: &Vec<Constant>) -> (r: Vec<Constant>)
    ensures
        consts_eq_from(r, *v, 0),
    decreases *v, 0int,
{
    let mut out: Vec<Constant> = Vec::new();
    let mut i: usize = 0;
    while i < v.len()
        invariant
            i <= v.len(),
            out@.len() == i,
            forall|j: int| 0 <= j < i ==> const_eq(#[trigger] out@[j], v@[j]),
        decreases v.len() - i, 0int,
    {
        let d = dup_constant(&v[i]);
        out.push(d);
        i = i + 1;
    }
    proof {
        lemma_consts_eq_pointwise(out, *v, 0);
    }
    out
}

fn dup_elems(v: &Vec<(Constant, Option<Constant>)>) -> (r: Vec<(Constant, Option<Constant>)>)
    ensures
        elems_eq_from(r, *v, 0),
    decreases *v, 0int,
{
    let mut out: Vec<(Constant, Option<Constant>)> = Vec::new();
    let mut i: usize = 0;
    while i < v.len()
        invariant
            i <= v.len(),
            out@.len() == i,
            forall|j: int| 0 <= j < i ==> const_eq((#[trigger] out@[j]).0, v@[j].0) && opt_const_eq(
                out@[j].1,
                v@[j].1,
            ),
        decreases v.len() - i, 0int,
    {
        let key = dup_constant(&v[i].0);
        let val = match &v[i].1 {
            Some(x) => Some(dup_constant(x)),
            None => None,
        };
        out.push((key, val));
        i = i + 1;
    }
    proof {
        lemma_elems_eq_pointwise(out, *v, 0);
    }
    out
}

proof fn lemma_consts_eq_pointwise(a: Vec<Constant>, b: Vec<Constant>, i: int)
    requires
        0 <= i <= a.len(),
        a.len() == b.len(),
        forall|j: int| 0 <= j < a.len() ==> const_eq(#[trigger] a@[j], b@[j]),
    ensures
        consts_eq_from(a, b, i),
    decreases a.len() - i,
{
    if i < a.len() {
        lemma_consts_eq_pointwise(a, b, i + 1);
    }
}

proof fn lemma_cpairs_eq_pointwise(a: Vec<(String, Constant)>, b: Vec<(String, Constant)>, i: int)
    requires
        0 <= i <= a.len(),
        a.len() == b.len(),
        forall|j: int| 0 <= j < a.len() ==> (#[trigger] a@[j]).0@ == b@[j].0@ && const_eq(
            a@[j].1,
            b@[j].1,
        ),
    ensures
        cpairs_eq_from(a, b, i),
    decreases a.len() - i,
{
    if i < a.len() {
        lemma_cpairs_eq_pointwise(a, b, i + 1);
    }
}

proof fn lemma_elems_eq_pointwise(
    a: Vec<(Constant, Option<Constant>)>,
    b: Vec<(Constant, Option<Constant>)>,
    i: int,
)
    requires
        0 <= i <= a.len(),
        a.len() == b.len(),
        forall|j: int| 0 <= j < a.len() ==> const_eq((#[trigger] a@[j]).0, b@[j].0) && opt_const_eq(
            a@[j].1,
            b@[j].1,
        ),
    ensures
        elems_eq_from(a, b, i),
    decreases a.len() - i,
{
    if i < a.len() {
        lemma_elems_eq_pointwise(a, b, i + 1);
    }
}

} // verus!

verus! {

impl Constant {
    /// Builds a string constant from a string slice.
    pub fn string(s: &str) -> (r: Constant)
        ensures
            r matches Constant::String(x) && x@ == s@,
    {
        Constant::String(String::from_str(s))
    }

    /// Whether this value is a list with an element whose key equals `key`.
    #[verifier::loop_isolation(false)]
    pub fn contains_key(&self, key: &Constant) -> (r: bool)
        ensures
            r == spec_contains_key(*self, *key),
    {
        match self {
            Constant::List(elems) => {
                let mut i: usize = 0;
                while i < elems.len()
                    invariant
                        i <= elems.len(),
                        assoc_first(elems@, *key, 0) == assoc_first(elems@, *key, i as int),
                    decreases elems.len() - i,
                {
                    if eq_constant(&elems[i].0, key) {
                        proof {
                            assert(assoc_first(elems@, *key, i as int) == Some(i as int));
                        }
                        return true;
                    }
                    i = i + 1;
                }
                false
            },
            _ => false,
        }
    }

    /// List lookup: an integer key selects the key at that position; any other
    /// key selects the value of the first element whose key equals it.
    #[verifier::loop_isolation(false)]
    pub fn index(&self, key: &Constant) -> (r: Option<&Constant>)
        ensures
            match spec_index(*self, *key) {
                Some(v) => r matches Some(x) && *x == v,
                None => r is None,
            },
    {
        match self {
            Constant::List(elems) => {
                if let Constant::Int(i) = key {
                    if 0 <= *i && (*i as usize) < elems.len() {
                        return Some(&elems[*i as usize].0);
                    } else {
                        return None;
                    }
                }
                let mut j: usize = 0;
                while j < elems.len()
                    invariant
                        j <= elems.len(),
                        assoc_first(elems@, *key, 0) == assoc_first(elems@, *key, j as int),
                    decreases elems.len() - j,
                {
                    if eq_constant(&elems[j].0, key) {
                        proof {
                            assert(assoc_first(elems@, *key, j as int) == Some(j as int));
                        }
                        let out = match &elems[j].1 {
                            Some(v) => Some(v),
                            None => None,
                        };
                        return out;
                    }
                    j = j + 1;
                }
                None
            },
            _ => None,
        }
    }

    /// Coercion to boolean: null, zero and the empty string are false.
    pub fn to_bool(&self) -> (r: bool)
        ensures
            r == truthy(*self),
    {
        match self {
            Constant::Null(_) => false,
            Constant::Int(i) => *i != 0,
            Constant::Float(b) => crate::floatbits::float_is_truthy(*b),
            Constant::String(s) => s.as_str().unicode_len() != 0,
            _ => true,
        }
    }

    /// Coercion to a single-precision float, as bits; integers convert, other
    /// non-numeric values do not coerce.
    pub fn to_float(&self) -> (r: Option<u32>)
        ensures
            match self {
                Constant::Int(i) => r == Some(crate::floatbits::float_of_int(*i)),
                Constant::Float(b) => r == Some(*b),
                _ => r is None,
            },
    {
        match self {
            Constant::Int(i) => Some(crate::floatbits::float_of_int_bits(*i)),
            Constant::Float(b) => Some(*b),
            _ => None,
        }
    }

    /// Coercion to an integer; floats convert by truncation toward zero.
    pub fn to_int(&self) -> (r: Option<i32>)
        ensures
            match self {
                Constant::Int(i) => r == Some(*i),
                Constant::Float(b) => r == Some(crate::floatbits::int_of_float(*b)),
                _ => r is None,
            },
    {
        match self {
            Constant::Int(i) => Some(*i),
            Constant::Float(b) => Some(crate::floatbits::int_of_float_bits(*b)),
            _ => None,
        }
    }

    /// Whether this value is a string equal to `s`.
    pub fn eq_string(&self, s: &str) -> (r: bool)
        ensures
            r == (self matches Constant::String(x) && x@ == s@),
    {
        match self {
            Constant::String(x) => *x == String::from_str(s),
            _ => false,
        }
    }

    /// Whether this value is a string or resource equal to `s`.
    pub fn eq_resource(&self, s: &str) -> (r: bool)
        ensures
            r == match self {
                Constant::String(x) => x@ == s@,
                Constant::Resource(x) => x@ == s@,
                _ => false,
            },
    {
        match self {
            Constant::String(x) => *x == String::from_str(s),
            Constant::Resource(x) => *x == String::from_str(s),
            _ => false,
        }
    }
}

impl Default for Constant {
    /// The default constant is the untyped null literal.
    fn default() -> (r: Constant)
        ensures
            r == Constant::Null(Option::<TypePath>::None),
    {
        Constant::Null(None)
    }
}

impl PartialEq for Constant {
    fn eq(&self, other: &Constant) -> (r: bool) {
        eq_constant(self, other)
    }
}

impl vstd::std_specs::cmp::PartialEqSpecImpl for Constant {
    open spec fn obeys_eq_spec() -> bool {
        true
    }

    open spec fn eq_spec(&self, other: &Constant) -> bool {
        const_eq(*self, *other)
    }
}

} // verus!
