//! The class tree: classes keyed by absolute path, each with a parent, an
//! insertion-ordered mapping of variable slots, and declaration metadata.
//! A parent always has a smaller index than its children, which both rules out
//! inheritance cycles and grounds the folder's termination measure.
use vstd::prelude::*;

use crate::ast::{Expression, Location, TypePath, path_eq};
use crate::constant::Constant;

verus! {

/// The per-(class, name) storage: the unreduced initializer and, once
/// computed, the reduced value. `being_evaluated` is the cycle detector's
/// transient marker.
pub struct VarSlot {
    pub location: Location,
    pub expression: Option<Expression>,
    pub constant: Option<Constant>,
    pub being_evaluated: bool,
}

/// Declaration metadata, attached to the class that first declares a name.
pub struct Declaration {
    /// The declared type, used as a type hint for the initializer.
    pub type_path: TypePath,
    /// Whether the variable is shared class-wide rather than per-instance.
    pub is_static: bool,
    /// Whether the initializer must reduce to a constant.
    pub is_const_evaluable: bool,
}

pub struct ClassNode {
    pub path: String,
    pub parent: Option<usize>,
    pub vars: Vec<(String, VarSlot)>,
    pub decls: Vec<(String, Declaration)>,
}

pub struct ObjectTree {
    pub nodes: Vec<ClassNode>,
}

/// Well-formed trees list every class after its parent, and no class declares
/// two variable slots under one name.
pub open spec fn tree_wf(t: ObjectTree) -> bool {
    &&& forall|i: int|
        0 <= i < t.nodes@.len() ==> match (#[trigger] t.nodes@[i]).parent {
            Some(p) => p < i,
            None => true,
        }
    &&& forall|i: int, j1: int, j2: int|
        0 <= i < t.nodes@.len() && 0 <= j1 < t.nodes@[i].vars@.len() && 0 <= j2
            < t.nodes@[i].vars@.len() && j1 != j2 ==> (#[trigger] t.nodes@[i].vars@[j1]).0@ != (
        #[trigger] t.nodes@[i].vars@[j2]).0@
}

/// A tree with the same parents and the same variable names as a well-formed
/// one is itself well-formed.
pub proof fn lemma_wf_same_structure(a: ObjectTree, b: ObjectTree)
    requires
        tree_wf(a),
        b.nodes@.len() == a.nodes@.len(),
        forall|i: int|
            0 <= i < a.nodes@.len() ==> (#[trigger] b.nodes@[i]).parent == a.nodes@[i].parent
                && b.nodes@[i].vars@.len() == a.nodes@[i].vars@.len(),
        forall|i: int, j: int|
            0 <= i < a.nodes@.len() && 0 <= j < a.nodes@[i].vars@.len() ==> (
            #[trigger] b.nodes@[i].vars@[j]).0 == a.nodes@[i].vars@[j].0,
    ensures
        tree_wf(b),
{
    assert forall|i: int, j1: int, j2: int|
        0 <= i < b.nodes@.len() && 0 <= j1 < b.nodes@[i].vars@.len() && 0 <= j2
            < b.nodes@[i].vars@.len() && j1 != j2 implies (#[trigger] b.nodes@[i].vars@[j1]).0@
        != (#[trigger] b.nodes@[i].vars@[j2]).0@ by {
        assert(b.nodes@[i].vars@[j1].0 == a.nodes@[i].vars@[j1].0);
        assert(b.nodes@[i].vars@[j2].0 == a.nodes@[i].vars@[j2].0);
    }
}

/// First variable slot of the given name at or after position `i`.
pub open spec fn find_var_from(vars: Seq<(String, VarSlot)>, name: Seq<char>, i: int) -> Option<
    int,
>
    decreases vars.len() - i,
{
    if i < 0 || i >= vars.len() {
        None
    } else if vars[i].0@ == name {
        Some(i)
    } else {
        find_var_from(vars, name, i + 1)
    }
}

pub open spec fn find_var(c: ClassNode, name: Seq<char>) -> Option<int> {
    find_var_from(c.vars@, name, 0)
}

pub open spec fn find_decl_from(
    decls: Seq<(String, Declaration)>,
    name: Seq<char>,
    i: int,
) -> Option<int>
    decreases decls.len() - i,
{
    if i < 0 || i >= decls.len() {
        None
    } else if decls[i].0@ == name {
        Some(i)
    } else {
        find_decl_from(decls, name, i + 1)
    }
}

pub open spec fn find_decl(c: ClassNode, name: Seq<char>) -> Option<Declaration> {
    match find_decl_from(c.decls@, name, 0) {
        Some(i) => Some(c.decls@[i].1),
        None => None,
    }
}

/// The declaration a name resolves to from class `ty`, walking up the parent
/// chain.
pub open spec fn decl_search(nodes: Seq<ClassNode>, ty: int, name: Seq<char>) -> Option<
    Declaration,
>
    decreases ty,
{
    if ty < 0 || ty >= nodes.len() {
        None
    } else if find_decl(nodes[ty], name) is Some {
        find_decl(nodes[ty], name)
    } else {
        match nodes[ty].parent {
            Some(p) => if p < ty {
                decl_search(nodes, p as int, name)
            } else {
                None
            },
            None => None,
        }
    }
}

/// A slot that an evaluation could still enter: not reduced and not marked.
pub open spec fn slot_open(s: VarSlot) -> bool {
    !s.being_evaluated && s.constant is None
}

pub open spec fn class_busy_from(vars: Seq<(String, VarSlot)>, i: int) -> nat
    decreases vars.len() - i,
{
    if i < 0 || i >= vars.len() {
        0
    } else {
        (if slot_open(vars[i].1) {
            1nat
        } else {
            0nat
        }) + class_busy_from(vars, i + 1)
    }
}

pub open spec fn tree_busy_from(nodes: Seq<ClassNode>, i: int) -> nat
    decreases nodes.len() - i,
{
    if i < 0 || i >= nodes.len() {
        0
    } else {
        class_busy_from(nodes[i].vars@, 0) + tree_busy_from(nodes, i + 1)
    }
}

/// The folder's primary termination measure: how many slots are still open.
pub open spec fn tree_busy(t: ObjectTree) -> nat {
    tree_busy_from(t.nodes@, 0)
}

/// How one slot may change across a fold step: everything but the reduced
/// value is kept; a reduced value is never cleared; a slot currently marked
/// `being_evaluated` is not written at all.
pub open spec fn slot_frame(a: VarSlot, b: VarSlot) -> bool {
    &&& b.location == a.location
    &&& b.expression == a.expression
    &&& b.being_evaluated == a.being_evaluated
    &&& (a.constant is Some ==> b.constant == a.constant)
    &&& (a.being_evaluated ==> b.constant == a.constant)
}

pub open spec fn class_frame(a: ClassNode, b: ClassNode) -> bool {
    &&& b.path == a.path
    &&& b.parent == a.parent
    &&& b.decls == a.decls
    &&& b.vars@.len() == a.vars@.len()
    &&& forall|j: int|
        0 <= j < a.vars@.len() ==> (#[trigger] b.vars@[j]).0 == a.vars@[j].0 && slot_frame(
            a.vars@[j].1,
            b.vars@[j].1,
        )
}

/// How the whole tree may change across a fold step: same classes, same
/// structure, slots changed only as `slot_frame` allows.
pub open spec fn tree_evolves(a: ObjectTree, b: ObjectTree) -> bool {
    &&& b.nodes@.len() == a.nodes@.len()
    &&& forall|i: int|
        0 <= i < a.nodes@.len() ==> class_frame(a.nodes@[i], #[trigger] b.nodes@[i])
}

pub proof fn lemma_evolves_refl(a: ObjectTree)
    ensures
        tree_evolves(a, a),
{
}

pub proof fn lemma_evolves_trans(a: ObjectTree, b: ObjectTree, c: ObjectTree)
    requires
        tree_evolves(a, b),
        tree_evolves(b, c),
    ensures
        tree_evolves(a, c),
{
    assert forall|i: int| 0 <= i < a.nodes@.len() implies class_frame(
        a.nodes@[i],
        #[trigger] c.nodes@[i],
    ) by {
        assert(class_frame(a.nodes@[i], b.nodes@[i]));
        assert(class_frame(b.nodes@[i], c.nodes@[i]));
    }
}

pub proof fn lemma_evolves_wf(a: ObjectTree, b: ObjectTree)
    requires
        tree_wf(a),
        tree_evolves(a, b),
    ensures
        tree_wf(b),
{
    assert forall|i: int|
        0 <= i < a.nodes@.len() implies (#[trigger] b.nodes@[i]).parent == a.nodes@[i].parent
            && b.nodes@[i].vars@.len() == a.nodes@[i].vars@.len() by {
        assert(class_frame(a.nodes@[i], b.nodes@[i]));
    }
    assert forall|i: int, j: int|
        0 <= i < a.nodes@.len() && 0 <= j < a.nodes@[i].vars@.len() implies (
    #[trigger] b.nodes@[i].vars@[j]).0 == a.nodes@[i].vars@[j].0 by {
        assert(class_frame(a.nodes@[i], b.nodes@[i]));
    }
    lemma_wf_same_structure(a, b);
}

proof fn lemma_class_busy_le(a: Seq<(String, VarSlot)>, b: Seq<(String, VarSlot)>, i: int)
    requires
        a.len() == b.len(),
        forall|j: int| 0 <= j < a.len() ==> slot_frame(a[j].1, (#[trigger] b[j]).1),
    ensures
        class_busy_from(b, i) <= class_busy_from(a, i),
    decreases a.len() - i,
{
    if 0 <= i < a.len() {
        assert(slot_frame(a[i].1, b[i].1));
        lemma_class_busy_le(a, b, i + 1);
    }
}

proof fn lemma_tree_busy_le_from(a: Seq<ClassNode>, b: Seq<ClassNode>, i: int)
    requires
        a.len() == b.len(),
        forall|k: int| 0 <= k < a.len() ==> class_frame(a[k], #[trigger] b[k]),
    ensures
        tree_busy_from(b, i) <= tree_busy_from(a, i),
    decreases a.len() - i,
{
    if 0 <= i < a.len() {
        assert(class_frame(a[i], b[i]));
        lemma_class_busy_le(a[i].vars@, b[i].vars@, 0);
        lemma_tree_busy_le_from(a, b, i + 1);
    }
}

/// Any step permitted by the frame can only close slots, never open them.
pub proof fn lemma_evolves_busy_le(a: ObjectTree, b: ObjectTree)
    requires
        tree_evolves(a, b),
    ensures
        tree_busy(b) <= tree_busy(a),
{
    lemma_tree_busy_le_from(a.nodes@, b.nodes@, 0);
}

proof fn lemma_class_busy_update(a: Seq<(String, VarSlot)>, b: Seq<(String, VarSlot)>, i: int, j: int)
    requires
        0 <= i,
        a.len() == b.len(),
        0 <= j < a.len(),
        slot_open(a[j].1),
        !slot_open(b[j].1),
        forall|k: int| 0 <= k < a.len() && k != j ==> (#[trigger] b[k]).1 == a[k].1,
    ensures
        i <= j ==> class_busy_from(b, i) < class_busy_from(a, i),
        i > j ==> class_busy_from(b, i) == class_busy_from(a, i),
    decreases a.len() - i,
{
    if 0 <= i < a.len() {
        lemma_class_busy_update(a, b, i + 1, j);
    }
}

proof fn lemma_tree_busy_update(a: Seq<ClassNode>, b: Seq<ClassNode>, i: int, ci: int, vj: int)
    requires
        0 <= i,
        a.len() == b.len(),
        0 <= ci < a.len(),
        0 <= vj < a[ci].vars@.len(),
        b[ci].vars@.len() == a[ci].vars@.len(),
        slot_open(a[ci].vars@[vj].1),
        !slot_open(b[ci].vars@[vj].1),
        forall|k: int| 0 <= k < a[ci].vars@.len() && k != vj ==> (#[trigger] b[ci].vars@[k]).1
            == a[ci].vars@[k].1,
        forall|k: int| 0 <= k < a.len() && k != ci ==> #[trigger] b[k] == a[k],
    ensures
        i <= ci ==> tree_busy_from(b, i) < tree_busy_from(a, i),
        i > ci ==> tree_busy_from(b, i) == tree_busy_from(a, i),
    decreases a.len() - i,
{
    if 0 <= i < a.len() {
        if i == ci {
            lemma_class_busy_update(a[ci].vars@, b[ci].vars@, 0, vj);
        }
        lemma_tree_busy_update(a, b, i + 1, ci, vj);
    }
}

/// Closing one open slot (marking it or storing its value) strictly lowers
/// the measure.
pub proof fn lemma_busy_close_slot(a: ObjectTree, b: ObjectTree, ci: int, vj: int)
    requires
        a.nodes@.len() == b.nodes@.len(),
        0 <= ci < a.nodes@.len(),
        0 <= vj < a.nodes@[ci].vars@.len(),
        b.nodes@[ci].vars@.len() == a.nodes@[ci].vars@.len(),
        slot_open(a.nodes@[ci].vars@[vj].1),
        !slot_open(b.nodes@[ci].vars@[vj].1),
        forall|k: int| 0 <= k < a.nodes@[ci].vars@.len() && k != vj ==> (#[trigger] b.nodes@[ci].vars@[k]).1 == a.nodes@[ci].vars@[k].1,
        forall|k: int| 0 <= k < a.nodes@.len() && k != ci ==> #[trigger] b.nodes@[k] == a.nodes@[k],
    ensures
        tree_busy(b) < tree_busy(a),
{
    lemma_tree_busy_update(a.nodes@, b.nodes@, 0, ci, vj);
}

} // verus!

verus! {

/// Declaration equality: same type path, same flags.
pub open spec fn decl_eq(a: Declaration, b: Declaration) -> bool {
    path_eq(a.type_path, b.type_path) && a.is_static == b.is_static && a.is_const_evaluable
        == b.is_const_evaluable
}

pub open spec fn slot_at(t: ObjectTree, ci: int, vi: int) -> VarSlot {
    t.nodes@[ci].vars@[vi].1
}

impl ObjectTree {
    pub fn new() -> (r: ObjectTree)
        ensures
            tree_wf(r),
            r.nodes@.len() == 0,
    {
        ObjectTree { nodes: Vec::new() }
    }

    /// Looks a class up by its absolute path.
    pub fn node_by_path(&self, path: &str) -> (r: Option<usize>)
        ensures
            match r {
                Some(i) => i < self.nodes@.len() && self.nodes@[i as int].path@ == path@,
                None => forall|i: int|
                    0 <= i < self.nodes@.len() ==> (#[trigger] self.nodes@[i]).path@ != path@,
            },
    {
        let goal = String::from_str(path);
        let mut i: usize = 0;
        while i < self.nodes.len()
            invariant
                i <= self.nodes@.len(),
                goal@ == path@,
                forall|j: int| 0 <= j < i ==> (#[trigger] self.nodes@[j]).path@ != path@,
            decreases self.nodes@.len() - i,
        {
            if self.nodes[i].path == goal {
                return Some(i);
            }
            i = i + 1;
        }
        None
    }

    /// The parent of a class, if it has one.
    pub fn parent_of(&self, ty: usize) -> (r: Option<usize>)
        requires
            ty < self.nodes@.len(),
        ensures
            r == self.nodes@[ty as int].parent,
    {
        self.nodes[ty].parent
    }

    /// The declaration a name resolves to from `ty`, walking the parent chain.
    #[verifier::loop_isolation(false)]
    pub fn declaration_of(&self, ty: usize, name: &str) -> (r: Option<Declaration>)
        requires
            tree_wf(*self),
            ty < self.nodes@.len(),
        ensures
            match decl_search(self.nodes@, ty as int, name@) {
                Some(d) => r matches Some(rd) && decl_eq(rd, d),
                None => r is None,
            },
    {
        let goal = String::from_str(name);
        let mut cur: usize = ty;
        loop
            invariant
                tree_wf(*self),
                cur < self.nodes@.len(),
                goal@ == name@,
                decl_search(self.nodes@, ty as int, name@) == decl_search(
                    self.nodes@,
                    cur as int,
                    name@,
                ),
            decreases cur,
        {
            let c = &self.nodes[cur];
            let mut i: usize = 0;
            while i < c.decls.len()
                invariant
                    i <= c.decls@.len(),
                    find_decl_from(c.decls@, name@, 0) == find_decl_from(c.decls@, name@, i as int),
                decreases c.decls@.len() - i,
            {
                if c.decls[i].0 == goal {
                    proof {
                        assert(find_decl_from(c.decls@, name@, i as int) == Some(i as int));
                    }
                    let d = &c.decls[i].1;
                    return Some(
                        Declaration {
                            type_path: crate::ast::dup_path(&d.type_path),
                            is_static: d.is_static,
                            is_const_evaluable: d.is_const_evaluable,
                        },
                    );
                }
                i = i + 1;
            }
            match c.parent {
                Some(p) => {
                    cur = p;
                },
                None => {
                    return None;
                },
            }
        }
    }

    /// The reduced value of a variable at exactly this class, if any.
    pub fn var_constant(&self, ty: usize, name: &str) -> (r: Option<Constant>)
        requires
            ty < self.nodes@.len(),
        ensures
            match find_var(self.nodes@[ty as int], name@) {
                Some(vi) => match slot_at(*self, ty as int, vi).constant {
                    Some(c) => r matches Some(rc) && crate::constant::const_eq(rc, c),
                    None => r is None,
                },
                None => r is None,
            },
    {
        proof {
            if find_var(self.nodes@[ty as int], name@) is Some {
                lemma_find_var_range(self.nodes@[ty as int].vars@, name@, 0);
            }
        }
        match find_var_index(&self.nodes[ty], name) {
            Some(vi) => {
                proof {
                    assert(Some(vi as int) == find_var(self.nodes@[ty as int], name@));
                    assert(vi < self.nodes@[ty as int].vars@.len());
                }
                match &self.nodes[ty].vars[vi].1.constant {
                    Some(c) => {
                        let rc = crate::constant::dup_constant(c);
                        proof {
                            assert(slot_at(*self, ty as int, vi as int).constant matches Some(sc)
                                && crate::constant::const_eq(rc, sc));
                        }
                        Some(rc)
                    },
                    None => None,
                }
            },
            None => None,
        }
    }
}

/// A found variable index lies in range and names the sought variable.
pub proof fn lemma_find_var_range(vars: Seq<(String, VarSlot)>, name: Seq<char>, i: int)
    requires
        find_var_from(vars, name, i) is Some,
    ensures
        ({
            let j = find_var_from(vars, name, i)->Some_0;
            i <= j < vars.len() && vars[j].0@ == name
        }),
    decreases vars.len() - i,
{
    if !(i < 0 || i >= vars.len()) && vars[i].0@ != name {
        lemma_find_var_range(vars, name, i + 1);
    }
}

/// The index of the named variable slot at exactly this class.
#[verifier::loop_isolation(false)]
pub fn find_var_index(c: &ClassNode, name: &str) -> (r: Option<usize>)
    ensures
        match find_var(*c, name@) {
            Some(vi) => r matches Some(x) && x as int == vi,
            None => r is None,
        },
{
    let goal = String::from_str(name);
    let mut i: usize = 0;
    while i < c.vars.len()
        invariant
            i <= c.vars@.len(),
            find_var_from(c.vars@, name@, 0) == find_var_from(c.vars@, name@, i as int),
        decreases c.vars@.len() - i,
    {
        if c.vars[i].0 == goal {
            proof {
                assert(find_var_from(c.vars@, name@, i as int) == Some(i as int));
            }
            return Some(i);
        }
        i = i + 1;
    }
    None
}

/// Declarations, parents and names never change across a fold step, so the
/// declaration search gives the same answer before and after.
pub proof fn lemma_decl_search_evolves(a: ObjectTree, b: ObjectTree, ty: int, name: Seq<char>)
    requires
        tree_evolves(a, b),
    ensures
        decl_search(b.nodes@, ty, name) == decl_search(a.nodes@, ty, name),
    decreases ty,
{
    if 0 <= ty < a.nodes@.len() {
        assert(class_frame(a.nodes@[ty], b.nodes@[ty]));
        match a.nodes@[ty].parent {
            Some(p) => {
                if p < ty {
                    lemma_decl_search_evolves(a, b, p as int, name);
                }
            },
            None => {},
        }
    }
}

/// Variable names never change across a fold step either.
pub proof fn lemma_find_var_evolves(a: ObjectTree, b: ObjectTree, ci: int, name: Seq<char>)
    requires
        tree_evolves(a, b),
        0 <= ci < a.nodes@.len(),
    ensures
        find_var(b.nodes@[ci], name) == find_var(a.nodes@[ci], name),
{
    assert(class_frame(a.nodes@[ci], b.nodes@[ci]));
    lemma_find_var_from_pointwise(a.nodes@[ci].vars@, b.nodes@[ci].vars@, name, 0);
}

proof fn lemma_find_var_from_pointwise(
    a: Seq<(String, VarSlot)>,
    b: Seq<(String, VarSlot)>,
    name: Seq<char>,
    i: int,
)
    requires
        a.len() == b.len(),
        forall|j: int| 0 <= j < a.len() ==> (#[trigger] b[j]).0 == a[j].0,
    ensures
        find_var_from(b, name, i) == find_var_from(a, name, i),
    decreases a.len() - i,
{
    if 0 <= i < a.len() {
        lemma_find_var_from_pointwise(a, b, name, i + 1);
    }
}

} // verus!

verus! {

/// No variable slot at or after `i` carries the name.
pub proof fn lemma_find_var_none(vars: Seq<(String, VarSlot)>, name: Seq<char>, i: int)
    requires
        0 <= i,
        find_var_from(vars, name, i) is None,
    ensures
        forall|j: int| i <= j < vars.len() ==> (#[trigger] vars[j]).0@ != name,
    decreases vars.len() - i,
{
    if i < vars.len() {
        lemma_find_var_none(vars, name, i + 1);
    }
}

impl ObjectTree {
    /// Adds a class under the given absolute path. The parent, if any, must
    /// already be present, which keeps the tree acyclic.
    pub fn add_class(&mut self, path: &str, parent: Option<usize>) -> (r: usize)
        requires
            tree_wf(*old(self)),
            parent matches Some(p) ==> p < old(self).nodes@.len(),
        ensures
            tree_wf(*final(self)),
            r == old(self).nodes@.len(),
            final(self).nodes@.len() == old(self).nodes@.len() + 1,
            forall|i: int|
                0 <= i < old(self).nodes@.len() ==> #[trigger] final(self).nodes@[i] == old(self).nodes@[i],
            final(self).nodes@[r as int].path@ == path@,
            final(self).nodes@[r as int].parent == parent,
            final(self).nodes@[r as int].vars@.len() == 0,
            final(self).nodes@[r as int].decls@.len() == 0,
    {
        let id = self.nodes.len();
        let node = ClassNode {
            path: String::from_str(path),
            parent,
            vars: Vec::new(),
            decls: Vec::new(),
        };
        self.nodes.push(node);
        id
    }

    /// Attaches declaration metadata for a name to a class.
    pub fn add_decl(
        &mut self,
        ty: usize,
        name: &str,
        type_path: TypePath,
        is_static: bool,
        is_const_evaluable: bool,
    )
        requires
            tree_wf(*old(self)),
            ty < old(self).nodes@.len(),
        ensures
            tree_wf(*final(self)),
            final(self).nodes@.len() == old(self).nodes@.len(),
            forall|i: int|
                0 <= i < old(self).nodes@.len() && i != ty as int ==> #[trigger] final(self).nodes@[i] == old(self).nodes@[i],
            final(self).nodes@[ty as int].path == old(self).nodes@[ty as int].path,
            final(self).nodes@[ty as int].parent == old(self).nodes@[ty as int].parent,
            final(self).nodes@[ty as int].vars == old(self).nodes@[ty as int].vars,
            final(self).nodes@[ty as int].decls@.len() == old(self).nodes@[ty as int].decls@.len()
                + 1,
            forall|j: int|
                0 <= j < old(self).nodes@[ty as int].decls@.len() ==> #[trigger] final(self).nodes@[ty as int].decls@[j] == old(self).nodes@[ty as int].decls@[j],
            ({
                let last = final(self).nodes@[ty as int].decls@.last();
                last.0@ == name@ && last.1.type_path == type_path && last.1.is_static == is_static
                    && last.1.is_const_evaluable == is_const_evaluable
            }),
    {
        let ghost t0 = *self;
        let entry = (
            String::from_str(name),
            Declaration { type_path, is_static, is_const_evaluable },
        );
        self.nodes[ty].decls.push(entry);
        proof {
            lemma_wf_same_structure(t0, *self);
        }
    }

    /// Adds a variable slot to a class. Returns false (and changes nothing)
    /// when the class already has a slot of that name.
    pub fn add_var(
        &mut self,
        ty: usize,
        name: &str,
        location: Location,
        expression: Option<Expression>,
    ) -> (r: bool)
        requires
            tree_wf(*old(self)),
            ty < old(self).nodes@.len(),
        ensures
            tree_wf(*final(self)),
            r == (find_var(old(self).nodes@[ty as int], name@) is None),
            !r ==> *final(self) == *old(self),
            r ==> final(self).nodes@.len() == old(self).nodes@.len() && (forall|i: int|
                0 <= i < old(self).nodes@.len() && i != ty as int ==> #[trigger] final(self).nodes@[i] == old(self).nodes@[i]) && final(self).nodes@[ty as int].path == old(self).nodes@[ty as int].path && final(self).nodes@[ty as int].parent == old(self).nodes@[ty as int].parent && final(self).nodes@[ty as int].decls == old(self).nodes@[ty as int].decls && final(self).nodes@[ty as int].vars@.len() == old(self).nodes@[ty as int].vars@.len() + 1 && (forall|j: int|
                0 <= j < old(self).nodes@[ty as int].vars@.len() ==> #[trigger] final(self).nodes@[ty as int].vars@[j] == old(self).nodes@[ty as int].vars@[j]) && ({
                let last = final(self).nodes@[ty as int].vars@.last();
                last.0@ == name@ && last.1.location == location && last.1.expression == expression
                    && last.1.constant is None && !last.1.being_evaluated
            }),
    {
        let ghost t0 = *self;
        match find_var_index(&self.nodes[ty], name) {
            Some(_) => false,
            None => {
                proof {
                    lemma_find_var_none(t0.nodes@[ty as int].vars@, name@, 0);
                }
                let slot = VarSlot { location, expression, constant: None, being_evaluated: false };
                let entry = (String::from_str(name), slot);
                self.nodes[ty].vars.push(entry);
                proof {
                    assert forall|i: int, j1: int, j2: int|
                        0 <= i < self.nodes@.len() && 0 <= j1 < self.nodes@[i].vars@.len() && 0
                            <= j2 < self.nodes@[i].vars@.len() && j1 != j2 implies (
                    #[trigger] self.nodes@[i].vars@[j1]).0@ != (
                    #[trigger] self.nodes@[i].vars@[j2]).0@ by {
                        if i == ty as int {
                            let oldv = t0.nodes@[ty as int].vars@;
                            if j1 < oldv.len() && j2 < oldv.len() {
                                assert(t0.nodes@[i].vars@[j1].0@ != t0.nodes@[i].vars@[j2].0@);
                            }
                        } else {
                            assert(self.nodes@[i] == t0.nodes@[i]);
                            assert(t0.nodes@[i].vars@[j1].0@ != t0.nodes@[i].vars@[j2].0@);
                        }
                    }
                }
                true
            },
        }
    }
}

} // verus!
