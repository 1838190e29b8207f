//! Textual rendering of reduced values in the source language's own syntax.
//! A diagnostic aid for downstream tooling; round-tripping is not promised.
use vstd::prelude::*;

use crate::ast::{NewType, PathOp, TypePath};
use crate::constant::{Constant, ConstFn, TypedConstant};
use crate::floatbits::{float_text, float_text_bits};
use crate::fold::hex_digit;

verus! {

/// The character a path segment's separator renders as.
pub open spec fn op_char(op: PathOp) -> char {
    match op {
        PathOp::Slash => '/',
        PathOp::Dot => '.',
        PathOp::Colon => ':',
    }
}

/// A type path rendered with each segment's own separator.
pub open spec fn path_render_upto(p: TypePath, i: int) -> Seq<char>
    decreases i,
{
    if i <= 0 {
        Seq::empty()
    } else {
        path_render_upto(p, i - 1) + seq![op_char(p[i - 1].op)] + p[i - 1].name@
    }
}

/// Decimal digits of an unsigned value.
pub open spec fn dec_u32(n: u32) -> Seq<char>
    decreases n,
{
    if n < 10 {
        seq![hex_digit(n as int)]
    } else {
        dec_u32(n / 10).push(hex_digit((n % 10) as int))
    }
}

/// Decimal rendering of a signed value.
pub open spec fn dec_i32(i: i32) -> Seq<char> {
    if i < 0 {
        seq!['-'] + dec_u32((-(i as int)) as u32)
    } else {
        dec_u32(i as u32)
    }
}

pub open spec fn const_fn_text(f: ConstFn) -> Seq<char> {
    match f {
        ConstFn::Icon => seq!['i', 'c', 'o', 'n'],
        ConstFn::Matrix => seq!['m', 'a', 't', 'r', 'i', 'x'],
        ConstFn::Newlist => seq!['n', 'e', 'w', 'l', 'i', 's', 't'],
    }
}

/// What a reduced value renders as.
pub open spec fn render_const(c: Constant) -> Seq<char>
    decreases c, 0int,
{
    match c {
        Constant::Null(_) => seq!['n', 'u', 'l', 'l'],
        Constant::Int(i) => dec_i32(i),
        Constant::Float(b) => float_text(b),
        Constant::String(s) => seq!['"'] + s@ + seq!['"'],
        Constant::Resource(s) => seq!['\''] + s@ + seq!['\''],
        Constant::List(elems) => seq!['l', 'i', 's', 't', '('] + render_elems(elems, 0) + seq![')'],
        Constant::Call(f, args) => const_fn_text(f) + seq!['('] + render_args(args, 0) + seq![')'],
        Constant::Prefab(p) => path_render_upto(p.path, p.path@.len() as int),
        Constant::New { type_, args } => {
            let head = seq!['n', 'e', 'w'] + match type_ {
                NewType::Implicit => Seq::<char>::empty(),
                NewType::Prefab(p) => path_render_upto(p.path, p.path@.len() as int),
                NewType::Ident(n) => n@,
            };
            head + match args {
                Some(v) => seq!['('] + render_args(v, 0) + seq![')'],
                None => Seq::<char>::empty(),
            }
        },
    }
}

pub open spec fn render_args(v: Vec<Constant>, i: int) -> Seq<char>
    decreases v, v.len() - i,
{
    if i < 0 || i >= v.len() {
        Seq::empty()
    } else if i == v.len() - 1 {
        render_const(v[i])
    } else {
        render_const(v[i]) + seq![',', ' '] + render_args(v, i + 1)
    }
}

pub open spec fn render_elems(v: Vec<(Constant, Option<Constant>)>, i: int) -> Seq<char>
    decreases v, v.len() - i,
{
    if i < 0 || i >= v.len() {
        Seq::empty()
    } else {
        let entry = render_const(v[i].0) + match v[i].1 {
            Some(x) => seq![' ', '=', ' '] + render_const(x),
            None => Seq::<char>::empty(),
        };
        if i == v.len() - 1 {
            entry
        } else {
            entry + seq![',', ' '] + render_elems(v, i + 1)
        }
    }
}

fn push_dec_u32(out: &mut String, n: u32)
    ensures
        final(out)@ == old(out)@ + dec_u32(n),
    decreases n,
{
    if n >= 10 {
        push_dec_u32(out, n / 10);
    }
    let d = n % 10;
    let s: &str = match d {
        0 => "0",
        1 => "1",
        2 => "2",
        3 => "3",
        4 => "4",
        5 => "5",
        6 => "6",
        7 => "7",
        8 => "8",
        _ => "9",
    };
    proof {
        reveal_strlit("0");
        reveal_strlit("1");
        reveal_strlit("2");
        reveal_strlit("3");
        reveal_strlit("4");
        reveal_strlit("5");
        reveal_strlit("6");
        reveal_strlit("7");
        reveal_strlit("8");
        reveal_strlit("9");
        assert(s@ =~= seq![hex_digit(d as int)]);
    }
    out.append(s);
    proof {
        assert(final(out)@ =~= old(out)@ + dec_u32(n));
    }
}

fn push_dec_i32(out: &mut String, i: i32)
    ensures
        final(out)@ == old(out)@ + dec_i32(i),
{
    if i < 0 {
        proof {
            reveal_strlit("-");
        }
        out.append("-");
        let mag: u32 = (-(i as i64)) as u32;
        push_dec_u32(out, mag);
        proof {
            assert(final(out)@ =~= old(out)@ + dec_i32(i));
        }
    } else {
        push_dec_u32(out, i as u32);
    }
}

fn push_path(out: &mut String, p: &TypePath)
    ensures
        final(out)@ == old(out)@ + path_render_upto(*p, p@.len() as int),
{
    let mut i: usize = 0;
    while i < p.len()
        invariant
            i <= p@.len(),
            out@ == old(out)@ + path_render_upto(*p, i as int),
        decreases p@.len() - i,
    {
        let opc: &str = match p[i].op {
            PathOp::Slash => "/",
            PathOp::Dot => ".",
            PathOp::Colon => ":",
        };
        proof {
            reveal_strlit("/");
            reveal_strlit(".");
            reveal_strlit(":");
            assert(opc@ =~= seq![op_char(p@[i as int].op)]);
        }
        out.append(opc);
        out.append(p[i].name.as_str());
        proof {
            assert(out@ =~= old(out)@ + path_render_upto(*p, i as int + 1));
        }
        i = i + 1;
    }
}

fn push_args_from(out: &mut String, v: &Vec<Constant>, i: usize)
    requires
        i <= v@.len(),
    ensures
        final(out)@ == old(out)@ + render_args(*v, i as int),
    decreases *v, v@.len() - i, 0int,
{
    if i < v.len() {
        push_const(out, &v[i]);
        if i + 1 < v.len() {
            proof {
                reveal_strlit(", ");
            }
            out.append(", ");
            push_args_from(out, v, i + 1);
        }
    }
    proof {
        assert(final(out)@ =~= old(out)@ + render_args(*v, i as int));
    }
}

fn push_elems_from(out: &mut String, v: &Vec<(Constant, Option<Constant>)>, i: usize)
    requires
        i <= v@.len(),
    ensures
        final(out)@ == old(out)@ + render_elems(*v, i as int),
    decreases *v, v@.len() - i, 0int,
{
    if i < v.len() {
        push_const(out, &v[i].0);
        match &v[i].1 {
            Some(x) => {
                proof {
                    reveal_strlit(" = ");
                }
                out.append(" = ");
                push_const(out, x);
            },
            None => {},
        }
        if i + 1 < v.len() {
            proof {
                reveal_strlit(", ");
            }
            out.append(", ");
            push_elems_from(out, v, i + 1);
        }
    }
    proof {
        assert(final(out)@ =~= old(out)@ + render_elems(*v, i as int));
    }
}

fn push_const_fn(out: &mut String, f: ConstFn)
    ensures
        final(out)@ == old(out)@ + const_fn_text(f),
{
    let s: &str = match f {
        ConstFn::Icon => "icon",
        ConstFn::Matrix => "matrix",
        ConstFn::Newlist => "newlist",
    };
    proof {
        reveal_strlit("icon");
        reveal_strlit("matrix");
        reveal_strlit("newlist");
        assert(s@ =~= const_fn_text(f));
    }
    out.append(s);
}

/// Appends the rendering of a reduced value.
fn push_const(out: &mut String, c: &Constant)
    ensures
        final(out)@ == old(out)@ + render_const(*c),
    decreases *c, 0int, 0int,
{
    match c {
        Constant::Null(_) => {
            proof {
                reveal_strlit("null");
                assert("null"@ =~= seq!['n', 'u', 'l', 'l']);
            }
            out.append("null");
        },
        Constant::Int(i) => {
            push_dec_i32(out, *i);
        },
        Constant::Float(b) => {
            let t = float_text_bits(*b);
            out.append(t.as_str());
        },
        Constant::String(s) => {
            proof {
                reveal_strlit("\"");
            }
            out.append("\"");
            out.append(s.as_str());
            out.append("\"");
            proof {
                assert(final(out)@ =~= old(out)@ + render_const(*c));
            }
        },
        Constant::Resource(s) => {
            proof {
                reveal_strlit("'");
            }
            out.append("'");
            out.append(s.as_str());
            out.append("'");
            proof {
                assert(final(out)@ =~= old(out)@ + render_const(*c));
            }
        },
        Constant::List(elems) => {
            proof {
                reveal_strlit("list(");
                reveal_strlit(")");
                assert("list("@ =~= seq!['l', 'i', 's', 't', '(']);
            }
            out.append("list(");
            push_elems_from(out, elems, 0);
            out.append(")");
            proof {
                assert(final(out)@ =~= old(out)@ + render_const(*c));
            }
        },
        Constant::Call(f, args) => {
            proof {
                reveal_strlit("(");
                reveal_strlit(")");
            }
            push_const_fn(out, *f);
            out.append("(");
            push_args_from(out, args, 0);
            out.append(")");
            proof {
                assert(final(out)@ =~= old(out)@ + render_const(*c));
            }
        },
        Constant::Prefab(p) => {
            push_path(out, &p.path);
        },
        Constant::New { type_, args } => {
            proof {
                reveal_strlit("new");
                assert("new"@ =~= seq!['n', 'e', 'w']);
            }
            out.append("new");
            match type_ {
                NewType::Implicit => {},
                NewType::Prefab(p) => {
                    push_path(out, &p.path);
                },
                NewType::Ident(n) => {
                    out.append(n.as_str());
                },
            }
            match args {
                Some(v) => {
                    proof {
                        reveal_strlit("(");
                        reveal_strlit(")");
                    }
                    out.append("(");
                    push_args_from(out, v, 0);
                    out.append(")");
                },
                None => {},
            }
            proof {
                assert(final(out)@ =~= old(out)@ + render_const(*c));
            }
        },
    }
}

impl Constant {
    /// The value rendered in the source language's syntax.
    pub fn render(&self) -> (r: String)
        ensures
            r@ == render_const(*self),
    {
        let mut out = String::new();
        push_const(&mut out, self);
        proof {
            assert(out@ =~= render_const(*self));
        }
        out
    }
}

impl ConstFn {
    /// The builtin's name.
    pub fn render(&self) -> (r: String)
        ensures
            r@ == const_fn_text(*self),
    {
        let mut out = String::new();
        push_const_fn(&mut out, *self);
        proof {
            assert(out@ =~= const_fn_text(*self));
        }
        out
    }
}

impl TypedConstant {
    /// Renders the carried constant.
    pub fn render(&self) -> (r: String)
        ensures
            r@ == render_const(self.constant),
    {
        self.constant.render()
    }
}

} // verus!
