//! Domain values and their closed set of types.
//!
//! The engine's values are modelled in specifications by [`ValueV`], a pure
//! mathematical datatype; every contract about computation results is stated
//! over that view, so equality of values is equality of content.

use vstd::prelude::*;

verus! {

use crate::num::Rat;
use crate::bezier::{Point, ManipulatorGroup, group_eq};
use crate::subpath::{Subpath, copy_groups};

/// The closed set of value types an edge can carry.
#[derive(Clone, Copy, PartialEq, Eq, Structural, Debug)]
pub enum Ty {
    Scalar,
    Boolean,
    Text,
    Vec2,
    Color,
    Path,
}

/// An RGBA color.
#[derive(Clone, Copy, PartialEq, Eq, Structural, Debug)]
pub struct Color {
    pub r: u8,
    pub g: u8,
    pub b: u8,
    pub a: u8,
}

/// A concrete runtime value.
#[derive(PartialEq, Debug)]
pub enum Value {
    Scalar(Rat),
    Boolean(bool),
    Text(String),
    Vec2(Point),
    Color(Color),
    Path(Subpath),
}

/// The mathematical content of a [`Value`].
pub enum ValueV {
    Scalar(Rat),
    Boolean(bool),
    Text(Seq<char>),
    Vec2(Point),
    Color(Color),
    Path { groups: Seq<ManipulatorGroup>, closed: bool },
}

impl View for Value {
    type V = ValueV;

    open spec fn view(&self) -> ValueV {
        match self {
            Value::Scalar(r) => ValueV::Scalar(*r),
            Value::Boolean(b) => ValueV::Boolean(*b),
            Value::Text(s) => ValueV::Text(s@),
            Value::Vec2(p) => ValueV::Vec2(*p),
            Value::Color(c) => ValueV::Color(*c),
            Value::Path(s) => ValueV::Path {
                groups: s.manipulator_groups@,
                closed: s.closed,
            },
        }
    }
}

/// The type a value belongs to.
pub open spec fn type_of(v: ValueV) -> Ty {
    match v {
        ValueV::Scalar(_) => Ty::Scalar,
        ValueV::Boolean(_) => Ty::Boolean,
        ValueV::Text(_) => Ty::Text,
        ValueV::Vec2(_) => Ty::Vec2,
        ValueV::Color(_) => Ty::Color,
        ValueV::Path { .. } => Ty::Path,
    }
}

impl Value {
    /// The type of this value.
    pub fn ty(&self) -> (r: Ty)
        ensures
            r == type_of(self@),
    {
        match self {
            Value::Scalar(_) => Ty::Scalar,
            Value::Boolean(_) => Ty::Boolean,
            Value::Text(_) => Ty::Text,
            Value::Vec2(_) => Ty::Vec2,
            Value::Color(_) => Ty::Color,
            Value::Path(_) => Ty::Path,
        }
    }
}

/// Deep copy with the same content.
pub fn clone_value(v: &Value) -> (r: Value)
    ensures
        r@ == v@,
{
    match v {
        Value::Scalar(x) => Value::Scalar(*x),
        Value::Boolean(x) => Value::Boolean(*x),
        Value::Text(s) => Value::Text(s.clone()),
        Value::Vec2(p) => Value::Vec2(*p),
        Value::Color(c) => Value::Color(*c),
        Value::Path(s) => Value::Path(
            Subpath { manipulator_groups: copy_groups(&s.manipulator_groups), closed: s.closed },
        ),
    }
}

/// Content equality of two subpaths.
pub fn subpath_eq(x: &Subpath, y: &Subpath) -> (r: bool)
    ensures
        r == (x.manipulator_groups@ == y.manipulator_groups@ && x.closed == y.closed),
{
    if x.closed != y.closed {
        return false;
    }
    if x.manipulator_groups.len() != y.manipulator_groups.len() {
        proof {
            assert(x.manipulator_groups@.len() != y.manipulator_groups@.len());
        }
        return false;
    }
    let n = x.manipulator_groups.len();
    let mut i: usize = 0;
    while i < n
        invariant
            i <= n,
            n == x.manipulator_groups.len(),
            n == y.manipulator_groups.len(),
            forall|j: int| 0 <= j < i ==> x.manipulator_groups@[j] == y.manipulator_groups@[j],
        decreases n - i,
    {
        if !group_eq(&x.manipulator_groups[i], &y.manipulator_groups[i]) {
            proof {
                assert(x.manipulator_groups@[i as int] != y.manipulator_groups@[i as int]);
            }
            return false;
        }
        i = i + 1;
    }
    proof {
        assert(x.manipulator_groups@ =~= y.manipulator_groups@);
    }
    true
}

/// A value's variant, its view's variant and its type determine each other.
proof fn lemma_ty_variant(v: Value)
    ensures
        (type_of(v@) == Ty::Scalar) == (v is Scalar),
        (type_of(v@) == Ty::Boolean) == (v is Boolean),
        (type_of(v@) == Ty::Text) == (v is Text),
        (type_of(v@) == Ty::Vec2) == (v is Vec2),
        (type_of(v@) == Ty::Color) == (v is Color),
        (type_of(v@) == Ty::Path) == (v is Path),
{
    match v {
        Value::Scalar(_) => {},
        Value::Boolean(_) => {},
        Value::Text(_) => {},
        Value::Vec2(_) => {},
        Value::Color(_) => {},
        Value::Path(_) => {},
    }
}

/// Content equality of two values.
pub fn value_eq(a: &Value, b: &Value) -> (r: bool)
    ensures
        r == (a@ == b@),
{
    proof {
        lemma_ty_variant(*a);
        lemma_ty_variant(*b);
    }
    let ta = a.ty();
    let tb = b.ty();
    if ta != tb {
        proof {
            if a@ == b@ {
                assert(type_of(a@) == type_of(b@));
            }
        }
        return false;
    }
    match a {
        Value::Scalar(x) => match b {
            Value::Scalar(y) => x == y,
            _ => unreached(),
        },
        Value::Boolean(x) => match b {
            Value::Boolean(y) => x == y,
            _ => unreached(),
        },
        Value::Text(x) => match b {
            Value::Text(y) => x.eq(y),
            _ => unreached(),
        },
        Value::Vec2(x) => match b {
            Value::Vec2(y) => x == y,
            _ => unreached(),
        },
        Value::Color(x) => match b {
            Value::Color(y) => x == y,
            _ => unreached(),
        },
        Value::Path(x) => match b {
            Value::Path(y) => subpath_eq(x, y),
            _ => unreached(),
        },
    }
}

} // verus!
