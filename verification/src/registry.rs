//! The node registry: the closed catalog of node kinds.
//!
//! Each kind names its input slot signatures (declared type and default
//! literal), its output type, whether a literal-only instance may be folded
//! at compile time, and — through [`apply`] — the computation it performs.
//! The registry also owns the coercion rules the compiler consults; they are
//! not ad hoc in the compiler. The registry is built once at startup and
//! read-only afterwards.

use vstd::prelude::*;

verus! {

use crate::num::{Rat, rat_in_range, rat_add_spec, rat_mul_spec, rat_div_spec, rat_add, rat_mul,
    rat_div};
use crate::bezier::{Point, ManipulatorGroup};
use crate::subpath::Subpath;
use crate::value::{Ty, Value, ValueV, type_of, clone_value};

pub const KIND_SCALAR_VALUE: u32 = 1;

pub const KIND_INPUT_SCALAR: u32 = 2;

pub const KIND_ADD: u32 = 3;

pub const KIND_MUL: u32 = 4;

pub const KIND_DIV: u32 = 5;

pub const KIND_DOUBLE: u32 = 6;

pub const KIND_BOOL_VALUE: u32 = 7;

pub const KIND_NOT: u32 = 8;

pub const KIND_VEC2_NEW: u32 = 9;

pub const KIND_PATH_VALUE: u32 = 10;

pub const KIND_TRANSLATE_PATH: u32 = 11;

/// Why a node computation failed.
#[derive(Clone, Copy, PartialEq, Eq, Structural, Debug)]
pub enum EvalErrorKind {
    UnknownKind,
    InvalidArguments,
    DivisionByZero,
    NumericOverflow,
}

/// An input slot: its declared type and its default literal.
pub struct InputSig {
    pub ty: Ty,
    pub default: Value,
}

/// One registered node kind.
pub struct NodeDescriptor {
    pub kind: u32,
    pub inputs: Vec<InputSig>,
    pub output: Ty,
    pub foldable: bool,
}

/// The catalog, plus the registered coercion rules `(from, to)`.
pub struct Registry {
    pub descriptors: Vec<NodeDescriptor>,
    pub coercions: Vec<(Ty, Ty)>,
}

/// Index of the first descriptor for `kind`, scanning from `i`.
pub open spec fn lookup_from(ds: Seq<NodeDescriptor>, kind: u32, i: int) -> Option<int>
    decreases ds.len() - i when 0 <= i <= ds.len()
{
    if i >= ds.len() {
        None
    } else if ds[i].kind == kind {
        Some(i)
    } else {
        lookup_from(ds, kind, i + 1)
    }
}

pub open spec fn lookup_spec(ds: Seq<NodeDescriptor>, kind: u32) -> Option<int> {
    lookup_from(ds, kind, 0)
}

proof fn lemma_lookup_from(ds: Seq<NodeDescriptor>, kind: u32, i: int)
    requires
        0 <= i <= ds.len(),
        forall|j: int| 0 <= j < i ==> (#[trigger] ds[j]).kind != kind,
    ensures
        lookup_from(ds, kind, 0) == lookup_from(ds, kind, i),
    decreases i,
{
    if i > 0 {
        lemma_lookup_from(ds, kind, i - 1);
    }
}

/// A coercion from `from` to `to` is registered.
pub open spec fn coercible(cs: Seq<(Ty, Ty)>, from: Ty, to: Ty) -> bool {
    exists|i: int| 0 <= i < cs.len() && #[trigger] cs[i] == (from, to)
}

/// The value `v` read at a slot of type `to`: converted when a conversion
/// applies, unchanged otherwise.
pub open spec fn coerce_spec(v: ValueV, to: Ty) -> ValueV {
    if type_of(v) == to {
        v
    } else {
        match v {
            ValueV::Boolean(b) => if to == Ty::Scalar {
                ValueV::Scalar(
                    Rat {
                        n: if b {
                            1
                        } else {
                            0
                        },
                        d: 1,
                    },
                )
            } else {
                v
            },
            _ => v,
        }
    }
}

/// Apply the registered coercion, if any.
pub fn coerce_value(v: Value, to: Ty) -> (r: Value)
    ensures
        r@ == coerce_spec(v@, to),
{
    let ty = v.ty();
    if ty == to {
        return v;
    }
    match v {
        Value::Boolean(b) => {
            if to == Ty::Scalar {
                Value::Scalar(
                    Rat {
                        n: if b {
                            1
                        } else {
                            0
                        },
                        d: 1,
                    },
                )
            } else {
                Value::Boolean(b)
            }
        },
        other => other,
    }
}

impl Registry {
    /// Find the descriptor for a node kind.
    pub fn lookup(&self, kind: u32) -> (r: Option<&NodeDescriptor>)
        ensures
            (r is Some) == (lookup_spec(self.descriptors@, kind) is Some),
            r matches Some(d) ==> lookup_spec(self.descriptors@, kind) matches Some(i) && 0 <= i
                < self.descriptors@.len() && *d == self.descriptors@[i],
    {
        let mut i: usize = 0;
        while i < self.descriptors.len()
            invariant
                i <= self.descriptors.len(),
                forall|j: int| 0 <= j < i ==> (#[trigger] self.descriptors@[j]).kind != kind,
            decreases self.descriptors.len() - i,
        {
            if self.descriptors[i].kind == kind {
                proof {
                    lemma_lookup_from(self.descriptors@, kind, i as int);
                }
                return Some(&self.descriptors[i]);
            }
            i = i + 1;
        }
        proof {
            lemma_lookup_from(self.descriptors@, kind, i as int);
        }
        None
    }

    /// Whether a value of type `from` may be bound to a slot of type `to`.
    pub fn compatible(&self, from: Ty, to: Ty) -> (r: bool)
        ensures
            r == (from == to || coercible(self.coercions@, from, to)),
    {
        if from == to {
            return true;
        }
        let mut i: usize = 0;
        while i < self.coercions.len()
            invariant
                i <= self.coercions.len(),
                forall|j: int| 0 <= j < i ==> #[trigger] self.coercions@[j] != (from, to),
            decreases self.coercions.len() - i,
        {
            let c = self.coercions[i];
            if c.0 == from && c.1 == to {
                proof {
                    assert(self.coercions@[i as int] == (from, to));
                }
                return true;
            }
            i = i + 1;
        }
        false
    }
}

// ------------------------------------------------------------------
// Computation semantics, one case per kind.
// ------------------------------------------------------------------
/// The views of a list of runtime values.
pub open spec fn views_of(s: Seq<Value>) -> Seq<ValueV> {
    Seq::new(s.len(), |i: int| s[i]@)
}

/// Translate a point by a delta; fails outside the arithmetic range.
pub open spec fn tr_point(pt: Point, d: Point) -> Option<Point> {
    if rat_in_range(pt.x) && rat_in_range(d.x) && rat_in_range(pt.y) && rat_in_range(d.y) {
        Some(Point { x: rat_add_spec(pt.x, d.x), y: rat_add_spec(pt.y, d.y) })
    } else {
        None
    }
}

pub open spec fn tr_handle(h: Option<Point>, d: Point) -> Option<Option<Point>> {
    match h {
        None => Some(None),
        Some(p) => match tr_point(p, d) {
            None => None,
            Some(p2) => Some(Some(p2)),
        },
    }
}

pub open spec fn tr_group(g: ManipulatorGroup, d: Point) -> Option<ManipulatorGroup> {
    match (tr_point(g.anchor, d), tr_handle(g.in_handle, d), tr_handle(g.out_handle, d)) {
        (Some(a), Some(ih), Some(oh)) => Some(
            ManipulatorGroup { anchor: a, in_handle: ih, out_handle: oh },
        ),
        _ => None,
    }
}

/// Translate the first `n` groups; `None` as soon as one fails.
pub open spec fn tr_groups(gs: Seq<ManipulatorGroup>, d: Point, n: int) -> Option<
    Seq<ManipulatorGroup>,
>
    decreases n,
{
    if n <= 0 {
        Some(Seq::empty())
    } else {
        match (tr_groups(gs, d, n - 1), tr_group(gs[n - 1], d)) {
            (Some(pre), Some(g)) => Some(pre.push(g)),
            _ => None,
        }
    }
}

/// What the computation of `kind` returns on `args`: the engine's value
/// semantics, one clause per registered kind.
pub open spec fn apply_spec(kind: u32, args: Seq<ValueV>) -> Result<ValueV, EvalErrorKind> {
    if kind == KIND_SCALAR_VALUE || kind == KIND_INPUT_SCALAR || kind == KIND_BOOL_VALUE || kind
        == KIND_PATH_VALUE {
        if args.len() == 1 {
            Ok(args[0])
        } else {
            Err(EvalErrorKind::InvalidArguments)
        }
    } else if kind == KIND_ADD || kind == KIND_MUL || kind == KIND_DIV {
        if args.len() == 2 && args[0] is Scalar && args[1] is Scalar {
            let a = args[0]->Scalar_0;
            let b = args[1]->Scalar_0;
            if kind == KIND_DIV && b.n == 0 {
                Err(EvalErrorKind::DivisionByZero)
            } else if rat_in_range(a) && rat_in_range(b) {
                if kind == KIND_ADD {
                    Ok(ValueV::Scalar(rat_add_spec(a, b)))
                } else if kind == KIND_MUL {
                    Ok(ValueV::Scalar(rat_mul_spec(a, b)))
                } else {
                    Ok(ValueV::Scalar(rat_div_spec(a, b)))
                }
            } else {
                Err(EvalErrorKind::NumericOverflow)
            }
        } else {
            Err(EvalErrorKind::InvalidArguments)
        }
    } else if kind == KIND_DOUBLE {
        if args.len() == 1 && args[0] is Scalar {
            let a = args[0]->Scalar_0;
            if rat_in_range(a) {
                Ok(ValueV::Scalar(rat_add_spec(a, a)))
            } else {
                Err(EvalErrorKind::NumericOverflow)
            }
        } else {
            Err(EvalErrorKind::InvalidArguments)
        }
    } else if kind == KIND_NOT {
        if args.len() == 1 && args[0] is Boolean {
            Ok(ValueV::Boolean(!args[0]->Boolean_0))
        } else {
            Err(EvalErrorKind::InvalidArguments)
        }
    } else if kind == KIND_VEC2_NEW {
        if args.len() == 2 && args[0] is Scalar && args[1] is Scalar {
            Ok(ValueV::Vec2(Point { x: args[0]->Scalar_0, y: args[1]->Scalar_0 }))
        } else {
            Err(EvalErrorKind::InvalidArguments)
        }
    } else if kind == KIND_TRANSLATE_PATH {
        if args.len() == 2 && args[0] is Path && args[1] is Vec2 {
            let gs = args[0]->Path_groups;
            let closed = args[0]->Path_closed;
            let d = args[1]->Vec2_0;
            match tr_groups(gs, d, gs.len() as int) {
                Some(res) => Ok(ValueV::Path { groups: res, closed }),
                None => Err(EvalErrorKind::NumericOverflow),
            }
        } else {
            Err(EvalErrorKind::InvalidArguments)
        }
    } else {
        Err(EvalErrorKind::UnknownKind)
    }
}

proof fn lemma_tr_fail(gs: Seq<ManipulatorGroup>, d: Point, i: int, n: int)
    requires
        0 <= i < n,
        tr_groups(gs, d, i + 1) is None,
    ensures
        tr_groups(gs, d, n) is None,
    decreases n,
{
    if n > i + 1 {
        lemma_tr_fail(gs, d, i, n - 1);
    }
}

/// Translate every group of a subpath.
fn translate_groups(gs: &Vec<ManipulatorGroup>, d: Point) -> (r: Result<
    Vec<ManipulatorGroup>,
    EvalErrorKind,
>)
    ensures
        tr_groups(gs@, d, gs@.len() as int) matches Some(res) ==> r matches Ok(v) && v@ == res,
        tr_groups(gs@, d, gs@.len() as int) is None ==> r == Err::<
            Vec<ManipulatorGroup>,
            EvalErrorKind,
        >(EvalErrorKind::NumericOverflow),
{
    let mut out: Vec<ManipulatorGroup> = Vec::new();
    let mut i: usize = 0;
    while i < gs.len()
        invariant
            i <= gs.len(),
            tr_groups(gs@, d, i as int) == Some(out@),
        decreases gs.len() - i,
    {
        let g = gs[i];
        // anchor
        let ax = rat_add(g.anchor.x, d.x);
        let ay = rat_add(g.anchor.y, d.y);
        let (nax, nay) = match (ax, ay) {
            (Some(x), Some(y)) => (x, y),
            _ => {
                proof {
                    assert(tr_groups(gs@, d, i as int + 1) is None);
                    lemma_tr_fail(gs@, d, i as int, gs@.len() as int);
                }
                return Err(EvalErrorKind::NumericOverflow);
            },
        };
        let nin = match g.in_handle {
            None => None,
            Some(p) => {
                match (rat_add(p.x, d.x), rat_add(p.y, d.y)) {
                    (Some(x), Some(y)) => Some(Point { x, y }),
                    _ => {
                        proof {
                            assert(tr_groups(gs@, d, i as int + 1) is None);
                            lemma_tr_fail(gs@, d, i as int, gs@.len() as int);
                        }
                        return Err(EvalErrorKind::NumericOverflow);
                    },
                }
            },
        };
        let nout = match g.out_handle {
            None => None,
            Some(p) => {
                match (rat_add(p.x, d.x), rat_add(p.y, d.y)) {
                    (Some(x), Some(y)) => Some(Point { x, y }),
                    _ => {
                        proof {
                            assert(tr_groups(gs@, d, i as int + 1) is None);
                            lemma_tr_fail(gs@, d, i as int, gs@.len() as int);
                        }
                        return Err(EvalErrorKind::NumericOverflow);
                    },
                }
            },
        };
        out.push(ManipulatorGroup { anchor: Point { x: nax, y: nay }, in_handle: nin, out_handle: nout });
        i = i + 1;
    }
    Ok(out)
}

/// Run the computation of `kind` on concrete arguments.
pub fn apply(kind: u32, args: &Vec<Value>) -> (r: Result<Value, EvalErrorKind>)
    ensures
        apply_spec(kind, views_of(args@)) matches Ok(v) ==> r matches Ok(x) && x@ == v,
        apply_spec(kind, views_of(args@)) matches Err(e) ==> r == Err::<Value, EvalErrorKind>(e),
{
    proof {
        assert(forall|i: int| 0 <= i < args@.len() ==> views_of(args@)[i] == args@[i]@);
    }
    if kind == KIND_SCALAR_VALUE || kind == KIND_INPUT_SCALAR || kind == KIND_BOOL_VALUE || kind
        == KIND_PATH_VALUE {
        if args.len() == 1 {
            Ok(clone_value(&args[0]))
        } else {
            Err(EvalErrorKind::InvalidArguments)
        }
    } else if kind == KIND_ADD || kind == KIND_MUL || kind == KIND_DIV {
        if args.len() != 2 {
            return Err(EvalErrorKind::InvalidArguments);
        }
        match (&args[0], &args[1]) {
            (Value::Scalar(a), Value::Scalar(b)) => {
                if kind == KIND_DIV && b.n == 0 {
                    return Err(EvalErrorKind::DivisionByZero);
                }
                let res = if kind == KIND_ADD {
                    rat_add(*a, *b)
                } else if kind == KIND_MUL {
                    rat_mul(*a, *b)
                } else {
                    rat_div(*a, *b)
                };
                match res {
                    Some(v) => Ok(Value::Scalar(v)),
                    None => Err(EvalErrorKind::NumericOverflow),
                }
            },
            _ => Err(EvalErrorKind::InvalidArguments),
        }
    } else if kind == KIND_DOUBLE {
        if args.len() != 1 {
            return Err(EvalErrorKind::InvalidArguments);
        }
        match &args[0] {
            Value::Scalar(a) => match rat_add(*a, *a) {
                Some(v) => Ok(Value::Scalar(v)),
                None => Err(EvalErrorKind::NumericOverflow),
            },
            _ => Err(EvalErrorKind::InvalidArguments),
        }
    } else if kind == KIND_NOT {
        if args.len() != 1 {
            return Err(EvalErrorKind::InvalidArguments);
        }
        match &args[0] {
            Value::Boolean(b) => Ok(Value::Boolean(!*b)),
            _ => Err(EvalErrorKind::InvalidArguments),
        }
    } else if kind == KIND_VEC2_NEW {
        if args.len() != 2 {
            return Err(EvalErrorKind::InvalidArguments);
        }
        match (&args[0], &args[1]) {
            (Value::Scalar(a), Value::Scalar(b)) => Ok(Value::Vec2(Point { x: *a, y: *b })),
            _ => Err(EvalErrorKind::InvalidArguments),
        }
    } else if kind == KIND_TRANSLATE_PATH {
        if args.len() != 2 {
            return Err(EvalErrorKind::InvalidArguments);
        }
        match (&args[0], &args[1]) {
            (Value::Path(s), Value::Vec2(d)) => match translate_groups(&s.manipulator_groups, *d) {
                Ok(gs) => Ok(
                    Value::Path(Subpath { manipulator_groups: gs, closed: s.closed }),
                ),
                Err(e) => Err(e),
            },
            _ => Err(EvalErrorKind::InvalidArguments),
        }
    } else {
        Err(EvalErrorKind::UnknownKind)
    }
}

/// The integers zero and one as canonical rationals, for slot defaults.
pub open spec fn rat_zero() -> Rat {
    Rat { n: 0, d: 1 }
}

pub open spec fn rat_one() -> Rat {
    Rat { n: 1, d: 1 }
}

/// Descriptor `d` is the one-slot kind with the given signature.
pub open spec fn desc1(
    d: NodeDescriptor,
    kind: u32,
    output: Ty,
    foldable: bool,
    ty0: Ty,
    def0: ValueV,
) -> bool {
    &&& d.kind == kind
    &&& d.output == output
    &&& d.foldable == foldable
    &&& d.inputs@.len() == 1
    &&& d.inputs@[0].ty == ty0
    &&& d.inputs@[0].default@ == def0
}

/// Descriptor `d` is the two-slot kind with the given signature.
pub open spec fn desc2(
    d: NodeDescriptor,
    kind: u32,
    output: Ty,
    foldable: bool,
    ty0: Ty,
    def0: ValueV,
    ty1: Ty,
    def1: ValueV,
) -> bool {
    &&& d.kind == kind
    &&& d.output == output
    &&& d.foldable == foldable
    &&& d.inputs@.len() == 2
    &&& d.inputs@[0].ty == ty0
    &&& d.inputs@[0].default@ == def0
    &&& d.inputs@[1].ty == ty1
    &&& d.inputs@[1].default@ == def1
}

/// The fixed catalog the application starts with: one descriptor per
/// registered kind, with the slot signatures, output types, foldability and
/// coercion rule spelled out.
pub fn default_registry() -> (r: Registry)
    ensures
        r.descriptors@.len() == 11,
        desc1(r.descriptors@[0], KIND_SCALAR_VALUE, Ty::Scalar, true, Ty::Scalar, ValueV::Scalar(rat_zero())),
        desc1(r.descriptors@[1], KIND_INPUT_SCALAR, Ty::Scalar, false, Ty::Scalar, ValueV::Scalar(rat_zero())),
        desc2(r.descriptors@[2], KIND_ADD, Ty::Scalar, true, Ty::Scalar, ValueV::Scalar(rat_zero()), Ty::Scalar, ValueV::Scalar(rat_zero())),
        desc2(r.descriptors@[3], KIND_MUL, Ty::Scalar, true, Ty::Scalar, ValueV::Scalar(rat_one()), Ty::Scalar, ValueV::Scalar(rat_one())),
        desc2(r.descriptors@[4], KIND_DIV, Ty::Scalar, true, Ty::Scalar, ValueV::Scalar(rat_zero()), Ty::Scalar, ValueV::Scalar(rat_one())),
        desc1(r.descriptors@[5], KIND_DOUBLE, Ty::Scalar, true, Ty::Scalar, ValueV::Scalar(rat_zero())),
        desc1(r.descriptors@[6], KIND_BOOL_VALUE, Ty::Boolean, true, Ty::Boolean, ValueV::Boolean(false)),
        desc1(r.descriptors@[7], KIND_NOT, Ty::Boolean, true, Ty::Boolean, ValueV::Boolean(false)),
        desc2(r.descriptors@[8], KIND_VEC2_NEW, Ty::Vec2, true, Ty::Scalar, ValueV::Scalar(rat_zero()), Ty::Scalar, ValueV::Scalar(rat_zero())),
        desc1(
            r.descriptors@[9],
            KIND_PATH_VALUE,
            Ty::Path,
            true,
            Ty::Path,
            (ValueV::Path { groups: Seq::empty(), closed: false }),
        ),
        desc2(
            r.descriptors@[10],
            KIND_TRANSLATE_PATH,
            Ty::Path,
            true,
            Ty::Path,
            (ValueV::Path { groups: Seq::empty(), closed: false }),
            Ty::Vec2,
            ValueV::Vec2(Point { x: rat_zero(), y: rat_zero() }),
        ),
        r.coercions@ == seq![(Ty::Boolean, Ty::Scalar)],
{
    let mut descriptors: Vec<NodeDescriptor> = Vec::new();
    let zero = Rat { n: 0, d: 1 };
    let one = Rat { n: 1, d: 1 };
    let mut sigs: Vec<InputSig> = Vec::new();
    sigs.push(InputSig { ty: Ty::Scalar, default: Value::Scalar(zero) });
    descriptors.push(
        NodeDescriptor { kind: KIND_SCALAR_VALUE, inputs: sigs, output: Ty::Scalar, foldable: true },
    );
    let mut sigs: Vec<InputSig> = Vec::new();
    sigs.push(InputSig { ty: Ty::Scalar, default: Value::Scalar(zero) });
    descriptors.push(
        NodeDescriptor {
            kind: KIND_INPUT_SCALAR,
            inputs: sigs,
            output: Ty::Scalar,
            foldable: false,
        },
    );
    let mut sigs: Vec<InputSig> = Vec::new();
    sigs.push(InputSig { ty: Ty::Scalar, default: Value::Scalar(zero) });
    sigs.push(InputSig { ty: Ty::Scalar, default: Value::Scalar(zero) });
    descriptors.push(
        NodeDescriptor { kind: KIND_ADD, inputs: sigs, output: Ty::Scalar, foldable: true },
    );
    let mut sigs: Vec<InputSig> = Vec::new();
    sigs.push(InputSig { ty: Ty::Scalar, default: Value::Scalar(one) });
    sigs.push(InputSig { ty: Ty::Scalar, default: Value::Scalar(one) });
    descriptors.push(
        NodeDescriptor { kind: KIND_MUL, inputs: sigs, output: Ty::Scalar, foldable: true },
    );
    let mut sigs: Vec<InputSig> = Vec::new();
    sigs.push(InputSig { ty: Ty::Scalar, default: Value::Scalar(zero) });
    sigs.push(InputSig { ty: Ty::Scalar, default: Value::Scalar(one) });
    descriptors.push(
        NodeDescriptor { kind: KIND_DIV, inputs: sigs, output: Ty::Scalar, foldable: true },
    );
    let mut sigs: Vec<InputSig> = Vec::new();
    sigs.push(InputSig { ty: Ty::Scalar, default: Value::Scalar(zero) });
    descriptors.push(
        NodeDescriptor { kind: KIND_DOUBLE, inputs: sigs, output: Ty::Scalar, foldable: true },
    );
    let mut sigs: Vec<InputSig> = Vec::new();
    sigs.push(InputSig { ty: Ty::Boolean, default: Value::Boolean(false) });
    descriptors.push(
        NodeDescriptor { kind: KIND_BOOL_VALUE, inputs: sigs, output: Ty::Boolean, foldable: true },
    );
    let mut sigs: Vec<InputSig> = Vec::new();
    sigs.push(InputSig { ty: Ty::Boolean, default: Value::Boolean(false) });
    descriptors.push(
        NodeDescriptor { kind: KIND_NOT, inputs: sigs, output: Ty::Boolean, foldable: true },
    );
    let mut sigs: Vec<InputSig> = Vec::new();
    sigs.push(InputSig { ty: Ty::Scalar, default: Value::Scalar(zero) });
    sigs.push(InputSig { ty: Ty::Scalar, default: Value::Scalar(zero) });
    descriptors.push(
        NodeDescriptor { kind: KIND_VEC2_NEW, inputs: sigs, output: Ty::Vec2, foldable: true },
    );
    let mut sigs: Vec<InputSig> = Vec::new();
    sigs.push(
        InputSig {
            ty: Ty::Path,
            default: Value::Path(Subpath { manipulator_groups: Vec::new(), closed: false }),
        },
    );
    descriptors.push(
        NodeDescriptor { kind: KIND_PATH_VALUE, inputs: sigs, output: Ty::Path, foldable: true },
    );
    let mut sigs: Vec<InputSig> = Vec::new();
    sigs.push(
        InputSig {
            ty: Ty::Path,
            default: Value::Path(Subpath { manipulator_groups: Vec::new(), closed: false }),
        },
    );
    sigs.push(InputSig { ty: Ty::Vec2, default: Value::Vec2(Point { x: zero, y: zero }) });
    descriptors.push(
        NodeDescriptor {
            kind: KIND_TRANSLATE_PATH,
            inputs: sigs,
            output: Ty::Path,
            foldable: true,
        },
    );
    let mut coercions: Vec<(Ty, Ty)> = Vec::new();
    coercions.push((Ty::Boolean, Ty::Scalar));
    let r = Registry { descriptors, coercions };
    proof {
        assert(r.coercions@ =~= seq![(Ty::Boolean, Ty::Scalar)]);
        assert(r.descriptors@[9].inputs@[0].default@ == (ValueV::Path {
            groups: Seq::<ManipulatorGroup>::empty(),
            closed: false,
        })) by {
            assert(r.descriptors@[9].inputs@[0].default@->Path_groups
                =~= Seq::<ManipulatorGroup>::empty());
        }
        assert(r.descriptors@[10].inputs@[0].default@ == (ValueV::Path {
            groups: Seq::<ManipulatorGroup>::empty(),
            closed: false,
        })) by {
            assert(r.descriptors@[10].inputs@[0].default@->Path_groups
                =~= Seq::<ManipulatorGroup>::empty());
        }
    }
    r
}

} // verus!
