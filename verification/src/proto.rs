//! The proto graph: the compiled, immutable, ordinal-ordered artifact.
//!
//! Every argument is an inlined literal or a back-reference to an earlier
//! proto node, so a well-formed proto graph is acyclic by construction.

use vstd::prelude::*;

verus! {

use crate::value::{Ty, Value, ValueV};

/// An argument of a proto node.
#[derive(PartialEq, Debug)]
pub enum ProtoArg {
    Literal(Value),
    Ref(usize),
}

pub enum ProtoArgV {
    Literal(ValueV),
    Ref(int),
}

impl View for ProtoArg {
    type V = ProtoArgV;

    open spec fn view(&self) -> ProtoArgV {
        match self {
            ProtoArg::Literal(v) => ProtoArgV::Literal(v@),
            ProtoArg::Ref(i) => ProtoArgV::Ref(*i as int),
        }
    }
}

/// What a proto node does: carry a folded literal, or run a registered
/// computation.
#[derive(PartialEq, Debug)]
pub enum ProtoOp {
    Literal(Value),
    Call(u32),
}

pub enum ProtoOpV {
    Literal(ValueV),
    Call(u32),
}

impl View for ProtoOp {
    type V = ProtoOpV;

    open spec fn view(&self) -> ProtoOpV {
        match self {
            ProtoOp::Literal(v) => ProtoOpV::Literal(v@),
            ProtoOp::Call(k) => ProtoOpV::Call(*k),
        }
    }
}

/// One flattened node: the document node it came from, its resolved
/// operation and concrete output type, and its resolved arguments.
#[derive(PartialEq, Debug)]
pub struct ProtoNode {
    pub source_id: u64,
    pub op: ProtoOp,
    pub output: Ty,
    pub args: Vec<ProtoArg>,
}

pub struct ProtoNodeV {
    pub source_id: u64,
    pub op: ProtoOpV,
    pub output: Ty,
    pub args: Seq<ProtoArgV>,
}

impl View for ProtoNode {
    type V = ProtoNodeV;

    open spec fn view(&self) -> ProtoNodeV {
        ProtoNodeV {
            source_id: self.source_id,
            op: self.op@,
            output: self.output,
            args: Seq::new(self.args@.len(), |i: int| self.args@[i]@),
        }
    }
}

/// The compiled artifact: proto nodes in a valid topological order, and the
/// ordinal of the requested output.
#[derive(PartialEq, Debug)]
pub struct ProtoGraph {
    pub nodes: Vec<ProtoNode>,
    pub output: usize,
}

impl View for ProtoGraph {
    type V = Seq<ProtoNodeV>;

    open spec fn view(&self) -> Seq<ProtoNodeV> {
        Seq::new(self.nodes@.len(), |i: int| self.nodes@[i]@)
    }
}

/// The views of a list of proto args.
pub open spec fn argviews(s: Seq<ProtoArg>) -> Seq<ProtoArgV> {
    Seq::new(s.len(), |i: int| s[i]@)
}

/// The views of a list of proto nodes.
pub open spec fn pviews(s: Seq<ProtoNode>) -> Seq<ProtoNodeV> {
    Seq::new(s.len(), |i: int| s[i]@)
}

/// Every back-reference points strictly backward, source identities are
/// unique, and the output ordinal is in range.
pub open spec fn proto_wf(p: Seq<ProtoNodeV>, output: int) -> bool {
    &&& 0 <= output < p.len()
    &&& forall|i: int, j: int|
        0 <= i < p.len() && 0 <= j < p[i].args.len() && (#[trigger] p[i].args[j]) is Ref
            ==> 0 <= p[i].args[j]->Ref_0 < i
    &&& forall|i: int, j: int|
        0 <= i < j < p.len() ==> (#[trigger] p[i]).source_id != (#[trigger] p[j]).source_id
}

} // verus!
