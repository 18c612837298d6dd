//! The document graph: the mutable, user-facing node graph.
//!
//! Nodes carry stable identities that are never reused; each input slot is
//! bound to a literal or to an edge naming another node's output. Binding is
//! type-checked at edit time against the registry's declared slot types and
//! coercions; a failing edit leaves the graph unchanged. Removing a node may
//! leave edges dangling; the graph is then dirty, and compilation fails fast
//! on it.

use vstd::prelude::*;

verus! {

use crate::value::{Ty, Value, ValueV, type_of, clone_value};
use crate::registry::{Registry, lookup_spec, coercible};

/// Execution-irrelevant node metadata.
#[derive(Clone, Copy, PartialEq, Eq, Structural, Debug)]
pub struct Metadata {
    pub position_x: i64,
    pub position_y: i64,
}

/// What an input slot is bound to.
#[derive(Debug)]
pub enum Binding {
    Literal(Value),
    Edge(u64),
}

/// The content of a binding.
pub enum BindingV {
    Literal(ValueV),
    Edge(u64),
}

impl View for Binding {
    type V = BindingV;

    open spec fn view(&self) -> BindingV {
        match self {
            Binding::Literal(v) => BindingV::Literal(v@),
            Binding::Edge(src) => BindingV::Edge(*src),
        }
    }
}

/// A document node.
#[derive(Debug)]
pub struct DocNode {
    pub id: u64,
    pub kind: u32,
    pub inputs: Vec<Binding>,
    pub metadata: Metadata,
}

/// The content of a document node.
pub struct DocNodeV {
    pub id: u64,
    pub kind: u32,
    pub inputs: Seq<BindingV>,
    pub metadata: Metadata,
}

impl View for DocNode {
    type V = DocNodeV;

    open spec fn view(&self) -> DocNodeV {
        DocNodeV {
            id: self.id,
            kind: self.kind,
            inputs: Seq::new(self.inputs@.len(), |i: int| self.inputs@[i]@),
            metadata: self.metadata,
        }
    }
}

/// A structural error: rejected before any computation runs.
#[derive(Clone, Copy, PartialEq, Eq, Structural, Debug)]
pub enum StructuralError {
    UnknownNodeKind(u32),
    TypeMismatch { expected: Ty, actual: Ty },
    DanglingReference { node: u64, slot: usize },
    CyclicGraph,
    OutputNotFound(u64),
}

/// The user-facing graph, an arena of nodes addressed by stable identity.
#[derive(Debug)]
pub struct DocumentGraph {
    pub nodes: Vec<DocNode>,
    pub next_id: u64,
}

impl View for DocumentGraph {
    type V = Seq<DocNodeV>;

    open spec fn view(&self) -> Seq<DocNodeV> {
        Seq::new(self.nodes@.len(), |i: int| self.nodes@[i]@)
    }
}

/// Index of the node with identity `id`, scanning from `i`.
pub open spec fn find_from(g: Seq<DocNodeV>, id: u64, i: int) -> Option<int>
    decreases g.len() - i when 0 <= i <= g.len()
{
    if i >= g.len() {
        None
    } else if g[i].id == id {
        Some(i)
    } else {
        find_from(g, id, i + 1)
    }
}

pub open spec fn find_node(g: Seq<DocNodeV>, id: u64) -> Option<int> {
    find_from(g, id, 0)
}

proof fn lemma_find_from(g: Seq<DocNodeV>, id: u64, i: int)
    requires
        0 <= i <= g.len(),
        forall|j: int| 0 <= j < i ==> (#[trigger] g[j]).id != id,
    ensures
        find_from(g, id, 0) == find_from(g, id, i),
    decreases i,
{
    if i > 0 {
        lemma_find_from(g, id, i - 1);
    }
}

pub open spec fn ids_unique(g: Seq<DocNodeV>) -> bool {
    forall|i: int, j: int|
        0 <= i < j < g.len() ==> (#[trigger] g[i]).id != (#[trigger] g[j]).id
}

/// Well-formed graph: identities are unique and below the allocator.
pub open spec fn graph_wf(g: Seq<DocNodeV>, next_id: u64) -> bool {
    &&& ids_unique(g)
    &&& forall|i: int| 0 <= i < g.len() ==> (#[trigger] g[i]).id < next_id
}

/// The default bindings a freshly added node of descriptor `di` gets.
pub open spec fn default_bindings(reg: &Registry, di: int) -> Seq<BindingV> {
    Seq::new(
        reg.descriptors@[di].inputs@.len(),
        |i: int| BindingV::Literal(reg.descriptors@[di].inputs@[i].default@),
    )
}

/// The outcome of `set_input`, and the graph it leaves behind.
pub open spec fn set_input_spec(
    g: Seq<DocNodeV>,
    id: u64,
    slot: usize,
    b: BindingV,
    reg: &Registry,
) -> Result<Seq<DocNodeV>, StructuralError> {
    match find_node(g, id) {
        None => Err(StructuralError::DanglingReference { node: id, slot }),
        Some(ni) => match lookup_spec(reg.descriptors@, g[ni].kind) {
            None => Err(StructuralError::UnknownNodeKind(g[ni].kind)),
            Some(di) => {
                let desc = reg.descriptors@[di];
                if slot >= desc.inputs@.len() || slot >= g[ni].inputs.len() {
                    Err(StructuralError::DanglingReference { node: id, slot })
                } else {
                    let expected = desc.inputs@[slot as int].ty;
                    let actual = match b {
                        BindingV::Literal(v) => Some(type_of(v)),
                        BindingV::Edge(src) => match find_node(g, src) {
                            None => None,
                            Some(si) => match lookup_spec(reg.descriptors@, g[si].kind) {
                                None => None,
                                Some(sdi) => Some(reg.descriptors@[sdi].output),
                            },
                        },
                    };
                    match actual {
                        None => Err(StructuralError::DanglingReference { node: id, slot }),
                        Some(actual_ty) => if expected == actual_ty || coercible(
                            reg.coercions@,
                            actual_ty,
                            expected,
                        ) {
                            let node = g[ni];
                            Ok(
                                g.update(
                                    ni,
                                    DocNodeV {
                                        id: node.id,
                                        kind: node.kind,
                                        inputs: node.inputs.update(slot as int, b),
                                        metadata: node.metadata,
                                    },
                                ),
                            )
                        } else {
                            Err(StructuralError::TypeMismatch { expected, actual: actual_ty })
                        },
                    }
                }
            },
        },
    }
}

/// Type safety: binding an edge or literal whose type neither matches the
/// slot's declared type nor has a registered coercion is rejected at
/// `set_input` time with `TypeMismatch` carrying the expected and actual
/// types — and, by `set_input`'s contract, the graph is left unchanged.
/// The mismatch is never deferred to evaluation.
pub proof fn lemma_incompatible_binding_rejected(
    g: Seq<DocNodeV>,
    id: u64,
    slot: usize,
    b: BindingV,
    reg: &Registry,
    ni: int,
    di: int,
    actual: Ty,
)
    requires
        find_node(g, id) == Some(ni),
        lookup_spec(reg.descriptors@, g[ni].kind) == Some(di),
        (slot as int) < reg.descriptors@[di].inputs@.len(),
        (slot as int) < g[ni].inputs.len(),
        match b {
            BindingV::Literal(v) => actual == type_of(v),
            BindingV::Edge(src) => find_node(g, src) matches Some(si) && lookup_spec(
                reg.descriptors@,
                g[si].kind,
            ) matches Some(sdi) && actual == reg.descriptors@[sdi].output,
        },
        actual != reg.descriptors@[di].inputs@[slot as int].ty,
        !coercible(reg.coercions@, actual, reg.descriptors@[di].inputs@[slot as int].ty),
    ensures
        set_input_spec(g, id, slot, b, reg) == Err::<Seq<DocNodeV>, StructuralError>(
            StructuralError::TypeMismatch {
                expected: reg.descriptors@[di].inputs@[slot as int].ty,
                actual,
            },
        ),
{
}

/// First dangling edge of `node`, scanning its slots from `j`.
pub open spec fn node_dangling_from(g: Seq<DocNodeV>, node: DocNodeV, j: int) -> Option<int>
    decreases node.inputs.len() - j when 0 <= j <= node.inputs.len()
{
    if j >= node.inputs.len() {
        None
    } else {
        match node.inputs[j] {
            BindingV::Edge(src) => if find_node(g, src) is None {
                Some(j)
            } else {
                node_dangling_from(g, node, j + 1)
            },
            BindingV::Literal(_) => node_dangling_from(g, node, j + 1),
        }
    }
}

/// First dangling edge of the whole graph, scanning nodes from `i`.
pub open spec fn first_dangling_from(g: Seq<DocNodeV>, i: int) -> Option<(u64, int)>
    decreases g.len() - i when 0 <= i <= g.len()
{
    if i >= g.len() {
        None
    } else {
        match node_dangling_from(g, g[i], 0) {
            Some(j) => Some((g[i].id, j)),
            None => first_dangling_from(g, i + 1),
        }
    }
}

pub open spec fn first_dangling(g: Seq<DocNodeV>) -> Option<(u64, int)> {
    first_dangling_from(g, 0)
}

proof fn lemma_node_dangling_from(g: Seq<DocNodeV>, node: DocNodeV, j: int)
    requires
        0 <= j <= node.inputs.len(),
        forall|l: int|
            0 <= l < j ==> !((#[trigger] node.inputs[l]) is Edge && find_node(
                g,
                node.inputs[l]->Edge_0,
            ) is None),
    ensures
        node_dangling_from(g, node, 0) == node_dangling_from(g, node, j),
    decreases j,
{
    if j > 0 {
        lemma_node_dangling_from(g, node, j - 1);
    }
}

proof fn lemma_first_dangling_from(g: Seq<DocNodeV>, i: int)
    requires
        0 <= i <= g.len(),
        forall|l: int| 0 <= l < i ==> node_dangling_from(g, #[trigger] g[l], 0) is None,
    ensures
        first_dangling_from(g, 0) == first_dangling_from(g, i),
    decreases i,
{
    if i > 0 {
        lemma_first_dangling_from(g, i - 1);
    }
}

proof fn lemma_remove_wf(g: Seq<DocNodeV>, next: u64, i: int)
    requires
        graph_wf(g, next),
        0 <= i < g.len(),
    ensures
        graph_wf(g.remove(i), next),
{
    let g2 = g.remove(i);
    assert forall|a: int, b: int| 0 <= a < b < g2.len() implies (#[trigger] g2[a]).id
        != (#[trigger] g2[b]).id by {
        assert(g2[a] == if a < i { g[a] } else { g[a + 1] });
        assert(g2[b] == if b < i { g[b] } else { g[b + 1] });
    }
    assert forall|a: int| 0 <= a < g2.len() implies (#[trigger] g2[a]).id < next by {
        assert(g2[a] == if a < i { g[a] } else { g[a + 1] });
    }
}

impl DocumentGraph {
    /// Index of the node with identity `id`.
    fn index_of(&self, id: u64) -> (r: Option<usize>)
        ensures
            (r is Some) == (find_node(self@, id) is Some),
            r matches Some(i) ==> find_node(self@, id) == Some(i as int) && i < self.nodes.len(),
    {
        let n = self.nodes.len();
        let mut i: usize = 0;
        while i < n
            invariant
                i <= n,
                n == self.nodes.len(),
                forall|j: int| 0 <= j < i ==> (#[trigger] self@[j]).id != id,
            decreases n - i,
        {
            if self.nodes[i].id == id {
                proof {
                    lemma_find_from(self@, id, i as int);
                }
                return Some(i);
            }
            i = i + 1;
        }
        proof {
            lemma_find_from(self@, id, n as int);
        }
        None
    }

    /// An empty graph.
    pub fn new() -> (r: DocumentGraph)
        ensures
            r@ == Seq::<DocNodeV>::empty(),
            r.next_id == 1,
            graph_wf(r@, r.next_id),
    {
        let r = DocumentGraph { nodes: Vec::new(), next_id: 1 };
        proof {
            assert(r@ =~= Seq::<DocNodeV>::empty());
        }
        r
    }

    /// Add a node of the given kind, its slots bound to the registry's
    /// default literals, and return its fresh identity.
    pub fn add_node(&mut self, kind: u32, metadata: Metadata, reg: &Registry) -> (r: Result<
        u64,
        StructuralError,
    >)
        requires
            graph_wf(old(self)@, old(self).next_id),
            old(self).next_id < 0xFFFF_FFFF_FFFF_FFFFu64,
        ensures
            graph_wf(final(self)@, final(self).next_id),
            lookup_spec(reg.descriptors@, kind) is None ==> r == Err::<u64, StructuralError>(
                StructuralError::UnknownNodeKind(kind),
            ) && final(self)@ == old(self)@ && final(self).next_id == old(self).next_id,
            lookup_spec(reg.descriptors@, kind) matches Some(di) ==> r == Ok::<u64, StructuralError>(
                old(self).next_id,
            ) && final(self).next_id == old(self).next_id + 1 && final(self)@ == old(self)@.push(
                DocNodeV {
                    id: old(self).next_id,
                    kind,
                    inputs: default_bindings(reg, di),
                    metadata,
                },
            ),
    {
        let desc = match reg.lookup(kind) {
            None => {
                return Err(StructuralError::UnknownNodeKind(kind));
            },
            Some(d) => d,
        };
        let mut inputs: Vec<Binding> = Vec::new();
        let mut i: usize = 0;
        while i < desc.inputs.len()
            invariant
                i <= desc.inputs.len(),
                inputs@.len() == i,
                forall|j: int|
                    0 <= j < i ==> (#[trigger] inputs@[j])@ == BindingV::Literal(
                        desc.inputs@[j].default@,
                    ),
            decreases desc.inputs.len() - i,
        {
            inputs.push(Binding::Literal(clone_value(&desc.inputs[i].default)));
            i = i + 1;
        }
        let id = self.next_id;
        self.nodes.push(DocNode { id, kind, inputs, metadata });
        self.next_id = id + 1;
        proof {
            let ghost di = lookup_spec(reg.descriptors@, kind)->Some_0;
            assert(self@ =~= old(self)@.push(
                DocNodeV { id, kind, inputs: default_bindings(reg, di), metadata },
            )) by {
                assert(self@[old(self)@.len() as int].inputs =~= default_bindings(reg, di));
                assert(forall|j: int|
                    0 <= j < old(self)@.len() ==> self@[j] == old(self)@[j]);
            }
        }
        Ok(id)
    }

    /// Rebind one input slot, validating the binding's type against the
    /// slot's declared type using the registry's coercions. On failure the
    /// graph is unchanged.
    pub fn set_input(&mut self, id: u64, slot: usize, binding: Binding, reg: &Registry) -> (r:
        Result<(), StructuralError>)
        requires
            graph_wf(old(self)@, old(self).next_id),
        ensures
            graph_wf(final(self)@, final(self).next_id),
            final(self).next_id == old(self).next_id,
            set_input_spec(old(self)@, id, slot, binding@, reg) matches Err(e) ==> r == Err::<
                (),
                StructuralError,
            >(e) && final(self)@ == old(self)@,
            set_input_spec(old(self)@, id, slot, binding@, reg) matches Ok(g2) ==> r is Ok && final(self)@ == g2,
    {
        let ghost g0 = self@;
        let ni = match self.index_of(id) {
            None => {
                return Err(StructuralError::DanglingReference { node: id, slot });
            },
            Some(ni) => ni,
        };
        let kind = self.nodes[ni].kind;
        let desc = match reg.lookup(kind) {
            None => {
                return Err(StructuralError::UnknownNodeKind(kind));
            },
            Some(d) => d,
        };
        if slot >= desc.inputs.len() || slot >= self.nodes[ni].inputs.len() {
            return Err(StructuralError::DanglingReference { node: id, slot });
        }
        let expected = desc.inputs[slot].ty;
        let actual: Ty = match &binding {
            Binding::Literal(v) => v.ty(),
            Binding::Edge(src) => {
                let src_node = match self.get(*src) {
                    None => {
                        return Err(StructuralError::DanglingReference { node: id, slot });
                    },
                    Some(sn) => sn,
                };
                let sdesc = match reg.lookup(src_node.kind) {
                    None => {
                        return Err(StructuralError::DanglingReference { node: id, slot });
                    },
                    Some(d) => d,
                };
                sdesc.output
            },
        };
        if !reg.compatible(actual, expected) {
            return Err(StructuralError::TypeMismatch { expected, actual });
        }
        let node_ref = &mut self.nodes[ni];
        node_ref.inputs[slot] = binding;
        proof {
            let g2 = set_input_spec(g0, id, slot, binding@, reg)->Ok_0;
            assert forall|l: int| 0 <= l < self@[ni as int].inputs.len() implies self@[
                ni as int
            ].inputs[l] == g2[ni as int].inputs[l] by {
                assert(self@[ni as int].inputs[l] == self.nodes@[ni as int].inputs@[l]@);
            }
            assert(self@[ni as int].inputs =~= g2[ni as int].inputs);
            assert(self@[ni as int] == g2[ni as int]);
            assert forall|j: int| 0 <= j < g2.len() implies self@[j] == g2[j] by {
                if j != ni {
                    assert(self@[j] == self.nodes@[j]@);
                    assert(self.nodes@[j] == old(self).nodes@[j]);
                }
            }
            assert(self@ =~= g2);
            assert forall|a: int| 0 <= a < g2.len() implies (#[trigger] g2[a]).id == g0[a].id by {}
            assert(graph_wf(self@, self.next_id));
        }
        Ok(())
    }

    /// Remove a node. Edges referencing it become dangling and must be
    /// rebound before the next compile. A missing identity is reported with
    /// the taxonomy's no-such-node error, `OutputNotFound`.
    pub fn remove_node(&mut self, id: u64) -> (r: Result<(), StructuralError>)
        requires
            graph_wf(old(self)@, old(self).next_id),
        ensures
            graph_wf(final(self)@, final(self).next_id),
            final(self).next_id == old(self).next_id,
            find_node(old(self)@, id) is None ==> r == Err::<(), StructuralError>(
                StructuralError::OutputNotFound(id),
            ) && final(self)@ == old(self)@,
            find_node(old(self)@, id) matches Some(ni) ==> r is Ok && final(self)@ == old(self)@.remove(ni),
    {
        let ghost g0 = self@;
        match self.index_of(id) {
            None => Err(StructuralError::OutputNotFound(id)),
            Some(i) => {
                self.nodes.remove(i);
                proof {
                    assert(self@ =~= g0.remove(i as int));
                    lemma_remove_wf(g0, self.next_id, i as int);
                }
                Ok(())
            },
        }
    }

    /// Look a node up by identity.
    pub fn get(&self, id: u64) -> (r: Option<&DocNode>)
        ensures
            (r is Some) == (find_node(self@, id) is Some),
            r matches Some(nd) ==> find_node(self@, id) matches Some(i) && nd@ == self@[i],
    {
        let mut i: usize = 0;
        let n = self.nodes.len();
        while i < n
            invariant
                i <= n,
                n == self.nodes.len(),
                forall|j: int| 0 <= j < i ==> (#[trigger] self@[j]).id != id,
            decreases n - i,
        {
            if self.nodes[i].id == id {
                proof {
                    lemma_find_from(self@, id, i as int);
                }
                return Some(&self.nodes[i]);
            }
            i = i + 1;
        }
        proof {
            lemma_find_from(self@, id, n as int);
        }
        None
    }

    /// The first dangling edge, if any: the graph is dirty exactly when one
    /// exists, and compilation fails fast on it.
    pub fn find_dangling(&self) -> (r: Option<(u64, usize)>)
        ensures
            (r is Some) == (first_dangling(self@) is Some),
            r matches Some(p) ==> first_dangling(self@) == Some((p.0, p.1 as int)),
    {
        let n = self.nodes.len();
        let mut i: usize = 0;
        while i < n
            invariant
                i <= n,
                n == self.nodes.len(),
                forall|l: int| 0 <= l < i ==> node_dangling_from(self@, #[trigger] self@[l], 0) is None,
            decreases n - i,
        {
            let m = self.nodes[i].inputs.len();
            let mut j: usize = 0;
            while j < m
                invariant
                    j <= m,
                    i < n,
                    n == self.nodes.len(),
                    m == self.nodes@[i as int].inputs.len(),
                    forall|l: int|
                        0 <= l < i ==> node_dangling_from(self@, #[trigger] self@[l], 0) is None,
                    forall|l: int|
                        0 <= l < j ==> !((#[trigger] self@[i as int].inputs[l]) is Edge
                            && find_node(self@, self@[i as int].inputs[l]->Edge_0) is None),
                decreases m - j,
            {
                match &self.nodes[i].inputs[j] {
                    Binding::Edge(src) => {
                        if self.get(*src).is_none() {
                            proof {
                                lemma_node_dangling_from(self@, self@[i as int], j as int);
                                lemma_first_dangling_from(self@, i as int);
                            }
                            return Some((self.nodes[i].id, j));
                        }
                    },
                    Binding::Literal(_) => {},
                }
                j = j + 1;
            }
            proof {
                lemma_node_dangling_from(self@, self@[i as int], m as int);
            }
            i = i + 1;
        }
        proof {
            lemma_first_dangling_from(self@, n as int);
        }
        None
    }

    /// A graph with a dangling edge is dirty; it must be repaired before it
    /// compiles again.
    pub fn is_dirty(&self) -> (r: bool)
        ensures
            r == (first_dangling(self@) is Some),
    {
        self.find_dangling().is_some()
    }
}

} // verus!
