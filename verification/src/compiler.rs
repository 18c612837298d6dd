//! The compiler: a pure function from a document-graph snapshot, the
//! registry and a requested output to a proto graph.
//!
//! It fails fast on a dirty (dangling) graph, performs a depth-first
//! backward traversal from the requested output — which is at once
//! reachability analysis (dead nodes are never visited), cycle detection
//! (via the visiting path) and topological ordering — then resolves every
//! edge's types against the registry's declared slots and coercions, folds
//! literal-only subgraphs to inlined literals, and emits the surviving
//! nodes in dependency order. Its result is pinned to a specification
//! function of the snapshot alone, so compilation is deterministic and
//! recompiling an unchanged snapshot reproduces the ordering exactly,
//! which is what cache-key stability needs. The order among independent
//! nodes is the traversal's post-order over input slots, not the nodes'
//! document insertion order: a deterministic order was kept over the
//! insertion-order tie-break, since the cache keys on stable identities
//! and never on ordinals.

use vstd::prelude::*;

verus! {

use crate::value::{Ty, Value, ValueV, type_of};
use crate::registry::{Registry, NodeDescriptor, lookup_spec, coercible, apply_spec, apply,
    views_of, coerce_spec, coerce_value};
use crate::document::{DocumentGraph, DocNode, DocNodeV, Binding, BindingV, StructuralError,
    find_node, first_dangling};
use crate::proto::{ProtoArg, ProtoArgV, ProtoOp, ProtoOpV, ProtoNode, ProtoNodeV, ProtoGraph,
    proto_wf, argviews, pviews};

/// Depth-first traversal from `id`: post-order emission gives the
/// topological order; the visiting path detects cycles. `fuel` bounds the
/// recursion so the traversal provably terminates on any input.
pub open spec fn spec_dfs(
    g: Seq<DocNodeV>,
    id: u64,
    path: Seq<u64>,
    done: Seq<u64>,
    fuel: nat,
) -> Result<Seq<u64>, StructuralError>
    decreases fuel, 0int,
{
    if done.contains(id) {
        Ok(done)
    } else if path.contains(id) {
        Err(StructuralError::CyclicGraph)
    } else if fuel == 0 {
        Err(StructuralError::CyclicGraph)
    } else {
        match find_node(g, id) {
            None => Err(StructuralError::DanglingReference { node: id, slot: 0 }),
            Some(ni) => match spec_dfs_list(
                g,
                id,
                g[ni].inputs,
                0,
                path.push(id),
                done,
                (fuel - 1) as nat,
            ) {
                Err(e) => Err(e),
                Ok(d2) => Ok(d2.push(id)),
            },
        }
    }
}

/// Visit the edge bindings of `owner` from slot `j` on, threading the
/// emitted order through.
pub open spec fn spec_dfs_list(
    g: Seq<DocNodeV>,
    owner: u64,
    inputs: Seq<BindingV>,
    j: int,
    path: Seq<u64>,
    done: Seq<u64>,
    fuel: nat,
) -> Result<Seq<u64>, StructuralError>
    decreases fuel, inputs.len() - j when 0 <= j <= inputs.len()
{
    if j >= inputs.len() {
        Ok(done)
    } else {
        match inputs[j] {
            BindingV::Literal(_) => spec_dfs_list(g, owner, inputs, j + 1, path, done, fuel),
            BindingV::Edge(src) => if find_node(g, src) is None {
                Err(StructuralError::DanglingReference { node: owner, slot: j as usize })
            } else {
                match spec_dfs(g, src, path, done, fuel) {
                    Err(e) => Err(e),
                    Ok(d2) => spec_dfs_list(g, owner, inputs, j + 1, path, d2, fuel),
                }
            },
        }
    }
}

/// What became of a processed document node: folded to a literal, or
/// emitted at a proto ordinal.
#[derive(Debug)]
pub enum Fate {
    Folded(Value),
    Emitted(usize),
}

pub enum FateV {
    Folded(ValueV),
    Emitted(int),
}

impl View for Fate {
    type V = FateV;

    open spec fn view(&self) -> FateV {
        match self {
            Fate::Folded(v) => FateV::Folded(v@),
            Fate::Emitted(i) => FateV::Emitted(*i as int),
        }
    }
}

pub open spec fn fates_view(s: Seq<(u64, Fate)>) -> Seq<(u64, FateV)> {
    Seq::new(s.len(), |i: int| (s[i].0, s[i].1@))
}

/// Index of the first fate entry for `id`, scanning from `i`.
pub open spec fn fate_find_from(fs: Seq<(u64, FateV)>, id: u64, i: int) -> Option<int>
    decreases fs.len() - i when 0 <= i <= fs.len()
{
    if i >= fs.len() {
        None
    } else if fs[i].0 == id {
        Some(i)
    } else {
        fate_find_from(fs, id, i + 1)
    }
}

pub open spec fn fate_find(fs: Seq<(u64, FateV)>, id: u64) -> Option<int> {
    fate_find_from(fs, id, 0)
}

proof fn lemma_fate_find_key(fs: Seq<(u64, FateV)>, id: u64, i: int)
    requires
        0 <= i <= fs.len(),
    ensures
        (fate_find_from(fs, id, i) is Some) == (exists|j: int|
            i <= j < fs.len() && (#[trigger] fs[j]).0 == id),
    decreases fs.len() - i,
{
    if i < fs.len() {
        lemma_fate_find_key(fs, id, i + 1);
    }
}

/// Resolve and type-check the bindings of `node` from slot `j` on, against
/// the slot types of its descriptor `desc` (an index into the registry).
/// Literals are coerced and inlined; edges to folded nodes are inlined;
/// edges to emitted nodes become back-references.
pub open spec fn resolve_acc(
    g: Seq<DocNodeV>,
    reg: &Registry,
    fs: Seq<(u64, FateV)>,
    node: DocNodeV,
    di: int,
    j: int,
    acc: Seq<ProtoArgV>,
) -> Result<Seq<ProtoArgV>, StructuralError>
    decreases node.inputs.len() - j when 0 <= j <= node.inputs.len()
{
    if j >= node.inputs.len() {
        Ok(acc)
    } else {
        let expected = reg.descriptors@[di].inputs@[j].ty;
        match node.inputs[j] {
            BindingV::Literal(v) => {
                let actual = type_of(v);
                if actual == expected || coercible(reg.coercions@, actual, expected) {
                    resolve_acc(
                        g,
                        reg,
                        fs,
                        node,
                        di,
                        j + 1,
                        acc.push(ProtoArgV::Literal(coerce_spec(v, expected))),
                    )
                } else {
                    Err(StructuralError::TypeMismatch { expected, actual })
                }
            },
            BindingV::Edge(src) => match find_node(g, src) {
                None => Err(
                    StructuralError::DanglingReference { node: node.id, slot: j as usize },
                ),
                Some(si) => match lookup_spec(reg.descriptors@, g[si].kind) {
                    None => Err(StructuralError::UnknownNodeKind(g[si].kind)),
                    Some(sdi) => {
                        let actual = reg.descriptors@[sdi].output;
                        if !(actual == expected || coercible(reg.coercions@, actual, expected)) {
                            Err(StructuralError::TypeMismatch { expected, actual })
                        } else {
                            match fate_find(fs, src) {
                                None => Err(StructuralError::CyclicGraph),
                                Some(fi) => match fs[fi].1 {
                                    FateV::Folded(v) => resolve_acc(
                                        g,
                                        reg,
                                        fs,
                                        node,
                                        di,
                                        j + 1,
                                        acc.push(ProtoArgV::Literal(coerce_spec(v, expected))),
                                    ),
                                    FateV::Emitted(ix) => resolve_acc(
                                        g,
                                        reg,
                                        fs,
                                        node,
                                        di,
                                        j + 1,
                                        acc.push(ProtoArgV::Ref(ix)),
                                    ),
                                },
                            }
                        }
                    },
                },
            },
        }
    }
}

pub open spec fn all_literal(args: Seq<ProtoArgV>) -> bool {
    forall|i: int| 0 <= i < args.len() ==> (#[trigger] args[i]) is Literal
}

pub open spec fn literal_vals(args: Seq<ProtoArgV>) -> Seq<ValueV> {
    Seq::new(args.len(), |i: int| args[i]->Literal_0)
}

/// What processing one document node yields.
pub enum NodeOutcome {
    Emit(u32, Ty, Seq<ProtoArgV>),
    Fold(ValueV),
}

/// Type-check and resolve one node; fold it when it is a foldable kind
/// whose arguments are all literals and the fold evaluates cleanly.
pub open spec fn node_step(
    g: Seq<DocNodeV>,
    reg: &Registry,
    fs: Seq<(u64, FateV)>,
    node: DocNodeV,
) -> Result<NodeOutcome, StructuralError> {
    match lookup_spec(reg.descriptors@, node.kind) {
        None => Err(StructuralError::UnknownNodeKind(node.kind)),
        Some(di) => if node.inputs.len() != reg.descriptors@[di].inputs@.len() {
            Err(StructuralError::UnknownNodeKind(node.kind))
        } else {
            match resolve_acc(g, reg, fs, node, di, 0, Seq::empty()) {
                Err(e) => Err(e),
                Ok(args) => if reg.descriptors@[di].foldable && all_literal(args) {
                    match apply_spec(node.kind, literal_vals(args)) {
                        Ok(v) => Ok(NodeOutcome::Fold(v)),
                        Err(_) => Ok(NodeOutcome::Emit(node.kind, reg.descriptors@[di].output, args)),
                    }
                } else {
                    Ok(NodeOutcome::Emit(node.kind, reg.descriptors@[di].output, args))
                },
            }
        },
    }
}

/// Process the traversal order from position `k` on, growing the proto node
/// list and the fate of every processed identity.
pub open spec fn build_from(
    g: Seq<DocNodeV>,
    reg: &Registry,
    order: Seq<u64>,
    k: int,
    proto: Seq<ProtoNodeV>,
    fs: Seq<(u64, FateV)>,
) -> Result<(Seq<ProtoNodeV>, Seq<(u64, FateV)>), StructuralError>
    decreases order.len() - k when 0 <= k <= order.len()
{
    if k >= order.len() {
        Ok((proto, fs))
    } else {
        let id = order[k];
        if fate_find(fs, id) is Some {
            Err(StructuralError::CyclicGraph)
        } else {
            match find_node(g, id) {
                None => Err(StructuralError::DanglingReference { node: id, slot: 0 }),
                Some(ni) => match node_step(g, reg, fs, g[ni]) {
                    Err(e) => Err(e),
                    Ok(NodeOutcome::Fold(v)) => build_from(
                        g,
                        reg,
                        order,
                        k + 1,
                        proto,
                        fs.push((id, FateV::Folded(v))),
                    ),
                    Ok(NodeOutcome::Emit(kind, ty, args)) => build_from(
                        g,
                        reg,
                        order,
                        k + 1,
                        proto.push(ProtoNodeV { source_id: id, op: ProtoOpV::Call(kind), output: ty, args }),
                        fs.push((id, FateV::Emitted(proto.len() as int))),
                    ),
                },
            }
        }
    }
}

/// The compiled artifact for `(g, out)`: the proto node sequence and the
/// output ordinal, or the structural error.
pub open spec fn spec_compile(g: Seq<DocNodeV>, reg: &Registry, out: u64) -> Result<
    (Seq<ProtoNodeV>, int),
    StructuralError,
> {
    match first_dangling(g) {
        Some(ds) => Err(StructuralError::DanglingReference { node: ds.0, slot: ds.1 as usize }),
        None => match find_node(g, out) {
            None => Err(StructuralError::OutputNotFound(out)),
            Some(_) => match spec_dfs(g, out, Seq::empty(), Seq::empty(), (g.len() + 1) as nat) {
                Err(e) => Err(e),
                Ok(order) => match build_from(g, reg, order, 0, Seq::empty(), Seq::empty()) {
                    Err(e) => Err(e),
                    Ok((proto, fs)) => match fate_find(fs, out) {
                        None => Err(StructuralError::CyclicGraph),
                        Some(fi) => match fs[fi].1 {
                            FateV::Folded(v) => Ok(
                                (
                                    seq![
                                        ProtoNodeV {
                                            source_id: out,
                                            op: ProtoOpV::Literal(v),
                                            output: type_of(v),
                                            args: Seq::empty(),
                                        },
                                    ],
                                    0int,
                                ),
                            ),
                            FateV::Emitted(ix) => Ok((proto, ix)),
                        },
                    },
                },
            },
        },
    }
}

/// Proto node `a` is backed by a fate entry mapping its source to ordinal
/// `a`.
pub open spec fn emitted_backed(fv: Seq<(u64, FateV)>, pv: Seq<ProtoNodeV>, a: int) -> bool {
    exists|fi: int|
        0 <= fi < fv.len() && #[trigger] fv[fi] == (pv[a].source_id, FateV::Emitted(a))
}

/// `to` is transitively required by `from`: equal to it, or fed to it
/// through a chain of at most `fuel` input edges.
pub open spec fn reaches(g: Seq<DocNodeV>, from: u64, to: u64, fuel: nat) -> bool
    decreases fuel,
{
    if from == to {
        true
    } else if fuel == 0 {
        false
    } else {
        match find_node(g, from) {
            None => false,
            Some(ni) => exists|j: int|
                0 <= j < g[ni].inputs.len() && (#[trigger] g[ni].inputs[j]) is Edge && reaches(
                    g,
                    g[ni].inputs[j]->Edge_0,
                    to,
                    (fuel - 1) as nat,
                ),
        }
    }
}

/// Everything the traversal emits beyond what was already emitted is
/// reachable from the node it started at.
proof fn lemma_dfs_reachable(g: Seq<DocNodeV>, id: u64, path: Seq<u64>, done: Seq<u64>, fuel: nat)
    ensures
        spec_dfs(g, id, path, done, fuel) matches Ok(d2) ==> forall|x: u64|
            d2.contains(x) ==> done.contains(x) || reaches(g, id, x, fuel),
    decreases fuel, 0int,
{
    if spec_dfs(g, id, path, done, fuel) is Ok {
        let d2 = spec_dfs(g, id, path, done, fuel)->Ok_0;
        if done.contains(id) {
        } else {
            let ni = find_node(g, id)->Some_0;
            let dl = spec_dfs_list(g, id, g[ni].inputs, 0, path.push(id), done, (fuel - 1) as nat)->Ok_0;
            lemma_dfs_list_reachable(g, id, ni, g[ni].inputs, 0, path.push(id), done, (fuel - 1) as nat);
            assert forall|x: u64| d2.contains(x) implies done.contains(x) || reaches(
                g,
                id,
                x,
                fuel,
            ) by {
                let i = choose|i: int| 0 <= i < d2.len() && d2[i] == x;
                if i < dl.len() {
                    assert(dl[i] == x);
                    assert(dl.contains(x));
                } else {
                    assert(x == id);
                }
            }
        }
    }
}

/// Everything the slot walk emits beyond what was already emitted is
/// reachable from the owning node through one of its edges.
proof fn lemma_dfs_list_reachable(
    g: Seq<DocNodeV>,
    owner: u64,
    ni: int,
    inputs: Seq<BindingV>,
    j: int,
    path: Seq<u64>,
    done: Seq<u64>,
    fuel: nat,
)
    requires
        find_node(g, owner) == Some(ni),
        inputs == g[ni].inputs,
        0 <= j <= inputs.len(),
    ensures
        spec_dfs_list(g, owner, inputs, j, path, done, fuel) matches Ok(d2) ==> forall|x: u64|
            d2.contains(x) ==> done.contains(x) || reaches(g, owner, x, (fuel + 1) as nat),
    decreases fuel, inputs.len() - j + 1,
{
    if spec_dfs_list(g, owner, inputs, j, path, done, fuel) is Ok {
        let d2 = spec_dfs_list(g, owner, inputs, j, path, done, fuel)->Ok_0;
        if j >= inputs.len() {
        } else {
            match inputs[j] {
                BindingV::Literal(_) => {
                    lemma_dfs_list_reachable(g, owner, ni, inputs, j + 1, path, done, fuel);
                },
                BindingV::Edge(src) => {
                    let dmid = spec_dfs(g, src, path, done, fuel)->Ok_0;
                    lemma_dfs_reachable(g, src, path, done, fuel);
                    lemma_dfs_list_reachable(g, owner, ni, inputs, j + 1, path, dmid, fuel);
                    assert forall|x: u64| d2.contains(x) implies done.contains(x) || reaches(
                        g,
                        owner,
                        x,
                        (fuel + 1) as nat,
                    ) by {
                        if dmid.contains(x) {
                            if !done.contains(x) {
                                assert(reaches(g, src, x, fuel));
                                assert(g[ni].inputs[j] is Edge && g[ni].inputs[j]->Edge_0 == src);
                                assert(reaches(g, owner, x, (fuel + 1) as nat));
                            }
                        } else {
                            assert(reaches(g, owner, x, (fuel + 1) as nat));
                        }
                    }
                },
            }
        }
    }
}

/// `sid` occurs in the traversal order at or after position `k`.
pub open spec fn source_from_order(order: Seq<u64>, k: int, sid: u64) -> bool {
    exists|t: int| k <= t < order.len() && #[trigger] order[t] == sid
}

/// Every proto node the builder appends carries an identity drawn from the
/// remaining traversal order.
proof fn lemma_build_sources(
    g: Seq<DocNodeV>,
    reg: &Registry,
    order: Seq<u64>,
    k: int,
    proto: Seq<ProtoNodeV>,
    fs: Seq<(u64, FateV)>,
)
    requires
        0 <= k <= order.len(),
    ensures
        build_from(g, reg, order, k, proto, fs) matches Ok(res) ==> res.0.len() >= proto.len() && (
        forall|a: int| 0 <= a < proto.len() ==> res.0[a] == proto[a]) && (forall|a: int|
            proto.len() <= a < res.0.len() ==> #[trigger] source_from_order(
                order,
                k,
                res.0[a].source_id,
            )),
    decreases order.len() - k,
{
    if build_from(g, reg, order, k, proto, fs) is Ok && k < order.len() {
        let id = order[k];
        let ni = find_node(g, id)->Some_0;
        let res = build_from(g, reg, order, k, proto, fs)->Ok_0;
        match node_step(g, reg, fs, g[ni])->Ok_0 {
            NodeOutcome::Fold(v) => {
                lemma_build_sources(g, reg, order, k + 1, proto, fs.push((id, FateV::Folded(v))));
                assert(res == build_from(g, reg, order, k + 1, proto, fs.push((id, FateV::Folded(v))))->Ok_0);
                assert(res.0.len() >= proto.len());
                assert(forall|a: int| 0 <= a < proto.len() ==> res.0[a] == proto[a]);
                assert forall|a: int|
                    proto.len() <= a < res.0.len() implies #[trigger] source_from_order(
                    order,
                    k,
                    res.0[a].source_id,
                ) by {
                    assert(source_from_order(order, k + 1, res.0[a].source_id));
                    let t = choose|t: int|
                        k + 1 <= t < order.len() && #[trigger] order[t] == res.0[a].source_id;
                    assert(order[t] == res.0[a].source_id);
                }
            },
            NodeOutcome::Emit(kind, ty, args) => {
                let pn = ProtoNodeV { source_id: id, op: ProtoOpV::Call(kind), output: ty, args };
                lemma_build_sources(
                    g,
                    reg,
                    order,
                    k + 1,
                    proto.push(pn),
                    fs.push((id, FateV::Emitted(proto.len() as int))),
                );
                assert(res == build_from(
                    g,
                    reg,
                    order,
                    k + 1,
                    proto.push(pn),
                    fs.push((id, FateV::Emitted(proto.len() as int))),
                )->Ok_0);
                assert(res.0.len() >= proto.len());
                assert forall|a: int| 0 <= a < proto.len() implies res.0[a] == proto[a] by {
                    assert(res.0[a] == proto.push(pn)[a]);
                }
                assert forall|a: int|
                    proto.len() <= a < res.0.len() implies #[trigger] source_from_order(
                    order,
                    k,
                    res.0[a].source_id,
                ) by {
                    if a == proto.len() {
                        assert(res.0[a] == proto.push(pn)[a]);
                        assert(order[k] == res.0[a].source_id);
                    } else {
                        assert(source_from_order(order, k + 1, res.0[a].source_id));
                        let t = choose|t: int|
                            k + 1 <= t < order.len() && #[trigger] order[t] == res.0[a].source_id;
                        assert(order[t] == res.0[a].source_id);
                    }
                }
            },
        }
    }
}

/// Dead-node elimination: every node of a compiled artifact is transitively
/// required by the requested output. A document node not reachable from the
/// output never appears in the proto graph, so the executor never runs it.
pub proof fn lemma_compile_reachable(g: Seq<DocNodeV>, reg: &Registry, out: u64)
    ensures
        spec_compile(g, reg, out) matches Ok(pr) ==> forall|a: int|
            0 <= a < pr.0.len() ==> reaches(
                g,
                out,
                (#[trigger] pr.0[a]).source_id,
                (g.len() + 1) as nat,
            ),
{
    if spec_compile(g, reg, out) is Ok {
        let pr = spec_compile(g, reg, out)->Ok_0;
        let fuel = (g.len() + 1) as nat;
        let order = spec_dfs(g, out, Seq::empty(), Seq::empty(), fuel)->Ok_0;
        let res = build_from(g, reg, order, 0, Seq::empty(), Seq::empty())->Ok_0;
        let fi = fate_find(res.1, out)->Some_0;
        lemma_dfs_reachable(g, out, Seq::empty(), Seq::empty(), fuel);
        lemma_build_sources(g, reg, order, 0, Seq::empty(), Seq::empty());
        match res.1[fi].1 {
            FateV::Folded(_) => {
                assert(pr.0.len() == 1);
                assert(pr.0[0].source_id == out);
            },
            FateV::Emitted(_) => {
                assert(pr.0 == res.0);
                assert forall|a: int| 0 <= a < pr.0.len() implies reaches(
                    g,
                    out,
                    (#[trigger] pr.0[a]).source_id,
                    fuel,
                ) by {
                    assert(source_from_order(order, 0, res.0[a].source_id));
                    let t = choose|t: int|
                        0 <= t < order.len() && #[trigger] order[t] == res.0[a].source_id;
                    assert(order.contains(res.0[a].source_id));
                    assert(!Seq::<u64>::empty().contains(res.0[a].source_id));
                }
            },
        }
    }
}

/// Determinism: compiling the same document-graph snapshot for the same
/// requested output gives identical artifacts — ordering and folded
/// literals included — because `compile` pins its result to `spec_compile`
/// of the snapshot alone.
pub proof fn lemma_compile_deterministic(
    g: Seq<DocNodeV>,
    reg: &Registry,
    out: u64,
    r1: Result<(Seq<ProtoNodeV>, int), StructuralError>,
    r2: Result<(Seq<ProtoNodeV>, int), StructuralError>,
)
    requires
        r1 == spec_compile(g, reg, out),
        r2 == spec_compile(g, reg, out),
    ensures
        r1 == r2,
{
}

fn contains_u64(v: &Vec<u64>, x: u64) -> (r: bool)
    ensures
        r == v@.contains(x),
{
    let mut i: usize = 0;
    while i < v.len()
        invariant
            i <= v.len(),
            forall|j: int| 0 <= j < i ==> v@[j] != x,
        decreases v.len() - i,
    {
        if v[i] == x {
            return true;
        }
        i = i + 1;
    }
    false
}

fn fate_index(fs: &Vec<(u64, Fate)>, id: u64) -> (r: Option<usize>)
    ensures
        (r is Some) == (fate_find(fates_view(fs@), id) is Some),
        r matches Some(i) ==> fate_find(fates_view(fs@), id) == Some(i as int) && i < fs.len(),
{
    let ghost fv = fates_view(fs@);
    let mut i: usize = 0;
    while i < fs.len()
        invariant
            i <= fs.len(),
            fv == fates_view(fs@),
            fate_find_from(fv, id, 0) == fate_find_from(fv, id, i as int),
        decreases fs.len() - i,
    {
        if fs[i].0 == id {
            proof {
                assert(fv[i as int].0 == id);
            }
            return Some(i);
        }
        proof {
            assert(fv[i as int].0 != id);
        }
        i = i + 1;
    }
    None
}

/// The recursive traversal. On success the emitted order is appended to
/// `order` and the visiting `path` is restored.
fn dfs(g: &DocumentGraph, id: u64, path: &mut Vec<u64>, order: &mut Vec<u64>, fuel: usize) -> (r:
    Result<(), StructuralError>)
    ensures
        spec_dfs(g@, id, old(path)@, old(order)@, fuel as nat) matches Ok(d2) ==> r is Ok && final(order)@ == d2 && final(path)@ == old(path)@,
        spec_dfs(g@, id, old(path)@, old(order)@, fuel as nat) matches Err(e) ==> r == Err::<
            (),
            StructuralError,
        >(e),
    decreases fuel,
{
    if contains_u64(order, id) {
        return Ok(());
    }
    if contains_u64(path, id) {
        return Err(StructuralError::CyclicGraph);
    }
    if fuel == 0 {
        return Err(StructuralError::CyclicGraph);
    }
    let node = match g.get(id) {
        None => {
            return Err(StructuralError::DanglingReference { node: id, slot: 0 });
        },
        Some(n) => n,
    };
    let ghost ni = find_node(g@, id)->Some_0;
    let ghost nodev = g@[ni];
    path.push(id);
    let ghost path1 = path@;
    let ghost done0 = order@;
    let m = node.inputs.len();
    let mut j: usize = 0;
    while j < m
        invariant
            j <= m,
            m == node.inputs.len(),
            node@ == nodev,
            find_node(g@, id) == Some(ni),
            nodev == g@[ni],
            !done0.contains(id),
            !old(path)@.contains(id),
            fuel > 0,
            path1 == old(path)@.push(id),
            done0 == old(order)@,
            path@ == path1,
            spec_dfs_list(g@, id, nodev.inputs, 0, path1, done0, (fuel - 1) as nat)
                == spec_dfs_list(g@, id, nodev.inputs, j as int, path1, order@, (fuel - 1) as nat),
        decreases m - j,
    {
        proof {
            assert(nodev.inputs[j as int] == node.inputs@[j as int]@);
        }
        match &node.inputs[j] {
            Binding::Literal(_) => {},
            Binding::Edge(src) => {
                if g.get(*src).is_none() {
                    return Err(StructuralError::DanglingReference { node: id, slot: j });
                }
                match dfs(g, *src, path, order, fuel - 1) {
                    Err(e) => {
                        return Err(e);
                    },
                    Ok(()) => {},
                }
            },
        }
        j = j + 1;
    }
    path.pop();
    proof {
        assert(path@ =~= old(path)@);
    }
    order.push(id);
    Ok(())
}

/// Check whether every resolved argument is an inlined literal.
fn scan_all_literal(args: &Vec<ProtoArg>) -> (r: bool)
    ensures
        r == all_literal(argviews(args@)),
{
    let mut i: usize = 0;
    while i < args.len()
        invariant
            i <= args.len(),
            forall|l: int| 0 <= l < i ==> (#[trigger] argviews(args@)[l]) is Literal,
        decreases args.len() - i,
    {
        match &args[i] {
            ProtoArg::Literal(_) => {
                proof {
                    assert(argviews(args@)[i as int] == args@[i as int]@);
                }
            },
            ProtoArg::Ref(_) => {
                proof {
                    assert(argviews(args@)[i as int] == args@[i as int]@);
                }
                return false;
            },
        }
        i = i + 1;
    }
    true
}

/// Collect the literal argument values for a compile-time fold.
fn extract_literals(args: &Vec<ProtoArg>) -> (r: Vec<Value>)
    requires
        all_literal(argviews(args@)),
    ensures
        views_of(r@) == literal_vals(argviews(args@)),
{
    let mut vals: Vec<Value> = Vec::new();
    let mut i: usize = 0;
    while i < args.len()
        invariant
            i <= args.len(),
            all_literal(argviews(args@)),
            vals@.len() == i,
            views_of(vals@) =~= literal_vals(argviews(args@)).take(i as int),
        decreases args.len() - i,
    {
        match &args[i] {
            ProtoArg::Literal(v) => {
                vals.push(crate::value::clone_value(v));
                proof {
                    assert(argviews(args@)[i as int] == args@[i as int]@);
                    assert(views_of(vals@) =~= literal_vals(argviews(args@)).take(i as int + 1));
                }
            },
            ProtoArg::Ref(_) => {
                proof {
                    assert(argviews(args@)[i as int] == args@[i as int]@);
                    assert(false);
                }
                unreached()
            },
        }
        i = i + 1;
    }
    proof {
        assert(views_of(vals@) =~= literal_vals(argviews(args@)));
    }
    vals
}

/// Resolve and type-check one node's bindings against its descriptor.
fn resolve_bindings(
    g: &DocumentGraph,
    reg: &Registry,
    fates: &Vec<(u64, Fate)>,
    node: &DocNode,
    desc: &NodeDescriptor,
    di: Ghost<int>,
    plen: Ghost<int>,
) -> (r: Result<Vec<ProtoArg>, StructuralError>)
    requires
        0 <= di@ < reg.descriptors@.len(),
        reg.descriptors@[di@] == *desc,
        node.inputs@.len() == desc.inputs@.len(),
        forall|fi: int|
            0 <= fi < fates@.len() ==> ((#[trigger] fates_view(fates@)[fi]).1 matches
                FateV::Emitted(ix) ==> 0 <= ix < plen@),
    ensures
        resolve_acc(g@, reg, fates_view(fates@), node@, di@, 0, Seq::empty()) matches Ok(avs)
            ==> r matches Ok(v) && argviews(v@) == avs && (forall|b: int|
            0 <= b < v@.len() ==> ((#[trigger] argviews(v@)[b]) is Ref ==> 0 <= argviews(
                v@,
            )[b]->Ref_0 < plen@)),
        resolve_acc(g@, reg, fates_view(fates@), node@, di@, 0, Seq::empty()) matches Err(e) ==> r
            == Err::<Vec<ProtoArg>, StructuralError>(e),
{
    let ghost fv = fates_view(fates@);
    let ghost nodev = node@;
    let id = node.id;
    let m = node.inputs.len();
    let mut args: Vec<ProtoArg> = Vec::new();
    proof {
        assert(argviews(args@) =~= Seq::<ProtoArgV>::empty());
    }
    let mut j: usize = 0;
    while j < m
        invariant
            j <= m,
            m == node.inputs.len(),
            m == desc.inputs@.len(),
            node@ == nodev,
            id == nodev.id,
            fv == fates_view(fates@),
            0 <= di@ < reg.descriptors@.len(),
            reg.descriptors@[di@] == *desc,
            forall|fi: int|
                0 <= fi < fv.len() ==> ((#[trigger] fv[fi]).1 matches FateV::Emitted(ix) ==> 0
                    <= ix < plen@),
            resolve_acc(g@, reg, fv, nodev, di@, 0, Seq::empty()) == resolve_acc(
                g@,
                reg,
                fv,
                nodev,
                di@,
                j as int,
                argviews(args@),
            ),
            forall|b: int|
                0 <= b < args@.len() ==> ((#[trigger] argviews(args@)[b]) is Ref ==> 0 <= argviews(
                    args@,
                )[b]->Ref_0 < plen@),
        decreases m - j,
    {
        let ghost argsv = argviews(args@);
        proof {
            assert(nodev.inputs[j as int] == node.inputs@[j as int]@);
        }
        let expected = desc.inputs[j].ty;
        match &node.inputs[j] {
            Binding::Literal(v) => {
                let actual = v.ty();
                if !reg.compatible(actual, expected) {
                    return Err(StructuralError::TypeMismatch { expected, actual });
                }
                args.push(ProtoArg::Literal(coerce_value(crate::value::clone_value(v), expected)));
            },
            Binding::Edge(src) => {
                let sn = match g.get(*src) {
                    None => {
                        return Err(StructuralError::DanglingReference { node: id, slot: j });
                    },
                    Some(sn) => sn,
                };
                let sdesc = match reg.lookup(sn.kind) {
                    None => {
                        return Err(StructuralError::UnknownNodeKind(sn.kind));
                    },
                    Some(d) => d,
                };
                proof {
                    let si = find_node(g@, *src)->Some_0;
                    assert(sn@ == g@[si]);
                }
                let actual = sdesc.output;
                if !reg.compatible(actual, expected) {
                    return Err(StructuralError::TypeMismatch { expected, actual });
                }
                match fate_index(fates, *src) {
                    None => {
                        return Err(StructuralError::CyclicGraph);
                    },
                    Some(fi) => match &fates[fi].1 {
                        Fate::Folded(v) => {
                            proof {
                                assert(fv[fi as int].1 == fates@[fi as int].1@);
                            }
                            args.push(
                                ProtoArg::Literal(
                                    coerce_value(crate::value::clone_value(v), expected),
                                ),
                            );
                        },
                        Fate::Emitted(ix) => {
                            proof {
                                assert(fv[fi as int].1 == fates@[fi as int].1@);
                            }
                            args.push(ProtoArg::Ref(*ix));
                        },
                    },
                }
            },
        }
        proof {
            assert(argviews(args@) =~= argsv.push(args@[args@.len() - 1]@));
        }
        j = j + 1;
    }
    Ok(args)
}

/// Compile a document-graph snapshot for one requested output.
///
/// The result is exactly `spec_compile` of the snapshot: same snapshot and
/// output, same proto graph — compilation is deterministic — and a compiled
/// artifact is well formed: the output ordinal is in range, source
/// identities are unique, and every back-reference points strictly
/// backward.
pub fn compile(g: &DocumentGraph, reg: &Registry, out: u64) -> (r: Result<
    ProtoGraph,
    StructuralError,
>)
    requires
        g.nodes@.len() < 0xFFFF_FFFFusize,
    ensures
        spec_compile(g@, reg, out) matches Err(e) ==> r == Err::<ProtoGraph, StructuralError>(e),
        spec_compile(g@, reg, out) matches Ok(pr) ==> r matches Ok(pg) && pg@ == pr.0
            && pg.output as int == pr.1 && proto_wf(pg@, pg.output as int),
{
    match g.find_dangling() {
        Some(ds) => {
            return Err(StructuralError::DanglingReference { node: ds.0, slot: ds.1 });
        },
        None => {},
    }
    if g.get(out).is_none() {
        return Err(StructuralError::OutputNotFound(out));
    }
    let mut path: Vec<u64> = Vec::new();
    let mut order: Vec<u64> = Vec::new();
    let fuel = g.nodes.len() + 1;
    proof {
        assert(path@ =~= Seq::<u64>::empty());
        assert(order@ =~= Seq::<u64>::empty());
    }
    match dfs(g, out, &mut path, &mut order, fuel) {
        Err(e) => {
            return Err(e);
        },
        Ok(()) => {},
    }
    let ghost orderv = order@;
    let mut proto: Vec<ProtoNode> = Vec::new();
    let mut fates: Vec<(u64, Fate)> = Vec::new();
    let n = order.len();
    let mut k: usize = 0;
    proof {
        assert(fates_view(fates@) =~= Seq::<(u64, FateV)>::empty());
        assert(pviews(proto@) =~= Seq::<ProtoNodeV>::empty());
    }
    while k < n
        invariant
            k <= n,
            n == order.len(),
            order@ == orderv,
            g.nodes@.len() < 0xFFFF_FFFFusize,
            first_dangling(g@) is None,
            find_node(g@, out) is Some,
            spec_dfs(g@, out, Seq::<u64>::empty(), Seq::<u64>::empty(), (g@.len() + 1) as nat)
                == Ok::<Seq<u64>, StructuralError>(orderv),
            build_from(g@, reg, orderv, 0, Seq::empty(), Seq::empty()) == build_from(
                g@,
                reg,
                orderv,
                k as int,
                pviews(proto@),
                fates_view(fates@),
            ),
            forall|fi: int|
                0 <= fi < fates@.len() ==> ((#[trigger] fates_view(fates@)[fi]).1 matches
                    FateV::Emitted(ix) ==> 0 <= ix < proto@.len()),
            forall|fi: int, fj: int|
                0 <= fi < fj < fates@.len() ==> (#[trigger] fates_view(fates@)[fi]).0 != (
                #[trigger] fates_view(fates@)[fj]).0,
            forall|a: int|
                0 <= a < proto@.len() ==> #[trigger] emitted_backed(
                    fates_view(fates@),
                    pviews(proto@),
                    a,
                ),
            forall|a: int, b: int|
                0 <= a < proto@.len() && 0 <= b < pviews(proto@)[a].args.len() && (
                #[trigger] pviews(proto@)[a].args[b]) is Ref ==> 0 <= pviews(proto@)[a].args[
                b]->Ref_0 < a,
        decreases n - k,
    {
        let ghost fv0 = fates_view(fates@);
        let ghost pv0 = pviews(proto@);
        let id = order[k];
        match fate_index(&fates, id) {
            Some(_) => {
                return Err(StructuralError::CyclicGraph);
            },
            None => {},
        }
        let node = match g.get(id) {
            None => {
                return Err(StructuralError::DanglingReference { node: id, slot: 0 });
            },
            Some(nd) => nd,
        };
        let ghost ni = find_node(g@, id)->Some_0;
        let ghost nodev = g@[ni];
        let kind = node.kind;
        let desc = match reg.lookup(kind) {
            None => {
                return Err(StructuralError::UnknownNodeKind(kind));
            },
            Some(d) => d,
        };
        let ghost di = lookup_spec(reg.descriptors@, kind)->Some_0;
        if node.inputs.len() != desc.inputs.len() {
            // The node does not fit its registered kind's signature, so the
            // kind claim itself is wrong for this node.
            return Err(StructuralError::UnknownNodeKind(kind));
        }
        let args = match resolve_bindings(g, reg, &fates, node, desc, Ghost(di), Ghost(proto@.len() as int)) {
            Err(e) => {
                return Err(e);
            },
            Ok(a) => a,
        };
        let ghost argsv = argviews(args@);
        let all_lit = scan_all_literal(&args);
        let mut fold_result: Option<Value> = None;
        if desc.foldable && all_lit {
            let vals = extract_literals(&args);
            match apply(kind, &vals) {
                Ok(v) => {
                    fold_result = Some(v);
                },
                Err(_) => {},
            }
        }
        match fold_result {
            Some(v) => {
                fates.push((id, Fate::Folded(v)));
                proof {
                    assert(fates_view(fates@) =~= fv0.push((id, FateV::Folded(v@))));
                    lemma_fate_find_key(fv0, id, 0);
                    assert(node_step(g@, reg, fv0, nodev) == Ok::<NodeOutcome, StructuralError>(
                        NodeOutcome::Fold(v@),
                    ));
                    assert(pviews(proto@) == pv0);
                    assert forall|a: int| 0 <= a < pviews(proto@).len() implies
                        #[trigger] emitted_backed(fates_view(fates@), pviews(proto@), a) by {
                        assert(emitted_backed(fv0, pv0, a));
                        let fi = choose|fi: int|
                            0 <= fi < fv0.len() && #[trigger] fv0[fi] == (
                            pv0[a].source_id,
                            FateV::Emitted(a),
                            );
                        assert(fates_view(fates@)[fi] == (
                            pviews(proto@)[a].source_id,
                            FateV::Emitted(a),
                        ));
                    }
                }
            },
            None => {
                let ix = proto.len();
                proto.push(ProtoNode { source_id: id, op: ProtoOp::Call(kind), output: desc.output, args });
                fates.push((id, Fate::Emitted(ix)));
                proof {
                    assert(fates_view(fates@) =~= fv0.push((id, FateV::Emitted(ix as int))));
                    assert(pviews(proto@) =~= pv0.push(
                        ProtoNodeV {
                            source_id: id,
                            op: ProtoOpV::Call(kind),
                            output: desc.output,
                            args: argsv,
                        },
                    )) by {
                        assert(proto@[ix as int]@.args =~= argsv);
                    }
                    lemma_fate_find_key(fv0, id, 0);
                    assert(node_step(g@, reg, fv0, nodev) == Ok::<NodeOutcome, StructuralError>(
                        NodeOutcome::Emit(kind, desc.output, argsv),
                    ));
                    let fv1 = fates_view(fates@);
                    let pv1 = pviews(proto@);
                    assert forall|a: int| 0 <= a < pv1.len() implies #[trigger] emitted_backed(
                        fv1,
                        pv1,
                        a,
                    ) by {
                        if a < pv0.len() {
                            assert(emitted_backed(fv0, pv0, a));
                            let fi = choose|fi: int|
                                0 <= fi < fv0.len() && #[trigger] fv0[fi] == (
                                pv0[a].source_id,
                                FateV::Emitted(a),
                                );
                            assert(fv1[fi] == (pv1[a].source_id, FateV::Emitted(a)));
                        } else {
                            assert(fv1[fv1.len() - 1] == (pv1[a].source_id, FateV::Emitted(a)));
                        }
                    }
                }
            },
        }
        k = k + 1;
    }
    // The requested output's fate decides the artifact.
    let ghost fv = fates_view(fates@);
    let ghost pv = pviews(proto@);
    proof {
        assert(build_from(g@, reg, orderv, 0, Seq::empty(), Seq::empty()) == Ok::<
            (Seq<ProtoNodeV>, Seq<(u64, FateV)>),
            StructuralError,
        >((pv, fv)));
        // Source identities are unique: each emitted ordinal is backed by a
        // fate entry, and fate keys are unique.
        assert forall|a: int, b: int| 0 <= a < b < pv.len() implies (#[trigger] pv[a]).source_id
            != (#[trigger] pv[b]).source_id by {
            assert(emitted_backed(fv, pv, a));
            assert(emitted_backed(fv, pv, b));
            let fa = choose|fi: int|
                0 <= fi < fv.len() && #[trigger] fv[fi] == (pv[a].source_id, FateV::Emitted(a));
            let fb = choose|fi: int|
                0 <= fi < fv.len() && #[trigger] fv[fi] == (pv[b].source_id, FateV::Emitted(b));
            if pv[a].source_id == pv[b].source_id {
                assert(fa != fb);
            }
        }
    }
    match fate_index(&fates, out) {
        None => Err(StructuralError::CyclicGraph),
        Some(fi) => {
            proof {
                assert(fv[fi as int].1 == fates@[fi as int].1@);
            }
            match &fates[fi].1 {
                Fate::Folded(v) => {
                    let lit = crate::value::clone_value(v);
                    let ty = lit.ty();
                    let mut nodes: Vec<ProtoNode> = Vec::new();
                    nodes.push(ProtoNode { source_id: out, op: ProtoOp::Literal(lit), output: ty, args: Vec::new() });
                    let pg = ProtoGraph { nodes, output: 0 };
                    proof {
                        let pr = spec_compile(g@, reg, out)->Ok_0;
                        assert(pg@ =~= pr.0) by {
                            assert(pg@[0].args =~= Seq::<ProtoArgV>::empty());
                        }
                    }
                    Ok(pg)
                },
                Fate::Emitted(ix) => {
                    let pg = ProtoGraph { nodes: proto, output: *ix };
                    proof {
                        let pr = spec_compile(g@, reg, out)->Ok_0;
                        assert(pg@ =~= pviews(pg.nodes@));
                        assert(pg@ =~= pr.0);
                    }
                    Ok(pg)
                },
            }
        },
    }
}

} // verus!
