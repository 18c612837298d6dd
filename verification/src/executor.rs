//! The executor: evaluates a proto graph in its stored topological order,
//! consulting the cache before running any computation.
//!
//! For each proto node it resolves the concrete argument values, applies
//! the registered coercions, and forms the node's fingerprint from them; a
//! cache hit under that fingerprint reuses the stored value without running
//! the computation, a miss runs it and stores the result under the
//! originating document identity. A failing computation aborts the whole
//! evaluation, reported with the failing node's identity and kind, and is
//! never cached. The returned value is pinned to a specification of the
//! proto graph alone, and when the cache has room for the whole run the
//! number of computations run is exactly the number of fingerprint misses
//! against the entry list the evaluation started from.

use vstd::prelude::*;

verus! {

use crate::value::{Value, ValueV, clone_value};
use crate::registry::{Registry, NodeDescriptor, EvalErrorKind, lookup_spec, apply_spec, apply,
    views_of, coerce_spec, coerce_value};
use crate::proto::{ProtoArg, ProtoArgV, ProtoOp, ProtoOpV, ProtoNode, ProtoNodeV, ProtoGraph,
    proto_wf};
use crate::cache::{Cache, CacheEntry, cache_wf, cache_hit, cache_model_at, lemma_hit_sound};

/// An evaluation failure: the originating node's identity and kind, and the
/// computation's own cause.
#[derive(Clone, Copy, PartialEq, Eq, Structural, Debug)]
pub struct EvalError {
    pub node: u64,
    pub kind: u32,
    pub cause: EvalErrorKind,
}

/// A successful evaluation: the requested output's value and how many node
/// computations actually ran.
#[derive(Debug)]
pub struct EvalOutcome {
    pub value: Value,
    pub computations: usize,
}

/// The concrete value an argument denotes, given the earlier nodes' values.
pub open spec fn raw_arg(a: ProtoArgV, pre: Seq<ValueV>) -> ValueV {
    match a {
        ProtoArgV::Literal(v) => v,
        ProtoArgV::Ref(ix) => pre[ix],
    }
}

/// The node's fingerprint arguments: its resolved values, coerced to the
/// descriptor's declared slot types.
pub open spec fn fp_args(pn: ProtoNodeV, pre: Seq<ValueV>, reg: &Registry, di: int) -> Seq<ValueV> {
    Seq::new(
        pn.args.len(),
        |j: int|
            if 0 <= j < reg.descriptors@[di].inputs@.len() {
                coerce_spec(raw_arg(pn.args[j], pre), reg.descriptors@[di].inputs@[j].ty)
            } else {
                raw_arg(pn.args[j], pre)
            },
    )
}

/// What evaluating one proto node yields, given the earlier nodes' values.
pub open spec fn eval_node(pn: ProtoNodeV, pre: Seq<ValueV>, reg: &Registry) -> Result<
    ValueV,
    EvalError,
> {
    match pn.op {
        ProtoOpV::Literal(v) => Ok(v),
        ProtoOpV::Call(kind) => match lookup_spec(reg.descriptors@, kind) {
            None => Err(EvalError { node: pn.source_id, kind, cause: EvalErrorKind::UnknownKind }),
            Some(di) => match apply_spec(kind, fp_args(pn, pre, reg, di)) {
                Ok(v) => Ok(v),
                Err(c) => Err(EvalError { node: pn.source_id, kind, cause: c }),
            },
        },
    }
}

/// The values of the first `n` proto nodes, or the first failure.
pub open spec fn spec_values(p: Seq<ProtoNodeV>, reg: &Registry, n: int) -> Result<
    Seq<ValueV>,
    EvalError,
>
    decreases n,
{
    if n <= 0 {
        Ok(Seq::empty())
    } else {
        match spec_values(p, reg, n - 1) {
            Err(e) => Err(e),
            Ok(pre) => match eval_node(p[n - 1], pre, reg) {
                Err(e) => Err(e),
                Ok(v) => Ok(pre.push(v)),
            },
        }
    }
}

/// What evaluating the whole proto graph returns for its output ordinal.
pub open spec fn spec_eval(p: Seq<ProtoNodeV>, reg: &Registry, output: int) -> Result<
    ValueV,
    EvalError,
> {
    match spec_values(p, reg, p.len() as int) {
        Err(e) => Err(e),
        Ok(vs) => Ok(vs[output]),
    }
}

/// 1 when node `i` is a computation that misses the entry list `es`, else 0.
pub open spec fn node_misses(p: Seq<ProtoNodeV>, reg: &Registry, es: Seq<CacheEntry>, i: int) -> int {
    match spec_values(p, reg, i) {
        Err(_) => 0,
        Ok(pre) => match p[i].op {
            ProtoOpV::Literal(_) => 0,
            ProtoOpV::Call(kind) => match lookup_spec(reg.descriptors@, kind) {
                None => 0,
                Some(di) => if cache_hit(es, p[i].source_id, kind, fp_args(p[i], pre, reg, di))
                    is Some {
                    0
                } else {
                    1
                },
            },
        },
    }
}

/// Number of the first `n` nodes whose fingerprints miss the entry list.
pub open spec fn miss_count(p: Seq<ProtoNodeV>, reg: &Registry, es: Seq<CacheEntry>, n: int) -> int
    decreases n,
{
    if n <= 0 {
        0
    } else {
        miss_count(p, reg, es, n - 1) + node_misses(p, reg, es, n - 1)
    }
}

/// The entry list serves every node of the proto graph.
pub open spec fn run_cached(p: Seq<ProtoNodeV>, reg: &Registry, es: Seq<CacheEntry>) -> bool {
    forall|i: int| 0 <= i < p.len() ==> #[trigger] node_misses(p, reg, es, i) == 0
}

/// Cache correctness, second half: a cache that serves every node of the
/// graph produces zero fingerprint misses, so re-evaluating a fixed graph
/// against the cache the first evaluation filled runs zero computations,
/// and — since the value returned is pinned to the graph alone — returns
/// the identical value.
pub proof fn lemma_warm_cache_no_misses(
    p: Seq<ProtoNodeV>,
    reg: &Registry,
    es: Seq<CacheEntry>,
    n: int,
)
    requires
        run_cached(p, reg, es),
        n <= p.len(),
    ensures
        miss_count(p, reg, es, n) == 0,
    decreases n,
{
    if n > 0 {
        lemma_warm_cache_no_misses(p, reg, es, n - 1);
    }
}

/// Incrementality backbone: a node's value — and with it its fingerprint —
/// depends only on the proto nodes before it. Two compiled artifacts that
/// agree on their first `m` nodes evaluate them to the same values, so
/// after an edit every node whose feeding sub-list is unchanged keeps its
/// fingerprint and stays a cache hit.
pub proof fn lemma_values_local(p1: Seq<ProtoNodeV>, p2: Seq<ProtoNodeV>, reg: &Registry, m: int)
    requires
        0 <= m <= p1.len(),
        m <= p2.len(),
        p1.take(m) == p2.take(m),
    ensures
        spec_values(p1, reg, m) == spec_values(p2, reg, m),
    decreases m,
{
    if m > 0 {
        assert(p1.take(m - 1) =~= p1.take(m).take(m - 1));
        assert(p2.take(m - 1) =~= p2.take(m).take(m - 1));
        lemma_values_local(p1, p2, reg, m - 1);
        assert(p1[m - 1] == p1.take(m)[m - 1]);
        assert(p2[m - 1] == p2.take(m)[m - 1]);
    }
}

/// An earlier failure persists: the value list of a longer prefix carries
/// the same first error.
proof fn lemma_values_err(p: Seq<ProtoNodeV>, reg: &Registry, m: int, n: int, e: EvalError)
    requires
        spec_values(p, reg, m) == Err::<Seq<ValueV>, EvalError>(e),
        m <= n,
    ensures
        spec_values(p, reg, n) == Err::<Seq<ValueV>, EvalError>(e),
    decreases n - m,
{
    if m < n {
        lemma_values_err(p, reg, m, n - 1, e);
    }
}

/// Build the fingerprint arguments of one node from the values computed so
/// far.
fn eval_args(
    pn: &ProtoNode,
    values: &Vec<Value>,
    desc: &NodeDescriptor,
    di: Ghost<int>,
    reg: &Registry,
) -> (r: Vec<Value>)
    requires
        0 <= di@ < reg.descriptors@.len(),
        reg.descriptors@[di@] == *desc,
        forall|b: int|
            0 <= b < pn@.args.len() ==> ((#[trigger] pn@.args[b]) is Ref ==> 0 <= pn@.args[
            b]->Ref_0 < values@.len()),
    ensures
        views_of(r@) == fp_args(pn@, views_of(values@), reg, di@),
{
    let m = pn.args.len();
    let mut out: Vec<Value> = Vec::new();
    let mut j: usize = 0;
    proof {
        assert(views_of(out@) =~= fp_args(pn@, views_of(values@), reg, di@).take(0));
    }
    while j < m
        invariant
            j <= m,
            m == pn.args.len(),
            0 <= di@ < reg.descriptors@.len(),
            reg.descriptors@[di@] == *desc,
            forall|b: int|
                0 <= b < pn@.args.len() ==> ((#[trigger] pn@.args[b]) is Ref ==> 0 <= pn@.args[
                b]->Ref_0 < values@.len()),
            out@.len() == j,
            views_of(out@) =~= fp_args(pn@, views_of(values@), reg, di@).take(j as int),
        decreases m - j,
    {
        proof {
            assert(pn@.args[j as int] == pn.args@[j as int]@);
        }
        let raw: Value = match &pn.args[j] {
            ProtoArg::Literal(v) => clone_value(v),
            ProtoArg::Ref(ix) => clone_value(&values[*ix]),
        };
        proof {
            assert(raw@ == raw_arg(pn@.args[j as int], views_of(values@)));
        }
        let cv: Value = if j < desc.inputs.len() {
            coerce_value(raw, desc.inputs[j].ty)
        } else {
            raw
        };
        out.push(cv);
        proof {
            assert(views_of(out@) =~= fp_args(pn@, views_of(values@), reg, di@).take(j as int + 1));
        }
        j = j + 1;
    }
    proof {
        assert(views_of(out@) =~= fp_args(pn@, views_of(values@), reg, di@));
    }
    out
}

/// `id` is the source identity of one of the first `i` proto nodes.
pub open spec fn processed(p: Seq<ProtoNodeV>, i: int, id: u64) -> bool {
    exists|k: int| 0 <= k < i && (#[trigger] p[k]).source_id == id
}

/// Evaluate a compiled proto graph, consulting and filling the cache.
pub fn evaluate(p: &ProtoGraph, reg: &Registry, cache: &mut Cache) -> (r: Result<
    EvalOutcome,
    EvalError,
>)
    requires
        proto_wf(p@, p.output as int),
        cache_wf(*old(cache)),
    ensures
        cache_wf(*final(cache)),
        final(cache).capacity == old(cache).capacity,
        spec_eval(p@, reg, p.output as int) matches Err(e) ==> r == Err::<EvalOutcome, EvalError>(
            e,
        ),
        spec_eval(p@, reg, p.output as int) matches Ok(v) ==> r matches Ok(o) && o.value@ == v
            && o.computations <= p@.len(),
        old(cache).entries@.len() + p@.len() <= old(cache).capacity && (spec_eval(
            p@,
            reg,
            p.output as int,
        ) is Ok) ==> (r matches Ok(o) && o.computations == miss_count(
            p@,
            reg,
            old(cache).entries@,
            p@.len() as int,
        ) && run_cached(p@, reg, final(cache).entries@)),
{
    let ghost oldes = old(cache).entries@;
    let ghost nopress = old(cache).entries@.len() + p@.len() <= old(cache).capacity;
    let n = p.nodes.len();
    let mut values: Vec<Value> = Vec::new();
    let mut computed: usize = 0;
    let mut i: usize = 0;
    proof {
        assert(views_of(values@) =~= Seq::<ValueV>::empty());
    }
    while i < n
        invariant
            i <= n,
            n == p.nodes.len(),
            proto_wf(p@, p.output as int),
            cache_wf(*cache),
            cache.capacity == old(cache).capacity,
            nopress == (oldes.len() + p@.len() <= old(cache).capacity),
            oldes == old(cache).entries@,
            values@.len() == i,
            spec_values(p@, reg, i as int) == Ok::<Seq<ValueV>, EvalError>(views_of(values@)),
            computed <= i,
            cache.entries@.len() <= oldes.len() + computed,
            nopress ==> computed as int == miss_count(p@, reg, oldes, i as int),
            nopress ==> forall|k: int|
                0 <= k < i ==> #[trigger] node_misses(p@, reg, cache.entries@, k) == 0,
            nopress ==> forall|id2: u64|
                !processed(p@, i as int, id2) ==> #[trigger] cache_model_at(cache.entries@, id2)
                    == cache_model_at(oldes, id2),
        decreases n - i,
    {
        let ghost es_before = cache.entries@;
        let ghost prev = views_of(values@);
        let pn = &p.nodes[i];
        let ghost pnv = p@[i as int];
        proof {
            assert(pnv == pn@);
        }
        match &pn.op {
            ProtoOp::Literal(v) => {
                values.push(clone_value(v));
                proof {
                    assert(views_of(values@) =~= prev.push(v@));
                    assert(eval_node(pnv, prev, reg) == Ok::<ValueV, EvalError>(v@));
                }
            },
            ProtoOp::Call(kind) => {
                let kindv = *kind;
                let desc = match reg.lookup(kindv) {
                    None => {
                        let e = EvalError {
                            node: pn.source_id,
                            kind: kindv,
                            cause: EvalErrorKind::UnknownKind,
                        };
                        proof {
                            assert(spec_values(p@, reg, i as int + 1) == Err::<
                                Seq<ValueV>,
                                EvalError,
                            >(e));
                            lemma_values_err(p@, reg, i as int + 1, p@.len() as int, e);
                        }
                        return Err(e);
                    },
                    Some(d) => d,
                };
                let ghost di = lookup_spec(reg.descriptors@, kindv)->Some_0;
                proof {
                    assert forall|b: int|
                        0 <= b < pn@.args.len() implies ((#[trigger] pn@.args[b]) is Ref ==> 0
                            <= pn@.args[b]->Ref_0 < values@.len()) by {
                        assert(p@[i as int].args == pn@.args);
                    }
                }
                let fpargs = eval_args(pn, &values, desc, Ghost(di), reg);
                let ghost fpv = views_of(fpargs@);
                match cache.get(pn.source_id, kindv, &fpargs) {
                    Some(v) => {
                        proof {
                            lemma_hit_sound(cache, pn.source_id, kindv, fpv);
                            assert(apply_spec(kindv, fpv) == Ok::<ValueV, EvalErrorKind>(v@));
                            assert(eval_node(pnv, prev, reg) == Ok::<ValueV, EvalError>(v@));
                        }
                        values.push(v);
                        proof {
                            assert(views_of(values@) =~= prev.push(
                                eval_node(pnv, prev, reg)->Ok_0,
                            ));
                        }
                    },
                    None => {
                        match apply(kindv, &fpargs) {
                            Err(c) => {
                                let e = EvalError { node: pn.source_id, kind: kindv, cause: c };
                                proof {
                                    assert(spec_values(p@, reg, i as int + 1) == Err::<
                                        Seq<ValueV>,
                                        EvalError,
                                    >(e));
                                    lemma_values_err(p@, reg, i as int + 1, p@.len() as int, e);
                                }
                                return Err(e);
                            },
                            Ok(v) => {
                                computed = computed + 1;
                                let stored = clone_value(&v);
                                cache.put(pn.source_id, kindv, fpargs, stored);
                                values.push(v);
                                proof {
                                    assert(eval_node(pnv, prev, reg) == Ok::<ValueV, EvalError>(
                                        v@,
                                    ));
                                    assert(views_of(values@) =~= prev.push(v@));
                                }
                            },
                        }
                    },
                }
            },
        }
        proof {
            // The new cache still serves every earlier node, and untouched
            // identities keep their old content.
            if nopress {
                assert(cache.entries@.len() <= oldes.len() + computed);
                assert forall|k: int|
                    0 <= k < i + 1 implies #[trigger] node_misses(p@, reg, cache.entries@, k)
                        == 0 by {
                    if k < i {
                        assert(node_misses(p@, reg, es_before, k) == 0);
                        assert(p@[k].source_id != p@[i as int].source_id);
                        assert(cache_model_at(cache.entries@, p@[k].source_id) == cache_model_at(
                            es_before,
                            p@[k].source_id,
                        ));
                    }
                }
                assert forall|id2: u64|
                    !processed(p@, i as int + 1, id2) implies #[trigger] cache_model_at(
                    cache.entries@,
                    id2,
                ) == cache_model_at(oldes, id2) by {
                    assert(!processed(p@, i as int, id2));
                    assert(p@[i as int].source_id != id2);
                }
            }
        }
        i = i + 1;
    }
    let out_ix = p.output;
    let value = clone_value(&values[out_ix]);
    Ok(EvalOutcome { value, computations: computed })
}

} // verus!
