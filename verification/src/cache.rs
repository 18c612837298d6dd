//! The memoization cache the executor consults before computing a node.
//!
//! Entries are keyed by stable node identity and hold the fingerprint of
//! the inputs that produced the stored value: the computation kind and the
//! exact argument values. The cache's invariant is semantic: every stored
//! value is what the registered computation returns on the stored
//! fingerprint, so a hit can never yield a wrong value. Capacity is
//! bounded by entry count; under pressure the entry whose value was stored
//! least recently is overwritten.

use vstd::prelude::*;

verus! {

use crate::value::{Value, ValueV};
use crate::registry::{apply_spec, views_of};
use crate::value::{value_eq, clone_value};
use crate::proto::{ProtoNode, ProtoNodeV, ProtoGraph, proto_wf};

/// One memoized result.
#[derive(Debug)]
pub struct CacheEntry {
    pub id: u64,
    pub kind: u32,
    pub args: Vec<Value>,
    pub value: Value,
    pub stamp: u64,
}

/// The cache.
#[derive(Debug)]
pub struct Cache {
    pub entries: Vec<CacheEntry>,
    pub clock: u64,
    pub capacity: usize,
}

/// Index of the entry for `id`, scanning from `i`.
pub open spec fn centry_find_from(es: Seq<CacheEntry>, id: u64, i: int) -> Option<int>
    decreases es.len() - i when 0 <= i <= es.len()
{
    if i >= es.len() {
        None
    } else if es[i].id == id {
        Some(i)
    } else {
        centry_find_from(es, id, i + 1)
    }
}

pub open spec fn centry_find(es: Seq<CacheEntry>, id: u64) -> Option<int> {
    centry_find_from(es, id, 0)
}

proof fn lemma_centry_find(es: Seq<CacheEntry>, id: u64, i: int)
    requires
        0 <= i <= es.len(),
    ensures
        (centry_find_from(es, id, i) is Some) == (exists|j: int|
            i <= j < es.len() && (#[trigger] es[j]).id == id),
        centry_find_from(es, id, i) matches Some(fi) ==> i <= fi < es.len() && es[fi].id == id,
    decreases es.len() - i,
{
    if i < es.len() {
        lemma_centry_find(es, id, i + 1);
    }
}

/// The memoized content for `id`: fingerprint kind, fingerprint argument
/// values, and the stored value.
pub open spec fn cache_model_at(es: Seq<CacheEntry>, id: u64) -> Option<(u32, Seq<ValueV>, ValueV)> {
    match centry_find(es, id) {
        None => None,
        Some(i) => Some((es[i].kind, views_of(es[i].args@), es[i].value@)),
    }
}

/// A lookup for `id` under a given fingerprint.
pub open spec fn cache_hit(es: Seq<CacheEntry>, id: u64, kind: u32, args: Seq<ValueV>) -> Option<
    ValueV,
> {
    match cache_model_at(es, id) {
        None => None,
        Some(m) => if m.0 == kind && m.1 == args {
            Some(m.2)
        } else {
            None
        },
    }
}

/// Every stored value is exactly what the registered computation returns on
/// the stored fingerprint, and identities are unique.
pub open spec fn cache_wf(c: Cache) -> bool {
    &&& forall|i: int|
        0 <= i < c.entries@.len() ==> apply_spec(
            (#[trigger] c.entries@[i]).kind,
            views_of(c.entries@[i].args@),
        ) == Ok::<ValueV, crate::registry::EvalErrorKind>(c.entries@[i].value@)
    &&& forall|i: int, j: int|
        0 <= i < j < c.entries@.len() ==> (#[trigger] c.entries@[i]).id != (#[trigger] c.entries@[
        j]).id
}

/// Two entry lists of equal identities whose entries for `id2` agree in
/// fingerprint and value (stamps may differ) model `id2` alike.
proof fn lemma_model_agree_content(es1: Seq<CacheEntry>, es2: Seq<CacheEntry>, id2: u64, i: int)
    requires
        es1.len() == es2.len(),
        0 <= i <= es1.len(),
        forall|j: int| 0 <= j < es1.len() ==> (#[trigger] es1[j]).id == es2[j].id,
        forall|j: int|
            0 <= j < es1.len() ==> ((#[trigger] es1[j]).id == id2 ==> es1[j].kind == es2[j].kind
                && es1[j].args == es2[j].args && es1[j].value == es2[j].value),
    ensures
        centry_find_from(es1, id2, i) == centry_find_from(es2, id2, i),
        centry_find_from(es1, id2, i) matches Some(fi) ==> es1[fi].kind == es2[fi].kind && es1[
            fi].args == es2[fi].args && es1[fi].value == es2[fi].value,
    decreases es1.len() - i,
{
    if i < es1.len() {
        lemma_model_agree_content(es1, es2, id2, i + 1);
    }
}

/// Two entry lists that agree on the entries carrying `id` (and whose other
/// entries carry other identities at the same positions) model `id` alike.
proof fn lemma_model_agree(es1: Seq<CacheEntry>, es2: Seq<CacheEntry>, id: u64, i: int)
    requires
        es1.len() == es2.len(),
        0 <= i <= es1.len(),
        forall|j: int|
            0 <= j < es1.len() ==> ((#[trigger] es1[j]).id == id || es2[j].id == id ==> es1[j]
                == es2[j]),
        forall|j: int|
            0 <= j < es1.len() ==> ((#[trigger] es1[j]).id == id) == (es2[j].id == id),
    ensures
        centry_find_from(es1, id, i) == centry_find_from(es2, id, i),
        centry_find_from(es1, id, i) matches Some(fi) ==> es1[fi] == es2[fi],
    decreases es1.len() - i,
{
    if i < es1.len() {
        lemma_model_agree(es1, es2, id, i + 1);
    }
}

impl Cache {
    /// An empty cache with the given capacity.
    pub fn new(capacity: usize) -> (r: Cache)
        ensures
            cache_wf(r),
            r.entries@.len() == 0,
            r.capacity == capacity,
            forall|id: u64| cache_model_at(r.entries@, id) is None,
    {
        let r = Cache { entries: Vec::new(), clock: 0, capacity };
        proof {
            assert forall|id: u64| cache_model_at(r.entries@, id) is None by {
                assert(r.entries@.len() == 0);
            }
        }
        r
    }

    fn index_of(&self, id: u64) -> (r: Option<usize>)
        ensures
            (r is Some) == (centry_find(self.entries@, id) is Some),
            r matches Some(i) ==> centry_find(self.entries@, id) == Some(i as int) && i
                < self.entries@.len() && self.entries@[i as int].id == id,
    {
        let mut i: usize = 0;
        while i < self.entries.len()
            invariant
                i <= self.entries.len(),
                centry_find_from(self.entries@, id, 0) == centry_find_from(
                    self.entries@,
                    id,
                    i as int,
                ),
            decreases self.entries.len() - i,
        {
            if self.entries[i].id == id {
                return Some(i);
            }
            i = i + 1;
        }
        None
    }

    /// Whether the entry for `id` matches the fingerprint `(kind, args)`.
    fn probe(&self, id: u64, kind: u32, args: &Vec<Value>) -> (r: Option<Value>)
        ensures
            cache_hit(self.entries@, id, kind, views_of(args@)) matches Some(v) ==> r matches Some(
                x,
            ) && x@ == v,
            cache_hit(self.entries@, id, kind, views_of(args@)) is None ==> r is None,
    {
        let i = match self.index_of(id) {
            None => {
                return None;
            },
            Some(i) => i,
        };
        let e = &self.entries[i];
        if e.kind != kind {
            return None;
        }
        if e.args.len() != args.len() {
            proof {
                assert(views_of(e.args@).len() != views_of(args@).len());
            }
            return None;
        }
        let m = args.len();
        let mut j: usize = 0;
        while j < m
            invariant
                j <= m,
                m == args.len(),
                m == e.args.len(),
                e == &self.entries[centry_find(self.entries@, id)->Some_0],
                centry_find(self.entries@, id) matches Some(fi) && 0 <= fi
                    < self.entries@.len() && *e == self.entries@[fi],
                forall|l: int| 0 <= l < j ==> views_of(e.args@)[l] == views_of(args@)[l],
            decreases m - j,
        {
            if !value_eq(&e.args[j], &args[j]) {
                proof {
                    assert(views_of(e.args@)[j as int] != views_of(args@)[j as int]);
                }
                return None;
            }
            proof {
                assert(views_of(e.args@)[j as int] == views_of(args@)[j as int]);
            }
            j = j + 1;
        }
        proof {
            assert(views_of(e.args@) =~= views_of(args@));
        }
        Some(clone_value(&e.value))
    }

    /// Look up `id` under the given fingerprint. A miss is always a safe
    /// fallback to recomputation, never a failure. A hit refreshes the
    /// entry's recency; a mismatching entry is stale (the node's inputs or
    /// kind changed since it was stored) and is evicted lazily, on this
    /// miss.
    pub fn get(&mut self, id: u64, kind: u32, args: &Vec<Value>) -> (r: Option<Value>)
        requires
            cache_wf(*old(self)),
        ensures
            cache_wf(*final(self)),
            final(self).capacity == old(self).capacity,
            final(self).entries@.len() <= old(self).entries@.len(),
            cache_hit(old(self).entries@, id, kind, views_of(args@)) matches Some(v) ==> r
                matches Some(x) && x@ == v && cache_model_at(final(self).entries@, id)
                == cache_model_at(old(self).entries@, id),
            cache_hit(old(self).entries@, id, kind, views_of(args@)) is None ==> r is None
                && cache_model_at(final(self).entries@, id) is None,
            forall|id2: u64|
                id2 != id ==> cache_model_at(final(self).entries@, id2) == cache_model_at(
                    old(self).entries@,
                    id2,
                ),
    {
        let ghost es0 = self.entries@;
        match self.probe(id, kind, args) {
            Some(v) => {
                // Refresh the entry's recency; its content is unchanged.
                let i = match self.index_of(id) {
                    None => unreached(),
                    Some(i) => i,
                };
                let stamp = self.clock;
                if self.clock < 0xFFFF_FFFF_FFFF_FFFFu64 {
                    self.clock = self.clock + 1;
                }
                self.entries[i].stamp = stamp;
                proof {
                    let es1 = self.entries@;
                    assert forall|id2: u64| #![trigger cache_model_at(es1, id2)] cache_model_at(
                        es1,
                        id2,
                    ) == cache_model_at(es0, id2) by {
                        lemma_model_agree_content(es1, es0, id2, 0);
                    }
                    assert forall|j: int|
                        0 <= j < es1.len() implies apply_spec(
                        (#[trigger] es1[j]).kind,
                        views_of(es1[j].args@),
                    ) == Ok::<ValueV, crate::registry::EvalErrorKind>(es1[j].value@) by {
                        assert(es1[j].kind == es0[j].kind && es1[j].args == es0[j].args && es1[
                        j].value == es0[j].value);
                    }
                }
                Some(v)
            },
            None => {
                // The entry, if any, is stale: drop it now.
                self.invalidate(id);
                None
            },
        }
    }

    /// Store the value the computation `kind` produced on `args` for node
    /// `id`, replacing that node's previous entry. When the cache is full a
    /// least-recently-stored entry of another node is overwritten; entries
    /// are never corrupted, only replaced whole.
    pub fn put(&mut self, id: u64, kind: u32, args: Vec<Value>, value: Value)
        requires
            cache_wf(*old(self)),
            apply_spec(kind, views_of(args@)) == Ok::<ValueV, crate::registry::EvalErrorKind>(
                value@,
            ),
        ensures
            cache_wf(*final(self)),
            final(self).capacity == old(self).capacity,
            final(self).entries@.len() <= old(self).entries@.len() + 1,
            old(self).capacity > 0 ==> cache_model_at(final(self).entries@, id) == Some(
                (kind, views_of(args@), value@),
            ),
            forall|id2: u64|
                id2 != id ==> (cache_model_at(final(self).entries@, id2) is Some
                    ==> cache_model_at(final(self).entries@, id2) == cache_model_at(
                    old(self).entries@,
                    id2,
                )),
            (old(self).entries@.len() < old(self).capacity || centry_find(old(self).entries@, id)
                is Some) ==> forall|id2: u64|
                id2 != id ==> cache_model_at(final(self).entries@, id2) == cache_model_at(
                    old(self).entries@,
                    id2,
                ),
    {
        let ghost es0 = self.entries@;
        let stamp = self.clock;
        if self.clock < 0xFFFF_FFFF_FFFF_FFFFu64 {
            self.clock = self.clock + 1;
        }
        let entry = CacheEntry { id, kind, args, value, stamp };
        match self.index_of(id) {
            Some(i) => {
                proof {
                    lemma_centry_find(es0, id, 0);
                }
                self.entries[i] = entry;
                proof {
                    let es1 = self.entries@;
                    lemma_centry_find(es1, id, 0);
                    assert forall|id2: u64| id2 != id implies cache_model_at(es1, id2)
                        == cache_model_at(es0, id2) by {
                        lemma_model_agree(es1, es0, id2, 0);
                    }
                    assert(cache_model_at(es1, id) == Some((kind, views_of(entry.args@), entry.value@)));
                }
            },
            None => {
                proof {
                    lemma_centry_find(es0, id, 0);
                }
                if self.entries.len() < self.capacity {
                    self.entries.push(entry);
                    proof {
                        let es1 = self.entries@;
                        lemma_centry_find(es1, id, 0);
                        assert forall|id2: u64| id2 != id implies cache_model_at(es1, id2)
                            == cache_model_at(es0, id2) by {
                            lemma_find_on_push(es0, entry, id2, 0);
                        }
                        assert(es1[es1.len() - 1].id == id);
                        assert(centry_find(es1, id) is Some);
                        let fi = centry_find(es1, id)->Some_0;
                        assert(es1[fi].id == id);
                        assert(fi == es1.len() - 1) by {
                            if fi < es1.len() - 1 {
                                assert(es0[fi].id == id);
                                lemma_centry_find(es0, id, 0);
                            }
                        }
                    }
                } else {
                    if self.capacity == 0 {
                        return ;
                    }
                    // Overwrite the least recently stored entry.
                    let mut victim: usize = 0;
                    let mut v: usize = 1;
                    while v < self.entries.len()
                        invariant
                            victim < self.entries.len(),
                            v <= self.entries.len(),
                        decreases self.entries.len() - v,
                    {
                        if self.entries[v].stamp < self.entries[victim].stamp {
                            victim = v;
                        }
                        v = v + 1;
                    }
                    self.entries[victim] = entry;
                    proof {
                        let es1 = self.entries@;
                        lemma_centry_find(es1, id, 0);
                        assert(es1[victim as int].id == id);
                        assert forall|id2: u64|
                            id2 != id && cache_model_at(es1, id2) is Some implies cache_model_at(
                            es1,
                            id2,
                        ) == cache_model_at(es0, id2) by {
                            lemma_centry_find(es1, id2, 0);
                            let fi = centry_find(es1, id2)->Some_0;
                            assert(es1[fi].id == id2);
                            assert(fi != victim as int);
                            assert(es0[fi].id == id2);
                            assert(es0[victim as int].id != id2) by {
                                if es0[victim as int].id == id2 {
                                    assert(es0[fi].id == id2);
                                }
                            }
                            assert forall|j: int|
                                0 <= j < es1.len() implies ((#[trigger] es1[j]).id == id2) == (
                                es0[j].id == id2) by {
                                if j != victim as int {
                                    assert(es1[j] == es0[j]);
                                }
                            }
                            lemma_model_agree(es1, es0, id2, 0);
                        }
                        let fi = centry_find(es1, id)->Some_0;
                        assert(fi == victim as int) by {
                            if fi != victim as int {
                                assert(es0[fi].id == id);
                                lemma_centry_find(es0, id, 0);
                            }
                        }
                    }
                }
            },
        }
    }

    /// Drop the entry for `id`, if any.
    pub fn invalidate(&mut self, id: u64)
        requires
            cache_wf(*old(self)),
        ensures
            cache_wf(*final(self)),
            final(self).capacity == old(self).capacity,
            final(self).entries@.len() <= old(self).entries@.len(),
            cache_model_at(final(self).entries@, id) is None,
            forall|id2: u64|
                id2 != id ==> cache_model_at(final(self).entries@, id2) == cache_model_at(
                    old(self).entries@,
                    id2,
                ),
    {
        let ghost es0 = self.entries@;
        match self.index_of(id) {
            None => {
                proof {
                    lemma_centry_find(es0, id, 0);
                }
            },
            Some(i) => {
                self.entries.remove(i);
                proof {
                    let es1 = self.entries@;
                    assert(es1 =~= es0.remove(i as int));
                    lemma_centry_find(es0, id, 0);
                    // No surviving entry carries `id`.
                    assert forall|j: int| 0 <= j < es1.len() implies (#[trigger] es1[j]).id
                        != id by {
                        assert(es1[j] == if j < i as int {
                            es0[j]
                        } else {
                            es0[j + 1]
                        });
                    }
                    lemma_centry_find(es1, id, 0);
                    assert forall|id2: u64| id2 != id implies cache_model_at(es1, id2)
                        == cache_model_at(es0, id2) by {
                        lemma_centry_find(es1, id2, 0);
                        lemma_centry_find(es0, id2, 0);
                        if centry_find(es1, id2) is Some {
                            let f1 = centry_find(es1, id2)->Some_0;
                            assert(es1[f1] == if f1 < i as int {
                                es0[f1]
                            } else {
                                es0[f1 + 1]
                            });
                            let j1 = if f1 < i as int {
                                f1
                            } else {
                                f1 + 1
                            };
                            assert(es0[j1].id == id2);
                            let f0 = centry_find(es0, id2)->Some_0;
                            assert(es0[f0].id == id2);
                            assert(f0 == j1);
                            assert(cache_model_at(es1, id2) == cache_model_at(es0, id2));
                        } else {
                            if centry_find(es0, id2) is Some {
                                let f0 = centry_find(es0, id2)->Some_0;
                                assert(es0[f0].id == id2);
                                assert(f0 != i as int);
                                let j1 = if f0 < i as int {
                                    f0
                                } else {
                                    f0 - 1
                                };
                                assert(es1[j1].id == id2);
                            }
                        }
                    }
                    // Uniqueness survives removal.
                    assert forall|a: int, b: int| 0 <= a < b < es1.len() implies (
                    #[trigger] es1[a]).id != (#[trigger] es1[b]).id by {
                        assert(es1[a] == if a < i as int {
                            es0[a]
                        } else {
                            es0[a + 1]
                        });
                        assert(es1[b] == if b < i as int {
                            es0[b]
                        } else {
                            es0[b + 1]
                        });
                    }
                    assert forall|j: int| 0 <= j < es1.len() implies apply_spec(
                        (#[trigger] es1[j]).kind,
                        views_of(es1[j].args@),
                    ) == Ok::<ValueV, crate::registry::EvalErrorKind>(es1[j].value@) by {
                        assert(es1[j] == if j < i as int {
                            es0[j]
                        } else {
                            es0[j + 1]
                        });
                    }
                }
            },
        }
    }
}

/// Which of the first `n` proto nodes are forward-reachable from the node
/// with identity `root` (the node itself included).
pub open spec fn marks(p: Seq<ProtoNodeV>, root: u64, n: int) -> Seq<bool>
    decreases n,
{
    if n <= 0 {
        Seq::empty()
    } else {
        let pre = marks(p, root, n - 1);
        pre.push(
            p[n - 1].source_id == root || (exists|b: int|
                0 <= b < p[n - 1].args.len() && (#[trigger] p[n - 1].args[b]) is Ref && 0 <= p[n
                    - 1].args[b]->Ref_0 < n - 1 && pre[p[n - 1].args[b]->Ref_0]),
        )
    }
}

/// One of the first `k` proto nodes is reachable from `root` and carries the
/// identity `id2`.
pub open spec fn removed_in(p: Seq<ProtoNodeV>, ms: Seq<bool>, k: int, id2: u64) -> bool {
    exists|i: int| 0 <= i < k && #[trigger] ms[i] && p[i].source_id == id2
}

/// Does `pn` depend on a node already reached?
fn node_marked(pn: &ProtoNode, reached: &Vec<bool>, root: u64) -> (r: bool)
    requires
        forall|b: int|
            0 <= b < pn@.args.len() ==> ((#[trigger] pn@.args[b]) is Ref ==> 0 <= pn@.args[
            b]->Ref_0 < reached@.len()),
    ensures
        r == (pn@.source_id == root || (exists|b: int|
            0 <= b < pn@.args.len() && (#[trigger] pn@.args[b]) is Ref && 0 <= pn@.args[b]->Ref_0
                < reached@.len() && reached@[pn@.args[b]->Ref_0])),
{
    if pn.source_id == root {
        return true;
    }
    let m = pn.args.len();
    let mut b: usize = 0;
    while b < m
        invariant
            b <= m,
            m == pn.args.len(),
            forall|l: int|
                0 <= l < pn@.args.len() ==> ((#[trigger] pn@.args[l]) is Ref ==> 0 <= pn@.args[
                l]->Ref_0 < reached@.len()),
            forall|l: int|
                0 <= l < b ==> !((#[trigger] pn@.args[l]) is Ref && reached@[pn@.args[l]->Ref_0]),
        decreases m - b,
    {
        proof {
            assert(pn@.args[b as int] == pn.args@[b as int]@);
        }
        match &pn.args[b] {
            crate::proto::ProtoArg::Ref(ix) => {
                if reached[*ix] {
                    return true;
                }
            },
            crate::proto::ProtoArg::Literal(_) => {},
        }
        b = b + 1;
    }
    false
}

impl Cache {
    /// Drop the entry for `id` and for every node forward-reachable from it
    /// in the given proto graph — for a node whose computation is known to
    /// be non-deterministic or externally sourced.
    pub fn invalidate_transitive(&mut self, id: u64, p: &ProtoGraph)
        requires
            cache_wf(*old(self)),
            proto_wf(p@, p.output as int),
        ensures
            cache_wf(*final(self)),
            final(self).capacity == old(self).capacity,
            cache_model_at(final(self).entries@, id) is None,
            forall|id2: u64|
                #![trigger cache_model_at(final(self).entries@, id2)]
                id2 != id && !removed_in(p@, marks(p@, id, p@.len() as int), p@.len() as int, id2)
                    ==> cache_model_at(final(self).entries@, id2) == cache_model_at(
                    old(self).entries@,
                    id2,
                ),
            forall|id2: u64|
                #![trigger removed_in(p@, marks(p@, id, p@.len() as int), p@.len() as int, id2)]
                removed_in(p@, marks(p@, id, p@.len() as int), p@.len() as int, id2)
                    ==> cache_model_at(final(self).entries@, id2) is None,
    {
        let ghost ms = marks(p@, id, p@.len() as int);
        let n = p.nodes.len();
        let mut reached: Vec<bool> = Vec::new();
        let mut i: usize = 0;
        proof {
            assert(reached@ =~= marks(p@, id, 0));
        }
        while i < n
            invariant
                i <= n,
                n == p.nodes.len(),
                proto_wf(p@, p.output as int),
                reached@ == marks(p@, id, i as int),
                reached@.len() == i,
            decreases n - i,
        {
            let pn = &p.nodes[i];
            proof {
                assert(pn@ == p@[i as int]);
                assert forall|b: int|
                    0 <= b < pn@.args.len() implies ((#[trigger] pn@.args[b]) is Ref ==> 0
                        <= pn@.args[b]->Ref_0 < reached@.len()) by {
                    assert(p@[i as int].args[b] == pn@.args[b]);
                }
            }
            let hit = node_marked(pn, &reached, id);
            reached.push(hit);
            proof {
                assert(reached@ =~= marks(p@, id, i as int + 1));
            }
            i = i + 1;
        }
        // Remove the reached nodes' entries, then the root's own.
        let ghost es0 = self.entries@;
        let mut k: usize = 0;
        while k < n
            invariant
                k <= n,
                n == p.nodes.len(),
                reached@.len() == n,
                reached@ == ms,
                ms == marks(p@, id, p@.len() as int),
                es0 == old(self).entries@,
                cache_wf(*self),
                self.capacity == old(self).capacity,
                self.entries@.len() <= es0.len(),
                forall|id2: u64|
                    #![trigger cache_model_at(self.entries@, id2)]
                    !removed_in(p@, ms, k as int, id2) ==> cache_model_at(self.entries@, id2)
                        == cache_model_at(es0, id2),
                forall|id2: u64|
                    #![trigger removed_in(p@, ms, k as int, id2)]
                    removed_in(p@, ms, k as int, id2) ==> cache_model_at(self.entries@, id2)
                        is None,
            decreases n - k,
        {
            let ghost before = self.entries@;
            if reached[k] {
                self.invalidate(p.nodes[k].source_id);
            }
            proof {
                let sid = p@[k as int].source_id;
                assert(p.nodes@[k as int]@.source_id == sid);
                assert forall|id2: u64|
                    removed_in(p@, ms, k as int + 1, id2) implies cache_model_at(
                    self.entries@,
                    id2,
                ) is None by {
                    if removed_in(p@, ms, k as int, id2) {
                        if id2 == sid && reached@[k as int] {
                        } else {
                            assert(cache_model_at(before, id2) is None);
                        }
                    } else {
                        assert(ms[k as int] && id2 == sid);
                    }
                }
                assert forall|id2: u64|
                    !removed_in(p@, ms, k as int + 1, id2) implies cache_model_at(
                    self.entries@,
                    id2,
                ) == cache_model_at(es0, id2) by {
                    assert(!removed_in(p@, ms, k as int, id2));
                    if reached@[k as int] {
                        assert(id2 != sid);
                    }
                }
            }
            k = k + 1;
        }
        self.invalidate(id);
        proof {
            assert forall|id2: u64|
                removed_in(p@, ms, p@.len() as int, id2) implies cache_model_at(
                self.entries@,
                id2,
            ) is None by {
                if id2 != id {
                    assert(removed_in(p@, ms, n as int, id2));
                }
            }
        }
    }
}

/// A hit can never yield a wrong value: in a well-formed cache the stored
/// value is what the computation returns on the fingerprint.
pub proof fn lemma_hit_sound(c: &Cache, id: u64, kind: u32, args: Seq<ValueV>)
    requires
        cache_wf(*c),
    ensures
        cache_hit(c.entries@, id, kind, args) matches Some(v) ==> apply_spec(kind, args) == Ok::<
            ValueV,
            crate::registry::EvalErrorKind,
        >(v),
{
    lemma_centry_find(c.entries@, id, 0);
}

proof fn lemma_find_on_push(es: Seq<CacheEntry>, e: CacheEntry, id2: u64, i: int)
    requires
        0 <= i <= es.len(),
        e.id != id2,
    ensures
        centry_find_from(es.push(e), id2, i) == centry_find_from(es, id2, i),
        centry_find_from(es, id2, i) matches Some(fi) ==> es.push(e)[fi] == es[fi],
    decreases es.len() - i,
{
    if i < es.len() {
        lemma_find_on_push(es, e, id2, i + 1);
        assert(es.push(e)[i] == es[i]);
    } else {
        assert(es.push(e)[es.len() as int] == e);
        assert(centry_find_from(es.push(e), id2, es.len() as int + 1) is None);
    }
}

} // verus!
