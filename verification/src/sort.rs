//! The batched topological scheduler: layers of nodes that may run
//! together, with interactive tasks alone in a batch and persistent tasks
//! held back until nothing else is left to run.

use vstd::prelude::*;
use crate::graph::{DepGraph, GraphView};

verus! {

/// The nodes of a graph wait for each other: no order exists.
#[derive(Clone, Copy, Debug, PartialEq, Eq)]
pub struct CycleError;

/// Each element of `s` as a batch of its own.
pub open spec fn singles(s: Seq<usize>) -> Seq<Seq<usize>> {
    Seq::new(s.len(), |i: int| seq![s[i]])
}

/// The number of nodes that are not done.
pub open spec fn count_open(done: Seq<bool>) -> nat
    decreases done.len(),
{
    if done.len() == 0 {
        0
    } else {
        count_open(done.drop_last()) + if done.last() {
            0nat
        } else {
            1nat
        }
    }
}

/// Batch `i` of `plan` holds node `v`.
pub open spec fn holds(plan: Seq<Seq<usize>>, i: int, v: usize) -> bool {
    0 <= i < plan.len() && plan[i].contains(v)
}

/// Some batch of `plan` holds node `v`.
pub open spec fn placed(plan: Seq<Seq<usize>>, v: usize) -> bool {
    exists|i: int| #[trigger] holds(plan, i, v)
}

impl GraphView {
    /// Some node that `v` waits for is not done.
    pub open spec fn blocked(self, done: Seq<bool>, v: int) -> bool {
        exists|k: int|
            0 <= k < self.edges.len() && (#[trigger] self.edges[k]).1 == v
                && !done[self.edges[k].0 as int]
    }

    /// `v` can start: it is not done, every node that it waits for is done,
    /// and it is no persistent task while those are held back.
    pub open spec fn ready(self, done: Seq<bool>, hold: bool, v: int) -> bool {
        &&& 0 <= v < self.nodes.len()
        &&& !done[v]
        &&& !self.blocked(done, v)
        &&& hold ==> !self.nodes[v].is_persistent()
    }

    /// The ready nodes below `n`, in ascending order: the interactive ones
    /// if `solo`, else the others.
    pub open spec fn pick(self, done: Seq<bool>, hold: bool, solo: bool, n: nat) -> Seq<usize>
        decreases n,
    {
        if n == 0 {
            Seq::empty()
        } else {
            let rest = self.pick(done, hold, solo, (n - 1) as nat);
            if self.ready(done, hold, n - 1) && self.nodes[n - 1].is_interactive() == solo {
                rest.push((n - 1) as usize)
            } else {
                rest
            }
        }
    }

    /// The batches of one round: the ready nodes that are not interactive,
    /// together, then each ready interactive node by itself.
    pub open spec fn wave(self, done: Seq<bool>, hold: bool) -> Seq<Seq<usize>> {
        let plain = self.pick(done, hold, false, self.nodes.len());
        let solo = self.pick(done, hold, true, self.nodes.len());
        if plain.len() > 0 {
            seq![plain] + singles(solo)
        } else {
            singles(solo)
        }
    }

    /// The nodes that are done after one round.
    pub open spec fn advance(self, done: Seq<bool>, hold: bool) -> Seq<bool> {
        Seq::new(done.len(), |v: int| done[v] || self.ready(done, hold, v))
    }

    /// The batches that follow once the nodes of `done` have run, in at
    /// most `fuel` rounds. Persistent tasks are held back while `hold` is
    /// set; when nothing else is ready, they are let go.
    pub open spec fn plan_from(self, done: Seq<bool>, hold: bool, fuel: nat) -> Seq<Seq<usize>>
        decreases fuel,
    {
        if fuel == 0 {
            Seq::empty()
        } else {
            let wave = self.wave(done, hold);
            if wave.len() > 0 {
                wave + self.plan_from(self.advance(done, hold), hold, (fuel - 1) as nat)
            } else if hold {
                self.plan_from(done, false, (fuel - 1) as nat)
            } else {
                Seq::empty()
            }
        }
    }

    /// The batches of the whole graph, as far as its nodes can be ordered.
    pub open spec fn plan(self) -> Seq<Seq<usize>> {
        self.plan_from(
            Seq::new(self.nodes.len(), |v: int| false),
            true,
            self.nodes.len() + 2,
        )
    }

    /// Every node is in exactly one batch, no batch is empty, and a batch
    /// lists its nodes in ascending order.
    pub open spec fn covered_by(self, plan: Seq<Seq<usize>>) -> bool {
        &&& forall|v: usize| v < self.nodes.len() ==> #[trigger] placed(plan, v)
        &&& forall|i: int, v: usize| #[trigger] holds(plan, i, v) ==> v < self.nodes.len()
        &&& forall|i: int, j: int, v: usize|
            #[trigger] holds(plan, i, v) && #[trigger] holds(plan, j, v) ==> i == j
        &&& forall|i: int| 0 <= i < plan.len() ==> (#[trigger] plan[i]).len() > 0
        &&& forall|i: int, a: int, b: int|
            0 <= i < plan.len() && 0 <= a < b < plan[i].len() ==> #[trigger] plan[i][a]
                < #[trigger] plan[i][b]
    }

    /// A node stands in a later batch than every node that it waits for.
    pub open spec fn edges_respected_by(self, plan: Seq<Seq<usize>>) -> bool {
        forall|k: int, i: int, j: int|
            0 <= k < self.edges.len() && #[trigger] holds(plan, i, self.edges[k].0)
                && #[trigger] holds(plan, j, self.edges[k].1) ==> i < j
    }

    /// An interactive task is alone in its batch.
    pub open spec fn interactive_alone_in(self, plan: Seq<Seq<usize>>) -> bool {
        forall|i: int, v: usize|
            #[trigger] holds(plan, i, v) && v < self.nodes.len()
                && self.nodes[v as int].is_interactive() ==> plan[i] == seq![v]
    }

    /// A persistent task stands in a later batch than every node that is
    /// neither persistent nor waiting, directly or through others, for a
    /// persistent task.
    pub open spec fn persistent_last_in(self, plan: Seq<Seq<usize>>) -> bool {
        forall|i: int, j: int, p: usize, q: usize|
            #[trigger] holds(plan, i, p) && #[trigger] holds(plan, j, q) && p < self.nodes.len()
                && q < self.nodes.len() && self.nodes[p as int].is_persistent()
                && !self.behind_persistent(q as int) ==> j < i
    }

    /// `plan` is a schedule of the graph.
    pub open spec fn scheduled_by(self, plan: Seq<Seq<usize>>) -> bool {
        &&& self.covered_by(plan)
        &&& self.edges_respected_by(plan)
        &&& self.interactive_alone_in(plan)
        &&& self.persistent_last_in(plan)
    }

    /// The number of edges among the first `upto` that lead to `v` from a
    /// node that is not done.
    pub open spec fn waits(self, done: Seq<bool>, v: int, upto: int) -> nat
        decreases upto,
    {
        if upto <= 0 {
            0
        } else {
            self.waits(done, v, upto - 1) + if self.edges[upto - 1].1 == v
                && !done[self.edges[upto - 1].0 as int] {
                1nat
            } else {
                0nat
            }
        }
    }
}

proof fn lemma_waits_zero(g: GraphView, done: Seq<bool>, v: int, upto: int)
    requires
        0 <= upto <= g.edges.len(),
    ensures
        g.waits(done, v, upto) == 0 <==> forall|k: int|
            0 <= k < upto ==> !((#[trigger] g.edges[k]).1 == v && !done[g.edges[k].0 as int]),
    decreases upto,
{
    if upto > 0 {
        lemma_waits_zero(g, done, v, upto - 1);
        if g.waits(done, v, upto) != 0 && g.waits(done, v, upto - 1) == 0 {
            assert(g.edges[upto - 1].1 == v && !done[g.edges[upto - 1].0 as int]);
        }
    }
}

proof fn lemma_waits_grow(g: GraphView, done: Seq<bool>, v: int, a: int, b: int)
    requires
        0 <= a <= b,
    ensures
        g.waits(done, v, a) <= g.waits(done, v, b) <= b,
    decreases b,
{
    if a < b {
        lemma_waits_grow(g, done, v, a, b - 1);
    } else if b > 0 {
        lemma_waits_grow(g, done, v, a - 1, b - 1);
    }
}

proof fn lemma_count_open_shrinks(a: Seq<bool>, b: Seq<bool>)
    requires
        a.len() == b.len(),
        forall|i: int| 0 <= i < a.len() && a[i] ==> b[i],
    ensures
        count_open(b) <= count_open(a) <= a.len(),
        (exists|v: int| 0 <= v < a.len() && !a[v] && b[v]) ==> count_open(b) < count_open(a),
    decreases a.len(),
{
    if a.len() > 0 {
        lemma_count_open_shrinks(a.drop_last(), b.drop_last());
        if exists|v: int| 0 <= v < a.len() && !a[v] && b[v] {
            let v = choose|v: int| 0 <= v < a.len() && !a[v] && b[v];
            if v < a.len() - 1 {
                assert(!a.drop_last()[v] && b.drop_last()[v]);
            }
        }
    }
}

/// What `pick` holds: exactly the ready nodes of its kind, each once, in
/// ascending order.
proof fn lemma_pick(g: GraphView, done: Seq<bool>, hold: bool, solo: bool, n: nat)
    requires
        n <= g.nodes.len() <= usize::MAX,
    ensures
        forall|j: int|
            0 <= j < g.pick(done, hold, solo, n).len() ==> {
                let v = #[trigger] g.pick(done, hold, solo, n)[j];
                v < n && g.ready(done, hold, v as int) && g.nodes[v as int].is_interactive()
                    == solo
            },
        forall|v: usize|
            v < n && g.ready(done, hold, v as int) && g.nodes[v as int].is_interactive() == solo
                ==> g.pick(done, hold, solo, n).contains(v),
        forall|a: int, b: int|
            0 <= a < b < g.pick(done, hold, solo, n).len() ==> g.pick(done, hold, solo, n)[a]
                < g.pick(done, hold, solo, n)[b],
    decreases n,
{
    if n > 0 {
        let rest = g.pick(done, hold, solo, (n - 1) as nat);
        let all = g.pick(done, hold, solo, n);
        lemma_pick(g, done, hold, solo, (n - 1) as nat);
        assert forall|v: usize|
            v < n && g.ready(done, hold, v as int) && g.nodes[v as int].is_interactive()
                == solo implies all.contains(v) by {
            if v < n - 1 {
                assert(rest.contains(v));
                let j = choose|j: int| 0 <= j < rest.len() && rest[j] == v;
                assert(all[j] == v);
            } else {
                assert(all[all.len() - 1] == v);
            }
        }
    }
}

/// The first `upto` batches of `plan`, one after the other.
pub open spec fn flat(plan: Seq<Seq<usize>>, upto: int) -> Seq<usize>
    decreases upto,
{
    if upto <= 0 {
        Seq::empty()
    } else {
        flat(plan, upto - 1) + plan[upto - 1]
    }
}

impl GraphView {
    /// `order` lists every node once, each after the nodes that it waits
    /// for.
    pub open spec fn ordered_by(self, order: Seq<usize>) -> bool {
        &&& order.no_duplicates()
        &&& forall|v: usize| v < self.nodes.len() ==> order.contains(v)
        &&& forall|i: int| 0 <= i < order.len() ==> (#[trigger] order[i]) < self.nodes.len()
        &&& forall|k: int, i: int, j: int|
            0 <= k < self.edges.len() && 0 <= i < order.len() && 0 <= j < order.len()
                && #[trigger] order[i] == (#[trigger] self.edges[k]).0 && #[trigger] order[j]
                == self.edges[k].1 ==> i < j
    }
}

/// The node stands in a batch before `cut`.
spec fn early(slot: Seq<int>, cut: int, v: int) -> bool {
    0 <= slot[v] < cut
}

/// The node waits for one that stands in no batch before `cut`.
spec fn held_up(g: GraphView, slot: Seq<int>, cut: int, v: int) -> bool {
    exists|k: int|
        0 <= k < g.edges.len() && (#[trigger] g.edges[k]).1 == v && !early(
            slot,
            cut,
            g.edges[k].0 as int,
        )
}

/// What holds between rounds: `slot` gives each finished node its batch in
/// `b`, and `cut` is the number of batches that were made while persistent
/// tasks were held back.
spec fn sched_inv(
    g: GraphView,
    done: Seq<bool>,
    hold: bool,
    b: Seq<Seq<usize>>,
    slot: Seq<int>,
    cut: int,
) -> bool {
    &&& done.len() == g.nodes.len()
    &&& slot.len() == g.nodes.len()
    &&& forall|v: int| 0 <= v < g.nodes.len() ==> (done[v] <==> #[trigger] slot[v] >= 0)
    &&& forall|v: int| 0 <= v < g.nodes.len() && done[v] ==> holds(b, #[trigger] slot[v], v as usize)
    &&& forall|i: int, v: usize| #[trigger]
        holds(b, i, v) ==> v < g.nodes.len() && slot[v as int] == i
    &&& forall|i: int| 0 <= i < b.len() ==> (#[trigger] b[i]).len() > 0
    &&& forall|i: int, a: int, c: int|
        0 <= i < b.len() && 0 <= a < c < b[i].len() ==> #[trigger] b[i][a] < #[trigger] b[i][c]
    &&& forall|k: int|
        0 <= k < g.edges.len() && done[(#[trigger] g.edges[k]).1 as int] ==> done[g.edges[k].0 as int]
            && slot[g.edges[k].0 as int] < slot[g.edges[k].1 as int]
    &&& forall|v: int|
        0 <= v < g.nodes.len() && done[v] && g.nodes[v].is_interactive() ==> b[#[trigger] slot[v]]
            == seq![v as usize]
    &&& hold ==> forall|v: int|
        0 <= v < g.nodes.len() && done[v] ==> !(#[trigger] g.nodes[v]).is_persistent()
    &&& !hold ==> {
        &&& 0 <= cut <= b.len()
        &&& forall|v: int|
            0 <= v < g.nodes.len() && #[trigger] early(slot, cut, v)
                ==> !g.nodes[v].is_persistent()
        &&& forall|v: int|
            0 <= v < g.nodes.len() && !(#[trigger] early(slot, cut, v))
                && !g.nodes[v].is_persistent() ==> held_up(g, slot, cut, v)
    }
}

/// The batch of each node after one more round.
spec fn next_slot(g: GraphView, done: Seq<bool>, hold: bool, base: int, slot: Seq<int>) -> Seq<int> {
    let plain = g.pick(done, hold, false, g.nodes.len());
    let solo = g.pick(done, hold, true, g.nodes.len());
    let off: int = if plain.len() > 0 {
        1
    } else {
        0
    };
    Seq::new(
        slot.len(),
        |v: int|
            if g.ready(done, hold, v) {
                if g.nodes[v].is_interactive() {
                    base + off + solo.index_of(v as usize)
                } else {
                    base
                }
            } else {
                slot[v]
            },
    )
}

proof fn lemma_round(
    g: GraphView,
    done: Seq<bool>,
    hold: bool,
    b: Seq<Seq<usize>>,
    slot: Seq<int>,
    cut: int,
)
    requires
        g.wf(),
        g.nodes.len() <= usize::MAX,
        sched_inv(g, done, hold, b, slot, cut),
        g.wave(done, hold).len() > 0,
    ensures
        sched_inv(
            g,
            g.advance(done, hold),
            hold,
            b + g.wave(done, hold),
            next_slot(g, done, hold, b.len() as int, slot),
            cut,
        ),
        count_open(g.advance(done, hold)) < count_open(done),
{
    let n = g.nodes.len();
    let plain = g.pick(done, hold, false, n);
    let solo = g.pick(done, hold, true, n);
    let off: int = if plain.len() > 0 { 1 } else { 0 };
    let w = g.wave(done, hold);
    let b2 = b + w;
    let done2 = g.advance(done, hold);
    let base = b.len() as int;
    let slot2 = next_slot(g, done, hold, base, slot);
    lemma_pick(g, done, hold, false, n);
    lemma_pick(g, done, hold, true, n);
    assert(w.len() == off + solo.len());
    assert forall|i: int| 0 <= i < b.len() implies b2[i] == b[i] by {}
    assert(off == 1 ==> b2[base] == plain);
    assert forall|t: int| 0 <= t < solo.len() implies #[trigger] b2[base + off + t] == seq![solo[t]] by {
        assert(w[off + t] == seq![solo[t]]);
    }
    // where the nodes of this round go
    assert forall|v: int| 0 <= v < n && g.ready(done, hold, v) implies holds(
        b2,
        #[trigger] slot2[v],
        v as usize,
    ) && slot2[v] >= base && (g.nodes[v].is_interactive() ==> b2[slot2[v]] == seq![v as usize]) by {
        if g.nodes[v].is_interactive() {
            assert(solo.contains(v as usize));
            solo.index_of_first_ensures(v as usize);
            let t = solo.index_of(v as usize);
            assert(b2[base + off + t] == seq![solo[t]]);
            assert(seq![solo[t]][0] == v as usize);
        } else {
            assert(plain.contains(v as usize));
        }
    }
    // what the batches hold
    assert forall|i: int, v: usize| #[trigger] holds(b2, i, v) implies v < n && slot2[v as int]
        == i by {
        if i < base {
            assert(holds(b, i, v));
        } else if i < base + off {
            assert(plain.contains(v));
        } else {
            let t = i - base - off;
            assert(b2[base + off + t] == seq![solo[t]]);
            assert(v == solo[t]);
            solo.index_of_first_ensures(v);
            let u = solo.index_of(v);
            if u < t {
                assert(solo[u] < solo[t]);
            } else if t < u {
                assert(solo[t] < solo[u]);
            }
        }
    }
    assert forall|v: int| 0 <= v < n && done2[v] implies holds(b2, #[trigger] slot2[v], v as usize) by {
        if done[v] {
            assert(holds(b, slot[v], v as usize));
            assert(b2[slot[v]] == b[slot[v]]);
        }
    }
    assert forall|i: int| 0 <= i < b2.len() implies (#[trigger] b2[i]).len() > 0 by {
        if i < base {
            assert(b2[i] == b[i]);
        } else if i >= base + off {
            assert(b2[base + off + (i - base - off)] == seq![solo[i - base - off]]);
        }
    }
    assert forall|i: int, a: int, c: int|
        0 <= i < b2.len() && 0 <= a < c < b2[i].len() implies #[trigger] b2[i][a]
        < #[trigger] b2[i][c] by {
        if i < base {
            assert(b2[i] == b[i]);
        } else if i >= base + off {
            assert(b2[base + off + (i - base - off)] == seq![solo[i - base - off]]);
        }
    }
    assert forall|k: int| 0 <= k < g.edges.len() && done2[(#[trigger] g.edges[k]).1 as int] implies
        done2[g.edges[k].0 as int] && slot2[g.edges[k].0 as int] < slot2[g.edges[k].1 as int] by {
        let u = g.edges[k].0 as int;
        let v = g.edges[k].1 as int;
        if !done[v] {
            assert(g.ready(done, hold, v));
            assert(done[u]);
            assert(holds(b, slot[u], u as usize));
        }
    }
    assert forall|v: int|
        0 <= v < n && done2[v] && g.nodes[v].is_interactive() implies b2[#[trigger] slot2[v]]
        == seq![v as usize] by {
        if done[v] {
            assert(holds(b, slot[v], v as usize));
            assert(b2[slot[v]] == b[slot[v]]);
        }
    }
    if !hold {
        assert forall|v: int| 0 <= v < n implies early(slot2, cut, v) == early(slot, cut, v) by {
            if done[v] {
                assert(holds(b, slot[v], v as usize));
            }
        }
        assert forall|v: int|
            0 <= v < n && !(#[trigger] early(slot2, cut, v))
                && !g.nodes[v].is_persistent() implies held_up(g, slot2, cut, v) by {
            assert(!early(slot, cut, v));
            assert(held_up(g, slot, cut, v));
            let k = choose|k: int|
                0 <= k < g.edges.len() && (#[trigger] g.edges[k]).1 == v && !early(
                    slot,
                    cut,
                    g.edges[k].0 as int,
                );
            assert(early(slot2, cut, g.edges[k].0 as int) == early(slot, cut, g.edges[k].0 as int));
        }
    }
    // one node at least leaves the open ones
    let first: usize = if off == 1 { plain[0] } else { solo[0] };
    assert(g.ready(done, hold, first as int));
    assert(!done[first as int] && done2[first as int]);
    lemma_count_open_shrinks(done, done2);
}

proof fn lemma_switch(g: GraphView, done: Seq<bool>, b: Seq<Seq<usize>>, slot: Seq<int>, cut: int)
    requires
        g.wf(),
        g.nodes.len() <= usize::MAX,
        sched_inv(g, done, true, b, slot, cut),
        g.wave(done, true).len() == 0,
    ensures
        sched_inv(g, done, false, b, slot, b.len() as int),
        forall|v: int| 0 <= v < g.nodes.len() ==> !g.ready(done, true, v),
{
    let n = g.nodes.len();
    let c = b.len() as int;
    lemma_pick(g, done, true, false, n);
    lemma_pick(g, done, true, true, n);
    assert forall|v: int| 0 <= v < n implies !g.ready(done, true, v) by {
        if g.ready(done, true, v) {
            if g.nodes[v].is_interactive() {
                assert(g.pick(done, true, true, n).contains(v as usize));
            } else {
                assert(g.pick(done, true, false, n).contains(v as usize));
            }
        }
    }
    assert forall|v: int| 0 <= v < n implies early(slot, c, v) == done[v] by {
        if done[v] {
            assert(holds(b, slot[v], v as usize));
        }
    }
    assert forall|v: int|
        0 <= v < n && !(#[trigger] early(slot, c, v)) && !g.nodes[v].is_persistent() implies held_up(
        g,
        slot,
        c,
        v,
    ) by {
        assert(!g.ready(done, true, v));
        assert(g.blocked(done, v));
        let k = choose|k: int|
            0 <= k < g.edges.len() && (#[trigger] g.edges[k]).1 == v
                && !done[g.edges[k].0 as int];
        assert(early(slot, c, g.edges[k].0 as int) == done[g.edges[k].0 as int]);
    }
}

/// A node that stands in no batch before `cut` is persistent or waits,
/// directly or through others, for a persistent node.
proof fn lemma_late(g: GraphView, done: Seq<bool>, b: Seq<Seq<usize>>, slot: Seq<int>, cut: int, v: int)
    requires
        g.wf(),
        sched_inv(g, done, false, b, slot, cut),
        forall|u: int| 0 <= u < g.nodes.len() ==> done[u],
        0 <= v < g.nodes.len(),
        !early(slot, cut, v),
    ensures
        g.behind_persistent(v),
    decreases slot[v],
{
    if g.nodes[v].is_persistent() {
        let path = seq![v];
        assert(g.is_path(path) && path.first() == v && path.last() == v);
        assert(g.reaches(v, v));
    } else {
        assert(held_up(g, slot, cut, v));
        let k = choose|k: int|
            0 <= k < g.edges.len() && (#[trigger] g.edges[k]).1 == v && !early(
                slot,
                cut,
                g.edges[k].0 as int,
            );
        let u = g.edges[k].0 as int;
        assert(done[v]);
        assert(slot[u] < slot[v]);
        assert(slot[u] >= 0);
        lemma_late(g, done, b, slot, cut, u);
        let p = choose|p: int|
            0 <= p < g.nodes.len() && g.nodes[p].is_persistent() && #[trigger] g.reaches(p, u);
        let path = choose|path: Seq<int>| #[trigger]
            g.is_path(path) && path.first() == p && path.last() == u;
        let longer = path.push(v);
        assert forall|i: int| 0 <= i < longer.len() - 1 implies g.has_edge(
            #[trigger] longer[i],
            longer[i + 1],
        ) by {
            if i < path.len() - 1 {
                assert(g.has_edge(path[i], path[i + 1]));
            } else {
                assert(g.edges[k].0 == longer[i] && g.edges[k].1 == longer[i + 1]);
            }
        }
        assert(g.is_path(longer) && longer.first() == p && longer.last() == v);
        assert(g.reaches(p, v));
    }
}

proof fn lemma_finish(g: GraphView, done: Seq<bool>, b: Seq<Seq<usize>>, slot: Seq<int>, cut: int)
    requires
        g.wf(),
        sched_inv(g, done, false, b, slot, cut),
        forall|u: int| 0 <= u < g.nodes.len() ==> done[u],
    ensures
        g.scheduled_by(b),
        g.acyclic(),
{
    let n = g.nodes.len();
    let rank = Seq::new(n, |v: int| slot[v] as nat);
    assert(g.ranked_by(rank)) by {
        assert forall|k: int| 0 <= k < g.edges.len() implies rank[(#[trigger] g.edges[k]).0 as int]
            < rank[g.edges[k].1 as int] by {
            assert(done[g.edges[k].1 as int]);
            assert(slot[g.edges[k].0 as int] >= 0);
        }
    }
    assert(g.covered_by(b)) by {
        assert forall|v: usize| v < n implies #[trigger] placed(b, v) by {
            assert(holds(b, slot[v as int], v));
        }
    }
    assert(g.edges_respected_by(b)) by {
        assert forall|k: int, i: int, j: int|
            0 <= k < g.edges.len() && #[trigger] holds(b, i, g.edges[k].0) && #[trigger] holds(
                b,
                j,
                g.edges[k].1,
            ) implies i < j by {
            assert(done[g.edges[k].1 as int]);
        }
    }
    assert(g.interactive_alone_in(b)) by {
        assert forall|i: int, v: usize|
            #[trigger] holds(b, i, v) && v < n && g.nodes[v as int].is_interactive() implies b[i]
            == seq![v] by {
            assert(done[v as int]);
            assert(b[slot[v as int]] == seq![v]);
        }
    }
    assert(g.persistent_last_in(b)) by {
        assert forall|i: int, j: int, p: usize, q: usize|
            #[trigger] holds(b, i, p) && #[trigger] holds(b, j, q) && p < n && q < n
                && g.nodes[p as int].is_persistent() && !g.behind_persistent(
                q as int,
            ) implies j < i by {
            if !early(slot, cut, q as int) {
                lemma_late(g, done, b, slot, cut, q as int);
            }
            assert(!early(slot, cut, p as int));
            assert(done[p as int]);
        }
    }
}

/// Where the nodes can be ranked and none of them is ready, all are done.
proof fn lemma_descend(g: GraphView, done: Seq<bool>, rank: Seq<nat>, v: int)
    requires
        g.wf(),
        done.len() == g.nodes.len(),
        g.ranked_by(rank),
        forall|u: int| 0 <= u < g.nodes.len() ==> !g.ready(done, false, u),
        0 <= v < g.nodes.len(),
    ensures
        done[v],
    decreases rank[v],
{
    if !done[v] {
        assert(!g.ready(done, false, v));
        assert(g.blocked(done, v));
        let k = choose|k: int|
            0 <= k < g.edges.len() && (#[trigger] g.edges[k]).1 == v
                && !done[g.edges[k].0 as int];
        lemma_descend(g, done, rank, g.edges[k].0 as int);
    }
}

/// Where nodes are left and none of them is ready, they wait for each other.
proof fn lemma_stuck(g: GraphView, done: Seq<bool>, v: int)
    requires
        g.wf(),
        done.len() == g.nodes.len(),
        forall|u: int| 0 <= u < g.nodes.len() ==> !g.ready(done, false, u),
        0 <= v < g.nodes.len(),
        !done[v],
    ensures
        !g.acyclic(),
{
    if g.acyclic() {
        let rank = choose|rank: Seq<nat>| #[trigger] g.ranked_by(rank);
        lemma_descend(g, done, rank, v);
    }
}

fn falses(n: usize) -> (out: Vec<bool>)
    ensures
        out@ == Seq::new(n as nat, |v: int| false),
{
    let mut out: Vec<bool> = Vec::new();
    while out.len() < n
        invariant
            out.len() <= n,
            forall|i: int| 0 <= i < out.len() ==> !out[i],
        decreases n - out.len(),
    {
        out.push(false);
    }
    assert(out@ =~= Seq::new(n as nat, |v: int| false));
    out
}

fn zeros(n: usize) -> (out: Vec<usize>)
    ensures
        out.len() == n,
        forall|i: int| 0 <= i < n ==> out[i] == 0,
{
    let mut out: Vec<usize> = Vec::new();
    while out.len() < n
        invariant
            out.len() <= n,
            forall|i: int| 0 <= i < out.len() ==> out[i] == 0,
        decreases n - out.len(),
    {
        out.push(0);
    }
    out
}

fn push_batch(batches: &mut Vec<Vec<usize>>, batch: Vec<usize>)
    ensures
        final(batches).deep_view() == old(batches).deep_view().push(batch@),
{
    let ghost before = batches.deep_view();
    let ghost added = batch@;
    assert(batch.deep_view() =~= batch@);
    batches.push(batch);
    assert(batches.deep_view() =~= before.push(added));
}

impl DepGraph {
    /// The plan of the graph: batches of nodes in the order in which they
    /// may run. Fails if and only if the nodes wait for each other.
    ///
    /// The batches are the layers of the graph: each round takes every node
    /// whose predecessors have all run. Such a node that is an interactive
    /// task gets a batch of its own, after the batch of the others.
    /// Persistent tasks, and what waits for them, are held back until no
    /// other node is left.
    pub fn sort_batched_topological(&self) -> (out: Result<Vec<Vec<usize>>, CycleError>)
        ensures
            out is Ok <==> self@.acyclic(),
            out matches Ok(batches) ==> batches.deep_view() == self@.plan() && self@.scheduled_by(
                batches.deep_view(),
            ),
    {
        let n = self.node_count();
        let m = self.edge_count();
        let ghost g = self@;
        let mut done = falses(n);
        let mut indeg = zeros(n);
        let mut k: usize = 0;
        while k < m
            invariant
                k <= m,
                m == g.edges.len(),
                n == g.nodes.len(),
                g == self@,
                g.wf(),
                done@ == Seq::new(n as nat, |v: int| false),
                indeg.len() == n,
                forall|v: int| 0 <= v < n ==> indeg[v] == g.waits(done@, v, k as int),
            decreases m - k,
        {
            let e = self.edge(k);
            proof {
                lemma_waits_grow(g, done@, e.1 as int, 0, k as int);
            }
            let d = indeg[e.1];
            indeg.set(e.1, d + 1);
            k += 1;
        }
        let mut batches: Vec<Vec<usize>> = Vec::new();
        let mut hold = true;
        let mut finished = false;
        let ghost mut slot: Seq<int> = Seq::new(n as nat, |v: int| -1);
        let ghost mut cut: int = 0;
        let ghost mut fuel: nat = (n + 2) as nat;
        proof {
            assert(batches.deep_view() =~= Seq::<Seq<usize>>::empty());
            assert(batches.deep_view() + g.plan_from(done@, hold, fuel) =~= g.plan());
            lemma_count_open_shrinks(done@, done@);
        }
        while !finished
            invariant
                m == g.edges.len(),
                n == g.nodes.len(),
                g == self@,
                g.wf(),
                done.len() == n,
                indeg.len() == n,
                forall|v: int| 0 <= v < n ==> indeg[v] == g.waits(done@, v, m as int),
                sched_inv(g, done@, hold, batches.deep_view(), slot, cut),
                batches.deep_view() + g.plan_from(done@, hold, fuel) == g.plan(),
                fuel >= count_open(done@) + (if hold { 1nat } else { 0nat }) + 1,
                finished ==> !hold && forall|v: int| 0 <= v < n ==> !g.ready(done@, false, v),
            decreases count_open(done@), (if hold { 2nat } else if finished { 0nat } else { 1nat }),
        {
            let ghost before = batches.deep_view();
            let mut plain: Vec<usize> = Vec::new();
            let mut solo: Vec<usize> = Vec::new();
            let mut next: Vec<bool> = Vec::new();
            let mut v: usize = 0;
            while v < n
                invariant
                    v <= n,
                    m == g.edges.len(),
                    n == g.nodes.len(),
                    g == self@,
                    g.wf(),
                    done.len() == n,
                    indeg.len() == n,
                    forall|u: int| 0 <= u < n ==> indeg[u] == g.waits(done@, u, m as int),
                    plain@ == g.pick(done@, hold, false, v as nat),
                    solo@ == g.pick(done@, hold, true, v as nat),
                    next.len() == v,
                    forall|u: int| 0 <= u < v ==> next[u] == (done[u] || g.ready(done@, hold, u)),
                decreases n - v,
            {
                proof {
                    lemma_waits_zero(g, done@, v as int, m as int);
                }
                let node = self.node(v);
                let is_ready = !done[v] && indeg[v] == 0 && (!hold || !node.is_persistent());
                assert(is_ready == g.ready(done@, hold, v as int));
                if is_ready {
                    if node.is_interactive() {
                        solo.push(v);
                    } else {
                        plain.push(v);
                    }
                }
                next.push(done[v] || is_ready);
                v += 1;
            }
            assert(next@ =~= g.advance(done@, hold));
            let ghost wave = g.wave(done@, hold);
            if plain.len() == 0 && solo.len() == 0 {
                assert(wave.len() == 0);
                if hold {
                    proof {
                        lemma_switch(g, done@, before, slot, cut);
                        cut = before.len() as int;
                        fuel = (fuel - 1) as nat;
                    }
                    hold = false;
                } else {
                    proof {
                        lemma_pick(g, done@, false, false, n as nat);
                        lemma_pick(g, done@, false, true, n as nat);
                        assert forall|u: int| 0 <= u < n implies !g.ready(done@, false, u) by {
                            if g.ready(done@, false, u) {
                                if g.nodes[u].is_interactive() {
                                    assert(g.pick(done@, false, true, n as nat).contains(u as usize));
                                } else {
                                    assert(g.pick(done@, false, false, n as nat).contains(
                                        u as usize,
                                    ));
                                }
                            }
                        }
                    }
                    finished = true;
                }
            } else {
                assert(wave.len() > 0);
                proof {
                    lemma_round(g, done@, hold, before, slot, cut);
                    assert(before + (wave + g.plan_from(next@, hold, (fuel - 1) as nat)) =~= (before
                        + wave) + g.plan_from(next@, hold, (fuel - 1) as nat));
                    slot = next_slot(g, done@, hold, before.len() as int, slot);
                    fuel = (fuel - 1) as nat;
                }
                let ghost lone = singles(solo@);
                if plain.len() > 0 {
                    push_batch(&mut batches, plain);
                }
                let ghost base = batches.deep_view();
                let mut t: usize = 0;
                while t < solo.len()
                    invariant
                        t <= solo.len(),
                        lone == singles(solo@),
                        batches.deep_view() == base + lone.take(t as int),
                    decreases solo.len() - t,
                {
                    let mut one: Vec<usize> = Vec::new();
                    one.push(solo[t]);
                    assert(one@ =~= lone[t as int]);
                    push_batch(&mut batches, one);
                    assert(base + lone.take(t as int + 1) =~= (base + lone.take(t as int)).push(
                        lone[t as int],
                    ));
                    t += 1;
                }
                assert(batches.deep_view() =~= before + wave);
                let mut k: usize = 0;
                while k < m
                    invariant
                        k <= m,
                        m == g.edges.len(),
                        n == g.nodes.len(),
                        g == self@,
                        g.wf(),
                        done.len() == n,
                        next.len() == n,
                        indeg.len() == n,
                        forall|u: int| 0 <= u < n && done[u] ==> next[u],
                        forall|u: int|
                            0 <= u < n ==> indeg[u] + g.waits(done@, u, k as int) == g.waits(
                                next@,
                                u,
                                k as int,
                            ) + g.waits(done@, u, m as int),
                    decreases m - k,
                {
                    let e = self.edge(k);
                    if next[e.0] && !done[e.0] {
                        proof {
                            lemma_waits_grow(g, done@, e.1 as int, k as int + 1, m as int);
                        }
                        let d = indeg[e.1];
                        indeg.set(e.1, d - 1);
                    }
                    k += 1;
                }
                done = next;
            }
        }
        let mut all = true;
        let mut v: usize = 0;
        let ghost mut open: int = 0;
        while v < n
            invariant
                v <= n,
                done.len() == n,
                all <==> forall|u: int| 0 <= u < v ==> done[u],
                !all ==> 0 <= open < n && !done[open],
            decreases n - v,
        {
            if !done[v] {
                all = false;
                proof {
                    open = v as int;
                }
            }
            v += 1;
        }
        if all {
            proof {
                lemma_finish(g, done@, batches.deep_view(), slot, cut);
                assert(g.plan_from(done@, hold, fuel) =~= Seq::<Seq<usize>>::empty()) by {
                    lemma_pick(g, done@, false, false, n as nat);
                    lemma_pick(g, done@, false, true, n as nat);
                    let plain = g.pick(done@, false, false, n as nat);
                    let solo = g.pick(done@, false, true, n as nat);
                    if plain.len() > 0 {
                        assert(g.ready(done@, false, plain[0] as int));
                    }
                    if solo.len() > 0 {
                        assert(g.ready(done@, false, solo[0] as int));
                    }
                }
                assert(batches.deep_view() + Seq::<Seq<usize>>::empty() =~= batches.deep_view());
            }
            Ok(batches)
        } else {
            proof {
                lemma_stuck(g, done@, open);
            }
            Err(CycleError)
        }
    }
}

impl DepGraph {
    /// The nodes in an order in which they may run one by one: the batches
    /// of the plan, one after the other. Fails if and only if the nodes
    /// wait for each other.
    pub fn sort_topological(&self) -> (out: Result<Vec<usize>, CycleError>)
        ensures
            out is Ok <==> self@.acyclic(),
            out matches Ok(order) ==> order@ == flat(self@.plan(), self@.plan().len() as int)
                && self@.ordered_by(order@),
    {
        let ghost g = self@;
        let batches = match self.sort_batched_topological() {
            Ok(batches) => batches,
            Err(e) => {
                return Err(e);
            },
        };
        let ghost plan = batches.deep_view();
        let mut order: Vec<usize> = Vec::new();
        let ghost mut home: Seq<int> = Seq::empty();
        let mut b: usize = 0;
        while b < batches.len()
            invariant
                b <= batches.len(),
                plan == batches.deep_view(),
                g == self@,
                plan == g.plan(),
                g.scheduled_by(plan),
                order@ == flat(plan, b as int),
                home.len() == order.len(),
                forall|p: int| 0 <= p < order.len() ==> 0 <= #[trigger] home[p] < b && holds(plan, home[p], order[p]),
                forall|p: int, q: int| 0 <= p < q < order.len() ==> #[trigger] home[p] <= #[trigger] home[q],
                forall|p: int, q: int|
                    0 <= p < q < order.len() && #[trigger] home[p] == #[trigger] home[q] ==> order[p]
                        < order[q],
                forall|i: int, v: usize| 0 <= i < b && #[trigger] holds(plan, i, v) ==> order@.contains(v),
            decreases batches.len() - b,
        {
            let batch = &batches[b];
            let ghost base = order@;
            let ghost base_home = home;
            assert(plan[b as int] =~= batch@);
            let mut j: usize = 0;
            while j < batch.len()
                invariant
                    j <= batch.len(),
                    b < batches.len(),
                    plan == batches.deep_view(),
                    plan[b as int] == batch@,
                    g.scheduled_by(plan),
                    order@ == base + batch@.take(j as int),
                    home == base_home + Seq::new(j as nat, |x: int| b as int),
                    base_home.len() == base.len(),
                decreases batch.len() - j,
            {
                order.push(batch[j]);
                proof {
                    home = home.push(b as int);
                    assert(order@ =~= base + batch@.take(j as int + 1));
                    assert(home =~= base_home + Seq::new((j + 1) as nat, |x: int| b as int));
                }
                j += 1;
            }
            proof {
                assert(batch@.take(batch.len() as int) =~= batch@);
                assert forall|p: int| 0 <= p < order.len() implies 0 <= #[trigger] home[p] < b + 1
                    && holds(plan, home[p], order[p]) by {
                    if p >= base.len() {
                        assert(order[p] == batch@[p - base.len()]);
                        assert(home[p] == b);
                    } else {
                        assert(order[p] == base[p]);
                        assert(home[p] == base_home[p]);
                    }
                }
                assert forall|p: int, q: int| 0 <= p < q < order.len() implies #[trigger] home[p]
                    <= #[trigger] home[q] by {
                    if q < base.len() {
                        assert(home[p] == base_home[p] && home[q] == base_home[q]);
                    } else {
                        assert(home[q] == b);
                    }
                }
                assert forall|p: int, q: int|
                    0 <= p < q < order.len() && #[trigger] home[p] == #[trigger] home[q] implies order[p]
                    < order[q] by {
                    if q < base.len() {
                        assert(home[p] == base_home[p] && home[q] == base_home[q]);
                        assert(order[p] == base[p] && order[q] == base[q]);
                    } else {
                        assert(home[q] == b);
                        if p < base.len() {
                            assert(home[p] == base_home[p]);
                        } else {
                            assert(order[p] == plan[b as int][p - base.len()]);
                            assert(order[q] == plan[b as int][q - base.len()]);
                        }
                    }
                }
                assert forall|i: int, v: usize| 0 <= i < b + 1 && #[trigger] holds(plan, i, v) implies order@.contains(v) by {
                    if i < b {
                        assert(base.contains(v));
                        let p = choose|p: int| 0 <= p < base.len() && base[p] == v;
                        assert(order[p] == v);
                    } else {
                        let x = choose|x: int| 0 <= x < plan[i].len() && plan[i][x] == v;
                        assert(order[base.len() + x] == v);
                    }
                }
            }
            b += 1;
        }
        proof {
            assert forall|v: usize| v < g.nodes.len() implies order@.contains(v) by {
                assert(placed(plan, v));
                let i = choose|i: int| #[trigger] holds(plan, i, v);
                assert(holds(plan, i, v));
            }
            assert forall|p: int, q: int| 0 <= p < q < order.len() implies order[p] != order[q] by {
                if order[p] == order[q] {
                    assert(holds(plan, home[p], order[p]));
                    assert(holds(plan, home[q], order[q]));
                }
            }
            assert(order@.no_duplicates());
            assert forall|i: int| 0 <= i < order.len() implies (#[trigger] order[i]) < g.nodes.len() by {
                assert(holds(plan, home[i], order[i]));
            }
            assert forall|k: int, i: int, j: int|
                0 <= k < g.edges.len() && 0 <= i < order.len() && 0 <= j < order.len()
                    && #[trigger] order[i] == (#[trigger] g.edges[k]).0 && #[trigger] order[j]
                    == g.edges[k].1 implies i < j by {
                assert(holds(plan, home[i], g.edges[k].0));
                assert(holds(plan, home[j], g.edges[k].1));
                assert(home[i] < home[j]);
                if j < i {
                    assert(home[j] <= home[i]);
                }
            }
        }
        Ok(order)
    }
}

} // verus!
