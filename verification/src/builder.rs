//! The graph builder: expands requested targets and projects into the
//! actions that they require, each action once, and refuses requirements
//! that lead back to themselves.

use vstd::prelude::*;
use crate::action::ActionNode;
use crate::error::{DepGraphError, ErrorView, ScopeContext};
use crate::graph::{lemma_extends_self, lemma_extends_twice, DepGraph, GraphView};
use crate::plan::{
    all_among, all_expandable, attached, chosen, declaring, edges_to, edges_upto, led_by,
    lemma_absent, lemma_attach, lemma_attached_extends, lemma_chain_push, lemma_edges_stable,
    lemma_lead_self, lemma_lead_step, lemma_place, lemma_planned_acyclic, lemma_planned_edges,
    lemma_planned_expandable, lemma_planned_node, lemma_preds_stable, lemma_setup_leads, offered,
    plan_graph, planned, preds_of, requested, selected, some_fails, stands_for,
};
use crate::project::{project_index, ProjectGraph, ProjectView};
use crate::requirement::{
    all_valid, enough, expandable, fails_from, fails_with, is_chain, leads_to,
    lemma_planted_all_prefix, lemma_planted_all_stay, node_of, planted, planted_all, requirements,
    requirements_of, requires_item, task_count, Item, Work,
};
use crate::target::{Target, TargetScope};

verus! {

/// The nodes at the indices `preds` are requirements of `work`, each
/// index once, and the first `upto` requirements `rs` of `work` are among
/// them.
spec fn gathered(
    l: Seq<ProjectView>,
    work: Item,
    items: Seq<Item>,
    preds: Seq<usize>,
    rs: Seq<Item>,
    upto: int,
) -> bool {
    &&& preds.no_duplicates()
    &&& forall|a: int|
        0 <= a < preds.len() ==> (#[trigger] preds[a]) < items.len() && requires_item(
            l,
            work,
            items[preds[a] as int],
        )
    &&& forall|k: int| 0 <= k < upto ==> offered(items, preds, #[trigger] rs[k])
    &&& 0 <= upto <= rs.len()
    &&& preds == preds_of(items, rs, upto as nat)
}

proof fn lemma_gathered_grow(
    l: Seq<ProjectView>,
    work: Item,
    seen: Seq<Item>,
    now: Seq<Item>,
    preds: Seq<usize>,
    rs: Seq<Item>,
    upto: int,
)
    requires
        gathered(l, work, seen, preds, rs, upto),
        seen.is_prefix_of(now),
        now.no_duplicates(),
    ensures
        gathered(l, work, now, preds, rs, upto),
{
    assert forall|k: int| 0 <= k < upto implies seen.contains(#[trigger] rs[k]) by {
        assert(offered(seen, preds, rs[k]));
    }
    lemma_preds_stable(seen, now, rs, upto as nat);
    assert forall|a: int| 0 <= a < preds.len() implies now[(#[trigger] preds[a]) as int]
        == seen[preds[a] as int] by {}
    assert forall|k: int| 0 <= k < upto implies offered(now, preds, #[trigger] rs[k]) by {
        assert(offered(seen, preds, rs[k]));
        let a = choose|a: int| 0 <= a < preds.len() && seen[(#[trigger] preds[a]) as int] == rs[k];
        assert(now[preds[a] as int] == rs[k]);
    }
}

proof fn lemma_gathered_next(
    l: Seq<ProjectView>,
    work: Item,
    items: Seq<Item>,
    preds: Seq<usize>,
    rs: Seq<Item>,
    upto: int,
    j: usize,
)
    requires
        gathered(l, work, items, preds, rs, upto),
        0 <= upto < rs.len(),
        j < items.len(),
        items[j as int] == rs[upto],
        requires_item(l, work, rs[upto]),
        items.no_duplicates(),
    ensures
        preds.contains(j) ==> gathered(l, work, items, preds, rs, upto + 1),
        !preds.contains(j) ==> gathered(l, work, items, preds.push(j), rs, upto + 1),
{
    lemma_place(items, j as int);
    if preds.contains(j) {
        let a = choose|a: int| 0 <= a < preds.len() && preds[a] == j;
        assert(items[preds[a] as int] == rs[upto]);
        assert(offered(items, preds, rs[upto]));
    } else {
        let more = preds.push(j);
        assert(more[preds.len() as int] == j);
        assert(offered(items, more, rs[upto]));
        assert forall|k: int| 0 <= k < upto implies offered(items, more, #[trigger] rs[k]) by {
            assert(offered(items, preds, rs[k]));
            let a = choose|a: int|
                0 <= a < preds.len() && items[(#[trigger] preds[a]) as int] == rs[k];
            assert(more[a] == preds[a]);
        }
        assert forall|a: int| 0 <= a < more.len() implies (#[trigger] more[a]) < items.len()
            && requires_item(l, work, items[more[a] as int]) by {
            if a < preds.len() {
                assert(more[a] == preds[a]);
            }
        }
    }
}

proof fn lemma_gathered_all(
    l: Seq<ProjectView>,
    work: Item,
    items: Seq<Item>,
    preds: Seq<usize>,
    rs: Seq<Item>,
)
    requires
        gathered(l, work, items, preds, rs, rs.len() as int),
        requirements(l, work) == Ok::<Seq<Item>, ErrorView>(rs),
    ensures
        forall|r: Item| #[trigger] requires_item(l, work, r) ==> offered(items, preds, r),
        preds.no_duplicates(),
        forall|a: int|
            0 <= a < preds.len() ==> (#[trigger] preds[a]) < items.len() && requires_item(
                l,
                work,
                items[preds[a] as int],
            ),
        preds == preds_of(items, rs, rs.len()),
{
    assert forall|r: Item| #[trigger] requires_item(l, work, r) implies offered(items, preds, r) by {
        let k = choose|k: int| 0 <= k < rs.len() && rs[k] == r;
        assert(offered(items, preds, rs[k]));
    }
}

/// What holds of the roots planned so far holds with one more root, once
/// its node and what it led to are in the graph.
proof fn lemma_root_planned(
    l: Seq<ProjectView>,
    items0: Seq<Item>,
    seen: Seq<Item>,
    now: Seq<Item>,
    had: Seq<usize>,
    j: usize,
    sofar: Seq<Item>,
    root: Item,
)
    requires
        stands_for(seen, had, sofar),
        items0.is_prefix_of(seen),
        seen.is_prefix_of(now),
        j < now.len(),
        now[j as int] == root,
        forall|x: int| items0.len() <= x < seen.len() ==> led_by(l, sofar, #[trigger] seen[x]),
        forall|x: int| seen.len() <= x < now.len() ==> leads_to(l, root, #[trigger] now[x]),
    ensures
        stands_for(now, had.push(j), sofar.push(root)),
        forall|x: int|
            items0.len() <= x < now.len() ==> led_by(l, sofar.push(root), #[trigger] now[x]),
        all_among(items0, sofar.push(root)) ==> all_among(items0, sofar) && items0.contains(root),
{
    let found = had.push(j);
    let next = sofar.push(root);
    assert forall|k: int| 0 <= k < found.len() implies (#[trigger] found[k]) < now.len()
        && now[found[k] as int] == next[k] by {
        if k < had.len() {
            assert(found[k] == had[k]);
            assert(seen[had[k] as int] == sofar[k]);
        }
    }
    assert forall|x: int| items0.len() <= x < now.len() implies led_by(l, next, #[trigger] now[x]) by {
        if x < seen.len() {
            assert(now[x] == seen[x]);
            assert(led_by(l, sofar, seen[x]));
            let k = choose|k: int| 0 <= k < sofar.len() && leads_to(l, #[trigger] sofar[k], seen[x]);
            assert(next[k] == sofar[k]);
        } else {
            assert(next[sofar.len() as int] == root);
        }
    }
    if all_among(items0, next) {
        assert forall|k: int| 0 <= k < sofar.len() implies items0.contains(#[trigger] sofar[k]) by {
            assert(next[k] == sofar[k]);
        }
        assert(items0.contains(next[sofar.len() as int]));
    }
}

/// What planning the roots so far and then one more comes to is what
/// planning all roots comes to, as far as the first failure.
proof fn lemma_next_root(
    l: Seq<ProjectView>,
    items0: Seq<Item>,
    seen: Seq<Item>,
    sofar: Seq<Item>,
    root: Item,
    roots: Seq<Item>,
    fuel: nat,
)
    requires
        planted_all(l, items0, Seq::empty(), sofar, sofar.len(), fuel) == Ok::<Seq<Item>, ErrorView>(
            seen,
        ),
        sofar.push(root).is_prefix_of(roots),
    ensures
        planted_all(l, items0, Seq::empty(), sofar.push(root), sofar.len() + 1, fuel) == planted(
            l,
            seen,
            Seq::empty(),
            root,
            fuel,
        ),
        planted(l, seen, Seq::empty(), root, fuel) is Err ==> planted_all(
            l,
            items0,
            Seq::empty(),
            roots,
            roots.len(),
            fuel,
        ) == planted(l, seen, Seq::empty(), root, fuel),
{
    let next = sofar.push(root);
    lemma_planted_all_prefix(l, items0, Seq::empty(), next, sofar, sofar.len(), fuel);
    assert(planted_all(l, items0, Seq::empty(), next, next.len(), fuel) == planted(
        l,
        seen,
        Seq::empty(),
        next[next.len() - 1],
        fuel,
    ));
    lemma_planted_all_prefix(l, items0, Seq::empty(), next, roots, next.len(), fuel);
    if planted(l, seen, Seq::empty(), root, fuel) is Err {
        lemma_planted_all_stay(l, items0, Seq::empty(), roots, next.len(), roots.len(), fuel);
    }
}

proof fn lemma_chosen_grows(
    l: Seq<ProjectView>,
    cands: Seq<Item>,
    touched: Option<Seq<Seq<char>>>,
    a: int,
    b: int,
)
    requires
        0 <= a <= b,
    ensures
        chosen(l, cands, touched, a).is_prefix_of(chosen(l, cands, touched, b)),
    decreases b - a,
{
    if a < b {
        lemma_chosen_grows(l, cands, touched, a, b - 1);
    }
}

/// The mark that is left of `m` when the nodes from index `limit` on are
/// dropped and nothing is under expansion.
spec fn settled(m: Mark, limit: usize) -> Mark {
    match m {
        Mark::Done(j) => if j < limit {
            m
        } else {
            Mark::Fresh
        },
        _ => Mark::Fresh,
    }
}

fn settle(row: &mut Vec<Mark>, limit: usize)
    ensures
        final(row).len() == old(row).len(),
        forall|t: int| 0 <= t < old(row).len() ==> #[trigger] final(row)[t] == settled(old(row)[t], limit),
{
    let mut t: usize = 0;
    while t < row.len()
        invariant
            t <= row.len(),
            row.len() == old(row).len(),
            forall|u: int| 0 <= u < t ==> #[trigger] row[u] == settled(old(row)[u], limit),
            forall|u: int| t <= u < row.len() ==> #[trigger] row[u] == old(row)[u],
        decreases row.len() - t,
    {
        let m = match row[t] {
            Mark::Done(j) => if j < limit {
                Mark::Done(j)
            } else {
                Mark::Fresh
            },
            _ => Mark::Fresh,
        };
        row[t] = m;
        t += 1;
    }
}

fn has_index(list: &Vec<usize>, j: usize) -> (out: bool)
    ensures
        out == list@.contains(j),
{
    let mut a: usize = 0;
    while a < list.len()
        invariant
            a <= list.len(),
            forall|b: int| 0 <= b < a ==> list[b] != j,
        decreases list.len() - a,
    {
        if list[a] == j {
            return true;
        }
        a += 1;
    }
    false
}

/// What the builder knows of an item while it works.
#[derive(Clone, Copy, PartialEq, Eq, Structural)]
enum Mark {
    /// Not asked for yet.
    Fresh,
    /// Under expansion: its requirements are being planned.
    Active,
    /// In the graph, at this index.
    Done(usize),
}

spec fn fresh_in(row: Seq<Mark>) -> nat
    decreases row.len(),
{
    if row.len() == 0 {
        0
    } else {
        fresh_in(row.drop_last()) + if row.last() is Fresh {
            1nat
        } else {
            0nat
        }
    }
}

spec fn fresh_rows(rows: Seq<Vec<Mark>>) -> nat
    decreases rows.len(),
{
    if rows.len() == 0 {
        0
    } else {
        fresh_rows(rows.drop_last()) + fresh_in(rows.last()@)
    }
}

spec fn one_if_fresh(m: Mark) -> nat {
    if m is Fresh {
        1
    } else {
        0
    }
}

proof fn lemma_fresh_in_set(row: Seq<Mark>, t: int, m: Mark)
    requires
        0 <= t < row.len(),
    ensures
        fresh_in(row.update(t, m)) + one_if_fresh(row[t]) == fresh_in(row) + one_if_fresh(m),
    decreases row.len(),
{
    let row2 = row.update(t, m);
    if t == row.len() - 1 {
        assert(row2.drop_last() =~= row.drop_last());
    } else {
        assert(row2.drop_last() =~= row.drop_last().update(t, m));
        lemma_fresh_in_set(row.drop_last(), t, m);
    }
}

proof fn lemma_fresh_rows_set(rows: Seq<Vec<Mark>>, rows2: Seq<Vec<Mark>>, p: int)
    requires
        0 <= p < rows.len(),
        rows2.len() == rows.len(),
        forall|q: int| 0 <= q < rows.len() && q != p ==> rows2[q]@ == rows[q]@,
    ensures
        fresh_rows(rows2) + fresh_in(rows[p]@) == fresh_rows(rows) + fresh_in(rows2[p]@),
    decreases rows.len(),
{
    if p == rows.len() - 1 {
        lemma_fresh_rows_same(rows.drop_last(), rows2.drop_last());
    } else {
        lemma_fresh_rows_set(rows.drop_last(), rows2.drop_last(), p);
    }
}

proof fn lemma_fresh_rows_same(rows: Seq<Vec<Mark>>, rows2: Seq<Vec<Mark>>)
    requires
        rows2.len() == rows.len(),
        forall|q: int| 0 <= q < rows.len() ==> rows2[q]@ == rows[q]@,
    ensures
        fresh_rows(rows2) == fresh_rows(rows),
    decreases rows.len(),
{
    if rows.len() > 0 {
        lemma_fresh_rows_same(rows.drop_last(), rows2.drop_last());
    }
}

proof fn lemma_fresh_in_bound(row: Seq<Mark>)
    ensures
        fresh_in(row) <= row.len(),
    decreases row.len(),
{
    if row.len() > 0 {
        lemma_fresh_in_bound(row.drop_last());
    }
}

proof fn lemma_fresh_rows_bound(rows: Seq<Vec<Mark>>, l: Seq<ProjectView>)
    requires
        rows.len() <= l.len(),
        forall|p: int| 0 <= p < rows.len() ==> (#[trigger] rows[p]).len() == l[p].tasks.len(),
    ensures
        fresh_rows(rows) <= task_count(l, rows.len() as int),
    decreases rows.len(),
{
    if rows.len() > 0 {
        lemma_fresh_rows_bound(rows.drop_last(), l);
        lemma_fresh_in_bound(rows.last()@);
    }
}

/// Builds the dependency graph of one planning pass over the projects that
/// it borrows.
pub struct DepGraphBuilder<'a> {
    lookup: &'a ProjectGraph,
    nodes: Vec<ActionNode>,
    edges: Vec<(usize, usize)>,
    run_marks: Vec<Vec<Mark>>,
    sync_marks: Vec<Mark>,
    items: Ghost<Seq<Item>>,
}

impl<'a> DepGraphBuilder<'a> {
    /// The projects that the builder plans for.
    pub closed spec fn lookup(&self) -> Seq<ProjectView> {
        self.lookup@
    }

    /// The graph as built so far.
    pub closed spec fn graph(&self) -> GraphView {
        GraphView { nodes: self.nodes.deep_view(), edges: self.edges@ }
    }

    /// The item that each node of the graph stands for.
    pub closed spec fn items(&self) -> Seq<Item> {
        self.items@
    }

    spec fn shaped(&self) -> bool {
        &&& self.run_marks.len() == self.lookup@.len()
        &&& self.sync_marks.len() == self.lookup@.len()
        &&& forall|p: int|
            0 <= p < self.lookup@.len() ==> (#[trigger] self.run_marks[p]).len()
                == self.lookup@[p].tasks.len()
    }

    spec fn mark_of(&self, item: Item) -> Mark {
        match item {
            Item::Run(p, t) => self.run_marks[p][t],
            Item::Sync(p) => self.sync_marks[p],
            _ => Mark::Fresh,
        }
    }

    spec fn fresh(&self) -> nat {
        fresh_rows(self.run_marks@) + fresh_in(self.sync_marks@)
    }

    /// The marks agree with the graph: an item is marked as done at an
    /// index exactly if the node at that index stands for it.
    #[verifier::opaque]
    spec fn marks_ok(&self) -> bool {
        &&& self.shaped()
        &&& self.nodes.len() == self.items@.len()
        &&& forall|item: Item|
            item.valid(self.lookup@) && item.height() == 2 ==> (#[trigger] self.mark_of(item)
                matches Mark::Done(j) ==> j < self.items@.len() && self.items@[j as int] == item)
        &&& forall|j: int|
            0 <= j < self.items@.len() && (#[trigger] self.items@[j]).height() == 2
                ==> self.mark_of(self.items@[j]) == Mark::Done(j as usize)
    }

    /// What holds while the items of `stack` are under expansion.
    #[verifier::opaque]
    spec fn searching(&self, stack: Seq<Item>) -> bool {
        &&& self.marks_ok()
        &&& planned(self.lookup@, self.graph(), self.items@)
        &&& self.edges@ == edges_upto(self.lookup@, self.items@, self.items@.len())
        &&& forall|item: Item|
            item.valid(self.lookup@) && item.height() == 2 ==> (#[trigger] self.mark_of(item)
                is Active <==> stack.contains(item))
    }

    /// The builder is between two requests: its graph is the plan of its
    /// items.
    pub closed spec fn wf(&self) -> bool {
        self.searching(Seq::empty())
    }

    /// What a well-formed builder holds.
    pub proof fn lemma_wf(&self)
        requires
            self.wf(),
        ensures
            planned(self.lookup(), self.graph(), self.items()),
            self.graph() == plan_graph(self.lookup(), self.items()),
    {
        reveal(DepGraphBuilder::searching);
        reveal(planned);
        assert(self.graph().nodes =~= plan_graph(self.lookup(), self.items()).nodes);
    }

    /// What holds during a search holds of the marks and of the graph.
    proof fn lemma_searching(&self, stack: Seq<Item>)
        requires
            self.searching(stack),
        ensures
            self.marks_ok(),
            planned(self.lookup@, self.graph(), self.items@),
            self.nodes.len() == self.items@.len(),
    {
        reveal(DepGraphBuilder::searching);
        reveal(DepGraphBuilder::marks_ok);
    }

    /// Sets the mark of a project or of a task; other items have none.
    fn mark(&mut self, work: &Work, m: Mark)
        requires
            old(self).shaped(),
            work@.valid(old(self).lookup@),
        ensures
            final(self).lookup == old(self).lookup,
            final(self).nodes == old(self).nodes,
            final(self).edges == old(self).edges,
            final(self).items == old(self).items,
            final(self).shaped(),
            work@.height() == 2 ==> final(self).mark_of(work@) == m,
            forall|item: Item|
                item.valid(old(self).lookup@) && item != work@ ==> #[trigger] final(self).mark_of(
                    item,
                ) == old(self).mark_of(item),
            work@.height() == 2 ==> final(self).fresh() + one_if_fresh(old(self).mark_of(work@))
                == old(self).fresh() + one_if_fresh(m),
            work@.height() < 2 ==> final(self).fresh() == old(self).fresh(),
    {
        match work {
            Work::Run(p, t) => {
                let ghost rows = self.run_marks@;
                self.run_marks[*p][*t] = m;
                proof {
                    lemma_fresh_in_set(rows[*p as int]@, *t as int, m);
                    lemma_fresh_rows_set(rows, self.run_marks@, *p as int);
                }
            },
            Work::Sync(p) => {
                let ghost row = self.sync_marks@;
                self.sync_marks[*p] = m;
                proof {
                    lemma_fresh_in_set(row, *p as int, m);
                }
            },
            _ => {},
        }
    }

    /// What the builder knows of a unit of work.
    fn state_of(&self, work: &Work) -> (m: Mark)
        requires
            self.marks_ok(),
            planned(self.lookup@, self.graph(), self.items@),
            work@.valid(self.lookup@),
        ensures
            m matches Mark::Done(j) ==> j < self.items@.len() && self.items@[j as int] == work@,
            m is Fresh ==> !self.items@.contains(work@),
            m is Active ==> work@.height() == 2,
            work@.height() == 2 ==> m == self.mark_of(work@),
    {
        proof {
            reveal(DepGraphBuilder::marks_ok);
        }
        match work {
            Work::Run(p, t) => {
                let m = self.run_marks[*p][*t];
                assert(m == self.mark_of(work@));
                m
            },
            Work::Sync(p) => {
                let m = self.sync_marks[*p];
                assert(m == self.mark_of(work@));
                m
            },
            _ => {
                let node = node_of(self.lookup, work);
                let mut j: usize = 0;
                while j < self.nodes.len()
                    invariant
                        j <= self.nodes.len(),
                        self.nodes.len() == self.items@.len(),
                        planned(self.lookup@, self.graph(), self.items@),
                        work@.height() < 2,
                        node@ == work@.node(self.lookup@),
                        forall|i: int| 0 <= i < j ==> self.graph().nodes[i] != node@,
                    decreases self.nodes.len() - j,
                {
                    if self.nodes[j].same(&node) {
                        proof {
                            lemma_planned_node(self.lookup@, self.graph(), self.items@, j as int);
                        }
                        assert(self.graph().nodes[j as int] == node@);
                        assert(self.items@[j as int].node(self.lookup@) == work@.node(self.lookup@));
                        return Mark::Done(j);
                    }
                    j += 1;
                }
                assert forall|i: int| 0 <= i < self.items@.len() implies self.items@[i]
                    != work@ by {
                    lemma_planned_node(self.lookup@, self.graph(), self.items@, i);
                    assert(self.graph().nodes[i] == self.items@[i].node(self.lookup@));
                }
                Mark::Fresh
            },
        }
    }

    /// Adds the node of a unit of work whose requirements stand in the
    /// graph at the indices `preds`, with an edge from each of them.
    fn attach(&mut self, work: &Work, preds: &Vec<usize>, Ghost(stack): Ghost<Seq<Item>>) -> (index:
        usize)
        requires
            old(self).searching(stack.push(work@)),
            work@.valid(old(self).lookup@),
            work@.height() == 2 ==> !stack.contains(work@),
            !old(self).items@.contains(work@),
            requirements(old(self).lookup@, work@) is Ok,
            preds@ == preds_of(
                old(self).items@,
                requirements(old(self).lookup@, work@)->Ok_0,
                requirements(old(self).lookup@, work@)->Ok_0.len(),
            ),
            preds@.no_duplicates(),
            forall|a: int|
                0 <= a < preds.len() ==> (#[trigger] preds[a]) < old(self).items@.len()
                    && requires_item(
                    old(self).lookup@,
                    work@,
                    old(self).items@[preds[a] as int],
                ),
            forall|r: Item| #[trigger]
                requires_item(old(self).lookup@, work@, r) ==> offered(old(self).items@, preds@, r),
        ensures
            final(self).lookup == old(self).lookup,
            final(self).searching(stack),
            final(self).graph() == attached(old(self).lookup@, old(self).graph(), work@, preds@),
            final(self).items@ == old(self).items@.push(work@),
            index == old(self).items@.len(),
            final(self).fresh() == old(self).fresh(),
    {
        proof {
            reveal(DepGraphBuilder::searching);
            reveal(DepGraphBuilder::marks_ok);
        }
        let ghost l = self.lookup@;
        let ghost g = self.graph();
        let ghost before = self.items@;
        let ghost inner = stack.push(work@);
        assert(inner.contains(work@)) by {
            assert(inner[stack.len() as int] == work@);
        }
        assert(work@.height() == 2 ==> old(self).mark_of(work@) is Active);
        let node = node_of(self.lookup, work);
        let index = self.nodes.len();
        self.nodes.push(node);
        proof {
            self.items@ = self.items@.push(work@);
            assert(self.nodes.deep_view() =~= g.nodes.push(work@.node(l)));
        }
        self.mark(work, Mark::Done(index));
        let ghost mid = *self;
        let ghost rest = self.edges@;
        let ghost rows = self.run_marks;
        let ghost row = self.sync_marks;
        let mut a: usize = 0;
        while a < preds.len()
            invariant
                a <= preds.len(),
                self.lookup == old(self).lookup,
                self.nodes.len() == index + 1,
                self.nodes.deep_view() == g.nodes.push(work@.node(l)),
                self.items@ == before.push(work@),
                self.run_marks == rows,
                self.sync_marks == row,
                self.edges@ == rest + Seq::new(a as nat, |x: int| (preds[x], index)),
            decreases preds.len() - a,
        {
            self.edges.push((preds[a], index));
            assert(self.edges@ =~= rest + Seq::new((a + 1) as nat, |x: int| (preds[x], index)));
            a += 1;
        }
        proof {
            assert(self.edges@ =~= attached(l, g, work@, preds@).edges);
            lemma_attach(l, g, before, work@, preds@);
            let now = before.push(work@);
            let found = requirements(l, work@)->Ok_0;
            lemma_planned_edges(l, attached(l, g, work@, preds@), now);
            lemma_edges_stable(l, g, before, now, before.len());
            assert forall|k: int| 0 <= k < found.len() implies before.contains(
                #[trigger] found[k],
            ) by {
                assert(requires_item(l, work@, found[k]));
                assert(offered(before, preds@, found[k]));
            }
            lemma_preds_stable(before, now, found, found.len());
            assert(edges_to(l, now, before.len() as int) =~= Seq::new(
                preds@.len(),
                |a: int| (preds@[a], g.nodes.len() as usize),
            ));
            lemma_planned_node(l, attached(l, g, work@, preds@), now, before.len() as int);
            assert(self.edges@ == edges_upto(l, now, now.len()));
            assert forall|item: Item| item.valid(l) && item.height() == 2 implies (
            #[trigger] self.mark_of(item) matches Mark::Done(j) ==> j < self.items@.len()
                && self.items@[j as int] == item) && (self.mark_of(item) is Active
                <==> stack.contains(item)) by {
                assert(self.mark_of(item) == mid.mark_of(item));
                if item != work@ {
                    assert(mid.mark_of(item) == old(self).mark_of(item));
                    assert(inner.contains(item) <==> stack.contains(item)) by {
                        if inner.contains(item) {
                            let i = choose|i: int| 0 <= i < inner.len() && inner[i] == item;
                            assert(stack[i] == item);
                        }
                        if stack.contains(item) {
                            let i = choose|i: int| 0 <= i < stack.len() && stack[i] == item;
                            assert(inner[i] == item);
                        }
                    }
                }
            }
            assert forall|j: int|
                0 <= j < self.items@.len() && (#[trigger] self.items@[j]).height()
                    == 2 implies self.mark_of(self.items@[j]) == Mark::Done(j as usize) by {
                if j < before.len() {
                    lemma_planned_node(l, g, before, j);
                    assert(self.items@[j] == before[j]);
                    assert(before.contains(before[j]));
                    assert(self.mark_of(before[j]) == mid.mark_of(before[j]));
                    assert(mid.mark_of(before[j]) == old(self).mark_of(before[j]));
                }
            }
        }
        index
    }

    /// Marks a unit of work as under expansion.
    fn enter(&mut self, work: &Work, Ghost(stack): Ghost<Seq<Item>>)
        requires
            old(self).searching(stack),
            work@.valid(old(self).lookup@),
            !old(self).items@.contains(work@),
            work@.height() == 2 ==> old(self).mark_of(work@) is Fresh,
        ensures
            final(self).lookup == old(self).lookup,
            final(self).searching(stack.push(work@)),
            final(self).graph() == old(self).graph(),
            final(self).items@ == old(self).items@,
            work@.height() == 2 ==> final(self).fresh() < old(self).fresh(),
            work@.height() < 2 ==> final(self).fresh() == old(self).fresh(),
    {
        proof {
            reveal(DepGraphBuilder::searching);
            reveal(DepGraphBuilder::marks_ok);
        }
        let ghost l = self.lookup@;
        let ghost inner = stack.push(work@);
        let ghost start = *self;
        self.mark(work, Mark::Active);
        proof {
            assert forall|item: Item| item.valid(l) && item.height() == 2 implies (
            #[trigger] self.mark_of(item) matches Mark::Done(j) ==> j < self.items@.len()
                && self.items@[j as int] == item) && (self.mark_of(item) is Active
                <==> inner.contains(item)) by {
                if item != work@ {
                    assert(self.mark_of(item) == start.mark_of(item));
                    if inner.contains(item) {
                        let i = choose|i: int| 0 <= i < inner.len() && inner[i] == item;
                        assert(stack[i] == item);
                    }
                    if stack.contains(item) {
                        let i = choose|i: int| 0 <= i < stack.len() && stack[i] == item;
                        assert(inner[i] == item);
                    }
                } else {
                    assert(inner[stack.len() as int] == work@);
                }
            }
            assert forall|j: int|
                0 <= j < self.items@.len() && (#[trigger] self.items@[j]).height()
                    == 2 implies self.mark_of(self.items@[j]) == Mark::Done(j as usize) by {
                lemma_planned_node(l, self.graph(), self.items@, j);
                assert(self.items@.contains(self.items@[j]));
                assert(self.mark_of(self.items@[j]) == start.mark_of(self.items@[j]));
            }
        }
    }

    /// No more items are fresh than there are projects and tasks.
    proof fn lemma_fresh_bound(&self)
        requires
            self.wf(),
        ensures
            self.fresh() + 2 < enough(self.lookup@),
    {
        reveal(DepGraphBuilder::searching);
        reveal(DepGraphBuilder::marks_ok);
        lemma_fresh_rows_bound(self.run_marks@, self.lookup@);
        lemma_fresh_in_bound(self.sync_marks@);
    }

    /// An item under expansion has no node yet.
    proof fn lemma_active_absent(&self, stack: Seq<Item>, item: Item)
        requires
            self.searching(stack),
            stack.contains(item),
            item.valid(self.lookup@),
            item.height() == 2,
        ensures
            !self.items@.contains(item),
    {
        reveal(DepGraphBuilder::searching);
        reveal(DepGraphBuilder::marks_ok);
        assert(self.mark_of(item) is Active);
        if self.items@.contains(item) {
            let j = choose|j: int| 0 <= j < self.items@.len() && self.items@[j] == item;
            assert(self.mark_of(self.items@[j]) == Mark::Done(j as usize));
        }
    }

    /// An item that is marked as under expansion is in the stack.
    proof fn lemma_active_stacked(&self, stack: Seq<Item>, item: Item)
        requires
            self.searching(stack),
            item.valid(self.lookup@),
            item.height() == 2,
        ensures
            self.mark_of(item) is Active <==> stack.contains(item),
    {
        reveal(DepGraphBuilder::searching);
    }

    /// Plans a unit of work and, before it, everything that it requires:
    /// returns the index of its node. `stack` holds the items whose
    /// expansion led here.
    fn expand(&mut self, work: Work, Ghost(stack): Ghost<Seq<Item>>) -> (out: Result<
        usize,
        DepGraphError,
    >)
        requires
            old(self).searching(stack),
            work@.valid(old(self).lookup@),
            is_chain(old(self).lookup@, stack.push(work@)),
        ensures
            final(self).lookup == old(self).lookup,
            final(self).marks_ok(),
            final(self).graph().extends(old(self).graph()),
            old(self).items@.is_prefix_of(final(self).items@),
            out matches Ok(j) ==> {
                &&& final(self).searching(stack)
                &&& j < final(self).items@.len()
                &&& final(self).items@[j as int] == work@
                &&& final(self).fresh() <= old(self).fresh()
                &&& old(self).items@.contains(work@) ==> final(self).graph() == old(self).graph()
                    && final(self).items@ == old(self).items@
                &&& forall|x: int|
                    old(self).items@.len() <= x < final(self).items@.len() ==> leads_to(
                        old(self).lookup@,
                        work@,
                        #[trigger] final(self).items@[x],
                    )
                &&& forall|fuel: nat|
                    fuel > old(self).fresh() + work@.height() ==> #[trigger] planted(
                        old(self).lookup@,
                        old(self).items@,
                        stack,
                        work@,
                        fuel,
                    ) == Ok::<Seq<Item>, ErrorView>(final(self).items@)
            },
            out matches Err(e) ==> exists|path: Seq<Item>| #[trigger]
                fails_with(old(self).lookup@, path, e@) && stack.push(work@).is_prefix_of(path),
            out matches Err(e) ==> forall|fuel: nat|
                fuel > old(self).fresh() + work@.height() ==> #[trigger] planted(
                    old(self).lookup@,
                    old(self).items@,
                    stack,
                    work@,
                    fuel,
                ) == Err::<Seq<Item>, ErrorView>(e@),
        decreases old(self).fresh(), work@.height(),
    {
        let ghost l = self.lookup@;
        let ghost g0 = self.graph();
        let ghost items0 = self.items@;
        let ghost fresh0 = self.fresh();
        let ghost inner = stack.push(work@);
        proof {
            lemma_extends_self(g0);
            assert(inner.drop_last() =~= stack);
            assert(inner.is_prefix_of(inner));
            self.lemma_searching(stack);
        }
        let state = self.state_of(&work);
        match state {
            Mark::Done(j) => {
                return Ok(j);
            },
            Mark::Active => {
                let node = node_of(self.lookup, &work);
                let e = DepGraphError::CycleDetected(node);
                proof {
                    self.lemma_active_stacked(stack, work@);
                    self.lemma_active_absent(stack, work@);
                    assert(inner.drop_last().contains(inner.last()));
                    assert(e@ == ErrorView::CycleDetected(inner.last().node(l)));
                    assert(fails_with(l, inner, e@));
                }
                return Err(e);
            },
            Mark::Fresh => {},
        }
        proof {
            if work@.height() == 2 {
                self.lemma_active_stacked(stack, work@);
            }
        }
        let reqs = match requirements_of(self.lookup, &work) {
            Ok(list) => list,
            Err(e) => {
                proof {
                    assert(fails_with(l, inner, e@));
                }
                return Err(e);
            },
        };
        let ghost rs = reqs.deep_view();
        self.enter(&work, Ghost(stack));
        let mut preds: Vec<usize> = Vec::new();
        let mut i: usize = 0;
        while i < reqs.len()
            invariant
                i <= reqs.len(),
                l == self.lookup@,
                self.lookup == old(self).lookup,
                rs == reqs.deep_view(),
                requirements(l, work@) == Ok::<Seq<Item>, ErrorView>(rs),
                all_valid(l, rs),
                work@.valid(l),
                inner == stack.push(work@),
                is_chain(l, inner),
                self.searching(inner),
                !self.items@.contains(work@),
                self.graph().extends(g0),
                items0.is_prefix_of(self.items@),
                g0 == old(self).graph(),
                items0 == old(self).items@,
                fresh0 == old(self).fresh(),
                work@.height() == 2 ==> self.fresh() < fresh0,
                work@.height() < 2 ==> self.fresh() <= fresh0,
                gathered(l, work@, self.items@, preds@, rs, i as int),
                forall|x: int|
                    items0.len() <= x < self.items@.len() ==> leads_to(
                        l,
                        work@,
                        #[trigger] self.items@[x],
                    ),
                forall|fuel: nat|
                    fuel >= fresh0 + work@.height() ==> #[trigger] planted_all(
                        l,
                        items0,
                        inner,
                        rs,
                        i as nat,
                        fuel,
                    ) == Ok::<Seq<Item>, ErrorView>(self.items@),
                !items0.contains(work@),
                work@.height() == 2 ==> !stack.contains(work@),
            decreases reqs.len() - i,
        {
            let r = reqs[i].clone();
            let ghost seen = self.items@;
            let ghost reached = self.graph();
            let ghost fresh_seen = self.fresh();
            proof {
                assert(rs[i as int] == r@);
                assert(requires_item(l, work@, r@));
                lemma_chain_push(l, inner, r@);
            }
            match self.expand(r, Ghost(inner)) {
                Err(e) => {
                    proof {
                        let path = choose|path: Seq<Item>| #[trigger]
                            fails_with(l, path, e@) && inner.push(rs[i as int]).is_prefix_of(path);
                        assert(inner.is_prefix_of(path));
                        lemma_extends_twice(g0, reached, self.graph());
                        assert forall|fuel: nat| fuel > fresh0 + work@.height() implies #[trigger] planted(
                            l,
                            items0,
                            stack,
                            work@,
                            fuel,
                        ) == Err::<Seq<Item>, ErrorView>(e@) by {
                            let less = (fuel - 1) as nat;
                            let next: nat = (i + 1) as nat;
                            assert(planted_all(l, items0, inner, rs, i as nat, less) == Ok::<
                                Seq<Item>,
                                ErrorView,
                            >(seen));
                            if work@.height() < 2 {
                                assert(rs[i as int] is Setup);
                                assert(rs[i as int].height() == 0);
                            }
                            assert(less > fresh_seen + rs[i as int].height());
                            assert(planted(l, seen, inner, rs[i as int], less) == Err::<
                                Seq<Item>,
                                ErrorView,
                            >(e@));
                            assert(planted_all(l, items0, inner, rs, next, less) == planted(
                                l,
                                seen,
                                inner,
                                rs[next - 1],
                                less,
                            ));
                            lemma_planted_all_stay(l, items0, inner, rs, next, rs.len(), less);
                        }
                    }
                    return Err(e);
                },
                Ok(j) => {
                    proof {
                        lemma_extends_twice(g0, reached, self.graph());
                        assert forall|x: int| seen.len() <= x < self.items@.len() implies leads_to(
                            l,
                            work@,
                            #[trigger] self.items@[x],
                        ) && self.items@[x] != work@ by {
                            lemma_lead_step(l, work@, rs[i as int], self.items@[x]);
                            if work@.height() == 2 {
                                assert(inner[stack.len() as int] == work@);
                                self.lemma_active_absent(inner, work@);
                            } else {
                                lemma_setup_leads(l, rs[i as int], self.items@[x]);
                            }
                        }
                        assert forall|x: int| items0.len() <= x < seen.len() implies leads_to(
                            l,
                            work@,
                            #[trigger] self.items@[x],
                        ) by {
                            assert(self.items@[x] == seen[x]);
                        }
                        let next: nat = (i + 1) as nat;
                        assert forall|fuel: nat| fuel >= fresh0 + work@.height() implies #[trigger] planted_all(
                            l,
                            items0,
                            inner,
                            rs,
                            next,
                            fuel,
                        ) == Ok::<Seq<Item>, ErrorView>(self.items@) by {
                            assert(planted_all(l, items0, inner, rs, i as nat, fuel) == Ok::<
                                Seq<Item>,
                                ErrorView,
                            >(seen));
                            assert(rs[i as int].height() <= 2);
                            if work@.height() < 2 {
                                assert(rs[i as int] is Setup);
                                assert(rs[i as int].height() == 0);
                            }
                            assert(fuel > fresh_seen + rs[i as int].height());
                            assert(planted(l, seen, inner, rs[i as int], fuel) == Ok::<
                                Seq<Item>,
                                ErrorView,
                            >(self.items@));
                            assert(planted_all(l, items0, inner, rs, next, fuel) == planted(
                                l,
                                seen,
                                inner,
                                rs[next - 1],
                                fuel,
                            ));
                        }
                        lemma_absent(seen, self.items@, work@);
                        self.lemma_searching(inner);
                        lemma_planned_edges(l, self.graph(), self.items@);
                        lemma_gathered_grow(l, work@, seen, self.items@, preds@, rs, i as int);
                        lemma_gathered_next(l, work@, self.items@, preds@, rs, i as int, j);
                    }
                    if !has_index(&preds, j) {
                        preds.push(j);
                    }
                },
            }
            let ghost next: nat = (i + 1) as nat;
            assert(forall|fuel: nat|
                fuel >= fresh0 + work@.height() ==> #[trigger] planted_all(
                    l,
                    items0,
                    inner,
                    rs,
                    next,
                    fuel,
                ) == Ok::<Seq<Item>, ErrorView>(self.items@));
            i += 1;
            assert(i as nat == next);
        }
        proof {
            lemma_gathered_all(l, work@, self.items@, preds@, rs);
            if work@.height() == 2 {
                assert(!stack.contains(work@));
            }
        }
        let ghost seen = self.items@;
        let ghost reached = self.graph();
        let index = self.attach(&work, &preds, Ghost(stack));
        proof {
            self.lemma_searching(stack);
            lemma_lead_self(l, work@);
            assert forall|fuel: nat| fuel > fresh0 + work@.height() implies #[trigger] planted(
                l,
                items0,
                stack,
                work@,
                fuel,
            ) == Ok::<Seq<Item>, ErrorView>(self.items@) by {
                assert(planted_all(l, items0, inner, rs, rs.len(), (fuel - 1) as nat) == Ok::<
                    Seq<Item>,
                    ErrorView,
                >(seen));
            }
            lemma_attached_extends(l, reached, work@, preds@);
            lemma_extends_twice(g0, reached, self.graph());
            assert forall|x: int| items0.len() <= x < self.items@.len() implies leads_to(
                l,
                work@,
                #[trigger] self.items@[x],
            ) by {
                if x < seen.len() {
                    assert(self.items@[x] == seen[x]);
                }
            }
        }
        Ok(index)
    }

    /// Takes the builder back to an earlier graph of this pass: drops the
    /// nodes and edges that came since, and forgets what was under
    /// expansion.
    fn rollback(&mut self, nodes: usize, edges: usize, Ghost(g0): Ghost<GraphView>, Ghost(items0): Ghost<Seq<Item>>)
        requires
            old(self).marks_ok(),
            planned(old(self).lookup@, g0, items0),
            g0.edges == edges_upto(old(self).lookup@, items0, items0.len()),
            old(self).graph().extends(g0),
            items0.is_prefix_of(old(self).items@),
            nodes == g0.nodes.len(),
            edges == g0.edges.len(),
        ensures
            final(self).lookup == old(self).lookup,
            final(self).wf(),
            final(self).graph() == g0,
            final(self).items@ == items0,
    {
        proof {
            reveal(DepGraphBuilder::searching);
            reveal(DepGraphBuilder::marks_ok);
            lemma_planned_edges(self.lookup@, g0, items0);
        }
        let ghost l = self.lookup@;
        let ghost failed = *self;
        self.nodes.truncate(nodes);
        self.edges.truncate(edges);
        proof {
            self.items@ = items0;
            assert(self.nodes.deep_view() =~= failed.nodes.deep_view().take(nodes as int));
            assert(self.edges@ =~= failed.edges@.take(edges as int));
        }
        settle(&mut self.sync_marks, nodes);
        let mut p: usize = 0;
        while p < self.run_marks.len()
            invariant
                p <= self.run_marks.len(),
                self.lookup == failed.lookup,
                self.nodes.deep_view() == g0.nodes,
                self.edges@ == g0.edges,
                self.items@ == items0,
                self.run_marks.len() == failed.run_marks.len(),
                self.sync_marks.len() == failed.sync_marks.len(),
                forall|q: int|
                    0 <= q < self.sync_marks.len() ==> #[trigger] self.sync_marks[q] == settled(
                        failed.sync_marks[q],
                        nodes,
                    ),
                forall|q: int|
                    0 <= q < self.run_marks.len() ==> (#[trigger] self.run_marks[q]).len()
                        == failed.run_marks[q].len(),
                forall|q: int, t: int|
                    0 <= q < p && 0 <= t < self.run_marks[q].len() ==> #[trigger] self.run_marks[q][t]
                        == settled(failed.run_marks[q][t], nodes),
                forall|q: int| p <= q < self.run_marks.len() ==> self.run_marks[q] == failed.run_marks[q],
            decreases self.run_marks.len() - p,
        {
            settle(&mut self.run_marks[p], nodes);
            p += 1;
        }
        proof {
            assert forall|item: Item| item.valid(l) && item.height() == 2 implies self.mark_of(item)
                == settled(failed.mark_of(item), nodes) by {
                match item {
                    Item::Run(q, t) => {
                        assert(self.run_marks[q][t] == settled(failed.run_marks[q][t], nodes));
                    },
                    Item::Sync(q) => {
                        assert(self.sync_marks[q] == settled(failed.sync_marks[q], nodes));
                    },
                    _ => {},
                }
            }
            assert forall|item: Item| item.valid(l) && item.height() == 2 implies (
            #[trigger] self.mark_of(item) matches Mark::Done(j) ==> j < self.items@.len()
                && self.items@[j as int] == item) && (self.mark_of(item) is Active
                <==> Seq::<Item>::empty().contains(item)) by {
                assert(self.mark_of(item) == settled(failed.mark_of(item), nodes));
                match self.mark_of(item) {
                    Mark::Done(j) => {
                        assert(failed.mark_of(item) == Mark::Done(j));
                        assert(failed.items@[j as int] == items0[j as int]);
                    },
                    _ => {},
                }
            }
            assert forall|j: int|
                0 <= j < self.items@.len() && (#[trigger] self.items@[j]).height()
                    == 2 implies self.mark_of(self.items@[j]) == Mark::Done(j as usize) by {
                lemma_planned_node(l, g0, items0, j);
                assert(failed.items@[j] == items0[j]);
                assert(failed.mark_of(failed.items@[j]) == Mark::Done(j as usize));
                assert(self.mark_of(items0[j]) == settled(failed.mark_of(items0[j]), nodes));
            }
        }
    }

    /// Plans one root of a request, or takes the builder back to the graph
    /// `g0` with which the request began.
    fn request(
        &mut self,
        work: Work,
        nodes: usize,
        edges: usize,
        Ghost(g0): Ghost<GraphView>,
        Ghost(items0): Ghost<Seq<Item>>,
    ) -> (out: Result<usize, DepGraphError>)
        requires
            old(self).wf(),
            work@.valid(old(self).lookup@),
            planned(old(self).lookup@, g0, items0),
            g0.edges == edges_upto(old(self).lookup@, items0, items0.len()),
            old(self).graph().extends(g0),
            items0.is_prefix_of(old(self).items@),
            nodes == g0.nodes.len(),
            edges == g0.edges.len(),
        ensures
            final(self).lookup == old(self).lookup,
            final(self).wf(),
            final(self).graph().extends(g0),
            items0.is_prefix_of(final(self).items@),
            out matches Ok(j) ==> {
                &&& final(self).graph().extends(old(self).graph())
                &&& old(self).items@.is_prefix_of(final(self).items@)
                &&& j < final(self).items@.len()
                &&& final(self).items@[j as int] == work@
                &&& expandable(old(self).lookup@, work@)
                &&& planted(
                    old(self).lookup@,
                    old(self).items@,
                    Seq::empty(),
                    work@,
                    enough(old(self).lookup@),
                ) == Ok::<Seq<Item>, ErrorView>(final(self).items@)
                &&& old(self).items@.contains(work@) ==> final(self).graph() == old(self).graph()
                    && final(self).items@ == old(self).items@
                &&& forall|x: int|
                    old(self).items@.len() <= x < final(self).items@.len() ==> leads_to(
                        old(self).lookup@,
                        work@,
                        #[trigger] final(self).items@[x],
                    )
            },
            out matches Err(e) ==> {
                &&& final(self).graph() == g0
                &&& final(self).items@ == items0
                &&& fails_from(old(self).lookup@, work@, e@)
                &&& planted(
                    old(self).lookup@,
                    old(self).items@,
                    Seq::empty(),
                    work@,
                    enough(old(self).lookup@),
                ) == Err::<Seq<Item>, ErrorView>(e@)
            },
    {
        let ghost l = self.lookup@;
        let ghost reached = self.graph();
        let ghost way = Seq::<Item>::empty().push(work@);
        assert(is_chain(l, way));
        proof {
            self.lemma_fresh_bound();
        }
        match self.expand(work, Ghost(Seq::empty())) {
            Ok(j) => {
                proof {
                    self.lemma_wf();
                    lemma_planned_expandable(l, self.graph(), self.items@, j as int);
                    lemma_extends_twice(g0, reached, self.graph());
                }
                Ok(j)
            },
            Err(e) => {
                proof {
                    let path = choose|path: Seq<Item>| #[trigger]
                        fails_with(l, path, e@) && way.is_prefix_of(path);
                    assert(path.first() == way[0]);
                    lemma_extends_twice(g0, reached, self.graph());
                    lemma_extends_self(g0);
                }
                self.rollback(nodes, edges, Ghost(g0), Ghost(items0));
                Err(e)
            },
        }
    }

    /// Plans the sync of the project that goes by `name` and, before it, of
    /// every project that it depends on: returns the index of its node.
    ///
    /// Fails, and leaves the graph as it was, if no project goes by the
    /// name, or if the same holds of a project that it depends on, directly
    /// or through others, or if one of them depends on itself. A project
    /// that was planned before is not planned again.
    pub fn sync_project(&mut self, name: &str) -> (out: Result<usize, DepGraphError>)
        requires
            old(self).wf(),
        ensures
            final(self).wf(),
            final(self).lookup() == old(self).lookup(),
            final(self).graph() == plan_graph(final(self).lookup(), final(self).items()),
            final(self).graph().extends(old(self).graph()),
            old(self).items().is_prefix_of(final(self).items()),
            out is Err ==> final(self).graph() == old(self).graph() && final(self).items() == old(
                self,
            ).items(),
            project_index(old(self).lookup(), name@) is None ==> (out matches Err(e) && e@
                == ErrorView::UnknownProject(name@)),
            project_index(old(self).lookup(), name@) matches Some(p) ==> {
                let item = Item::Sync(p);
                &&& out is Ok <==> expandable(old(self).lookup(), item)
                &&& out matches Ok(j) ==> {
                    &&& j < final(self).items().len()
                    &&& final(self).items()[j as int] == item
                    &&& planted(
                        old(self).lookup(),
                        old(self).items(),
                        Seq::empty(),
                        item,
                        enough(old(self).lookup()),
                    ) == Ok::<Seq<Item>, ErrorView>(final(self).items())
                    &&& old(self).items().contains(item) ==> final(self).graph() == old(
                        self,
                    ).graph() && final(self).items() == old(self).items()
                    &&& forall|x: int|
                        old(self).items().len() <= x < final(self).items().len() ==> leads_to(
                            old(self).lookup(),
                            item,
                            #[trigger] final(self).items()[x],
                        )
                }
                &&& out matches Err(e) ==> fails_from(old(self).lookup(), item, e@) && planted(
                    old(self).lookup(),
                    old(self).items(),
                    Seq::empty(),
                    item,
                    enough(old(self).lookup()),
                ) == Err::<Seq<Item>, ErrorView>(e@)
            },
    {
        let ghost l = self.lookup@;
        let ghost g0 = self.graph();
        let ghost items0 = self.items@;
        let name = name.to_owned();
        proof {
            lemma_extends_self(g0);
            self.lemma_wf();
        }
        let p = match self.lookup.project_index(&name) {
            Some(p) => p,
            None => {
                return Err(DepGraphError::UnknownProject(name));
            },
        };
        let nodes = self.nodes.len();
        let edges = self.edges.len();
        let out = self.request(Work::Sync(p), nodes, edges, Ghost(g0), Ghost(items0));
        proof {
            self.lemma_wf();
        }
        out
    }

    /// Whether a candidate is to be planned, given the touched files.
    fn is_selected(&self, work: &Work, touched: Option<&Vec<String>>) -> (out: bool)
        requires
            work@.valid(self.lookup@),
            work@ is Run,
        ensures
            out == selected(self.lookup@, work@, touched.deep_view()),
    {
        match touched {
            None => true,
            Some(files) => {
                if files.len() == 0 {
                    return true;
                }
                match work {
                    Work::Run(p, t) => self.lookup.projects[*p].tasks[*t].is_affected(files),
                    _ => false,
                }
            },
        }
    }

    /// The tasks that a target stands for where it is asked for directly.
    fn candidates(&self, target: &Target) -> (out: Result<Vec<Work>, DepGraphError>)
        ensures
            out matches Ok(list) ==> requested(self.lookup@, target@) == Ok::<Seq<Item>, ErrorView>(
                list.deep_view(),
            ) && all_valid(self.lookup@, list.deep_view()) && forall|k: int|
                0 <= k < list.len() ==> #[trigger] list.deep_view()[k] is Run,
            out matches Err(e) ==> requested(self.lookup@, target@) == Err::<Seq<Item>, ErrorView>(
                e@,
            ),
    {
        let ghost l = self.lookup@;
        let mut list: Vec<Work> = Vec::new();
        assert(list.deep_view() =~= Seq::<Item>::empty());
        match &target.scope {
            TargetScope::Deps => Err(
                DepGraphError::UnsupportedScope(TargetScope::Deps, ScopeContext::Run),
            ),
            TargetScope::OwnSelf => Err(
                DepGraphError::UnsupportedScope(TargetScope::OwnSelf, ScopeContext::Run),
            ),
            TargetScope::Project(name) => {
                match self.lookup.project_index(name) {
                    None => Err(DepGraphError::UnknownProject(name.clone())),
                    Some(p) => {
                        let project = &self.lookup.projects[p];
                        match project.task_index(&target.task_id) {
                            None => Err(
                                DepGraphError::UnknownTask(
                                    project.id.clone(),
                                    target.task_id.clone(),
                                ),
                            ),
                            Some(t) => {
                                list.push(Work::Run(p, t));
                                assert(list.deep_view() =~= seq![Item::Run(p as int, t as int)]);
                                Ok(list)
                            },
                        }
                    },
                }
            },
            TargetScope::All => {
                let mut p: usize = 0;
                while p < self.lookup.projects.len()
                    invariant
                        p <= self.lookup.projects.len(),
                        l == self.lookup@,
                        list.deep_view() == declaring(l, target@.task_id, p as int),
                        all_valid(l, list.deep_view()),
                        forall|k: int| 0 <= k < list.len() ==> #[trigger] list.deep_view()[k] is Run,
                    decreases self.lookup.projects.len() - p,
                {
                    let ghost before = list.deep_view();
                    match self.lookup.projects[p].task_index(&target.task_id) {
                        Some(t) => {
                            list.push(Work::Run(p, t));
                            assert(list.deep_view() =~= before.push(Item::Run(p as int, t as int)));
                        },
                        None => {},
                    }
                    p += 1;
                }
                Ok(list)
            },
        }
    }

    /// Plans the tasks that `target` stands for and, before each,
    /// everything that it requires: returns the indices of their nodes.
    ///
    /// A target with the scope of one project stands for one task; a target
    /// with the scope of all projects stands for the task of that id in
    /// every project that has one, in the order of the projects. Where
    /// touched files are given and at least one is listed, a task is planned
    /// only if one of them is among its inputs; what a planned task
    /// requires is planned whatever its inputs are. A task that was planned
    /// before is not planned again.
    ///
    /// Fails, and leaves the graph as it was, if the target has the scope
    /// of the current project or of its dependencies; if it names a project
    /// or a task that does not exist; or if the same holds of what one of
    /// the tasks requires, directly or through others, or one of those
    /// requires itself.
    pub fn run_target(&mut self, target: &Target, touched: Option<&Vec<String>>) -> (out: Result<
        Vec<usize>,
        DepGraphError,
    >)
        requires
            old(self).wf(),
        ensures
            final(self).wf(),
            final(self).lookup() == old(self).lookup(),
            final(self).graph() == plan_graph(final(self).lookup(), final(self).items()),
            final(self).graph().extends(old(self).graph()),
            old(self).items().is_prefix_of(final(self).items()),
            out is Err ==> final(self).graph() == old(self).graph() && final(self).items() == old(
                self,
            ).items(),
            requested(old(self).lookup(), target@) matches Err(e) ==> (out matches Err(x) && x@
                == e),
            requested(old(self).lookup(), target@) matches Ok(cands) ==> {
                let l = old(self).lookup();
                let roots = chosen(l, cands, touched.deep_view(), cands.len() as int);
                &&& out is Ok <==> all_expandable(l, roots)
                &&& out matches Ok(found) ==> {
                    &&& planted_all(
                        l,
                        old(self).items(),
                        Seq::empty(),
                        roots,
                        roots.len(),
                        enough(l),
                    ) == Ok::<Seq<Item>, ErrorView>(final(self).items())
                    &&& stands_for(final(self).items(), found@, roots)
                    &&& all_among(old(self).items(), roots) ==> final(self).graph() == old(
                        self,
                    ).graph() && final(self).items() == old(self).items()
                    &&& forall|x: int|
                        old(self).items().len() <= x < final(self).items().len() ==> led_by(
                            l,
                            roots,
                            #[trigger] final(self).items()[x],
                        )
                }
                &&& out matches Err(e) ==> some_fails(l, roots, e@) && planted_all(
                    l,
                    old(self).items(),
                    Seq::empty(),
                    roots,
                    roots.len(),
                    enough(l),
                ) == Err::<Seq<Item>, ErrorView>(e@)
            },
    {
        let ghost l = self.lookup@;
        let ghost g0 = self.graph();
        let ghost items0 = self.items@;
        let ghost files = touched.deep_view();
        proof {
            lemma_extends_self(g0);
            self.lemma_wf();
        }
        let cands = match self.candidates(target) {
            Ok(list) => list,
            Err(e) => {
                return Err(e);
            },
        };
        let ghost cs = cands.deep_view();
        let ghost roots = chosen(l, cs, files, cs.len() as int);
        let nodes = self.nodes.len();
        let edges = self.edges.len();
        let mut found: Vec<usize> = Vec::new();
        let mut i: usize = 0;
        while i < cands.len()
            invariant
                i <= cands.len(),
                l == self.lookup@,
                self.lookup == old(self).lookup,
                cs == cands.deep_view(),
                files == touched.deep_view(),
                requested(l, target@) == Ok::<Seq<Item>, ErrorView>(cs),
                l == old(self).lookup(),
                roots == chosen(l, cs, files, cs.len() as int),
                all_valid(l, cs),
                forall|k: int| 0 <= k < cs.len() ==> #[trigger] cs[k] is Run,
                self.wf(),
                planned(l, g0, items0),
                g0.edges == edges_upto(l, items0, items0.len()),
                nodes == g0.nodes.len(),
                edges == g0.edges.len(),
                self.graph().extends(g0),
                items0.is_prefix_of(self.items@),
                g0 == old(self).graph(),
                items0 == old(self).items@,
                stands_for(self.items@, found@, chosen(l, cs, files, i as int)),
                planted_all(
                    l,
                    items0,
                    Seq::empty(),
                    chosen(l, cs, files, i as int),
                    chosen(l, cs, files, i as int).len(),
                    enough(l),
                ) == Ok::<Seq<Item>, ErrorView>(self.items@),
                all_among(items0, chosen(l, cs, files, i as int)) ==> self.graph() == g0
                    && self.items@ == items0,
                forall|x: int|
                    items0.len() <= x < self.items@.len() ==> led_by(
                        l,
                        chosen(l, cs, files, i as int),
                        #[trigger] self.items@[x],
                    ),
            decreases cands.len() - i,
        {
            let ghost sofar = chosen(l, cs, files, i as int);
            let ghost seen = self.items@;
            let ghost reached = self.graph();
            proof {
                lemma_chosen_grows(l, cs, files, i as int + 1, cs.len() as int);
                assert(cs[i as int] == cands[i as int]@);
            }
            if self.is_selected(&cands[i], touched) {
                let work = cands[i].clone();
                let ghost root = work@;
                assert(chosen(l, cs, files, i as int + 1) == sofar.push(root));
                assert(sofar.push(root)[sofar.len() as int] == root);
                assert(roots[sofar.len() as int] == root);
                match self.request(work, nodes, edges, Ghost(g0), Ghost(items0)) {
                    Err(e) => {
                        proof {
                            let k = sofar.len() as int;
                            assert(0 <= k < roots.len());
                            assert(fails_from(l, roots[k], e@));
                            assert(some_fails(l, roots, e@));
                            assert(!expandable(l, roots[k]));
                            assert(!all_expandable(l, roots));
                            self.lemma_wf();
                            lemma_next_root(l, items0, seen, sofar, root, roots, enough(l));
                        }
                        return Err(e);
                    },
                    Ok(j) => {
                        let ghost had = found@;
                        found.push(j);
                        proof {
                            lemma_root_planned(l, items0, seen, self.items@, had, j, sofar, root);
                            lemma_next_root(l, items0, seen, sofar, root, roots, enough(l));
                        }
                    },
                }
            }
            i += 1;
        }
        proof {
            self.lemma_wf();
            assert forall|k: int| 0 <= k < roots.len() implies expandable(l, #[trigger] roots[k]) by {
                lemma_planned_expandable(l, self.graph(), self.items@, found[k] as int);
            }
        }
        Ok(found)
    }

    /// The graph as built. Its edges lead forward in the order of
    /// insertion, so it has no cycle.
    pub fn build(self) -> (out: DepGraph)
        requires
            self.wf(),
        ensures
            out@ == self.graph(),
            out@.forward(),
            out@.acyclic(),
            planned(self.lookup(), out@, self.items()),
            out@ == plan_graph(self.lookup(), self.items()),
    {
        proof {
            self.lemma_wf();
            lemma_planned_edges(self.lookup@, self.graph(), self.items@);
            lemma_planned_acyclic(self.lookup@, self.graph(), self.items@);
        }
        DepGraph::assemble(self.nodes, self.edges)
    }

    /// A builder for the given projects, with an empty graph.
    pub fn new(lookup: &'a ProjectGraph) -> (out: Self)
        ensures
            out.wf(),
            out.lookup() == lookup@,
            out.graph().nodes.len() == 0,
            out.graph().edges.len() == 0,
            out.items().len() == 0,
    {
        let mut run_marks: Vec<Vec<Mark>> = Vec::new();
        let mut sync_marks: Vec<Mark> = Vec::new();
        let mut p: usize = 0;
        while p < lookup.projects.len()
            invariant
                p <= lookup.projects.len(),
                run_marks.len() == p,
                sync_marks.len() == p,
                forall|q: int|
                    0 <= q < p ==> (#[trigger] run_marks[q]).len() == lookup@[q].tasks.len(),
                forall|q: int, t: int|
                    0 <= q < p && 0 <= t < run_marks[q].len() ==> #[trigger] run_marks[q][t]
                        == Mark::Fresh,
                forall|q: int| 0 <= q < p ==> #[trigger] sync_marks[q] == Mark::Fresh,
            decreases lookup.projects.len() - p,
        {
            let mut row: Vec<Mark> = Vec::new();
            let count = lookup.projects[p].tasks.len();
            while row.len() < count
                invariant
                    row.len() <= count,
                    forall|t: int| 0 <= t < row.len() ==> #[trigger] row[t] == Mark::Fresh,
                decreases count - row.len(),
            {
                row.push(Mark::Fresh);
            }
            run_marks.push(row);
            sync_marks.push(Mark::Fresh);
            p += 1;
        }
        let out = DepGraphBuilder {
            lookup,
            nodes: Vec::new(),
            edges: Vec::new(),
            run_marks,
            sync_marks,
            items: Ghost(Seq::empty()),
        };
        proof {
            reveal(DepGraphBuilder::searching);
            reveal(DepGraphBuilder::marks_ok);
            reveal(planned);
            assert(out.graph().nodes =~= Seq::empty());
        }
        out
    }
}

} // verus!
