//! Plans: what it means that a graph is the plan of a sequence of items,
//! and what follows from it.

use vstd::prelude::*;
use crate::error::{ErrorView, ScopeContext};
use crate::graph::{lemma_forward_is_acyclic, GraphView};
use crate::project::{project_index, ProjectView};
use crate::requirement::{
    expandable, fails_from, fails_with, is_chain, leads_to, requirements, requires_item, Item,
};
use crate::target::{ScopeView, TargetView};

verus! {

/// Node `j` waits for a node before it that stands for item `r`.
pub open spec fn supplied(g: GraphView, items: Seq<Item>, j: int, r: Item) -> bool {
    exists|i: int|
        0 <= i < j && #[trigger] items[i] == r && g.edges.contains((i as usize, j as usize))
}

/// Graph `g` is the plan of `items` in workspace `l`: node `j` stands for
/// item `j`, no item occurs twice, the requirements of every item can be
/// told and stand before it in the graph, and the edges are those between
/// an item and what it requires, each once.
#[verifier::opaque]
pub open spec fn planned(l: Seq<ProjectView>, g: GraphView, items: Seq<Item>) -> bool {
    &&& g.nodes.len() == items.len()
    &&& forall|j: int|
        0 <= j < items.len() ==> (#[trigger] items[j]).valid(l) && g.nodes[j] == items[j].node(l)
    &&& items.no_duplicates()
    &&& g.wf()
    &&& g.forward()
    &&& g.edges.no_duplicates()
    &&& forall|j: int| 0 <= j < items.len() ==> #[trigger] requirements(l, items[j]) is Ok
    &&& forall|j: int, r: Item|
        0 <= j < items.len() && #[trigger] requires_item(l, items[j], r) ==> supplied(
            g,
            items,
            j,
            r,
        )
    &&& forall|k: int|
        0 <= k < g.edges.len() ==> requires_item(
            l,
            items[(#[trigger] g.edges[k]).1 as int],
            items[g.edges[k].0 as int],
        )
}

/// What a plan holds of the node at index `j`.
pub proof fn lemma_planned_node(l: Seq<ProjectView>, g: GraphView, items: Seq<Item>, j: int)
    requires
        planned(l, g, items),
        0 <= j < items.len(),
    ensures
        g.nodes.len() == items.len(),
        items[j].valid(l),
        g.nodes[j] == items[j].node(l),
        requirements(l, items[j]) is Ok,
        forall|i: int| 0 <= i < items.len() && i != j ==> items[i] != items[j],
{
    reveal(planned);
}

/// In a plan, what an item requires stands before it, with an edge
/// between them.
pub proof fn lemma_planned_supplied(l: Seq<ProjectView>, g: GraphView, items: Seq<Item>, j: int, r: Item)
    requires
        planned(l, g, items),
        0 <= j < items.len(),
        requires_item(l, items[j], r),
    ensures
        supplied(g, items, j, r),
{
    reveal(planned);
}

/// The edges of a plan lead forward between its nodes, each edge once,
/// and each from a requirement to what requires it.
pub proof fn lemma_planned_edges(l: Seq<ProjectView>, g: GraphView, items: Seq<Item>)
    requires
        planned(l, g, items),
    ensures
        g.nodes.len() == items.len(),
        g.wf(),
        g.forward(),
        g.edges.no_duplicates(),
        items.no_duplicates(),
        forall|k: int|
            0 <= k < g.edges.len() ==> requires_item(
                l,
                items[(#[trigger] g.edges[k]).1 as int],
                items[g.edges[k].0 as int],
            ),
{
    reveal(planned);
}

/// The graph `g` with a node for one more item, and an edge to it from
/// each node of `preds`.
pub open spec fn attached(l: Seq<ProjectView>, g: GraphView, item: Item, preds: Seq<usize>) -> GraphView {
    GraphView {
        nodes: g.nodes.push(item.node(l)),
        edges: g.edges + Seq::new(preds.len(), |a: int| (preds[a], g.nodes.len() as usize)),
    }
}

pub(crate) proof fn lemma_attached_extends(l: Seq<ProjectView>, g: GraphView, item: Item, preds: Seq<usize>)
    ensures
        attached(l, g, item, preds).extends(g),
{
    let g2 = attached(l, g, item, preds);
    assert(g2.nodes.take(g.nodes.len() as int) =~= g.nodes);
    assert(g2.edges.take(g.edges.len() as int) =~= g.edges);
}

#[verifier::rlimit(30)]
pub(crate) proof fn lemma_attach(l: Seq<ProjectView>, g: GraphView, items: Seq<Item>, item: Item, preds: Seq<usize>)
    requires
        planned(l, g, items),
        items.len() <= usize::MAX,
        item.valid(l),
        !items.contains(item),
        requirements(l, item) is Ok,
        preds.no_duplicates(),
        forall|a: int|
            0 <= a < preds.len() ==> (#[trigger] preds[a]) < items.len() && requires_item(
                l,
                item,
                items[preds[a] as int],
            ),
        forall|r: Item| #[trigger] requires_item(l, item, r) ==> offered(items, preds, r),
    ensures
        planned(l, attached(l, g, item, preds), items.push(item)),
{
    reveal(planned);
    let n = items.len() as int;
    let g2 = attached(l, g, item, preds);
    let items2 = items.push(item);
    let added = Seq::new(preds.len(), |a: int| (preds[a], g.nodes.len() as usize));
    assert forall|k: int| 0 <= k < g2.edges.len() implies (#[trigger] g2.edges[k]).0
        < g2.edges[k].1 && g2.edges[k].1 < g2.nodes.len() && requires_item(
        l,
        items2[g2.edges[k].1 as int],
        items2[g2.edges[k].0 as int],
    ) by {
        if k < g.edges.len() {
            assert(g2.edges[k] == g.edges[k]);
        } else {
            assert(g2.edges[k] == added[k - g.edges.len()]);
        }
    }
    assert forall|a: int, b: int|
        0 <= a < g2.edges.len() && 0 <= b < g2.edges.len() && a != b implies g2.edges[a]
        != g2.edges[b] by {
        if a < g.edges.len() {
            assert(g2.edges[a] == g.edges[a]);
        } else {
            assert(g2.edges[a] == added[a - g.edges.len()]);
        }
        if b < g.edges.len() {
            assert(g2.edges[b] == g.edges[b]);
        } else {
            assert(g2.edges[b] == added[b - g.edges.len()]);
        }
    }
    assert forall|j: int, r: Item|
        0 <= j < items2.len() && #[trigger] requires_item(l, items2[j], r) implies supplied(
        g2,
        items2,
        j,
        r,
    ) by {
        if j < n {
            assert(items2[j] == items[j]);
            assert(supplied(g, items, j, r));
            let i = choose|i: int|
                0 <= i < j && #[trigger] items[i] == r && g.edges.contains((i as usize, j as usize));
            let k = choose|k: int| 0 <= k < g.edges.len() && g.edges[k] == (i as usize, j as usize);
            assert(g2.edges[k] == (i as usize, j as usize));
            assert(items2[i] == r);
        } else {
            assert(offered(items, preds, r));
            let a = choose|a: int| 0 <= a < preds.len() && items[(#[trigger] preds[a]) as int] == r;
            let i = preds[a] as int;
            assert(g2.edges[g.edges.len() + a] == added[a]);
            assert(items2[i] == r);
        }
    }
    assert forall|j: int| 0 <= j < items2.len() implies #[trigger] requirements(l, items2[j]) is Ok by {
        if j < n {
            assert(items2[j] == items[j]);
        }
    }
    assert forall|j: int| 0 <= j < items2.len() implies (#[trigger] items2[j]).valid(l)
        && g2.nodes[j] == items2[j].node(l) by {
        if j < n {
            assert(items2[j] == items[j]);
        }
    }
}

/// The indices at which the first `upto` of `wanted` stand in a plan, each
/// index once, in the order in which the items are wanted.
pub open spec fn preds_of(items: Seq<Item>, wanted: Seq<Item>, upto: nat) -> Seq<usize>
    decreases upto,
{
    if upto == 0 {
        Seq::empty()
    } else {
        let before = preds_of(items, wanted, (upto - 1) as nat);
        let j = items.index_of(wanted[upto - 1]) as usize;
        if before.contains(j) {
            before
        } else {
            before.push(j)
        }
    }
}

/// The edges that lead to node `j` of a plan: one from each item that the
/// item of the node requires, in the order in which it requires them.
pub open spec fn edges_to(l: Seq<ProjectView>, items: Seq<Item>, j: int) -> Seq<(usize, usize)> {
    let found = requirements(l, items[j])->Ok_0;
    let preds = preds_of(items, found, found.len());
    Seq::new(preds.len(), |a: int| (preds[a], j as usize))
}

/// The edges that lead to the first `upto` nodes of a plan.
pub open spec fn edges_upto(l: Seq<ProjectView>, items: Seq<Item>, upto: nat) -> Seq<(usize, usize)>
    decreases upto,
{
    if upto == 0 {
        Seq::empty()
    } else {
        edges_upto(l, items, (upto - 1) as nat) + edges_to(l, items, upto - 1)
    }
}

/// The graph of a plan: a node for each item, and the edges that lead to
/// each node, node by node.
pub open spec fn plan_graph(l: Seq<ProjectView>, items: Seq<Item>) -> GraphView {
    GraphView {
        nodes: Seq::new(items.len(), |j: int| items[j].node(l)),
        edges: edges_upto(l, items, items.len()),
    }
}

/// In a sequence without duplicates, an element is found where it stands.
pub(crate) proof fn lemma_place(items: Seq<Item>, j: int)
    requires
        items.no_duplicates(),
        0 <= j < items.len(),
    ensures
        items.index_of(items[j]) == j,
{
    let i = items.index_of(items[j]);
    assert(0 <= i < items.len() && items[i] == items[j]);
}

/// Items keep their places when a plan grows.
pub(crate) proof fn lemma_preds_stable(items: Seq<Item>, more: Seq<Item>, wanted: Seq<Item>, upto: nat)
    requires
        items.is_prefix_of(more),
        more.no_duplicates(),
        upto <= wanted.len(),
        forall|k: int| 0 <= k < upto ==> items.contains(#[trigger] wanted[k]),
    ensures
        preds_of(more, wanted, upto) == preds_of(items, wanted, upto),
    decreases upto,
{
    if upto > 0 {
        lemma_preds_stable(items, more, wanted, (upto - 1) as nat);
        let x = wanted[upto - 1];
        assert(items.contains(x));
        let i = choose|i: int| 0 <= i < items.len() && items[i] == x;
        assert(more[i] == x);
        lemma_place(more, i);
        assert(items.no_duplicates()) by {
            assert forall|a: int, b: int|
                0 <= a < items.len() && 0 <= b < items.len() && a != b implies items[a]
                != items[b] by {
                assert(more[a] == items[a] && more[b] == items[b]);
            }
        }
        lemma_place(items, i);
    }
}

/// The edges of a plan stay as they are when the plan grows.
pub(crate) proof fn lemma_edges_stable(
    l: Seq<ProjectView>,
    g: GraphView,
    items: Seq<Item>,
    more: Seq<Item>,
    upto: nat,
)
    requires
        planned(l, g, items),
        items.is_prefix_of(more),
        more.no_duplicates(),
        upto <= items.len(),
    ensures
        edges_upto(l, more, upto) == edges_upto(l, items, upto),
    decreases upto,
{
    if upto > 0 {
        lemma_edges_stable(l, g, items, more, (upto - 1) as nat);
        let j = upto - 1;
        assert(more[j] == items[j]);
        lemma_planned_node(l, g, items, j);
        let found = requirements(l, items[j])->Ok_0;
        assert forall|k: int| 0 <= k < found.len() implies items.contains(#[trigger] found[k]) by {
            assert(requires_item(l, items[j], found[k]));
            lemma_planned_supplied(l, g, items, j, found[k]);
        }
        lemma_preds_stable(items, more, found, found.len());
    }
}

/// One of the nodes at the indices `preds` stands for item `r`.
pub open spec fn offered(items: Seq<Item>, preds: Seq<usize>, r: Item) -> bool {
    exists|a: int| 0 <= a < preds.len() && items[(#[trigger] preds[a]) as int] == r
}

/// What an item requires leads to everything that the required item leads
/// to.
pub(crate) proof fn lemma_lead_step(l: Seq<ProjectView>, item: Item, r: Item, x: Item)
    requires
        requires_item(l, item, r),
        leads_to(l, r, x),
    ensures
        leads_to(l, item, x),
{
    let path = choose|path: Seq<Item>| #[trigger]
        is_chain(l, path) && path.first() == r && path.last() == x;
    let longer = seq![item] + path;
    assert forall|i: int| 0 <= i < longer.len() - 1 implies requires_item(
        l,
        #[trigger] longer[i],
        longer[i + 1],
    ) by {
        if i > 0 {
            assert(longer[i] == path[i - 1]);
            assert(requires_item(l, path[i - 1], path[i]));
        }
    }
    assert(is_chain(l, longer) && longer.first() == item && longer.last() == x);
}

/// An item leads to itself.
pub(crate) proof fn lemma_lead_self(l: Seq<ProjectView>, item: Item)
    ensures
        leads_to(l, item, item),
{
    let path = seq![item];
    assert(is_chain(l, path) && path.first() == item && path.last() == item);
}

/// A toolchain leads to nothing but itself.
pub(crate) proof fn lemma_setup_leads(l: Seq<ProjectView>, item: Item, x: Item)
    requires
        item is Setup,
        leads_to(l, item, x),
    ensures
        x == item,
{
    let path = choose|path: Seq<Item>| #[trigger]
        is_chain(l, path) && path.first() == item && path.last() == x;
    if path.len() > 1 {
        assert(requires_item(l, path[0], path[1]));
    }
}

/// A chain goes on with what its last item requires.
pub(crate) proof fn lemma_chain_push(l: Seq<ProjectView>, path: Seq<Item>, r: Item)
    requires
        is_chain(l, path),
        requires_item(l, path.last(), r),
    ensures
        is_chain(l, path.push(r)),
{
    let longer = path.push(r);
    assert forall|b: int| 0 <= b < longer.len() - 1 implies requires_item(
        l,
        #[trigger] longer[b],
        longer[b + 1],
    ) by {
        if b < path.len() - 1 {
            assert(requires_item(l, path[b], path[b + 1]));
        }
    }
}

/// What was absent and is none of the items that came since is absent.
pub(crate) proof fn lemma_absent(seen: Seq<Item>, now: Seq<Item>, item: Item)
    requires
        seen.is_prefix_of(now),
        !seen.contains(item),
        forall|x: int| seen.len() <= x < now.len() ==> now[x] != item,
    ensures
        !now.contains(item),
{
    if now.contains(item) {
        let x = choose|x: int| 0 <= x < now.len() && now[x] == item;
        if x < seen.len() {
            assert(seen[x] == item);
        }
    }
}

/// In a plan, a chain from a planned item runs through planned items, each
/// at a lower index than the ones before it.
proof fn lemma_chain_planned(l: Seq<ProjectView>, g: GraphView, items: Seq<Item>, path: Seq<Item>, j: int) -> (at:
    Seq<int>)
    requires
        planned(l, g, items),
        is_chain(l, path),
        0 <= j < items.len(),
        items[j] == path.first(),
    ensures
        at.len() == path.len(),
        forall|i: int| 0 <= i < at.len() ==> 0 <= #[trigger] at[i] < items.len() && items[at[i]] == path[i],
        forall|i: int| 0 <= i < at.len() - 1 ==> at.last() < #[trigger] at[i],
    decreases path.len(),
{
    if path.len() == 1 {
        seq![j]
    } else {
        let shorter = path.drop_last();
        assert forall|i: int| 0 <= i < shorter.len() - 1 implies requires_item(
            l,
            #[trigger] shorter[i],
            shorter[i + 1],
        ) by {
            assert(requires_item(l, path[i], path[i + 1]));
        }
        let at = lemma_chain_planned(l, g, items, shorter, j);
        let before = at.last();
        assert(requires_item(l, path[path.len() - 2], path[path.len() - 2 + 1]));
        assert(items[before] == path[path.len() - 2]);
        lemma_planned_supplied(l, g, items, before, path.last());
        let i = choose|i: int|
            0 <= i < before && #[trigger] items[i] == path.last() && g.edges.contains(
                (i as usize, before as usize),
            );
        let all = at.push(i);
        assert forall|k: int| 0 <= k < all.len() - 1 implies all.last() < #[trigger] all[k] by {
            assert(all[k] == at[k]);
        }
        all
    }
}

/// Whatever stands in a plan can be expanded: its requirements can be told
/// all the way down, and none of them leads back to itself.
pub proof fn lemma_planned_expandable(l: Seq<ProjectView>, g: GraphView, items: Seq<Item>, j: int)
    requires
        planned(l, g, items),
        0 <= j < items.len(),
    ensures
        expandable(l, items[j]),
{
    assert forall|path: Seq<Item>, e: ErrorView|
        !(#[trigger] fails_with(l, path, e) && path.first() == items[j]) by {
        if fails_with(l, path, e) && path.first() == items[j] {
            let at = lemma_chain_planned(l, g, items, path, j);
            let last = at.last();
            assert(at[at.len() - 1] == last);
            assert(items[last] == path.last());
            lemma_planned_node(l, g, items, last);
            let i = choose|i: int|
                0 <= i < path.drop_last().len() && path.drop_last()[i] == path.last();
            assert(path[i] == path.last());
            assert(items[at[i]] == items[last]);
        }
    }
}

/// Whatever a planned item leads to is planned too.
pub proof fn lemma_planned_closed(l: Seq<ProjectView>, g: GraphView, items: Seq<Item>, j: int, x: Item)
    requires
        planned(l, g, items),
        0 <= j < items.len(),
        leads_to(l, items[j], x),
    ensures
        items.contains(x),
{
    let path = choose|path: Seq<Item>| #[trigger]
        is_chain(l, path) && path.first() == items[j] && path.last() == x;
    let at = lemma_chain_planned(l, g, items, path, j);
    assert(items[at[at.len() - 1]] == x);
}

/// A plan has no cycle, so its nodes can be put into batches.
pub proof fn lemma_planned_acyclic(l: Seq<ProjectView>, g: GraphView, items: Seq<Item>)
    requires
        planned(l, g, items),
    ensures
        g.acyclic(),
{
    lemma_planned_edges(l, g, items);
    lemma_forward_is_acyclic(g);
}

/// An item stands in a plan once: two nodes of a plan that stand for the
/// same item are the same node, and two edges between the same nodes are
/// the same edge.
pub proof fn lemma_planned_once(l: Seq<ProjectView>, g: GraphView, items: Seq<Item>)
    requires
        planned(l, g, items),
    ensures
        forall|i: int, j: int|
            0 <= i < items.len() && 0 <= j < items.len() && items[i] == items[j] ==> i == j,
        forall|a: int, b: int|
            0 <= a < g.edges.len() && 0 <= b < g.edges.len() && g.edges[a] == g.edges[b] ==> a == b,
{
    lemma_planned_edges(l, g, items);
}

/// The roots that a request has planned are in the graph, so that the same
/// request again finds all of them there.
pub proof fn lemma_roots_planned(items: Seq<Item>, found: Seq<usize>, roots: Seq<Item>)
    requires
        stands_for(items, found, roots),
    ensures
        all_among(items, roots),
{
    assert forall|k: int| 0 <= k < roots.len() implies items.contains(#[trigger] roots[k]) by {
        assert(items[found[k] as int] == roots[k]);
    }
}

/// `item` requires itself through one item or more.
pub open spec fn on_cycle(l: Seq<ProjectView>, item: Item) -> bool {
    exists|path: Seq<Item>| #[trigger]
        is_chain(l, path) && path.len() >= 2 && path.first() == item && path.last() == item
}

/// An item that leads to a cycle cannot be expanded.
pub proof fn lemma_cycle_not_expandable(l: Seq<ProjectView>, item: Item, x: Item)
    requires
        leads_to(l, item, x),
        on_cycle(l, x),
    ensures
        !expandable(l, item),
{
    let way = choose|path: Seq<Item>| #[trigger]
        is_chain(l, path) && path.first() == item && path.last() == x;
    let round = choose|path: Seq<Item>| #[trigger]
        is_chain(l, path) && path.len() >= 2 && path.first() == x && path.last() == x;
    let path = way + round.skip(1);
    assert forall|i: int| 0 <= i < path.len() - 1 implies requires_item(
        l,
        #[trigger] path[i],
        path[i + 1],
    ) by {
        if i < way.len() - 1 {
            assert(requires_item(l, way[i], way[i + 1]));
        } else {
            let k = i - way.len() + 1;
            assert(requires_item(l, round[k], round[k + 1]));
            assert(path[i + 1] == round[k + 1]);
            if i == way.len() - 1 {
                assert(path[i] == way.last());
            } else {
                assert(path[i] == round[k]);
            }
        }
    }
    assert(path.last() == x);
    assert(path.drop_last()[way.len() - 1] == x);
    let e = ErrorView::CycleDetected(x.node(l));
    assert(fails_with(l, path, e) && path.first() == item);
}

/// Where the requirements of everything that `item` leads to can be told,
/// the only failure of its expansion is a cycle, and the failure names an
/// item on it.
pub proof fn lemma_cycle_reported(l: Seq<ProjectView>, item: Item, e: ErrorView)
    requires
        fails_from(l, item, e),
        forall|x: Item| leads_to(l, item, x) ==> #[trigger] requirements(l, x) is Ok,
    ensures
        exists|x: Item|
            #![trigger x.node(l)]
            e == ErrorView::CycleDetected(x.node(l)) && leads_to(l, item, x) && on_cycle(l, x),
{
    let path = choose|path: Seq<Item>| #[trigger] fails_with(l, path, e) && path.first() == item;
    let x = path.last();
    assert(leads_to(l, item, x));
    assert(requirements(l, x) is Ok);
    let i = choose|i: int| 0 <= i < path.drop_last().len() && path.drop_last()[i] == x;
    let round = path.skip(i);
    assert forall|k: int| 0 <= k < round.len() - 1 implies requires_item(
        l,
        #[trigger] round[k],
        round[k + 1],
    ) by {
        assert(requires_item(l, path[i + k], path[i + k + 1]));
    }
    assert(is_chain(l, round) && round.len() >= 2 && round.first() == x && round.last() == x);
}

/// The tasks with id `task` in the first `upto` projects.
pub open spec fn declaring(l: Seq<ProjectView>, task: Seq<char>, upto: int) -> Seq<Item>
    decreases upto,
{
    if upto <= 0 {
        Seq::empty()
    } else {
        let rest = declaring(l, task, upto - 1);
        match l[upto - 1].task_index(task) {
            Some(t) => rest.push(Item::Run(upto - 1, t)),
            None => rest,
        }
    }
}

/// The tasks that a target stands for where it is asked for directly, or
/// why it stands for none.
pub open spec fn requested(l: Seq<ProjectView>, target: TargetView) -> Result<Seq<Item>, ErrorView> {
    match target.scope {
        ScopeView::Deps => Err(ErrorView::UnsupportedScope(ScopeView::Deps, ScopeContext::Run)),
        ScopeView::OwnSelf => Err(
            ErrorView::UnsupportedScope(ScopeView::OwnSelf, ScopeContext::Run),
        ),
        ScopeView::Project(name) => match project_index(l, name) {
            None => Err(ErrorView::UnknownProject(name)),
            Some(p) => match l[p].task_index(target.task_id) {
                None => Err(ErrorView::UnknownTask(l[p].id, target.task_id)),
                Some(t) => Ok(seq![Item::Run(p, t)]),
            },
        },
        ScopeView::All => Ok(declaring(l, target.task_id, l.len() as int)),
    }
}

/// The task is to be planned: no files were given, or none is listed, or one
/// of them is an input of the task.
pub open spec fn selected(l: Seq<ProjectView>, item: Item, touched: Option<Seq<Seq<char>>>) -> bool {
    match touched {
        None => true,
        Some(files) => files.len() == 0 || (item matches Item::Run(p, t) && l[p].tasks[t].is_affected(
            files,
        )),
    }
}

/// Those of the first `upto` candidates that are to be planned.
pub open spec fn chosen(
    l: Seq<ProjectView>,
    cands: Seq<Item>,
    touched: Option<Seq<Seq<char>>>,
    upto: int,
) -> Seq<Item>
    decreases upto,
{
    if upto <= 0 {
        Seq::empty()
    } else {
        let rest = chosen(l, cands, touched, upto - 1);
        if selected(l, cands[upto - 1], touched) {
            rest.push(cands[upto - 1])
        } else {
            rest
        }
    }
}

/// One of `roots` leads to `x`.
pub open spec fn led_by(l: Seq<ProjectView>, roots: Seq<Item>, x: Item) -> bool {
    exists|k: int| 0 <= k < roots.len() && leads_to(l, #[trigger] roots[k], x)
}

/// Each of the nodes at the indices `found` stands for the root at the
/// same place.
pub open spec fn stands_for(items: Seq<Item>, found: Seq<usize>, roots: Seq<Item>) -> bool {
    &&& found.len() == roots.len()
    &&& forall|k: int|
        0 <= k < found.len() ==> (#[trigger] found[k]) < items.len() && items[found[k] as int]
            == roots[k]
}

/// Every one of `roots` is among `items`.
pub open spec fn all_among(items: Seq<Item>, roots: Seq<Item>) -> bool {
    forall|k: int| 0 <= k < roots.len() ==> items.contains(#[trigger] roots[k])
}

/// Every one of `roots` can be expanded.
pub open spec fn all_expandable(l: Seq<ProjectView>, roots: Seq<Item>) -> bool {
    forall|k: int| 0 <= k < roots.len() ==> expandable(l, #[trigger] roots[k])
}

/// The expansion of one of `roots` ends in failure `e`.
pub open spec fn some_fails(l: Seq<ProjectView>, roots: Seq<Item>, e: ErrorView) -> bool {
    exists|k: int| 0 <= k < roots.len() && fails_from(l, #[trigger] roots[k], e)
}

} // verus!
