//! What each unit of work requires: the units that must complete before it
//! starts, as the projects of the workspace declare them.

use vstd::prelude::*;
use crate::action::{ActionNode, ActionView, Runtime, RuntimeView};
use crate::error::{DepGraphError, ErrorView, ScopeContext};
use crate::project::{project_index, ProjectGraph, ProjectView};
use crate::target::{ScopeView, Target, TargetScope, TargetView};

verus! {

/// A unit of work, named by its place in the workspace: a toolchain, an
/// installation, the project at an index, or the task at an index of the
/// project at an index.
pub enum Item {
    Setup(RuntimeView),
    Install(RuntimeView, Option<Seq<char>>),
    Sync(int),
    Run(int, int),
}

impl Item {
    /// The item names something that the workspace holds.
    pub open spec fn valid(self, l: Seq<ProjectView>) -> bool {
        match self {
            Item::Sync(p) => 0 <= p < l.len(),
            Item::Run(p, t) => 0 <= p < l.len() && 0 <= t < l[p].tasks.len(),
            _ => true,
        }
    }

    /// The action node that stands for the item in a graph.
    pub open spec fn node(self, l: Seq<ProjectView>) -> ActionView {
        match self {
            Item::Setup(runtime) => ActionView::SetupToolchain { runtime },
            Item::Install(runtime, scope) => ActionView::InstallDependencies { runtime, scope },
            Item::Sync(p) => ActionView::SyncProject { runtime: l[p].runtime, project: l[p].id },
            Item::Run(p, t) => ActionView::RunTask {
                target: TargetView { scope: ScopeView::Project(l[p].id), task_id: l[p].tasks[t].id },
                runtime: l[p].tasks[t].runtime,
                persistent: l[p].tasks[t].persistent,
                interactive: l[p].tasks[t].interactive,
            },
        }
    }

    /// How far the item stands from the toolchains, which require nothing.
    pub open spec fn height(self) -> nat {
        match self {
            Item::Setup(_) => 0,
            Item::Install(_, _) => 1,
            _ => 2,
        }
    }
}

/// The installation that task `t` of project `p` runs after.
pub open spec fn install_item(l: Seq<ProjectView>, p: int, t: int) -> Item {
    Item::Install(
        l[p].tasks[t].runtime,
        if l[p].workspace_install {
            None
        } else {
            Some(l[p].id)
        },
    )
}

/// The projects that the first `upto` of `names` stand for, each to be
/// synced.
pub open spec fn sync_reqs(l: Seq<ProjectView>, names: Seq<Seq<char>>, upto: int) -> Result<
    Seq<Item>,
    ErrorView,
>
    decreases upto,
{
    if upto <= 0 {
        Ok(Seq::empty())
    } else {
        match sync_reqs(l, names, upto - 1) {
            Err(e) => Err(e),
            Ok(found) => match project_index(l, names[upto - 1]) {
                None => Err(ErrorView::UnknownProject(names[upto - 1])),
                Some(q) => Ok(found.push(Item::Sync(q))),
            },
        }
    }
}

/// The task `task` in each of the projects that the first `upto` of `names`
/// stand for, where the project has such a task.
pub open spec fn upstream_reqs(
    l: Seq<ProjectView>,
    names: Seq<Seq<char>>,
    task: Seq<char>,
    upto: int,
) -> Result<Seq<Item>, ErrorView>
    decreases upto,
{
    if upto <= 0 {
        Ok(Seq::empty())
    } else {
        match upstream_reqs(l, names, task, upto - 1) {
            Err(e) => Err(e),
            Ok(found) => match project_index(l, names[upto - 1]) {
                None => Err(ErrorView::UnknownProject(names[upto - 1])),
                Some(q) => match l[q].task_index(task) {
                    None => Ok(found),
                    Some(u) => Ok(found.push(Item::Run(q, u))),
                },
            },
        }
    }
}

/// The tasks that one declared dependency of a task of project `p` stands
/// for.
pub open spec fn dep_reqs(l: Seq<ProjectView>, p: int, dep: TargetView) -> Result<
    Seq<Item>,
    ErrorView,
> {
    match dep.scope {
        ScopeView::All => Err(
            ErrorView::UnsupportedScope(ScopeView::All, ScopeContext::TaskDependency),
        ),
        ScopeView::OwnSelf => match l[p].task_index(dep.task_id) {
            None => Err(ErrorView::UnknownTask(l[p].id, dep.task_id)),
            Some(u) => Ok(seq![Item::Run(p, u)]),
        },
        ScopeView::Project(name) => match project_index(l, name) {
            None => Err(ErrorView::UnknownProject(name)),
            Some(q) => match l[q].task_index(dep.task_id) {
                None => Err(ErrorView::UnknownTask(l[q].id, dep.task_id)),
                Some(u) => Ok(seq![Item::Run(q, u)]),
            },
        },
        ScopeView::Deps => upstream_reqs(
            l,
            l[p].dependencies,
            dep.task_id,
            l[p].dependencies.len() as int,
        ),
    }
}

/// The tasks that the first `upto` of the declared dependencies `deps` of a
/// task of project `p` stand for.
pub open spec fn task_reqs(l: Seq<ProjectView>, p: int, deps: Seq<TargetView>, upto: int) -> Result<
    Seq<Item>,
    ErrorView,
>
    decreases upto,
{
    if upto <= 0 {
        Ok(Seq::empty())
    } else {
        match task_reqs(l, p, deps, upto - 1) {
            Err(e) => Err(e),
            Ok(found) => match dep_reqs(l, p, deps[upto - 1]) {
                Err(e) => Err(e),
                Ok(more) => Ok(found + more),
            },
        }
    }
}

/// The items that must complete before `item` starts, or why they cannot be
/// told. A toolchain requires nothing; an installation its toolchain; a
/// project its toolchain and the projects that it depends on; a task its
/// toolchain, its installation, its project and the tasks that it declares
/// as dependencies.
pub open spec fn requirements(l: Seq<ProjectView>, item: Item) -> Result<Seq<Item>, ErrorView> {
    match item {
        Item::Setup(_) => Ok(Seq::empty()),
        Item::Install(runtime, _) => Ok(seq![Item::Setup(runtime)]),
        Item::Sync(p) => match sync_reqs(l, l[p].dependencies, l[p].dependencies.len() as int) {
            Err(e) => Err(e),
            Ok(found) => Ok(seq![Item::Setup(l[p].runtime)] + found),
        },
        Item::Run(p, t) => match task_reqs(
            l,
            p,
            l[p].tasks[t].deps,
            l[p].tasks[t].deps.len() as int,
        ) {
            Err(e) => Err(e),
            Ok(found) => Ok(
                seq![Item::Setup(l[p].tasks[t].runtime), install_item(l, p, t), Item::Sync(p)]
                    + found,
            ),
        },
    }
}

/// `item` requires `other` directly.
pub open spec fn requires_item(l: Seq<ProjectView>, item: Item, other: Item) -> bool {
    requirements(l, item) matches Ok(found) && found.contains(other)
}

/// Each item of `path` requires the next.
pub open spec fn is_chain(l: Seq<ProjectView>, path: Seq<Item>) -> bool {
    &&& path.len() > 0
    &&& forall|i: int| 0 <= i < path.len() - 1 ==> requires_item(l, #[trigger] path[i], path[i + 1])
}

/// `item` is `other` or requires it, directly or through other items.
pub open spec fn leads_to(l: Seq<ProjectView>, item: Item, other: Item) -> bool {
    exists|path: Seq<Item>| #[trigger]
        is_chain(l, path) && path.first() == item && path.last() == other
}

/// `path` is a chain that ends in failure `e`: the requirements of its last
/// item cannot be told, or its last item stands in the chain already.
pub open spec fn fails_with(l: Seq<ProjectView>, path: Seq<Item>, e: ErrorView) -> bool {
    &&& is_chain(l, path)
    &&& requirements(l, path.last()) == Err::<Seq<Item>, ErrorView>(e) || (e
        == ErrorView::CycleDetected(path.last().node(l)) && path.drop_last().contains(path.last()))
}

/// Some chain from `item` ends in failure `e`.
pub open spec fn fails_from(l: Seq<ProjectView>, item: Item, e: ErrorView) -> bool {
    exists|path: Seq<Item>| #[trigger] fails_with(l, path, e) && path.first() == item
}

/// Everything that `item` requires, directly or through other items, can be
/// told, and nothing requires itself.
pub open spec fn expandable(l: Seq<ProjectView>, item: Item) -> bool {
    forall|path: Seq<Item>, e: ErrorView| !(#[trigger] fails_with(l, path, e) && path.first() == item)
}

/// What planning `item` comes to, while the items of `stack` are under
/// expansion: the items of the plan afterwards, or the failure.
///
/// Where the plan has the item, it stays as it is. A project or a task that
/// is under expansion requires itself: that is a cycle. Else everything
/// that the item requires is planned first, in the order in which the item
/// requires it, and the item comes last; the first failure among them is
/// the failure of the whole. `fuel` bounds the depth to which requirements
/// are followed.
pub open spec fn planted(
    l: Seq<ProjectView>,
    items: Seq<Item>,
    stack: Seq<Item>,
    item: Item,
    fuel: nat,
) -> Result<Seq<Item>, ErrorView>
    decreases fuel, 0nat, 0nat,
{
    if fuel == 0 || items.contains(item) {
        Ok(items)
    } else if item.height() == 2 && stack.contains(item) {
        Err(ErrorView::CycleDetected(item.node(l)))
    } else {
        match requirements(l, item) {
            Err(e) => Err(e),
            Ok(found) => match planted_all(
                l,
                items,
                stack.push(item),
                found,
                found.len(),
                (fuel - 1) as nat,
            ) {
                Err(e) => Err(e),
                Ok(after) => Ok(after.push(item)),
            },
        }
    }
}

/// What planning the first `upto` of `wanted`, one after the other, comes
/// to: the items of the plan afterwards, or the first failure.
pub open spec fn planted_all(
    l: Seq<ProjectView>,
    items: Seq<Item>,
    stack: Seq<Item>,
    wanted: Seq<Item>,
    upto: nat,
    fuel: nat,
) -> Result<Seq<Item>, ErrorView>
    decreases fuel, 1nat, upto,
{
    if upto == 0 {
        Ok(items)
    } else {
        match planted_all(l, items, stack, wanted, (upto - 1) as nat, fuel) {
            Err(e) => Err(e),
            Ok(after) => planted(l, after, stack, wanted[upto - 1], fuel),
        }
    }
}

/// A failure among the first of the wanted items is the failure of all of
/// them.
pub proof fn lemma_planted_all_stay(
    l: Seq<ProjectView>,
    items: Seq<Item>,
    stack: Seq<Item>,
    wanted: Seq<Item>,
    a: nat,
    b: nat,
    fuel: nat,
)
    requires
        a <= b,
        planted_all(l, items, stack, wanted, a, fuel) is Err,
    ensures
        planted_all(l, items, stack, wanted, b, fuel) == planted_all(l, items, stack, wanted, a, fuel),
    decreases b - a,
{
    if a < b {
        lemma_planted_all_stay(l, items, stack, wanted, a, (b - 1) as nat, fuel);
    }
}

/// What is planned of the first `upto` wanted items does not depend on
/// those that follow.
pub proof fn lemma_planted_all_prefix(
    l: Seq<ProjectView>,
    items: Seq<Item>,
    stack: Seq<Item>,
    a: Seq<Item>,
    b: Seq<Item>,
    upto: nat,
    fuel: nat,
)
    requires
        upto <= a.len(),
        upto <= b.len(),
        forall|k: int| 0 <= k < upto ==> a[k] == b[k],
    ensures
        planted_all(l, items, stack, a, upto, fuel) == planted_all(l, items, stack, b, upto, fuel),
    decreases upto,
{
    if upto > 0 {
        lemma_planted_all_prefix(l, items, stack, a, b, (upto - 1) as nat, fuel);
    }
}

/// The number of tasks in the first `upto` projects.
pub open spec fn task_count(l: Seq<ProjectView>, upto: int) -> nat
    decreases upto,
{
    if upto <= 0 {
        0
    } else {
        task_count(l, upto - 1) + l[upto - 1].tasks.len()
    }
}

/// A depth that no chain of requirements without a cycle exceeds: every
/// project and every task once, and an installation and a toolchain.
pub open spec fn enough(l: Seq<ProjectView>) -> nat {
    l.len() + task_count(l, l.len() as int) + 3
}

proof fn lemma_sync_reqs_stay(l: Seq<ProjectView>, names: Seq<Seq<char>>, a: int, b: int)
    requires
        a <= b,
        sync_reqs(l, names, a) is Err,
    ensures
        sync_reqs(l, names, b) == sync_reqs(l, names, a),
    decreases b - a,
{
    if a < b {
        lemma_sync_reqs_stay(l, names, a, b - 1);
    }
}

proof fn lemma_upstream_reqs_stay(
    l: Seq<ProjectView>,
    names: Seq<Seq<char>>,
    task: Seq<char>,
    a: int,
    b: int,
)
    requires
        a <= b,
        upstream_reqs(l, names, task, a) is Err,
    ensures
        upstream_reqs(l, names, task, b) == upstream_reqs(l, names, task, a),
    decreases b - a,
{
    if a < b {
        lemma_upstream_reqs_stay(l, names, task, a, b - 1);
    }
}

proof fn lemma_task_reqs_stay(l: Seq<ProjectView>, p: int, deps: Seq<TargetView>, a: int, b: int)
    requires
        a <= b,
        task_reqs(l, p, deps, a) is Err,
    ensures
        task_reqs(l, p, deps, b) == task_reqs(l, p, deps, a),
    decreases b - a,
{
    if a < b {
        lemma_task_reqs_stay(l, p, deps, a, b - 1);
    }
}

/// A unit of work as the planner handles it.
pub enum Work {
    Setup(Runtime),
    Install(Runtime, Option<String>),
    Sync(usize),
    Run(usize, usize),
}

impl View for Work {
    type V = Item;

    open spec fn view(&self) -> Item {
        match self {
            Work::Setup(runtime) => Item::Setup(runtime@),
            Work::Install(runtime, scope) => Item::Install(runtime@, scope.deep_view()),
            Work::Sync(p) => Item::Sync(*p as int),
            Work::Run(p, t) => Item::Run(*p as int, *t as int),
        }
    }
}

impl DeepView for Work {
    type V = Item;

    open spec fn deep_view(&self) -> Item {
        self@
    }
}

impl Clone for Work {
    fn clone(&self) -> (out: Self)
        ensures
            out@ == self@,
    {
        match self {
            Work::Setup(runtime) => Work::Setup(runtime.clone()),
            Work::Install(runtime, scope) => {
                let scope = match scope {
                    Some(id) => Some(id.clone()),
                    None => None,
                };
                Work::Install(runtime.clone(), scope)
            },
            Work::Sync(p) => Work::Sync(*p),
            Work::Run(p, t) => Work::Run(*p, *t),
        }
    }
}

/// Every item of `found` names something that the workspace holds.
pub open spec fn all_valid(l: Seq<ProjectView>, found: Seq<Item>) -> bool {
    forall|k: int| 0 <= k < found.len() ==> (#[trigger] found[k]).valid(l)
}

fn push_work(list: &mut Vec<Work>, work: Work)
    ensures
        final(list).deep_view() == old(list).deep_view().push(work@),
{
    let ghost before = list.deep_view();
    let ghost added = work@;
    list.push(work);
    assert(list.deep_view() =~= before.push(added));
}

/// The action node that stands for a unit of work.
pub(crate) fn node_of(lookup: &ProjectGraph, work: &Work) -> (out: ActionNode)
    requires
        work@.valid(lookup@),
    ensures
        out@ == work@.node(lookup@),
{
    match work {
        Work::Setup(runtime) => ActionNode::SetupToolchain { runtime: runtime.clone() },
        Work::Install(runtime, scope) => {
            let scope = match scope {
                Some(id) => Some(id.clone()),
                None => None,
            };
            ActionNode::InstallDependencies { runtime: runtime.clone(), scope }
        },
        Work::Sync(p) => {
            let project = &lookup.projects[*p];
            ActionNode::SyncProject { runtime: project.runtime.clone(), project: project.id.clone() }
        },
        Work::Run(p, t) => {
            let project = &lookup.projects[*p];
            let task = &project.tasks[*t];
            ActionNode::RunTask {
                target: Target {
                    scope: TargetScope::Project(project.id.clone()),
                    task_id: task.id.clone(),
                },
                runtime: task.runtime.clone(),
                persistent: task.persistent,
                interactive: task.interactive,
            }
        },
    }
}

fn sync_requirements(lookup: &ProjectGraph, p: usize) -> (out: Result<Vec<Work>, DepGraphError>)
    requires
        p < lookup.projects.len(),
    ensures
        out matches Ok(list) ==> requirements(lookup@, Item::Sync(p as int)) == Ok::<
            Seq<Item>,
            ErrorView,
        >(list.deep_view()) && all_valid(lookup@, list.deep_view()),
        out matches Err(e) ==> requirements(lookup@, Item::Sync(p as int)) == Err::<
            Seq<Item>,
            ErrorView,
        >(e@),
{
    let ghost l = lookup@;
    let project = &lookup.projects[p];
    let ghost names = l[p as int].dependencies;
    let mut list: Vec<Work> = Vec::new();
    push_work(&mut list, Work::Setup(project.runtime.clone()));
    let mut i: usize = 0;
    while i < project.dependencies.len()
        invariant
            i <= project.dependencies.len(),
            l == lookup@,
            p < lookup.projects.len(),
            project == &lookup.projects[p as int],
            names == l[p as int].dependencies,
            names == project.dependencies.deep_view(),
            sync_reqs(l, names, i as int) matches Ok(found) && list.deep_view() == seq![
                Item::Setup(l[p as int].runtime),
            ] + found,
            all_valid(l, list.deep_view()),
        decreases project.dependencies.len() - i,
    {
        let ghost found = sync_reqs(l, names, i as int)->Ok_0;
        let name = &project.dependencies[i];
        assert(name@ == names[i as int]);
        match lookup.project_index(name) {
            None => {
                proof {
                    lemma_sync_reqs_stay(l, names, i as int + 1, names.len() as int);
                }
                return Err(DepGraphError::UnknownProject(name.clone()));
            },
            Some(q) => {
                push_work(&mut list, Work::Sync(q));
                assert(list.deep_view() =~= seq![Item::Setup(l[p as int].runtime)] + found.push(
                    Item::Sync(q as int),
                ));
            },
        }
        i += 1;
    }
    Ok(list)
}

fn upstream_requirements(lookup: &ProjectGraph, p: usize, task: &String, list: &mut Vec<Work>) -> (out:
    Result<(), DepGraphError>)
    requires
        p < lookup.projects.len(),
        all_valid(lookup@, old(list).deep_view()),
    ensures
        out is Ok ==> (upstream_reqs(
            lookup@,
            lookup@[p as int].dependencies,
            task@,
            lookup@[p as int].dependencies.len() as int,
        ) matches Ok(found) && final(list).deep_view() == old(list).deep_view() + found
            && all_valid(lookup@, final(list).deep_view())),
        out matches Err(e) ==> upstream_reqs(
            lookup@,
            lookup@[p as int].dependencies,
            task@,
            lookup@[p as int].dependencies.len() as int,
        ) == Err::<Seq<Item>, ErrorView>(e@),
{
    let ghost l = lookup@;
    let ghost before = list.deep_view();
    let project = &lookup.projects[p];
    let ghost names = l[p as int].dependencies;
    let mut i: usize = 0;
    assert(list.deep_view() =~= before + Seq::<Item>::empty());
    while i < project.dependencies.len()
        invariant
            i <= project.dependencies.len(),
            l == lookup@,
            p < lookup.projects.len(),
            project == &lookup.projects[p as int],
            names == l[p as int].dependencies,
            names == project.dependencies.deep_view(),
            upstream_reqs(l, names, task@, i as int) matches Ok(found) && list.deep_view() == before
                + found,
            all_valid(l, list.deep_view()),
        decreases project.dependencies.len() - i,
    {
        let ghost found = upstream_reqs(l, names, task@, i as int)->Ok_0;
        let name = &project.dependencies[i];
        assert(name@ == names[i as int]);
        match lookup.project_index(name) {
            None => {
                proof {
                    lemma_upstream_reqs_stay(l, names, task@, i as int + 1, names.len() as int);
                }
                return Err(DepGraphError::UnknownProject(name.clone()));
            },
            Some(q) => {
                match lookup.projects[q].task_index(task) {
                    None => {},
                    Some(u) => {
                        push_work(list, Work::Run(q, u));
                        assert(list.deep_view() =~= before + found.push(
                            Item::Run(q as int, u as int),
                        ));
                    },
                }
            },
        }
        i += 1;
    }
    Ok(())
}

fn task_requirements(lookup: &ProjectGraph, p: usize, t: usize) -> (out: Result<
    Vec<Work>,
    DepGraphError,
>)
    requires
        p < lookup.projects.len(),
        t < lookup.projects[p as int].tasks.len(),
    ensures
        out matches Ok(list) ==> requirements(lookup@, Item::Run(p as int, t as int)) == Ok::<
            Seq<Item>,
            ErrorView,
        >(list.deep_view()) && all_valid(lookup@, list.deep_view()),
        out matches Err(e) ==> requirements(lookup@, Item::Run(p as int, t as int)) == Err::<
            Seq<Item>,
            ErrorView,
        >(e@),
{
    let ghost l = lookup@;
    let project = &lookup.projects[p];
    let task = &project.tasks[t];
    let ghost deps = l[p as int].tasks[t as int].deps;
    let mut list: Vec<Work> = Vec::new();
    push_work(&mut list, Work::Setup(task.runtime.clone()));
    let scope = if project.workspace_install {
        None
    } else {
        Some(project.id.clone())
    };
    push_work(&mut list, Work::Install(task.runtime.clone(), scope));
    push_work(&mut list, Work::Sync(p));
    let ghost head = seq![
        Item::Setup(l[p as int].tasks[t as int].runtime),
        install_item(l, p as int, t as int),
        Item::Sync(p as int),
    ];
    assert(list.deep_view() =~= head + Seq::<Item>::empty());
    let mut i: usize = 0;
    while i < task.deps.len()
        invariant
            i <= task.deps.len(),
            l == lookup@,
            p < lookup.projects.len(),
            t < lookup.projects[p as int].tasks.len(),
            project == &lookup.projects[p as int],
            task == &project.tasks[t as int],
            deps == l[p as int].tasks[t as int].deps,
            deps == task.deps.deep_view(),
            task_reqs(l, p as int, deps, i as int) matches Ok(found) && list.deep_view() == head
                + found,
            all_valid(l, list.deep_view()),
        decreases task.deps.len() - i,
    {
        let ghost found = task_reqs(l, p as int, deps, i as int)->Ok_0;
        let ghost before = list.deep_view();
        let dep = &task.deps[i];
        assert(dep@ == deps[i as int]);
        match &dep.scope {
            TargetScope::All => {
                proof {
                    lemma_task_reqs_stay(l, p as int, deps, i as int + 1, deps.len() as int);
                }
                return Err(
                    DepGraphError::UnsupportedScope(TargetScope::All, ScopeContext::TaskDependency),
                );
            },
            TargetScope::OwnSelf => {
                match project.task_index(&dep.task_id) {
                    None => {
                        proof {
                            lemma_task_reqs_stay(l, p as int, deps, i as int + 1, deps.len() as int);
                        }
                        return Err(
                            DepGraphError::UnknownTask(project.id.clone(), dep.task_id.clone()),
                        );
                    },
                    Some(u) => {
                        push_work(&mut list, Work::Run(p, u));
                        assert(list.deep_view() =~= head + (found + seq![
                            Item::Run(p as int, u as int),
                        ]));
                    },
                }
            },
            TargetScope::Project(name) => {
                match lookup.project_index(name) {
                    None => {
                        proof {
                            lemma_task_reqs_stay(l, p as int, deps, i as int + 1, deps.len() as int);
                        }
                        return Err(DepGraphError::UnknownProject(name.clone()));
                    },
                    Some(q) => {
                        let other = &lookup.projects[q];
                        match other.task_index(&dep.task_id) {
                            None => {
                                proof {
                                    lemma_task_reqs_stay(
                                        l,
                                        p as int,
                                        deps,
                                        i as int + 1,
                                        deps.len() as int,
                                    );
                                }
                                return Err(
                                    DepGraphError::UnknownTask(
                                        other.id.clone(),
                                        dep.task_id.clone(),
                                    ),
                                );
                            },
                            Some(u) => {
                                push_work(&mut list, Work::Run(q, u));
                                assert(list.deep_view() =~= head + (found + seq![
                                    Item::Run(q as int, u as int),
                                ]));
                            },
                        }
                    },
                }
            },
            TargetScope::Deps => {
                match upstream_requirements(lookup, p, &dep.task_id, &mut list) {
                    Err(e) => {
                        proof {
                            lemma_task_reqs_stay(l, p as int, deps, i as int + 1, deps.len() as int);
                        }
                        return Err(e);
                    },
                    Ok(()) => {
                        let ghost more = dep_reqs(l, p as int, deps[i as int])->Ok_0;
                        assert(list.deep_view() =~= head + (found + more));
                    },
                }
            },
        }
        i += 1;
    }
    Ok(list)
}

/// The units of work that must complete before `work` starts.
pub(crate) fn requirements_of(lookup: &ProjectGraph, work: &Work) -> (out: Result<
    Vec<Work>,
    DepGraphError,
>)
    requires
        work@.valid(lookup@),
    ensures
        out matches Ok(list) ==> requirements(lookup@, work@) == Ok::<Seq<Item>, ErrorView>(
            list.deep_view(),
        ) && all_valid(lookup@, list.deep_view()),
        out matches Err(e) ==> requirements(lookup@, work@) == Err::<Seq<Item>, ErrorView>(e@),
{
    match work {
        Work::Setup(_) => {
            let list: Vec<Work> = Vec::new();
            assert(list.deep_view() =~= Seq::<Item>::empty());
            Ok(list)
        },
        Work::Install(runtime, _) => {
            let mut list: Vec<Work> = Vec::new();
            push_work(&mut list, Work::Setup(runtime.clone()));
            assert(list.deep_view() =~= seq![Item::Setup(runtime@)]);
            Ok(list)
        },
        Work::Sync(p) => sync_requirements(lookup, *p),
        Work::Run(p, t) => task_requirements(lookup, *p, *t),
    }
}

} // verus!
