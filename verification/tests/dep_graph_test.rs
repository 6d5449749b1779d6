use taskgraph::action::{ActionNode, PlatformType, Runtime};
use taskgraph::builder::DepGraphBuilder;
use taskgraph::error::{DepGraphError, ScopeContext};
use taskgraph::graph::DepGraph;
use taskgraph::project::{Project, ProjectGraph, Task};
use taskgraph::sort::CycleError;
use taskgraph::target::{Target, TargetScope};

fn node_runtime() -> Runtime {
    Runtime { platform: PlatformType::Node, version: "16.0.0".to_string() }
}

fn system_runtime() -> Runtime {
    Runtime { platform: PlatformType::System, version: String::new() }
}

fn task(id: &str, deps: &[&str]) -> Task {
    Task {
        id: id.to_string(),
        command: format!("run-{id}"),
        deps: deps.iter().map(|d| Target::parse(d).unwrap()).collect(),
        inputs: vec![],
        persistent: false,
        interactive: false,
        runtime: node_runtime(),
    }
}

fn task_with_inputs(id: &str, inputs: &[&str]) -> Task {
    let mut t = task(id, &[]);
    t.inputs = inputs.iter().map(|i| i.to_string()).collect();
    t
}

fn persistent(id: &str, deps: &[&str]) -> Task {
    let mut t = task(id, deps);
    t.persistent = true;
    t
}

fn interactive(id: &str, deps: &[&str]) -> Task {
    let mut t = task(id, deps);
    t.interactive = true;
    t
}

fn project(id: &str, dependencies: &[&str], tasks: Vec<Task>) -> Project {
    Project {
        id: id.to_string(),
        alias: None,
        dependencies: dependencies.iter().map(|d| d.to_string()).collect(),
        tasks,
        runtime: node_runtime(),
        workspace_install: true,
    }
}

fn create_project_graph() -> ProjectGraph {
    ProjectGraph {
        projects: vec![
            project("advanced", &[], vec![]),
            project("basic", &["noConfig"], vec![task("build", &[]), task("test", &[])]),
            project("emptyConfig", &[], vec![]),
            project("noConfig", &[], vec![]),
            project("foo", &["bar"], vec![task("build", &["bar:build"])]),
            project("bar", &["baz"], vec![task("build", &["baz:build"])]),
            project("baz", &[], vec![task("build", &[])]),
            project("tasks", &[], vec![task("test", &[]), task("lint", &[])]),
            Project {
                tasks: vec![
                    Task { runtime: system_runtime(), ..task("system", &[]) },
                    task("node", &[]),
                ],
                ..project("platforms", &[], vec![])
            },
        ],
    }
}

fn create_tasks_project_graph() -> ProjectGraph {
    ProjectGraph {
        projects: vec![
            project("basic", &[], vec![task("build", &[]), task("test", &[]), task("lint", &[])]),
            project("buildA", &["basic", "buildC"], vec![task("build", &["^:build"])]),
            project("buildB", &[], vec![task("build", &[])]),
            project("buildC", &[], vec![task("build", &[])]),
            project(
                "chain",
                &[],
                vec![
                    task("a", &["~:b"]),
                    task("b", &["~:c"]),
                    task("c", &["~:d"]),
                    task("d", &["~:e"]),
                    task("e", &["~:f"]),
                    task("f", &[]),
                ],
            ),
            project(
                "cycle",
                &[],
                vec![task("a", &["~:b"]), task("b", &["~:c"]), task("c", &["~:a"])],
            ),
            project("inputA", &[], vec![task_with_inputs("a", &["input-a/a.ts"]), task_with_inputs("a2", &["input-a/a2.ts"])]),
            project("inputB", &[], vec![task_with_inputs("b", &["input-b/b.ts"]), task_with_inputs("b2", &["input-b/b2.ts"])]),
            project("inputC", &[], vec![task_with_inputs("c", &["input-c/c.ts", "input-c/any.ts"])]),
            project("noTasks", &[], vec![]),
            project(
                "persistent",
                &[],
                vec![
                    persistent("dev", &["~:build"]),
                    task("build", &[]),
                    persistent("watch", &[]),
                ],
            ),
            project(
                "interactive",
                &[],
                vec![
                    interactive("one", &[]),
                    interactive("two", &[]),
                    interactive("depOnOne", &["~:one"]),
                ],
            ),
        ],
    }
}

fn run_task_targets(graph: &DepGraph) -> Vec<String> {
    let mut out = vec![];
    for i in 0..graph.node_count() {
        if let ActionNode::RunTask { target, .. } = graph.node(i) {
            out.push(target.id());
        }
    }
    out
}

fn edges(graph: &DepGraph) -> Vec<(usize, usize)> {
    (0..graph.edge_count()).map(|k| graph.edge(k)).collect()
}

fn batch_of(batches: &[Vec<usize>], node: usize) -> usize {
    batches.iter().position(|b| b.contains(&node)).unwrap()
}

fn index_of(graph: &DepGraph, target: &str) -> usize {
    (0..graph.node_count())
        .find(|i| matches!(graph.node(*i), ActionNode::RunTask { target: t, .. } if t.id() == target))
        .unwrap()
}

#[test]
fn detects_cycles() {
    let projects = create_tasks_project_graph();
    let mut graph = DepGraphBuilder::new(&projects);
    let out = graph.run_target(&Target::new("cycle", "a").unwrap(), None);
    match out {
        Err(DepGraphError::CycleDetected(ActionNode::RunTask { target, .. })) => {
            assert_eq!(target.id(), "cycle:a");
        }
        other => panic!("unexpected: {other:?}"),
    }
    let graph = graph.build();
    assert_eq!(graph.node_count(), 0);
    assert_eq!(graph.edge_count(), 0);
}

#[test]
fn single_targets() {
    let projects = create_project_graph();
    let mut graph = DepGraphBuilder::new(&projects);
    let a = graph.run_target(&Target::new("tasks", "test").unwrap(), None).unwrap();
    let b = graph.run_target(&Target::new("tasks", "lint").unwrap(), None).unwrap();
    assert_eq!(a, vec![3]);
    assert_eq!(b, vec![4]);
    let graph = graph.build();
    // setup, install, sync, test, lint
    assert_eq!(graph.node_count(), 5);
    assert_eq!(
        edges(&graph),
        vec![(0, 1), (0, 2), (0, 3), (1, 3), (2, 3), (0, 4), (1, 4), (2, 4)]
    );
    assert_eq!(
        graph.sort_batched_topological().unwrap(),
        vec![vec![0], vec![1, 2], vec![3, 4]]
    );
}

#[test]
fn deps_chain_target() {
    let projects = create_tasks_project_graph();
    let mut graph = DepGraphBuilder::new(&projects);
    graph.run_target(&Target::new("basic", "test").unwrap(), None).unwrap();
    graph.run_target(&Target::new("basic", "lint").unwrap(), None).unwrap();
    graph.run_target(&Target::new("chain", "a").unwrap(), None).unwrap();
    let graph = graph.build();
    assert_eq!(
        run_task_targets(&graph),
        vec![
            "basic:test", "basic:lint", "chain:f", "chain:e", "chain:d", "chain:c", "chain:b",
            "chain:a"
        ]
    );
    assert_eq!(
        graph.sort_batched_topological().unwrap(),
        vec![
            vec![0],
            vec![1, 2, 5],
            vec![3, 4, 6],
            vec![7],
            vec![8],
            vec![9],
            vec![10],
            vec![11],
        ]
    );
}

#[test]
fn moves_persistent_tasks_last() {
    let projects = create_tasks_project_graph();
    let mut graph = DepGraphBuilder::new(&projects);
    graph.run_target(&Target::new("persistent", "watch").unwrap(), None).unwrap();
    graph.run_target(&Target::new("persistent", "dev").unwrap(), None).unwrap();
    graph.run_target(&Target::new("basic", "lint").unwrap(), None).unwrap();
    let graph = graph.build();
    let watch = index_of(&graph, "persistent:watch");
    let dev = index_of(&graph, "persistent:dev");
    let build = index_of(&graph, "persistent:build");
    let lint = index_of(&graph, "basic:lint");
    let batches = graph.sort_batched_topological().unwrap();
    let last = batches.len() - 1;
    assert_eq!(batches[last], vec![watch, dev]);
    assert!(batch_of(&batches, build) < last);
    assert!(batch_of(&batches, lint) < last);
    assert_eq!(
        batches,
        vec![vec![0], vec![1, 2, 6], vec![4, 7], vec![3, 5]]
    );
}

#[test]
fn isolates_interactive_tasks() {
    let projects = create_tasks_project_graph();
    let mut graph = DepGraphBuilder::new(&projects);
    graph.run_target(&Target::new("interactive", "one").unwrap(), None).unwrap();
    graph.run_target(&Target::new("chain", "c").unwrap(), None).unwrap();
    graph.run_target(&Target::new("interactive", "two").unwrap(), None).unwrap();
    graph.run_target(&Target::new("basic", "lint").unwrap(), None).unwrap();
    graph.run_target(&Target::new("interactive", "depOnOne").unwrap(), None).unwrap();
    let graph = graph.build();
    let batches = graph.sort_batched_topological().unwrap();
    for name in ["interactive:one", "interactive:two", "interactive:depOnOne"] {
        let node = index_of(&graph, name);
        assert_eq!(batches[batch_of(&batches, node)], vec![node]);
    }
    let one = index_of(&graph, "interactive:one");
    let dep = index_of(&graph, "interactive:depOnOne");
    assert!(batch_of(&batches, one) < batch_of(&batches, dep));
    assert_eq!(
        batches,
        vec![
            vec![0],
            vec![1, 2, 4, 10],
            vec![5, 11],
            vec![3],
            vec![9],
            vec![6],
            vec![12],
            vec![7],
            vec![8],
        ]
    );
}

#[test]
fn avoids_dupe_targets() {
    let projects = create_project_graph();
    let mut graph = DepGraphBuilder::new(&projects);
    let a = graph.run_target(&Target::new("tasks", "lint").unwrap(), None).unwrap();
    let b = graph.run_target(&Target::new("tasks", "lint").unwrap(), None).unwrap();
    let c = graph.run_target(&Target::new("tasks", "lint").unwrap(), None).unwrap();
    assert_eq!(a, b);
    assert_eq!(b, c);
    let graph = graph.build();
    assert_eq!(run_task_targets(&graph), vec!["tasks:lint"]);
    assert_eq!(graph.node_count(), 4);
    assert_eq!(edges(&graph), vec![(0, 1), (0, 2), (0, 3), (1, 3), (2, 3)]);
    assert_eq!(
        graph.sort_batched_topological().unwrap(),
        vec![vec![0], vec![1, 2], vec![3]]
    );
}

#[test]
fn runs_all_projects_for_target_all_scope() {
    let projects = create_tasks_project_graph();
    let mut graph = DepGraphBuilder::new(&projects);
    let roots = graph.run_target(&Target::parse(":build").unwrap(), None).unwrap();
    let graph = graph.build();
    assert_eq!(roots.len(), 5);
    assert_eq!(
        run_task_targets(&graph),
        vec![
            "basic:build",
            "buildC:build",
            "buildA:build",
            "buildB:build",
            "persistent:build"
        ]
    );
    let batches = graph.sort_batched_topological().unwrap();
    let a = index_of(&graph, "buildA:build");
    let basic = index_of(&graph, "basic:build");
    let c = index_of(&graph, "buildC:build");
    assert!(batch_of(&batches, basic) < batch_of(&batches, a));
    assert!(batch_of(&batches, c) < batch_of(&batches, a));
}

#[test]
fn errors_for_target_deps_scope() {
    let projects = create_project_graph();
    let mut graph = DepGraphBuilder::new(&projects);
    let out = graph.run_target(&Target::parse("^:lint").unwrap(), None);
    assert_eq!(
        out,
        Err(DepGraphError::UnsupportedScope(TargetScope::Deps, ScopeContext::Run))
    );
    assert_eq!(graph.build().node_count(), 0);
}

#[test]
fn errors_for_target_self_scope() {
    let projects = create_project_graph();
    let mut graph = DepGraphBuilder::new(&projects);
    let out = graph.run_target(&Target::parse("~:lint").unwrap(), None);
    assert_eq!(
        out,
        Err(DepGraphError::UnsupportedScope(TargetScope::OwnSelf, ScopeContext::Run))
    );
}

#[test]
fn dep_graph_test_errors_for_unknown_project() {
    let projects = create_project_graph();
    let mut graph = DepGraphBuilder::new(&projects);
    let out = graph.run_target(&Target::new("unknown", "test").unwrap(), None);
    assert_eq!(out, Err(DepGraphError::UnknownProject("unknown".to_string())));
    let out = graph.sync_project("unknown");
    assert_eq!(out, Err(DepGraphError::UnknownProject("unknown".to_string())));
    assert_eq!(graph.build().node_count(), 0);
}

#[test]
fn errors_for_unknown_task() {
    let projects = create_project_graph();
    let mut graph = DepGraphBuilder::new(&projects);
    let out = graph.run_target(&Target::new("tasks", "build").unwrap(), None);
    assert_eq!(
        out,
        Err(DepGraphError::UnknownTask("tasks".to_string(), "build".to_string()))
    );
}

#[test]
fn skips_if_untouched_project() {
    let projects = create_tasks_project_graph();
    let touched = vec!["input-a/a.ts".to_string(), "input-c/c.ts".to_string()];
    let mut graph = DepGraphBuilder::new(&projects);
    let a = graph.run_target(&Target::new("inputA", "a").unwrap(), Some(&touched)).unwrap();
    let b = graph.run_target(&Target::new("inputB", "b").unwrap(), Some(&touched)).unwrap();
    assert_eq!(a.len(), 1);
    assert!(b.is_empty());
    let graph = graph.build();
    assert_eq!(run_task_targets(&graph), vec!["inputA:a"]);
    assert_eq!(graph.node_count(), 4);
}

#[test]
fn skips_if_untouched_task() {
    let projects = create_tasks_project_graph();
    let touched = vec![
        "input-a/a2.ts".to_string(),
        "input-b/b2.ts".to_string(),
        "input-c/any.ts".to_string(),
    ];
    let mut graph = DepGraphBuilder::new(&projects);
    graph.run_target(&Target::new("inputA", "a").unwrap(), Some(&touched)).unwrap();
    graph.run_target(&Target::new("inputB", "b2").unwrap(), Some(&touched)).unwrap();
    graph.run_target(&Target::new("inputC", "c").unwrap(), Some(&touched)).unwrap();
    let graph = graph.build();
    assert_eq!(run_task_targets(&graph), vec!["inputB:b2", "inputC:c"]);
}

#[test]
fn isolated_projects() {
    let projects = create_project_graph();
    let mut graph = DepGraphBuilder::new(&projects);
    for id in ["advanced", "basic", "emptyConfig", "noConfig"] {
        graph.sync_project(id).unwrap();
    }
    let graph = graph.build();
    // setup, advanced, noConfig, basic, emptyConfig
    assert_eq!(graph.node_count(), 5);
    assert_eq!(edges(&graph), vec![(0, 1), (0, 2), (0, 3), (2, 3), (0, 4)]);
    assert_eq!(
        graph.sort_batched_topological().unwrap(),
        vec![vec![0], vec![1, 2, 4], vec![3]]
    );
}

#[test]
fn projects_with_deps() {
    let projects = create_project_graph();
    let mut graph = DepGraphBuilder::new(&projects);
    for id in ["foo", "bar", "baz", "basic"] {
        graph.sync_project(id).unwrap();
    }
    let graph = graph.build();
    // setup, baz, bar, foo, noConfig, basic
    assert_eq!(graph.node_count(), 6);
    assert_eq!(
        graph.sort_batched_topological().unwrap(),
        vec![vec![0], vec![1, 4], vec![2, 5], vec![3]]
    );
}

#[test]
fn projects_with_tasks() {
    let projects = create_project_graph();
    let mut graph = DepGraphBuilder::new(&projects);
    for id in ["noConfig", "tasks"] {
        graph.sync_project(id).unwrap();
    }
    let graph = graph.build();
    assert_eq!(graph.node_count(), 3);
    assert_eq!(
        graph.sort_batched_topological().unwrap(),
        vec![vec![0], vec![1, 2]]
    );
}

#[test]
fn avoids_dupe_projects() {
    let projects = create_project_graph();
    let mut graph = DepGraphBuilder::new(&projects);
    let a = graph.sync_project("advanced").unwrap();
    let b = graph.sync_project("advanced").unwrap();
    let c = graph.sync_project("advanced").unwrap();
    assert_eq!((a, b, c), (1, 1, 1));
    let graph = graph.build();
    assert_eq!(graph.node_count(), 2);
    assert_eq!(edges(&graph), vec![(0, 1)]);
}

#[test]
fn tool_is_based_on_task_platform() {
    let projects = create_project_graph();
    let mut graph = DepGraphBuilder::new(&projects);
    graph.run_target(&Target::new("platforms", "system").unwrap(), None).unwrap();
    graph.run_target(&Target::new("platforms", "node").unwrap(), None).unwrap();
    let graph = graph.build();
    assert_eq!(
        graph.node(0),
        &ActionNode::SetupToolchain { runtime: system_runtime() }
    );
    assert_eq!(
        graph.node(1),
        &ActionNode::InstallDependencies { runtime: system_runtime(), scope: None }
    );
    assert_eq!(
        graph.node(2),
        &ActionNode::SetupToolchain { runtime: node_runtime() }
    );
    assert_eq!(
        graph.node(3),
        &ActionNode::SyncProject { runtime: node_runtime(), project: "platforms".to_string() }
    );
    assert_eq!(
        graph.node(6),
        &ActionNode::RunTask {
            target: Target::new("platforms", "node").unwrap(),
            runtime: node_runtime(),
            persistent: false,
            interactive: false,
        }
    );
    assert_eq!(graph.node_count(), 7);
}

#[test]
fn diamond_dependency() {
    let projects = create_project_graph();
    let mut graph = DepGraphBuilder::new(&projects);
    graph.run_target(&Target::new("foo", "build").unwrap(), None).unwrap();
    graph.run_target(&Target::new("baz", "build").unwrap(), None).unwrap();
    let graph = graph.build();
    assert_eq!(run_task_targets(&graph), vec!["baz:build", "bar:build", "foo:build"]);
    let batches = graph.sort_batched_topological().unwrap();
    let foo = batch_of(&batches, index_of(&graph, "foo:build"));
    let bar = batch_of(&batches, index_of(&graph, "bar:build"));
    let baz = batch_of(&batches, index_of(&graph, "baz:build"));
    assert!(baz < bar && bar < foo);
    assert_eq!(foo, batches.len() - 1);
    assert_eq!(bar, batches.len() - 2);
    assert_eq!(baz, batches.len() - 3);
}

#[test]
fn sorting_a_cyclic_graph_fails() {
    let nodes = vec![
        ActionNode::SetupToolchain { runtime: node_runtime() },
        ActionNode::SetupToolchain { runtime: system_runtime() },
    ];
    let graph = DepGraph::from_parts(nodes, vec![(0, 1), (1, 0)]).unwrap();
    assert_eq!(graph.sort_batched_topological(), Err(CycleError));
    assert!(DepGraph::from_parts(vec![], vec![(0, 0)]).is_none());
}

#[test]
fn all_scope_expansion() {
    let projects = ProjectGraph {
        projects: vec![
            project("a", &[], vec![task("build", &[])]),
            project("b", &[], vec![task("test", &[])]),
            project("c", &[], vec![task("build", &[]), task("test", &[])]),
            project("d", &[], vec![task("build", &[])]),
        ],
    };
    let mut graph = DepGraphBuilder::new(&projects);
    let roots = graph.run_target(&Target::parse(":build").unwrap(), None).unwrap();
    let graph = graph.build();
    assert_eq!(run_task_targets(&graph), vec!["a:build", "c:build", "d:build"]);
    assert_eq!(roots.len(), 3);
    for (root, name) in roots.iter().zip(["a:build", "c:build", "d:build"]) {
        assert_eq!(*root, index_of(&graph, name));
    }
}

#[test]
fn affected_pruning() {
    let projects = ProjectGraph {
        projects: vec![project(
            "app",
            &[],
            vec![task_with_inputs("x", &["a.ts"]), task_with_inputs("y", &["b.ts"])],
        )],
    };
    let touched = vec!["a.ts".to_string()];
    let mut graph = DepGraphBuilder::new(&projects);
    let x = graph.run_target(&Target::new("app", "x").unwrap(), Some(&touched)).unwrap();
    let y = graph.run_target(&Target::new("app", "y").unwrap(), Some(&touched)).unwrap();
    assert_eq!(x, vec![3]);
    assert!(y.is_empty());
    let graph = graph.build();
    assert_eq!(run_task_targets(&graph), vec!["app:x"]);
    assert_eq!(graph.node_count(), 4);
}

#[test]
fn a_failed_request_leaves_no_trace() {
    let projects = create_tasks_project_graph();
    let mut graph = DepGraphBuilder::new(&projects);
    graph.run_target(&Target::new("basic", "lint").unwrap(), None).unwrap();
    assert!(graph.run_target(&Target::new("cycle", "b").unwrap(), None).is_err());
    assert!(graph.run_target(&Target::new("cycle", "c").unwrap(), None).is_err());
    graph.run_target(&Target::new("chain", "e").unwrap(), None).unwrap();
    let graph = graph.build();
    assert_eq!(run_task_targets(&graph), vec!["basic:lint", "chain:f", "chain:e"]);
    assert_eq!(graph.node_count(), 7);
    assert_eq!(graph.edge_count(), 13);
    assert!(graph.sort_batched_topological().is_ok());
}
