use taskgraph::action::{ActionNode, PlatformType, Runtime};
use taskgraph::builder::DepGraphBuilder;
use taskgraph::error::{DepGraphError, ScopeContext};
use taskgraph::export::decimal_text;
use taskgraph::graph::DepGraph;
use taskgraph::project::{Project, ProjectGraph, Task};
use taskgraph::sort::CycleError;
use taskgraph::target::{Target, TargetScope};
use taskgraph::text::{from_chars, is_text, join_with, same_str, same_text, to_chars};

fn runtime() -> Runtime {
    Runtime { platform: PlatformType::Node, version: "16.0.0".to_string() }
}

fn setup(version: &str) -> ActionNode {
    ActionNode::SetupToolchain {
        runtime: Runtime { platform: PlatformType::Rust, version: version.to_string() },
    }
}

fn run(target: &str, persistent: bool, interactive: bool) -> ActionNode {
    ActionNode::RunTask {
        target: Target::parse(target).unwrap(),
        runtime: runtime(),
        persistent,
        interactive,
    }
}

fn task(id: &str, deps: &[&str]) -> Task {
    Task {
        id: id.to_string(),
        command: String::new(),
        deps: deps.iter().map(|d| Target::parse(d).unwrap()).collect(),
        inputs: vec![],
        persistent: false,
        interactive: false,
        runtime: runtime(),
    }
}

fn project(id: &str, alias: Option<&str>, dependencies: &[&str], tasks: Vec<Task>) -> Project {
    Project {
        id: id.to_string(),
        alias: alias.map(|a| a.to_string()),
        dependencies: dependencies.iter().map(|d| d.to_string()).collect(),
        tasks,
        runtime: runtime(),
        workspace_install: true,
    }
}

fn batch_of(batches: &[Vec<usize>], node: usize) -> usize {
    batches.iter().position(|b| b.contains(&node)).unwrap()
}

#[test]
fn an_empty_graph_has_no_batches() {
    let graph = DepGraph::new();
    assert_eq!(graph.sort_batched_topological(), Ok(vec![]));
    assert_eq!(graph.sort_topological(), Ok(vec![]));
    assert_eq!(graph.to_dot(), "digraph {\n}\n");
}

#[test]
fn every_edge_leads_to_a_later_batch() {
    let nodes = vec![setup("1"), setup("2"), setup("3"), setup("4"), setup("5")];
    let edges = vec![(3, 1), (1, 0), (4, 0), (3, 4), (2, 0), (3, 1)];
    let graph = DepGraph::from_parts(nodes, edges.clone()).unwrap();
    let batches = graph.sort_batched_topological().unwrap();
    assert_eq!(batches, vec![vec![2, 3], vec![1, 4], vec![0]]);
    for (u, v) in &edges {
        assert!(batch_of(&batches, *u) < batch_of(&batches, *v));
    }
    let order = graph.sort_topological().unwrap();
    assert_eq!(order, vec![2, 3, 1, 4, 0]);
    for (u, v) in edges {
        let pu = order.iter().position(|x| *x == u).unwrap();
        let pv = order.iter().position(|x| *x == v).unwrap();
        assert!(pu < pv);
    }
}

#[test]
fn interactive_tasks_are_alone_and_persistent_tasks_last() {
    let nodes = vec![
        run("a:dev", true, false),        // 0 persistent
        run("a:ask", false, true),        // 1 interactive
        run("a:build", false, false),     // 2
        run("a:after", false, false),     // 3 waits for the persistent task
        run("a:ask2", false, true),       // 4 interactive
        run("a:serve", true, true),       // 5 persistent and interactive
        run("a:lint", false, false),      // 6 waits for build
    ];
    let edges = vec![(0, 3), (2, 6), (2, 0)];
    let graph = DepGraph::from_parts(nodes, edges).unwrap();
    let batches = graph.sort_batched_topological().unwrap();
    assert_eq!(
        batches,
        vec![vec![2], vec![1], vec![4], vec![6], vec![0], vec![5], vec![3]]
    );
}

#[test]
fn a_cycle_is_reported_by_both_sorts() {
    let graph =
        DepGraph::from_parts(vec![setup("1"), setup("2"), setup("3")], vec![(0, 1), (1, 2), (2, 1)])
            .unwrap();
    assert_eq!(graph.sort_batched_topological(), Err(CycleError));
    assert_eq!(graph.sort_topological(), Err(CycleError));
    let graph = DepGraph::from_parts(vec![setup("1")], vec![(0, 0)]).unwrap();
    assert_eq!(graph.sort_batched_topological(), Err(CycleError));
}

#[test]
fn edges_must_join_nodes() {
    assert!(DepGraph::from_parts(vec![setup("1")], vec![(0, 1)]).is_none());
    assert!(DepGraph::from_parts(vec![setup("1")], vec![(1, 0)]).is_none());
    let graph = DepGraph::from_parts(vec![setup("1"), setup("2")], vec![(1, 0)]).unwrap();
    assert_eq!(graph.node_count(), 2);
    assert_eq!(graph.edge_count(), 1);
    assert_eq!(graph.edge(0), (1, 0));
    assert_eq!(graph.node(1), &setup("2"));
}

#[test]
fn the_graph_as_text() {
    let nodes = vec![
        ActionNode::SetupToolchain { runtime: runtime() },
        ActionNode::InstallDependencies { runtime: runtime(), scope: None },
        ActionNode::InstallDependencies { runtime: runtime(), scope: Some("app".to_string()) },
        ActionNode::SyncProject {
            runtime: Runtime { platform: PlatformType::System, version: String::new() },
            project: "app".to_string(),
        },
        run("app:build", false, false),
        setup("a\"b\\c"),
    ];
    let graph = DepGraph::from_parts(nodes, vec![(0, 1), (0, 2), (3, 4), (1, 4)]).unwrap();
    let expected = "digraph {\n\
        \x20   0 [ label=\"SetupToolchain(node:16.0.0)\" ]\n\
        \x20   1 [ label=\"InstallDependencies(node:16.0.0)\" ]\n\
        \x20   2 [ label=\"InstallDependencies(node:16.0.0, app)\" ]\n\
        \x20   3 [ label=\"SyncProject(system, app)\" ]\n\
        \x20   4 [ label=\"RunTask(app:build)\" ]\n\
        \x20   5 [ label=\"SetupToolchain(rust:a\\\"b\\\\c)\" ]\n\
        \x20   0 -> 1\n\
        \x20   0 -> 2\n\
        \x20   3 -> 4\n\
        \x20   1 -> 4\n\
        }\n";
    assert_eq!(graph.to_dot(), expected);
}

#[test]
fn numbers_in_digits() {
    assert_eq!(decimal_text(0), "0");
    assert_eq!(decimal_text(7), "7");
    assert_eq!(decimal_text(10), "10");
    assert_eq!(decimal_text(1234567890), "1234567890");
    assert_eq!(decimal_text(usize::MAX), usize::MAX.to_string());
}

#[test]
fn nodes_in_words() {
    assert_eq!(PlatformType::Bun.name(), "bun");
    assert_eq!(PlatformType::Deno.name(), "deno");
    assert_eq!(PlatformType::Unknown.name(), "unknown");
    assert_eq!(runtime().label(), "node:16.0.0");
    assert_eq!(run("app:build", true, false).label(), "RunTask(app:build)");
    assert!(run("app:build", true, false).is_persistent());
    assert!(!run("app:build", true, false).is_interactive());
    assert!(run("app:build", false, true).is_interactive());
    assert!(!setup("1").is_persistent());
    assert!(setup("1").same(&setup("1").clone()));
    assert!(!setup("1").same(&setup("2")));
    assert!(!run("a:b", false, false).same(&run("a:b", true, false)));
    let a = ActionNode::InstallDependencies { runtime: runtime(), scope: None };
    let b = ActionNode::InstallDependencies { runtime: runtime(), scope: Some("x".to_string()) };
    assert!(!a.same(&b));
    assert!(b.same(&b.clone()));
}

#[test]
fn failures_in_words() {
    assert_eq!(
        DepGraphError::UnknownProject("unknown".to_string()).message(),
        "No project has been configured with the name or alias unknown."
    );
    assert_eq!(
        DepGraphError::UnknownTask("tasks".to_string(), "build".to_string()).message(),
        "Unknown task build for project tasks."
    );
    assert_eq!(
        DepGraphError::UnsupportedScope(TargetScope::Deps, ScopeContext::Run).message(),
        "Dependencies scope (^:) is not supported in run contexts."
    );
    assert_eq!(
        DepGraphError::UnsupportedScope(TargetScope::OwnSelf, ScopeContext::Run).message(),
        "Self scope (~:) is not supported in run contexts."
    );
    assert_eq!(
        DepGraphError::UnsupportedScope(TargetScope::All, ScopeContext::TaskDependency).message(),
        "All scope (:) is not supported in task dependencies."
    );
    assert_eq!(
        DepGraphError::CycleDetected(run("cycle:a", false, false)).message(),
        "A dependency cycle has been detected for RunTask(cycle:a)."
    );
}

#[test]
fn projects_are_found_by_id_or_alias() {
    let projects = ProjectGraph {
        projects: vec![
            project("app", Some("@org/app"), &[], vec![task("build", &[])]),
            project("lib", None, &[], vec![task("build", &[]), task("test", &[])]),
        ],
    };
    assert_eq!(projects.project_index(&"app".to_string()), Some(0));
    assert_eq!(projects.project_index(&"@org/app".to_string()), Some(0));
    assert_eq!(projects.project_index(&"lib".to_string()), Some(1));
    assert_eq!(projects.project_index(&"none".to_string()), None);
    assert_eq!(projects.projects[1].task_index(&"test".to_string()), Some(1));
    assert_eq!(projects.projects[1].task_index(&"lint".to_string()), None);

    let mut graph = DepGraphBuilder::new(&projects);
    let by_alias = graph.run_target(&Target::new("@org/app", "build").unwrap(), None).unwrap();
    let by_id = graph.run_target(&Target::new("app", "build").unwrap(), None).unwrap();
    assert_eq!(by_alias, by_id);
    let graph = graph.build();
    assert_eq!(graph.node(by_id[0]), &run("app:build", false, false));
}

#[test]
fn dependencies_of_tasks_follow_their_scopes() {
    let projects = ProjectGraph {
        projects: vec![
            project(
                "app",
                None,
                &["lib", "util"],
                vec![task("build", &["^:build", "~:gen"]), task("gen", &[])],
            ),
            project("lib", None, &[], vec![task("build", &[])]),
            project("util", None, &[], vec![task("test", &[])]),
            project("bad", None, &[], vec![task("all", &[":build"]), task("self", &["~:self"])]),
            project("worse", None, &["gone"], vec![task("up", &["^:build"]), task("x", &["lib:gone"])]),
        ],
    };
    let mut graph = DepGraphBuilder::new(&projects);
    let root = graph.run_target(&Target::new("app", "build").unwrap(), None).unwrap();
    assert_eq!(
        graph.run_target(&Target::new("bad", "all").unwrap(), None),
        Err(DepGraphError::UnsupportedScope(TargetScope::All, ScopeContext::TaskDependency))
    );
    assert_eq!(
        graph.run_target(&Target::new("bad", "self").unwrap(), None),
        Err(DepGraphError::CycleDetected(run("bad:self", false, false)))
    );
    assert_eq!(
        graph.run_target(&Target::new("worse", "up").unwrap(), None),
        Err(DepGraphError::UnknownProject("gone".to_string()))
    );
    assert_eq!(
        graph.run_target(&Target::new("worse", "x").unwrap(), None),
        Err(DepGraphError::UnknownTask("lib".to_string(), "gone".to_string()))
    );
    assert_eq!(
        graph.sync_project("worse"),
        Err(DepGraphError::UnknownProject("gone".to_string()))
    );
    let graph = graph.build();
    let mut tasks = vec![];
    for i in 0..graph.node_count() {
        if let ActionNode::RunTask { target, .. } = graph.node(i) {
            tasks.push(target.id());
        }
    }
    assert_eq!(tasks, vec!["lib:build", "app:gen", "app:build"]);
    assert_eq!(graph.node(root[0]), &run("app:build", false, false));
    // setup, install, sync lib, sync util, sync app, lib:build, app:gen, app:build
    assert_eq!(graph.node_count(), 8);
}

#[test]
fn projects_that_depend_on_each_other_cannot_be_synced() {
    let projects = ProjectGraph {
        projects: vec![
            project("a", None, &["b"], vec![task("build", &[])]),
            project("b", None, &["a"], vec![]),
            project("c", None, &[], vec![]),
        ],
    };
    let mut graph = DepGraphBuilder::new(&projects);
    graph.sync_project("c").unwrap();
    let expected = ActionNode::SyncProject { runtime: runtime(), project: "a".to_string() };
    assert_eq!(graph.sync_project("a"), Err(DepGraphError::CycleDetected(expected.clone())));
    assert_eq!(
        graph.run_target(&Target::new("a", "build").unwrap(), None),
        Err(DepGraphError::CycleDetected(expected))
    );
    let graph = graph.build();
    assert_eq!(graph.node_count(), 2);
    assert_eq!(graph.edge_count(), 1);
}

#[test]
fn a_project_may_install_for_itself() {
    let mut alone = project("alone", None, &[], vec![task("build", &[])]);
    alone.workspace_install = false;
    let projects = ProjectGraph { projects: vec![alone] };
    let mut graph = DepGraphBuilder::new(&projects);
    graph.run_target(&Target::new("alone", "build").unwrap(), None).unwrap();
    let graph = graph.build();
    assert_eq!(
        graph.node(1),
        &ActionNode::InstallDependencies { runtime: runtime(), scope: Some("alone".to_string()) }
    );
}

#[test]
fn all_scope_without_a_match_plans_nothing() {
    let projects = ProjectGraph { projects: vec![project("a", None, &[], vec![task("x", &[])])] };
    let mut graph = DepGraphBuilder::new(&projects);
    assert_eq!(graph.run_target(&Target::parse(":build").unwrap(), None), Ok(vec![]));
    assert_eq!(graph.build().node_count(), 0);
}

#[test]
fn an_empty_list_of_touched_files_filters_nothing() {
    let projects = ProjectGraph { projects: vec![project("a", None, &[], vec![task("x", &[])])] };
    let mut graph = DepGraphBuilder::new(&projects);
    let none: Vec<String> = vec![];
    assert_eq!(graph.run_target(&Target::new("a", "x").unwrap(), Some(&none)).unwrap().len(), 1);
    let some = vec!["other.ts".to_string()];
    let mut graph = DepGraphBuilder::new(&projects);
    assert!(graph.run_target(&Target::new("a", "x").unwrap(), Some(&some)).unwrap().is_empty());
}

#[test]
fn texts_and_characters() {
    assert_eq!(to_chars("héllo"), vec!['h', 'é', 'l', 'l', 'o']);
    assert_eq!(from_chars(&vec!['a', 'ß', 'c']), "aßc");
    assert!(same_text(&"a".to_string(), &"a".to_string()));
    assert!(!same_text(&"a".to_string(), &"b".to_string()));
    assert!(is_text(&"a".to_string(), "a"));
    assert!(same_str("x", "x"));
    assert!(!same_str("x", "y"));
    assert_eq!(join_with(&vec!["a".to_string(), "b".to_string()], ", "), "a, b");
}
