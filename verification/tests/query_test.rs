use taskgraph::action::{PlatformType, Runtime};
use taskgraph::project::{Project, Task};
use taskgraph::query::{
    diff_report, hash_diff, lines_text, marked_lines, project_line, project_selected, side_diffs,
    task_line, tasks_to_list, DiffLine, ProjectFacts, QueryProjectsArgs, QueryTasksArgs,
    QueryTouchedFilesArgs, TouchedStatus,
};
use taskgraph::target::{Target, TargetScope};
use taskgraph::task::{command_line, deps_mode, env_entry, section_shown, ProjectRequired, TaskArgs};

fn strings(items: &[&str]) -> Vec<String> {
    items.iter().map(|s| s.to_string()).collect()
}

fn task(id: &str, command: &str, inputs: &[&str]) -> Task {
    Task {
        id: id.to_string(),
        command: command.to_string(),
        deps: vec![],
        inputs: strings(inputs),
        persistent: false,
        interactive: false,
        runtime: Runtime { platform: PlatformType::Node, version: "18.0.0".to_string() },
    }
}

fn projects_args(affected: bool) -> QueryProjectsArgs {
    QueryProjectsArgs {
        query: Some("language=rust".to_string()),
        alias: Some("al".to_string()),
        affected,
        id: Some("app".to_string()),
        json: true,
        language: Some("rust".to_string()),
        source: Some("apps/app".to_string()),
        tags: Some("a,b".to_string()),
        tasks: Some("build".to_string()),
        type_of: Some("library".to_string()),
    }
}

#[test]
fn project_options_take_touched_files_only_when_affected() {
    let touched = strings(&["a.ts", "b.ts"]);
    let options = projects_args(true).into_options(touched.clone());
    assert!(options.affected);
    assert_eq!(options.touched_files, touched);
    assert_eq!(options.alias.as_deref(), Some("al"));
    assert_eq!(options.id.as_deref(), Some("app"));
    assert!(options.json);
    assert_eq!(options.language.as_deref(), Some("rust"));
    assert_eq!(options.query.as_deref(), Some("language=rust"));
    assert_eq!(options.source.as_deref(), Some("apps/app"));
    assert_eq!(options.tags.as_deref(), Some("a,b"));
    assert_eq!(options.tasks.as_deref(), Some("build"));
    assert_eq!(options.type_of.as_deref(), Some("library"));

    let options = projects_args(false).into_options(touched);
    assert!(!options.affected);
    assert!(options.touched_files.is_empty());
}

#[test]
fn task_options_do_not_filter_projects_by_what_is_affected() {
    let args = QueryTasksArgs {
        query: None,
        alias: Some("al".to_string()),
        affected: true,
        id: None,
        json: false,
        language: None,
        source: Some("src".to_string()),
        tasks: Some("lint".to_string()),
        type_of: None,
    };
    let options = args.into_options();
    assert!(!options.affected);
    assert_eq!(options.tags, None);
    assert!(options.touched_files.is_empty());
    assert_eq!(options.alias.as_deref(), Some("al"));
    assert_eq!(options.source.as_deref(), Some("src"));
    assert_eq!(options.tasks.as_deref(), Some("lint"));
}

#[test]
fn touched_files_options_never_log() {
    let args = QueryTouchedFilesArgs {
        base: Some("main".to_string()),
        default_branch: true,
        head: Some("HEAD".to_string()),
        json: true,
        local: true,
        status: vec![TouchedStatus::Added, TouchedStatus::Deleted],
    };
    let options = args.into_options();
    assert_eq!(options.base.as_deref(), Some("main"));
    assert!(options.default_branch);
    assert_eq!(options.head.as_deref(), Some("HEAD"));
    assert!(options.json);
    assert!(options.local);
    assert!(!options.log);
    assert_eq!(options.status, vec![TouchedStatus::Added, TouchedStatus::Deleted]);
}

#[test]
fn lines_of_projects_and_tasks() {
    assert_eq!(
        project_line("app", "apps/app", "application", "typescript"),
        "app | apps/app | application | typescript"
    );
    assert_eq!(task_line(&task("build", "tsc", &[])), "\t:build | tsc");
    assert_eq!(lines_text(&strings(&["a", "b", "c"])), "a\nb\nc");
    assert_eq!(lines_text(&strings(&["a"])), "a");
    assert_eq!(lines_text(&strings(&[])), "");
}

#[test]
fn lists_all_tasks_or_the_affected_ones() {
    let project = Project {
        id: "app".to_string(),
        alias: None,
        dependencies: vec![],
        tasks: vec![
            task("a", "x", &["src/a.ts"]),
            task("b", "y", &["src/b.ts"]),
            task("c", "z", &[]),
            task("d", "w", &["src/d.ts", "src/a.ts"]),
        ],
        runtime: Runtime { platform: PlatformType::Node, version: String::new() },
        workspace_install: true,
    };
    let touched = strings(&["src/a.ts"]);
    assert_eq!(tasks_to_list(&project, false, &touched), vec![0, 1, 2, 3]);
    assert_eq!(tasks_to_list(&project, true, &touched), vec![0, 3]);
    assert_eq!(tasks_to_list(&project, true, &strings(&[])), Vec::<usize>::new());
    assert!(project.tasks[0].is_affected(&touched));
    assert!(!project.tasks[1].is_affected(&touched));
    assert!(!project.tasks[2].is_affected(&touched));
}

#[test]
fn compares_two_manifests() {
    let out = hash_diff("{\n  a: 1,\n  b: 2\n}", "{\n  a: 1,\n  b: 3\n}");
    assert_eq!(out.left_diffs, strings(&["b: 2"]));
    assert_eq!(out.right_diffs, strings(&["b: 3"]));
    assert_eq!(out.lines, strings(&[" {", "   a: 1,", "+  b: 2", "-  b: 3", " }"]));

    let same = hash_diff("a\nb", "a\nb");
    assert!(same.left_diffs.is_empty());
    assert!(same.right_diffs.is_empty());
    assert_eq!(same.lines, strings(&[" a", " b"]));
}

#[test]
fn reports_the_lines_of_a_comparison() {
    let lines = vec![
        DiffLine::Both("same".to_string(), "same".to_string()),
        DiffLine::Left("  left only \t".to_string()),
        DiffLine::Right(" right only".to_string()),
        DiffLine::Left("more".to_string()),
    ];
    let (left, right) = side_diffs(&lines);
    assert_eq!(left, strings(&["left only", "more"]));
    assert_eq!(right, strings(&["right only"]));
    assert_eq!(
        marked_lines(&lines),
        strings(&[" same", "+  left only \t", "- right only", "+more"])
    );
    let report = diff_report(&lines);
    assert_eq!(report.left_diffs, left);
    assert_eq!(report.right_diffs, right);
    assert_eq!(report.lines.len(), 4);
}

#[test]
fn a_task_is_shown_for_a_project() {
    let args = TaskArgs { target: Target::parse("app:build").unwrap(), json: false };
    assert_eq!(args.project_id(), Ok("app".to_string()));
    for text in [":build", "^:build", "~:build"] {
        let args = TaskArgs { target: Target::parse(text).unwrap(), json: true };
        assert_eq!(args.project_id(), Err(ProjectRequired));
    }
    assert_eq!(ProjectRequired.message(), "A project ID is required.");
    let args = TaskArgs {
        target: Target { scope: TargetScope::All, task_id: "x".to_string() },
        json: false,
    };
    assert!(args.project_id().is_err());
}

#[test]
fn entries_of_a_task() {
    assert_eq!(command_line("tsc", &strings(&["--build", "--watch"])), "tsc --build --watch");
    assert_eq!(command_line("tsc", &strings(&[])), "tsc ");
    assert_eq!(env_entry("KEY", "=", "value"), "KEY = value");
    assert_eq!(deps_mode(true), "Concurrently");
    assert_eq!(deps_mode(false), "Serially");
    assert!(section_shown(1, 0));
    assert!(section_shown(0, 2));
    assert!(!section_shown(0, 0));
}

fn facts() -> ProjectFacts {
    ProjectFacts {
        id: "app".to_string(),
        alias: Some("al".to_string()),
        language: "rust".to_string(),
        source: "apps/app".to_string(),
        type_of: "library".to_string(),
        tags: strings(&["a", "b", "c"]),
        tasks: strings(&["build", "test"]),
        affected: false,
    }
}

#[test]
fn a_project_is_taken_when_it_passes_every_filter() {
    let none = strings(&[]);
    let mut options = projects_args(false).into_options(vec![]);
    assert!(project_selected(&options, &facts(), &strings(&["a", "b"]), &strings(&["build"])));
    assert!(project_selected(&options, &facts(), &none, &none));
    assert!(!project_selected(&options, &facts(), &strings(&["a", "z"]), &none));
    assert!(!project_selected(&options, &facts(), &none, &strings(&["lint"])));

    options.id = Some("other".to_string());
    assert!(!project_selected(&options, &facts(), &none, &none));
    options.id = None;
    assert!(project_selected(&options, &facts(), &none, &none));

    options.language = Some("go".to_string());
    assert!(!project_selected(&options, &facts(), &none, &none));
    options.language = None;
    options.source = Some("apps".to_string());
    assert!(!project_selected(&options, &facts(), &none, &none));
    options.source = None;
    options.type_of = Some("application".to_string());
    assert!(!project_selected(&options, &facts(), &none, &none));
    options.type_of = None;

    let mut plain = facts();
    plain.alias = None;
    assert!(!project_selected(&options, &plain, &none, &none));
    options.alias = None;
    assert!(project_selected(&options, &plain, &none, &none));

    options.affected = true;
    assert!(!project_selected(&options, &plain, &none, &none));
    plain.affected = true;
    assert!(project_selected(&options, &plain, &none, &none));
}
