use taskgraph::target::{Target, TargetError, TargetScope};

#[test]
fn parses_a_project_scope() {
    let target = Target::parse("app:build").unwrap();
    assert_eq!(target.scope, TargetScope::Project("app".to_string()));
    assert_eq!(target.task_id, "build");
    assert_eq!(target.id(), "app:build");
}

#[test]
fn parses_the_other_scopes() {
    assert_eq!(Target::parse(":lint").unwrap().scope, TargetScope::All);
    assert_eq!(Target::parse("^:lint").unwrap().scope, TargetScope::Deps);
    assert_eq!(Target::parse("~:lint").unwrap().scope, TargetScope::OwnSelf);
    assert_eq!(Target::parse("~:lint").unwrap().task_id, "lint");
}

#[test]
fn parses_ids_with_marks() {
    let target = Target::parse("@scope/pkg-a.b:test_unit").unwrap();
    assert_eq!(target.scope, TargetScope::Project("@scope/pkg-a.b".to_string()));
    assert_eq!(target.task_id, "test_unit");
}

#[test]
fn refuses_what_is_no_target() {
    for text in ["", "build", ":", "app:", "a:b:c", "^^:build", "a b:build", "app:bu ild", "é:x"] {
        assert_eq!(
            Target::parse(text),
            Err(TargetError { input: text.to_string() }),
            "{text}"
        );
    }
}

#[test]
fn text_and_parse_are_inverse() {
    for text in [":build", "^:build", "~:build", "app:build", "a/b:c.d"] {
        assert_eq!(Target::parse(text).unwrap().id(), text);
    }
    let target = Target::new("foo", "bar").unwrap();
    assert_eq!(Target::parse(&target.id()).unwrap(), target);
}

#[test]
fn new_checks_both_ids() {
    assert_eq!(
        Target::new("foo", "bar").unwrap(),
        Target { scope: TargetScope::Project("foo".to_string()), task_id: "bar".to_string() }
    );
    assert_eq!(Target::new("", "bar"), Err(TargetError { input: ":bar".to_string() }));
    assert_eq!(Target::new("foo", "b:r"), Err(TargetError { input: "foo:b:r".to_string() }));
    assert_eq!(Target::new("^", "bar"), Err(TargetError { input: "^:bar".to_string() }));
}

#[test]
fn same_compares_values() {
    let a = Target::parse("app:build").unwrap();
    assert!(a.same(&a.clone()));
    assert!(!a.same(&Target::parse("app:test").unwrap()));
    assert!(!a.same(&Target::parse(":build").unwrap()));
    assert!(TargetScope::Deps.same(&TargetScope::Deps));
    assert!(!TargetScope::Deps.same(&TargetScope::OwnSelf));
}
