use taskgraph::args::{join_args, pad_semicolon, split_args, ArgsSplitError};

fn strings(items: &[&str]) -> Vec<String> {
    items.iter().map(|s| s.to_string()).collect()
}

#[test]
fn pads_semicolons_before_a_space() {
    assert_eq!(pad_semicolon("mkdir foo; cd foo"), "mkdir foo ; cd foo");
    assert_eq!(pad_semicolon("a;b"), "a;b");
    assert_eq!(pad_semicolon("a; b; c"), "a ; b ; c");
    assert_eq!(pad_semicolon(";"), ";");
    assert_eq!(pad_semicolon("; "), " ; ");
    assert_eq!(pad_semicolon(";; "), "; ; ");
    assert_eq!(pad_semicolon(""), "");
}

#[test]
fn splits_a_line_into_arguments() {
    assert_eq!(split_args("echo 'a b' c").unwrap(), strings(&["echo", "a b", "c"]));
    assert_eq!(
        split_args("mkdir foo; cd foo").unwrap(),
        strings(&["mkdir", "foo", ";", "cd", "foo"])
    );
    assert_eq!(split_args("").unwrap(), Vec::<String>::new());
}

#[test]
fn fails_on_an_open_quote() {
    let error = split_args("echo 'a; b").unwrap_err();
    assert_eq!(error, ArgsSplitError { args: "echo 'a ; b".to_string() });
    assert_eq!(error.message(), "Failed to split arguments \"echo 'a ; b\".");
}

#[test]
fn joins_arguments() {
    assert_eq!(join_args(&strings(&["echo", "a b", "c"])), "echo 'a b' c");
    assert_eq!(join_args(&strings(&["a", "&&", "b"])), "a && b");
    assert_eq!(
        join_args(&strings(&["a", ";", "b", "|", "c", ">", "out", "--", "-"])),
        "a ; b | c > out -- -"
    );
    assert_eq!(join_args(&strings(&["echo", "$HOME", "'x y'", "\"z w\""])), "echo $HOME 'x y' \"z w\"");
    assert_eq!(join_args(&strings(&["echo", "a;b"])), "echo 'a;b'");
    assert_eq!(join_args(&strings(&[])), "");
    assert_eq!(join_args(&strings(&["one"])), "one");
}

#[test]
fn split_undoes_join() {
    let args = strings(&["run", "it's here", "x y"]);
    assert_eq!(split_args(&join_args(&args)).unwrap(), args);
}
