use epsh::error::ExitStatus;
use epsh::var::Variables;

#[test]
fn set_get() {
    let mut vars = Variables::new();
    vars.set("FOO", "bar").unwrap();
    assert_eq!(vars.get("FOO"), Some("bar"));
}

#[test]
fn unset() {
    let mut vars = Variables::new();
    vars.set("FOO", "bar").unwrap();
    vars.unset("FOO").unwrap();
    assert_eq!(vars.get("FOO"), None);
}

#[test]
fn readonly() {
    let mut vars = Variables::new();
    vars.set("FOO", "bar").unwrap();
    vars.set_readonly("FOO");
    assert!(vars.set("FOO", "baz").is_err());
    assert!(vars.unset("FOO").is_err());
}

#[test]
fn scope_local() {
    let mut vars = Variables::new();
    vars.set("X", "outer").unwrap();
    vars.push_scope();
    vars.make_local("X");
    vars.set("X", "inner").unwrap();
    assert_eq!(vars.get("X"), Some("inner"));
    vars.pop_scope();
    assert_eq!(vars.get("X"), Some("outer"));
}

#[test]
fn scope_new_local() {
    let mut vars = Variables::new();
    vars.push_scope();
    vars.make_local("Y");
    vars.set("Y", "local").unwrap();
    assert_eq!(vars.get("Y"), Some("local"));
    vars.pop_scope();
    assert_eq!(vars.get("Y"), None);
}

#[test]
fn positional_params() {
    let mut vars = Variables::new();
    vars.positional = vec!["a".into(), "b".into(), "c".into()];
    assert_eq!(
        vars.get_special("#", ExitStatus::SUCCESS(), 1, "", None),
        Some("3".into())
    );
    assert_eq!(
        vars.get_special("1", ExitStatus::SUCCESS(), 1, "", None),
        Some("a".into())
    );
    assert_eq!(
        vars.get_special("3", ExitStatus::SUCCESS(), 1, "", None),
        Some("c".into())
    );
    assert_eq!(
        vars.get_special("4", ExitStatus::SUCCESS(), 1, "", None),
        None
    );
}

#[test]
fn ifs_default() {
    let vars = Variables::new();
    assert_eq!(vars.ifs(), " \t\n");
}
