use epsh::error::ExitStatus;
use epsh::eval::Shell;

#[test]
fn run_echo() {
    let mut shell = Shell::new();
    let status = shell.run_script("echo hello");
    assert_eq!(status, 0);
}

#[test]
fn run_true_false() {
    let mut shell = Shell::new();
    assert_eq!(shell.run_script("true"), 0);
    assert_eq!(shell.run_script("false"), 1);
}

#[test]
fn run_variable_assignment() {
    let mut shell = Shell::new();
    shell.run_script("FOO=bar");
    assert_eq!(shell.get_var("FOO"), Some("bar"));
}

#[test]
fn run_variable_expansion() {
    let mut shell = Shell::new();
    shell.run_script("X=hello");
    assert_eq!(shell.get_var("X"), Some("hello"));
}

#[test]
fn run_and_list() {
    let mut shell = Shell::new();
    assert_eq!(shell.run_script("true && true"), 0);
    assert_eq!(shell.run_script("false && true"), 1);
    assert_eq!(shell.run_script("true && false"), 1);
}

#[test]
fn run_or_list() {
    let mut shell = Shell::new();
    assert_eq!(shell.run_script("false || true"), 0);
    assert_eq!(shell.run_script("true || false"), 0);
    assert_eq!(shell.run_script("false || false"), 1);
}

#[test]
fn run_if_true() {
    let mut shell = Shell::new();
    shell.run_script("if true; then X=yes; else X=no; fi");
    assert_eq!(shell.get_var("X"), Some("yes"));
}

#[test]
fn run_if_false() {
    let mut shell = Shell::new();
    shell.run_script("if false; then X=yes; else X=no; fi");
    assert_eq!(shell.get_var("X"), Some("no"));
}

#[test]
fn run_for_loop() {
    let mut shell = Shell::new();
    shell.run_script("RESULT=''; for x in a b c; do RESULT=\"${RESULT}${x}\"; done");
    assert_eq!(shell.get_var("RESULT"), Some("abc"));
}

#[test]
fn run_while_loop() {
    let mut shell = Shell::new();
    // Use a counter that doesn't need arithmetic expansion
    shell.run_script("I=x; while test $I != xxx; do I=${I}x; done");
    assert_eq!(shell.get_var("I"), Some("xxx"));
}

#[test]
fn run_function() {
    let mut shell = Shell::new();
    shell.run_script("greet() { RESULT=$1; }; greet world");
    assert_eq!(shell.get_var("RESULT"), Some("world"));
}

#[test]
fn run_case() {
    let mut shell = Shell::new();
    shell.run_script("X=b; case $X in a) R=first;; b) R=second;; esac");
    assert_eq!(shell.get_var("R"), Some("second"));
}

#[test]
fn run_negation() {
    let mut shell = Shell::new();
    assert_eq!(shell.run_script("! true"), 1);
    assert_eq!(shell.run_script("! false"), 0);
}

#[test]
fn run_exit_status() {
    let mut shell = Shell::new();
    shell.run_script("false");
    assert_eq!(shell.exit_status, ExitStatus::FAILURE());
    shell.run_script("true");
    assert_eq!(shell.exit_status, ExitStatus::SUCCESS());
}

#[test]
fn run_set_errexit() {
    let mut shell = Shell::new();
    // set -e should cause exit on first failure
    // The script sets X=before, then false fails, so X=after never runs
    let status = shell.run_script("set -e; X=before; false; X=after");
    assert_eq!(status, 1);
    assert_eq!(shell.get_var("X"), Some("before"));
}

#[test]
fn run_test_builtin() {
    let mut shell = Shell::new();
    assert_eq!(shell.run_script("test -z ''"), 0);
    assert_eq!(shell.run_script("test -z 'notempty'"), 1);
    assert_eq!(shell.run_script("test -n 'notempty'"), 0);
    assert_eq!(shell.run_script("[ 1 -eq 1 ]"), 0);
    assert_eq!(shell.run_script("[ 1 -eq 2 ]"), 1);
}

#[test]
fn run_arithmetic_expansion() {
    let mut shell = Shell::new();
    shell.run_script("X=$((2 + 3 * 4))");
    assert_eq!(shell.get_var("X"), Some("14"));
}

#[test]
fn run_arithmetic_with_variables() {
    let mut shell = Shell::new();
    shell.run_script("A=10; B=3; C=$((A + B))");
    assert_eq!(shell.get_var("C"), Some("13"));
}

#[test]
fn run_arithmetic_assignment() {
    let mut shell = Shell::new();
    shell.run_script("I=0; I=$((I + 1)); I=$((I + 1)); I=$((I + 1))");
    assert_eq!(shell.get_var("I"), Some("3"));
}

#[test]
fn run_while_with_arithmetic() {
    let mut shell = Shell::new();
    shell.run_script("I=0; while test $I -lt 5; do I=$((I + 1)); done");
    assert_eq!(shell.get_var("I"), Some("5"));
}

#[test]
fn run_subshell() {
    let mut shell = Shell::new();
    // Subshell changes shouldn't affect parent
    shell.run_script("X=outer; (X=inner)");
    assert_eq!(shell.get_var("X"), Some("outer"));
}

#[test]
fn run_local_vars() {
    let mut shell = Shell::new();
    shell.run_script("X=global; f() { local X=local; }; f");
    assert_eq!(shell.get_var("X"), Some("global"));
}

#[test]
fn run_shift() {
    let mut shell = Shell::new();
    shell.set_args(&["test", "a", "b", "c"]);
    shell.run_script("shift; R=$1");
    assert_eq!(shell.get_var("R"), Some("b"));
}

#[test]
fn run_command_substitution() {
    let mut shell = Shell::new();
    shell.run_script("X=$(echo hello)");
    assert_eq!(shell.get_var("X"), Some("hello"));
}

#[test]
fn run_command_substitution_backtick() {
    let mut shell = Shell::new();
    shell.run_script("X=`echo world`");
    assert_eq!(shell.get_var("X"), Some("world"));
}

#[test]
fn run_nested_command_substitution() {
    let mut shell = Shell::new();
    shell.run_script("X=$(echo $(echo nested))");
    assert_eq!(shell.get_var("X"), Some("nested"));
}

#[test]
fn run_command_substitution_in_args() {
    let mut shell = Shell::new();
    // echo receives the output of the subcommand
    let status = shell.run_script("R=$(echo hello world); true");
    assert_eq!(status, 0);
    assert_eq!(shell.get_var("R"), Some("hello world"));
}

#[test]
fn run_test_compound() {
    let mut shell = Shell::new();
    assert_eq!(shell.run_script("[ 1 -eq 1 -a 2 -eq 2 ]"), 0);
    assert_eq!(shell.run_script("[ 1 -eq 1 -a 2 -eq 3 ]"), 1);
    assert_eq!(shell.run_script("[ 1 -eq 2 -o 2 -eq 2 ]"), 0);
    assert_eq!(shell.run_script("[ 1 -eq 2 -o 2 -eq 3 ]"), 1);
}

#[test]
fn run_trap() {
    let mut shell = Shell::new();
    shell.run_script("trap 'echo caught' INT");
    assert!(shell.traps.contains_key("INT"));
}
