use epsh::error::ExitStatus;
use epsh::eval::Shell;
use epsh::glob::{glob, matching_entries};
use epsh::host::{FileKind, FileStat, Host, NullHost};
use epsh::shell_bytes::ShellBytes;
use epsh::signals::{name_to_signal, signal_text, SignalName};
use epsh::test_cmd::{file_compare_result, file_test_result};
use epsh::text::str_eq;

fn run(script: &str) -> (String, i32, i32) {
    let mut sh = Shell::new();
    let code = sh.run_script(script);
    let status = sh.exit_status.code();
    (String::from_utf8_lossy(&sh.take_stdout()).into_owned(), code, status)
}

fn file(kind: FileKind, mode: u32, uid: u32, size: u64) -> Option<FileStat> {
    Some(FileStat { kind, mode, uid, size, mtime_ns: 0, dev: 1, ino: 2 })
}

fn strings(v: &[&str]) -> Vec<String> {
    v.iter().map(|s| s.to_string()).collect()
}

#[test]
fn status_codes_stay_in_range() {
    assert_eq!(ExitStatus::from(300).code(), 44);
    assert_eq!(ExitStatus::from(256).code(), 0);
    assert_eq!(ExitStatus::from(-1).code(), 255);
    assert_eq!(ExitStatus::from(7).code(), 7);
    assert_eq!(ExitStatus::SUCCESS().code(), 0);
    assert_eq!(ExitStatus::FAILURE().code(), 1);
    assert_eq!(ExitStatus::MISUSE().code(), 2);
    assert_eq!(ExitStatus::NOT_EXECUTABLE().code(), 126);
    assert_eq!(ExitStatus::NOT_FOUND().code(), 127);
    assert_eq!(ExitStatus::from_signal(2).code(), 130);
}

#[test]
fn exit_status_wraps_like_a_process() {
    assert_eq!(run("exit 300").1, 44);
    assert_eq!(run("exit -1").1, 255);
}

#[test]
fn run_script_result_is_final_status() {
    let (_, code, status) = run("false");
    assert_eq!((code, status), (1, 1));
    let (_, code, status) = run("exit 3");
    assert_eq!((code, status), (3, 3));
    let (_, code, status) = run("if; then; fi; (((");
    assert_eq!((code, status), (2, 2));
}

#[test]
fn pipefail_gives_highest_status() {
    assert_eq!(run("set -o pipefail; (exit 5) | (exit 3) | true").1, 5);
    assert_eq!(run("set -o pipefail; (exit 3) | (exit 5) | true").1, 5);
    assert_eq!(run("(exit 5) | (exit 3) | true").1, 0);
    assert_eq!(run("set -o pipefail; true | true").1, 0);
}

#[test]
fn parameter_trims() {
    assert_eq!(run("x=file.tar.gz; echo ${x%.*} ${x%%.*} ${x#*.} ${x##*.}").0, "file.tar file tar.gz gz\n");
    assert_eq!(run("unset y; echo ${y-dflt} ${y:=set} $y").0, "dflt set set\n");
}

#[test]
fn file_tests_by_status() {
    let op = |s: &str| s.to_string();
    let dir = file(FileKind::Directory, 0o755, 0, 4096);
    let reg = file(FileKind::Regular, 0o644, 1000, 0);
    assert!(file_test_result(&op("-d"), &dir, 0));
    assert!(!file_test_result(&op("-d"), &reg, 0));
    assert!(file_test_result(&op("-f"), &reg, 0));
    assert!(file_test_result(&op("-e"), &reg, 0));
    assert!(!file_test_result(&op("-e"), &None, 0));
    assert!(!file_test_result(&op("-s"), &reg, 0));
    assert!(file_test_result(&op("-s"), &dir, 0));
    assert!(file_test_result(&op("-w"), &reg, 1000));
    assert!(!file_test_result(&op("-w"), &reg, 1));
    assert!(!file_test_result(&op("-u"), &reg, 0));
    assert!(file_test_result(&op("-u"), &file(FileKind::Regular, 0o4755, 0, 1), 0));
}

#[test]
fn glob_component_matches() {
    let entries = strings(&["b.txt", ".hidden.txt", "a.txt", "c.md"]);
    assert_eq!(matching_entries(&entries, "*.txt"), strings(&["b.txt", "a.txt"]));
    assert_eq!(matching_entries(&entries, ".*.txt"), strings(&[".hidden.txt"]));
    let mut host: Box<dyn Host> = Box::new(NullHost);
    assert_eq!(glob(&mut host, "//", "/"), strings(&["/"]));
    assert_eq!(glob(&mut host, "", "/"), Vec::<String>::new());
}

#[test]
fn signal_names() {
    assert_eq!(name_to_signal("SIGINT"), Some(SignalName::Int));
    assert_eq!(name_to_signal("INT"), Some(SignalName::Int));
    assert_eq!(name_to_signal("IOT"), Some(SignalName::Abrt));
    assert_eq!(name_to_signal("SIGIOT"), Some(SignalName::Abrt));
    assert_eq!(name_to_signal("BOGUS"), None);
    assert_eq!(signal_text(SignalName::Term), "TERM");
}

#[test]
fn lossy_text_replaces_invalid_bytes() {
    let b = ShellBytes::from_vec(vec![b'f', 0xff, b'o']);
    assert_eq!(b.to_string_lossy(), "f\u{FFFD}o");
    assert_eq!(ShellBytes::from_vec(b"ok".to_vec()).to_string_lossy(), "ok");
}

#[test]
fn string_equality() {
    assert!(str_eq("abc", "abc"));
    assert!(!str_eq("abc", "abd"));
    assert!(!str_eq("ab", "abc"));
}

#[test]
fn file_comparisons_by_status() {
    let op = |s: &str| s.to_string();
    let old = Some(FileStat { kind: FileKind::Regular, mode: 0o644, uid: 0, size: 1, mtime_ns: 10, dev: 1, ino: 5 });
    let new = Some(FileStat { kind: FileKind::Regular, mode: 0o644, uid: 0, size: 1, mtime_ns: 20, dev: 1, ino: 6 });
    assert!(file_compare_result(&op("-nt"), &new, &old));
    assert!(!file_compare_result(&op("-nt"), &old, &new));
    assert!(file_compare_result(&op("-ot"), &old, &new));
    assert!(file_compare_result(&op("-nt"), &old, &None));
    assert!(file_compare_result(&op("-ot"), &None, &old));
    assert!(file_compare_result(&op("-ef"), &old, &old));
    assert!(!file_compare_result(&op("-ef"), &old, &new));
}

#[test]
fn exported_names_distinct() {
    let mut vars = epsh::var::Variables::new();
    let _ = vars.set("A", "1");
    vars.export("A");
    vars.export("A");
    let _ = vars.set("B", "2");
    vars.export("B");
    let env = vars.exported_env();
    assert_eq!(env.len(), 2);
    assert_ne!(env[0].0, env[1].0);
}

#[test]
fn builder_environment() {
    let env = || {
        vec![
            (ShellBytes::from_vec(b"HOME".to_vec()), ShellBytes::from_vec(b"/home/u".to_vec())),
            (ShellBytes::from_vec(b"not-a-name".to_vec()), ShellBytes::from_vec(b"x".to_vec())),
        ]
    };
    let shell = Shell::builder().build_with_env(env());
    assert_eq!(shell.get_var("HOME"), Some("/home/u"));
    let shell = Shell::builder().env_clear().build_with_env(env());
    assert_eq!(shell.get_var("HOME"), None);
}

fn program_status(src: &str) -> i32 {
    let mut sh = Shell::new();
    let prog = epsh::parser::Parser::new(src).parse().unwrap();
    let r = sh.run_program(&prog).code();
    assert_eq!(r, sh.exit_status.code());
    r
}

#[test]
fn status_only_commands() {
    assert_eq!(program_status("false"), 1);
    assert_eq!(program_status("false; true"), 0);
    assert_eq!(program_status("true && false || true"), 0);
    assert_eq!(program_status("false && true"), 1);
    assert_eq!(program_status("! true"), 1);
    assert_eq!(program_status("if false; then true; else false; fi"), 1);
    assert_eq!(program_status("if true; then false; fi"), 1);
    assert_eq!(program_status("if false; then false; fi"), 0);
    assert_eq!(program_status("{ false; true; }"), 0);
    assert_eq!(program_status(":"), 0);
}

fn errexit_status(src: &str) -> i32 {
    let mut sh = Shell::new();
    sh.opts.errexit = true;
    let prog = epsh::parser::Parser::new(src).parse().unwrap();
    sh.run_program(&prog).code()
}

#[test]
fn errexit_on_status_only_commands() {
    assert_eq!(errexit_status("false; true"), 1);
    assert_eq!(errexit_status("false && true; true"), 0);
    assert_eq!(errexit_status("if false; then true; fi; true"), 0);
    assert_eq!(errexit_status("! true; true"), 0);
    assert_eq!(errexit_status("true; { false; true; }"), 1);
}

#[test]
fn status_only_pipelines_and_loops() {
    assert_eq!(program_status("false | true"), 0);
    assert_eq!(program_status("true | false"), 1);
    assert_eq!(program_status("set -o pipefail; false | true"), 1);
    assert_eq!(program_status("while false; do true; done"), 0);
    assert_eq!(program_status("until true; do false; done"), 0);
}
