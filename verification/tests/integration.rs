use std::collections::HashMap;

use epsh::eval::Shell;
use epsh::host::{ExternalOutcome, FileKind, FileStat, Host};
use epsh::signals::SignalName;

/// A small machine for the shell to run on: an in-memory file system with
/// `/dev/null` and `/tmp`, a few programs (`cat`, `tr`, `env`, `grep`,
/// `rm`, `sleep`), and the usual signal numbers.
struct TestHost {
    files: HashMap<String, Vec<u8>>,
    cancel: bool,
    clock: u64,
}

const SIGNALS: &[(SignalName, i32)] = &[
    (SignalName::Hup, 1), (SignalName::Int, 2), (SignalName::Quit, 3), (SignalName::Ill, 4),
    (SignalName::Trap, 5), (SignalName::Abrt, 6), (SignalName::Bus, 7), (SignalName::Fpe, 8),
    (SignalName::Kill, 9), (SignalName::Usr1, 10), (SignalName::Segv, 11), (SignalName::Usr2, 12),
    (SignalName::Pipe, 13), (SignalName::Alrm, 14), (SignalName::Term, 15), (SignalName::Chld, 17),
    (SignalName::Cont, 18), (SignalName::Stop, 19), (SignalName::Tstp, 20), (SignalName::Ttin, 21),
    (SignalName::Ttou, 22), (SignalName::Urg, 23), (SignalName::Sys, 31),
];

const PID: u32 = 4242;

impl TestHost {
    fn new() -> Self {
        TestHost { files: HashMap::new(), cancel: false, clock: 0 }
    }

    fn is_dir(&self, path: &str) -> bool {
        if path == "/" || path == "/tmp" || path == "/dev" {
            return true;
        }
        let prefix = format!("{}/", path.trim_end_matches('/'));
        self.files.keys().any(|k| k.starts_with(&prefix))
    }

    fn read(&self, path: &str) -> Option<Vec<u8>> {
        if path == "/dev/null" {
            return Some(Vec::new());
        }
        self.files.get(path).cloned()
    }
}

fn expand_set(set: &str) -> Vec<char> {
    let cs: Vec<char> = set.chars().collect();
    let mut out = Vec::new();
    let mut i = 0;
    while i < cs.len() {
        if i + 2 < cs.len() && cs[i + 1] == '-' {
            let (a, b) = (cs[i] as u32, cs[i + 2] as u32);
            for c in a..=b {
                if let Some(ch) = char::from_u32(c) {
                    out.push(ch);
                }
            }
            i += 3;
        } else {
            out.push(cs[i]);
            i += 1;
        }
    }
    out
}

impl Host for TestHost {
    fn cancel_requested(&mut self) -> bool {
        self.cancel
    }

    fn now_ms(&mut self) -> u64 {
        self.clock
    }

    fn run_external(
        &mut self,
        args: &Vec<String>,
        env: &Vec<(String, String)>,
        _cwd: &String,
        stdin: Option<Vec<u8>>,
    ) -> ExternalOutcome {
        let input = stdin.unwrap_or_default();
        let ok = |out: Vec<u8>| ExternalOutcome { status: Some(0), stdout: out, stderr: Vec::new() };
        match args[0].as_str() {
            "cat" => {
                if args.len() == 1 {
                    return ok(input);
                }
                let mut out = Vec::new();
                for f in &args[1..] {
                    match self.read(f) {
                        Some(d) => out.extend(d),
                        None => {
                            return ExternalOutcome {
                                status: Some(1),
                                stdout: out,
                                stderr: format!("cat: {f}: No such file or directory\n").into_bytes(),
                            }
                        }
                    }
                }
                ok(out)
            }
            "tr" => {
                let from = expand_set(&args[1]);
                let to = expand_set(&args[2]);
                let text = String::from_utf8_lossy(&input);
                let mapped: String = text
                    .chars()
                    .map(|c| match from.iter().position(|&f| f == c) {
                        Some(i) => *to.get(i).or(to.last()).unwrap_or(&c),
                        None => c,
                    })
                    .collect();
                ok(mapped.into_bytes())
            }
            "env" => {
                let mut out = String::new();
                for (k, v) in env {
                    out.push_str(&format!("{k}={v}\n"));
                }
                ok(out.into_bytes())
            }
            "grep" => {
                let pat = args[1].as_str();
                let text = String::from_utf8_lossy(&input);
                let mut out = String::new();
                let mut found = false;
                for line in text.lines() {
                    let hit = match pat.strip_prefix('^') {
                        Some(p) => line.starts_with(p),
                        None => line.contains(pat),
                    };
                    if hit {
                        found = true;
                        out.push_str(line);
                        out.push('\n');
                    }
                }
                ExternalOutcome { status: Some(if found { 0 } else { 1 }), stdout: out.into_bytes(), stderr: Vec::new() }
            }
            "rm" => {
                for f in &args[1..] {
                    if !f.starts_with('-') {
                        self.files.remove(f);
                    }
                }
                ok(Vec::new())
            }
            "sleep" => ok(Vec::new()),
            _ => ExternalOutcome { status: None, stdout: Vec::new(), stderr: Vec::new() },
        }
    }

    fn read_file(&mut self, path: &String) -> Option<Vec<u8>> {
        self.read(path)
    }

    fn write_file(&mut self, path: &String, data: &Vec<u8>, append: bool) -> bool {
        if path == "/dev/null" {
            return true;
        }
        let entry = self.files.entry(path.clone()).or_default();
        if !append {
            entry.clear();
        }
        entry.extend_from_slice(data);
        true
    }

    fn read_dir(&mut self, path: &String) -> Option<Vec<String>> {
        if !self.is_dir(path) {
            return None;
        }
        let prefix = format!("{}/", path.trim_end_matches('/'));
        let mut names: Vec<String> = Vec::new();
        if path == "/dev" {
            names.push("null".to_string());
        }
        for k in self.files.keys() {
            if let Some(rest) = k.strip_prefix(&prefix) {
                let first = rest.split('/').next().unwrap_or("").to_string();
                if !first.is_empty() && !names.contains(&first) {
                    names.push(first);
                }
            }
        }
        Some(names)
    }

    fn stat(&mut self, path: &String, _follow: bool) -> Option<FileStat> {
        let kind = if path == "/dev/null" {
            FileKind::CharDevice
        } else if self.is_dir(path) {
            FileKind::Directory
        } else if self.files.contains_key(path) {
            FileKind::Regular
        } else {
            return None;
        };
        let size = self.files.get(path).map(|d| d.len() as u64).unwrap_or(0);
        Some(FileStat { kind, mode: 0o755, uid: 1000, size, mtime_ns: 0, dev: 1, ino: 1 })
    }

    fn read_stdin(&mut self) -> Vec<u8> {
        Vec::new()
    }

    fn getuid(&mut self) -> u32 {
        1000
    }

    fn isatty(&mut self, _fd: i32) -> bool {
        false
    }

    fn pid(&mut self) -> u32 {
        PID
    }

    fn umask(&mut self, _new: Option<u32>) -> u32 {
        0o022
    }

    fn kill(&mut self, pid: i32, _sig: i32) -> bool {
        pid == PID as i32 || pid == PID as i32 + 1
    }

    fn signal_number(&mut self, sig: SignalName) -> Option<i32> {
        SIGNALS.iter().find(|(s, _)| *s == sig).map(|(_, v)| *v)
    }

    fn signal_name(&mut self, sig: i32) -> Option<SignalName> {
        SIGNALS.iter().find(|(_, v)| *v == sig).map(|(s, _)| *s)
    }

    fn canonicalize(&mut self, path: &String) -> Option<String> {
        if self.is_dir(path) || self.files.contains_key(path) || path == "/dev/null" {
            Some(path.clone())
        } else {
            None
        }
    }
}

/// Run a script in a fresh shell on a `TestHost`, with HOME set, and return
/// (stdout, stderr, exit code).
fn run(script: &str) -> (String, String, i32) {
    let mut shell = Shell::with_host(Box::new(TestHost::new()));
    shell.set_var("HOME", "/home/test").unwrap();
    shell.vars_mut().export("HOME");
    let code = shell.run_script(script);
    let out = shell.take_stdout();
    let err = shell.take_stderr();
    (
        String::from_utf8_lossy(&out).into_owned(),
        String::from_utf8_lossy(&err).into_owned(),
        code,
    )
}

fn assert_output(script: &str, expected_stdout: &str) {
    let (stdout, stderr, code) = run(script);
    assert_eq!(
        stdout, expected_stdout,
        "script: {script:?}\nstderr: {stderr}\nexit code: {code}"
    );
    assert_eq!(code, 0, "script: {script:?}\nstderr: {stderr}");
}

fn assert_status(script: &str, expected_code: i32) {
    let (_, _, code) = run(script);
    assert_eq!(code, expected_code, "script: {script:?}");
}

fn assert_stdout_status(script: &str, expected_stdout: &str, expected_code: i32) {
    let (stdout, stderr, code) = run(script);
    assert_eq!(
        stdout, expected_stdout,
        "script: {script:?}\nstderr: {stderr}"
    );
    assert_eq!(code, expected_code, "script: {script:?}\nstderr: {stderr}");
}

#[test]
fn echo_basic() {
    assert_output("echo hello world", "hello world\n");
}

#[test]
fn echo_no_newline() {
    assert_output("echo -n hello", "hello");
}

#[test]
fn echo_escape() {
    assert_output(r#"echo -e "hello\tworld""#, "hello\tworld\n");
}

#[test]
fn true_false() {
    assert_status("true", 0);
    assert_status("false", 1);
}

#[test]
fn colon() {
    assert_status(":", 0);
}

#[test]
fn exit_code() {
    assert_status("exit 42", 42);
}

#[test]
fn exit_preserves_status() {
    assert_status("false; exit", 1);
}

#[test]
fn test_builtin_eq() {
    assert_status("test 1 -eq 1", 0);
    assert_status("test 1 -eq 2", 1);
}

#[test]
fn test_bracket() {
    assert_status("[ -n hello ]", 0);
    assert_status("[ -z hello ]", 1);
    assert_status("[ -z '' ]", 0);
}

#[test]
fn export_and_subshell() {
    assert_output("X=hello; export X; echo $X", "hello\n");
}

#[test]
fn unset_variable() {
    assert_output("X=hello; unset X; echo ${X-unset}", "unset\n");
}

#[test]
fn readonly_prevents_set() {
    let (_, stderr, code) = run("readonly X=1; X=2");
    assert_ne!(code, 0);
    assert!(stderr.contains("readonly"), "stderr: {stderr}");
}

#[test]
fn local_in_function() {
    assert_output(
        "f() { local x=inner; echo $x; }; x=outer; f; echo $x",
        "inner\nouter\n",
    );
}

#[test]
fn set_positional() {
    assert_output("set -- a b c; echo $1 $2 $3", "a b c\n");
}

#[test]
fn shift_positional() {
    assert_output("set -- a b c; shift; echo $1 $2", "b c\n");
}

#[test]
fn read_builtin() {
    // read in a pipeline runs in a subshell, so variable doesn't persist
    // Use a heredoc or process substitution instead
    assert_output("read x <<EOF\nhello\nEOF\necho $x", "hello\n");
}

#[test]
fn eval_builtin() {
    assert_output("eval 'echo hello'", "hello\n");
}

#[test]
fn command_builtin() {
    assert_output("command echo hello", "hello\n");
}

#[test]
fn type_builtin() {
    let (stdout, _, code) = run("type echo");
    assert_eq!(code, 0);
    assert!(stdout.contains("builtin"), "stdout: {stdout}");
}

#[test]
fn trap_exit() {
    assert_output("trap 'echo bye' EXIT; echo hi", "hi\nbye\n");
}

#[test]
fn printf_basic() {
    assert_output("printf '%s %s\\n' hello world", "hello world\n");
}

#[test]
fn printf_format_d() {
    assert_output("printf '%d\\n' 42", "42\n");
}

#[test]
fn umask_display() {
    let (stdout, _, code) = run("umask");
    assert_eq!(code, 0);
    assert!(stdout.trim().len() == 4, "expected 4-digit octal: {stdout}");
}

#[test]
fn integration_getopts_basic() {
    assert_output(
        r#"set -- -a -b foo; while getopts ab opt; do echo $opt; done; echo $OPTIND"#,
        "a\nb\n3\n",
    );
    assert_output("set -- -a -b; while getopts ab opt; do echo $opt; done", "a\nb\n");
}

#[test]
fn break_loop() {
    assert_output("for x in a b c; do echo $x; break; done", "a\n");
}

#[test]
fn continue_loop() {
    assert_output(
        r#"for x in a b c; do
            if [ "$x" = b ]; then continue; fi
            echo $x
        done"#,
        "a\nc\n",
    );
}

#[test]
fn variable() {
    assert_output("x=hello; echo $x", "hello\n");
}

#[test]
fn default_value() {
    assert_output("echo ${x-default}", "default\n");
}

#[test]
fn default_colon() {
    assert_output("x=''; echo ${x:-default}", "default\n");
}

#[test]
fn assign_default() {
    assert_output("echo ${x=assigned}; echo $x", "assigned\nassigned\n");
}

#[test]
fn alternative_value() {
    assert_output("x=set; echo ${x+alt}", "alt\n");
    assert_output("echo ${x+alt}", "\n");
}

#[test]
fn string_length() {
    assert_output("x=hello; echo ${#x}", "5\n");
}

#[test]
fn trim_suffix() {
    assert_output("x=hello.txt; echo ${x%.txt}", "hello\n");
    assert_output("x=a.b.c; echo ${x%%.*}", "a\n");
}

#[test]
fn trim_prefix() {
    assert_output("x=/usr/local/bin; echo ${x#*/}", "usr/local/bin\n");
    assert_output("x=/usr/local/bin; echo ${x##*/}", "bin\n");
}

#[test]
fn integration_command_substitution() {
    assert_output("echo $(echo hello)", "hello\n");
}

#[test]
fn backtick_substitution() {
    assert_output("echo `echo hello`", "hello\n");
}

#[test]
fn integration_arithmetic() {
    assert_output("echo $((2 + 3))", "5\n");
    assert_output("echo $((10 / 3))", "3\n");
    assert_output("echo $((2 * 3 + 1))", "7\n");
}

#[test]
fn tilde_expansion() {
    let (stdout, _, _) = run("echo ~");
    assert!(stdout.starts_with('/'), "expected absolute path: {stdout}");
}

#[test]
fn special_params() {
    assert_output("echo $?", "0\n");
    assert_output("set -- a b c; echo $#", "3\n");
    assert_output("set -- a b c; echo $@", "a b c\n");
}

#[test]
fn double_quote_preserves_spaces() {
    assert_output(r#"x="a  b"; echo "$x""#, "a  b\n");
}

#[test]
fn single_quote_no_expansion() {
    assert_output("x=hello; echo '$x'", "$x\n");
}

#[test]
fn ifs_splitting() {
    assert_output("x='a:b:c'; IFS=:; echo $x", "a b c\n");
}

#[test]
fn glob_expansion() {
    assert_output("echo /dev/nul?", "/dev/null\n");
}

#[test]
fn error_message() {
    let (_, stderr, code) = run(r#"echo ${x?missing}"#);
    assert_ne!(code, 0);
    assert!(stderr.contains("missing"), "stderr: {stderr}");
}

#[test]
fn nested_comsub() {
    assert_output("echo $(echo $(echo deep))", "deep\n");
}

#[test]
fn integration_comsub_in_default() {
    assert_output("echo ${x:-$(echo hello)}", "hello\n");
    assert_output("echo ${x:-$(echo /bin)}", "/bin\n");
}

#[test]
fn if_then_else() {
    assert_output("if true; then echo yes; else echo no; fi", "yes\n");
    assert_output("if false; then echo yes; else echo no; fi", "no\n");
}

#[test]
fn elif() {
    assert_output(
        "if false; then echo 1; elif true; then echo 2; else echo 3; fi",
        "2\n",
    );
}

#[test]
fn integration_while_loop() {
    assert_output(
        "x=3; while [ $x -gt 0 ]; do echo $x; x=$((x-1)); done",
        "3\n2\n1\n",
    );
}

#[test]
fn integration_until_loop() {
    assert_output(
        "x=0; until [ $x -eq 3 ]; do echo $x; x=$((x+1)); done",
        "0\n1\n2\n",
    );
}

#[test]
fn for_loop() {
    assert_output("for x in a b c; do echo $x; done", "a\nb\nc\n");
}

#[test]
fn for_positional() {
    assert_output("set -- x y z; for i; do echo $i; done", "x\ny\nz\n");
}

#[test]
fn integration_case_statement() {
    assert_output(
        r#"case hello in
            hi) echo 1 ;;
            hello) echo 2 ;;
            *) echo 3 ;;
        esac"#,
        "2\n",
    );
}

#[test]
fn case_pattern_or() {
    assert_output(
        r#"case foo in
            foo|bar) echo matched ;;
            *) echo nope ;;
        esac"#,
        "matched\n",
    );
}

#[test]
fn pipeline_bang() {
    assert_status("! false", 0);
    assert_status("! true", 1);
}

#[test]
fn and_list() {
    assert_output("true && echo yes", "yes\n");
    // false && echo yes → exit 1 (from false), no output
    assert_stdout_status("false && echo yes", "", 1);
}

#[test]
fn or_list() {
    assert_output("false || echo fallback", "fallback\n");
    assert_output("true || echo fallback", "");
}

#[test]
fn integration_subshell() {
    assert_output("(echo hello)", "hello\n");
    assert_output("x=outer; (x=inner; echo $x); echo $x", "inner\nouter\n");
}

#[test]
fn integration_brace_group() {
    assert_output("{ echo hello; }", "hello\n");
}

#[test]
fn integration_function_def() {
    assert_output("greet() { echo hello $1; }; greet world", "hello world\n");
}

#[test]
fn function_return() {
    assert_output(
        "f() { echo before; return 0; echo after; }; f",
        "before\n",
    );
}

#[test]
fn integration_background() {
    // Just verify it doesn't hang; background processes run asynchronously
    assert_status("echo bg &", 0);
}

#[test]
fn integration_sequence() {
    assert_output("echo a; echo b; echo c", "a\nb\nc\n");
}

#[test]
fn errexit() {
    assert_status("set -e; true; false; echo should-not-reach", 1);
}

#[test]
fn errexit_in_condition() {
    // errexit should NOT trigger inside if condition
    assert_output(
        "set -e; if false; then echo yes; else echo no; fi; echo reached",
        "no\nreached\n",
    );
}

#[test]
fn errexit_and_or() {
    // errexit suppressed in left side of && and ||
    assert_output("set -e; false || echo ok; echo reached", "ok\nreached\n");
}

#[test]
fn output_redirect() {
    let (stdout, _, _) = run("echo hello > /dev/null; echo $?");
    assert_eq!(stdout, "0\n");
}

#[test]
fn fd_dup() {
    assert_output("echo hello 1>&2 2>/dev/null", "");
}

#[test]
fn simple_assignment() {
    assert_output("x=hello; echo $x", "hello\n");
}

#[test]
fn multi_assignment() {
    assert_output("a=1 b=2; echo $a $b", "1 2\n");
}

#[test]
fn integration_assignment_with_command() {
    assert_output("x=hello echo $x", "\n"); // x is not set for expansion before echo runs
}

#[test]
fn empty_for_loop() {
    assert_output("set -- a b; for x in; do echo hi; echo $x; done", "");
}

#[test]
fn empty_for_loop_without_in() {
    assert_output(
        "set -- a b; for x do echo hi; echo $x; done",
        "hi\na\nhi\nb\n",
    );
}

#[test]
fn empty_case() {
    assert_output("case foo in esac", "");
}

#[test]
fn last_case_without_double_semi() {
    assert_output(
        "foo=a; case $foo in a) echo A ;; b) echo B\nesac",
        "A\n",
    );
}

#[test]
fn only_case_without_double_semi() {
    assert_output("foo=a; case $foo in a) echo A\nesac", "A\n");
}

#[test]
fn case_with_optional_paren() {
    assert_output(
        "foo=a; case $foo in (a) echo A ;; (b) echo B\nesac",
        "A\n",
    );
}

#[test]
fn empty_action_last_case() {
    assert_output(
        "foo=b; case $foo in a) echo A ;; b)\nesac",
        "",
    );
}

#[test]
fn case_with_pipe_pattern() {
    assert_output(
        "foo=a; case $foo in a|b) echo A ;; c)\nesac",
        "A\n",
    );
}

#[test]
fn bare_semicolon_syntax_error() {
    assert_status(";", 2);
}

#[test]
fn arithmetic_in_while() {
    assert_output(
        "x=3; while [ $x -gt 0 ]; do echo $x; x=$(($x-1)); done",
        "3\n2\n1\n",
    );
}

#[test]
fn basic_trace() {
    let (stdout, stderr, _) = run("set -x; echo hello");
    assert_eq!(stdout, "hello\n");
    assert!(stderr.contains("+ echo hello"), "stderr: {stderr}");
}

#[test]
fn trace_assignment() {
    let (_, stderr, _) = run("set -x; x=hello");
    assert!(stderr.contains("x=hello"), "stderr: {stderr}");
}

#[test]
fn trace_with_expansion() {
    let (stdout, stderr, _) = run("set -x; x=world; echo hello $x");
    assert_eq!(stdout, "hello world\n");
    assert!(stderr.contains("+ echo hello world"), "stderr: {stderr}");
}

#[test]
fn custom_ps4() {
    let (_, stderr, _) = run("PS4='>> '; set -x; echo hi");
    assert!(stderr.contains(">> echo hi"), "stderr: {stderr}");
}

#[test]
fn fatal_error_question_mark() {
    // Standalone ${a?msg} is fatal
    let (stdout, _, code) = run("echo ${a?bc}; echo blah");
    assert_eq!(stdout, "");
    assert_ne!(code, 0);
}

#[test]
fn readonly_var_is_fatal() {
    let (stdout, _, code) = run("readonly abc=123; abc=def; echo status=$?");
    assert_eq!(stdout, "");
    assert_ne!(code, 0);
}

#[test]
fn var_and_func_same_name() {
    assert_output(
        "potato() { echo hello; }; potato=42; echo $potato; potato",
        "42\nhello\n",
    );
}

#[test]
fn for_loop_newline_before_in() {
    assert_output(
        "for i\nin one two three\ndo echo $i\ndone",
        "one\ntwo\nthree\n",
    );
}

#[test]
fn comsub_case_in_subshell() {
    // Use (pattern) form — bare pattern) inside $() is ambiguous with closing )
    assert_output(
        "echo $(foo=a; case $foo in ([0-9]) echo number;; ([a-z]) echo letter;; esac)",
        "letter\n",
    );
}

#[test]
fn comsub_word_part() {
    assert_output(
        "foo=FOO; echo $(echo $foo)bar$(echo $foo)",
        "FOObarFOO\n",
    );
}

#[test]
fn backtick_word_part() {
    assert_output(
        "foo=FOO; echo `echo $foo`bar`echo $foo`",
        "FOObarFOO\n",
    );
}

#[test]
fn making_command_from_comsub() {
    assert_output("$(echo ec)$(echo ho) split builtin", "split builtin\n");
}

#[test]
fn comsub_exit_code() {
    assert_output(
        "echo $(echo x; exit 33); echo $?; x=$(echo x; exit 33); echo $?",
        "x\n0\n33\n",
    );
}

#[test]
fn empty_comsub() {
    // Empty $() vanishes in unquoted context — -$()- becomes --
    assert_output("echo -$()-  .$(). ", "-- ..\n");
}

#[test]
fn errexit_aborts_early() {
    assert_stdout_status("set -o errexit; false; echo done", "", 1);
}

#[test]
fn errexit_nonexistent_command() {
    assert_stdout_status("set -o errexit; nonexistent__ZZ; echo done", "", 127);
}

#[test]
fn errexit_brace_group() {
    assert_stdout_status(
        "set -o errexit; { echo one; false; echo two; }",
        "one\n",
        1,
    );
}

#[test]
fn errexit_if_suppressed() {
    assert_output(
        "set -o errexit\nif { echo one; false; echo two; }; then\n  echo three\nfi\necho four",
        "one\ntwo\nthree\nfour\n",
    );
}

#[test]
fn errexit_with_bang() {
    assert_output(
        "set -o errexit; echo one; ! true; echo two; ! false; echo three",
        "one\ntwo\nthree\n",
    );
}

#[test]
fn errexit_subshell() {
    assert_stdout_status(
        "set -o errexit; ( echo one; false; echo two; ); echo three",
        "one\n",
        1,
    );
}

#[test]
fn assignment_no_word_splitting() {
    assert_output(
        r#"words='one two'; a=$words; echo "$a""#,
        "one two\n",
    );
}

#[test]
fn assignment_no_glob() {
    assert_output(
        r#"a='*.nope'; b=$a; echo "$b""#,
        "*.nope\n",
    );
}

#[test]
fn empty_assignment() {
    assert_output(r#"EMPTY=; echo "[$EMPTY]""#, "[]\n");
}

#[test]
fn ifs_custom_delimiter() {
    assert_output(
        "IFS=x; X='onextwoxxthree'; y=$X; echo $y",
        "one two  three\n",
    );
}

#[test]
fn unset_var_errors() {
    let (_, stderr, code) = run("set -u; echo $NONEXISTENT");
    assert_ne!(code, 0);
    assert!(stderr.contains("parameter not set"), "stderr: {stderr}");
}

#[test]
fn set_var_ok() {
    assert_output("set -u; X=hello; echo $X", "hello\n");
}

#[test]
fn special_params_ok() {
    // $?, $$, $# should never trigger nounset
    let (stdout, _, code) = run("set -u; echo $?");
    assert_eq!(code, 0);
    assert_eq!(stdout, "0\n");
}

#[test]
fn default_op_bypasses() {
    assert_output("set -u; echo ${UNSET-fallback}", "fallback\n");
}

#[test]
fn assign_op_bypasses() {
    assert_output("set -u; echo ${UNSET=assigned}; echo $UNSET", "assigned\nassigned\n");
}

#[test]
fn alternative_op_bypasses() {
    assert_output("set -u; echo \"${UNSET+alt}\"", "\n");
}

#[test]
fn error_op_still_errors() {
    let (_, stderr, code) = run("set -u; echo ${UNSET?custom msg}");
    assert_ne!(code, 0);
    assert!(stderr.contains("custom msg"), "stderr: {stderr}");
}

#[test]
fn empty_var_not_unset() {
    // set -u should NOT error on empty-but-set variables
    assert_output("set -u; X=''; echo \"$X\"", "\n");
}

#[test]
fn length_of_unset_errors() {
    let (_, stderr, code) = run("set -u; echo ${#NONEXISTENT}");
    assert_ne!(code, 0);
    assert!(stderr.contains("parameter not set"), "stderr: {stderr}");
}

#[test]
fn kill_zero_tests_process() {
    // kill -0 tests if process exists without sending a signal
    assert_output("kill -0 $$; echo $?", "0\n");
}

#[test]
fn kill_invalid_pid() {
    let (_, stderr, code) = run("kill -0 999999999");
    assert_ne!(code, 0);
    assert!(stderr.contains("999999999"), "stderr: {stderr}");
}

#[test]
fn kill_list_signals() {
    let (stdout, _, code) = run("kill -l");
    assert_eq!(code, 0);
    assert!(stdout.contains("SIGTERM"), "stdout: {stdout}");
    assert!(stdout.contains("SIGINT"), "stdout: {stdout}");
}

#[test]
fn kill_list_exit_status() {
    // 130 = 128 + 2 (SIGINT)
    assert_output("kill -l 130", "INT\n");
}

#[test]
fn kill_is_builtin() {
    assert_output("command -v kill", "kill\n");
}

#[test]
fn exec_dup_fd() {
    assert_output("exec 3>&1; echo dup_works >&3", "dup_works\n");
}

#[test]
fn read_normal_line() {
    assert_output("echo hello | { read x; echo $x; }", "hello\n");
}

#[test]
fn read_eof_no_data() {
    assert_stdout_status("printf '' | { read x; echo \"x=$x\"; }", "x=\n", 0);
}

#[test]
fn read_eof_partial_data() {
    // read should assign the partial data but return 1
    let (stdout, _, _) = run("printf partial | { read x; echo \"x=$x status=$?\"; }");
    assert_eq!(stdout, "x=partial status=1\n");
}

#[test]
fn read_while_loop_eof() {
    // while read should process all complete lines, stop at EOF
    let (stdout, _, code) = run(
        "printf 'a\\nb\\n' | { n=0; while read line; do n=$((n+1)); done; echo $n; }"
    );
    assert_eq!(code, 0);
    assert_eq!(stdout, "2\n");
}

#[test]
fn read_while_loop_partial_last_line() {
    // The partial last line is available after the loop
    let (stdout, _, _) = run(
        "printf 'a\\nb\\npartial' | { while read line; do echo $line; done; echo \"last=$line\"; }"
    );
    assert_eq!(stdout, "a\nb\nlast=partial\n");
}

#[test]
fn read_multiple_vars() {
    assert_output(
        "echo 'one two three four' | { read a b c; echo \"a=$a b=$b c=$c\"; }",
        "a=one b=two c=three four\n"
    );
}

#[test]
fn printf_loops_format_over_remaining_args() {
    assert_output("printf '%s\n' a b c", "a\nb\nc\n");
}

#[test]
fn printf_loops_two_arg_format() {
    assert_output("printf '%s=%s\n' x 1 y 2", "x=1\ny=2\n");
}

#[test]
fn printf_partial_final_iteration() {
    // Last iteration has fewer args than format specs; missing args default to empty
    assert_output("printf '%s,%s\n' a b c", "a,b\nc,\n");
}

#[test]
fn printf_no_args_runs_format_once() {
    assert_output("printf 'hello\n'", "hello\n");
}

#[test]
fn getopts_with_arg() {
    assert_output(
        "set -- -f file; while getopts f: opt; do echo \"$opt=$OPTARG\"; done",
        "f=file\n",
    );
}

#[test]
fn set_dash_clears_xe() {
    // set - should turn off -x and -e per POSIX
    // With xtrace on, "echo hello" would produce "+ echo hello\n" on stderr
    let (stdout, stderr, code) = run("set -x; set -; echo hello");
    assert_eq!(stdout, "hello\n");
    assert!(!stderr.contains("+ echo"), "xtrace should be off after 'set -', got stderr: {stderr}");
    assert_eq!(code, 0);
}

#[test]
fn set_dashdash_stops_flag_processing() {
    assert_output(
        "set -- -a -b -c; echo $1 $2 $3",
        "-a -b -c\n",
    );
}

#[test]
fn readonly_assignment_errors() {
    let (_, stderr, code) = run("readonly X=1; X=2");
    assert!(stderr.contains("readonly"), "stderr: {stderr}");
    assert_ne!(code, 0);
}

#[test]
fn cd_and_pwd() {
    let (stdout, _, code) = run("cd /tmp && pwd");
    assert_eq!(code, 0);
    // macOS: /tmp is a symlink to /private/tmp
    assert!(
        stdout.trim() == "/tmp" || stdout.trim() == "/private/tmp",
        "unexpected pwd: {stdout}"
    );
}


#[test]
fn integration_pipeline() {
    assert_output("echo hello | cat", "hello\n");
    assert_output("echo abc | tr a-z A-Z", "ABC\n");
}


#[test]
fn input_redirect() {
    assert_output("cat < /dev/null", "");
}


#[test]
fn append_redirect() {
    assert_output(
        "f=/tmp/epsh-test-$$; echo a > $f; echo b >> $f; cat $f; rm $f",
        "a\nb\n",
    );
}


#[test]
fn heredoc() {
    assert_output(
        "cat <<EOF\nhello world\nEOF",
        "hello world\n",
    );
}


#[test]
fn heredoc_expansion() {
    assert_output(
        "x=world; cat <<EOF\nhello $x\nEOF",
        "hello world\n",
    );
}


#[test]
fn heredoc_quoted_no_expansion() {
    assert_output(
        "x=world; cat <<'EOF'\nhello $x\nEOF",
        "hello $x\n",
    );
}


#[test]
fn heredoc_strip_tabs() {
    assert_output(
        "cat <<-EOF\n\thello\n\tworld\nEOF",
        "hello\nworld\n",
    );
}


#[test]
fn multiple_heredocs() {
    assert_output(
        "cat <<EOF1; cat <<EOF2\none\nEOF1\ntwo\nEOF2",
        "one\ntwo\n",
    );
}


#[test]
fn command_prefix_assignment() {
    // Assignment as prefix exports to that command's environment
    assert_output("x=before; x=during env | grep '^x='; echo $x", "x=during\nbefore\n");
}


#[test]
fn multiple_heredocs_on_one_line() {
    assert_output(
        "cat <<EOF1; cat <<EOF2\none\nEOF1\ntwo\nEOF2",
        "one\ntwo\n",
    );
}


#[test]
fn heredoc_echo_heredoc() {
    assert_output(
        "cat <<EOF1; echo two; cat <<EOF2\none\nEOF1\nthree\nEOF2",
        "one\ntwo\nthree\n",
    );
}


#[test]
fn pipeline_brace_group() {
    assert_output(
        "echo hello | { read i; echo $i; } | { read i; echo $i; } | cat",
        "hello\n",
    );
}


#[test]
fn kill_sends_signal() {
    // Start a background sleep and kill it
    assert_output("sleep 10 & kill $!; wait; echo done", "done\n");
}


#[test]
fn kill_named_signal() {
    assert_output("sleep 10 & kill -s TERM $!; wait; echo done", "done\n");
}


#[test]
fn heredoc_in_function() {
    assert_output("f() { cat <<EOF\nhello\nEOF\n}; f", "hello\n");
}


#[test]
fn heredoc_with_expansion_in_function() {
    assert_output(
        "f() { x=world; cat <<EOF\nhello $x\nEOF\n}; f",
        "hello world\n",
    );
}


#[test]
fn multiple_heredocs_in_function() {
    assert_output(
        "f() { cat <<EOF\nfirst\nEOF\ncat <<EOF\nsecond\nEOF\n}; f",
        "first\nsecond\n",
    );
}


#[test]
fn heredoc_in_nested_function() {
    assert_output(
        "f() { g() { cat <<EOF\nnested\nEOF\n}; g; }; f",
        "nested\n",
    );
}


#[test]
fn heredoc_in_for_loop() {
    assert_output(
        "for i in a b; do cat <<EOF\n$i\nEOF\ndone",
        "a\nb\n",
    );
}


#[test]
fn heredoc_in_if() {
    assert_output("if true; then cat <<EOF\nyes\nEOF\nfi", "yes\n");
}


#[test]
fn heredoc_in_while() {
    assert_output(
        "x=1; while [ \"$x\" = 1 ]; do cat <<EOF\nloop\nEOF\nx=0; done",
        "loop\n",
    );
}


#[test]
fn heredoc_in_case() {
    assert_output(
        "case x in x) cat <<EOF\nmatched\nEOF\n;; esac",
        "matched\n",
    );
}


#[test]
fn function_called_twice_with_heredoc() {
    assert_output("f() { cat <<EOF\nhi\nEOF\n}; f; f", "hi\nhi\n");
}


#[test]
fn return_exits_dot_script() {
    let (stdout, _, code) = run(
        "echo 'echo before; return 0; echo after' > /tmp/epsh_dot_ret_$$.sh; . /tmp/epsh_dot_ret_$$.sh; echo continued; rm -f /tmp/epsh_dot_ret_$$.sh"
    );
    assert_eq!(stdout, "before\ncontinued\n");
    assert_eq!(code, 0);
}


#[test]
fn return_with_status_from_dot_script() {
    let (stdout, _, code) = run(
        "echo 'return 42' > /tmp/epsh_dot_ret2_$$.sh; . /tmp/epsh_dot_ret2_$$.sh; echo \"rc=$?\"; rm -f /tmp/epsh_dot_ret2_$$.sh"
    );
    assert_eq!(stdout, "rc=42\n");
    assert_eq!(code, 0);
}


#[test]
fn three_digit_fd_redirect() {
    // Use fd 100 — redirect output, then write to it
    assert_output(
        "exec 100>/tmp/epsh_fd100_$$.txt; echo hello >&100; exec 100>&-; cat /tmp/epsh_fd100_$$.txt; rm -f /tmp/epsh_fd100_$$.txt",
        "hello\n",
    );
}


#[test]
fn two_digit_fd_redirect() {
    assert_output(
        "exec 10>/tmp/epsh_fd10_$$.txt; echo hi >&10; exec 10>&-; cat /tmp/epsh_fd10_$$.txt; rm -f /tmp/epsh_fd10_$$.txt",
        "hi\n",
    );
}

fn host_shell() -> Shell {
    Shell::with_host(Box::new(TestHost::new()))
}

#[test]
fn run_pipeline_external() {
    let mut shell = host_shell();
    let status = shell.run_script("echo hello | cat");
    assert_eq!(status, 0);
}

#[test]
fn run_heredoc() {
    let mut shell = host_shell();
    shell.run_script("R=$(cat <<EOF\nhello world\nEOF\n)");
    assert_eq!(shell.get_var("R"), Some("hello world"));
}

#[test]
fn run_test_file_ops() {
    let mut shell = host_shell();
    assert_eq!(shell.run_script("test -d /tmp"), 0);
    assert_eq!(shell.run_script("test -f /tmp"), 1);
    assert_eq!(shell.run_script("test -e /nonexistent"), 1);
}

fn watched_shell(cancel: bool, clock: u64) -> Shell {
    let mut host = TestHost::new();
    host.cancel = cancel;
    host.clock = clock;
    Shell::builder().external_handler(Box::new(host)).cancel_flag().build()
}

#[test]
fn cancelled_run_does_nothing() {
    let mut shell = watched_shell(true, 0);
    let code = shell.run_script("echo should-not-appear; X=1");
    assert_eq!(code, 130);
    assert!(shell.take_stdout().is_empty());
    assert_eq!(shell.get_var("X"), None);
}

#[test]
fn uncancelled_run_goes_on() {
    let mut shell = watched_shell(false, 0);
    assert_eq!(shell.run_script("echo hi"), 0);
    assert_eq!(shell.take_stdout(), b"hi\n".to_vec());
}

#[test]
fn deadline_stops_evaluation() {
    let mut host = TestHost::new();
    host.clock = 1000;
    let mut shell = Shell::builder().external_handler(Box::new(host)).timeout(0).build();
    assert_eq!(shell.run_script("echo late"), 130);
    assert!(shell.take_stdout().is_empty());
    let mut host = TestHost::new();
    host.clock = 1000;
    let mut shell = Shell::builder().external_handler(Box::new(host)).timeout(50).build();
    assert_eq!(shell.run_script("echo early"), 0);
}

#[test]
fn check_cancel_decides() {
    let mut shell = Shell::new();
    assert!(shell.check_cancel(false, 5).is_ok());
    assert!(matches!(shell.check_cancel(true, 5), Err(epsh::error::ShellError::Cancelled)));
    shell.deadline_ms = Some(10);
    assert!(shell.check_cancel(false, 9).is_ok());
    assert!(matches!(shell.check_cancel(false, 10), Err(epsh::error::ShellError::TimedOut)));
    assert!(matches!(shell.check_cancel(true, 10), Err(epsh::error::ShellError::Cancelled)));
}
