use epsh::arith::{eval_arith, tokenize, ArithToken};
use epsh::ast::{ParamExpr, ParamOp, Word, WordPart};
use epsh::lexer::Token;
use epsh::builtins::{format_printf, is_builtin, pad, parse_octal, radix_digits, to_upper, unescape_echo};
use epsh::encoding::{bytes_to_str, str_to_bytes};
use epsh::error::ExitStatus;
use epsh::eval::Shell;
use epsh::expand::{escape_all, remove_escapes};
use epsh::glob::fnmatch;
use epsh::host::{Host, NullHost};
use epsh::shell_bytes::ShellBytes;
use epsh::test_cmd::test_eval;
use epsh::var::Variables;

fn arith(expr: &str) -> Result<i64, String> {
    let mut vars = Variables::new();
    eval_arith(expr, &mut vars, ExitStatus::SUCCESS(), 1)
}

fn strings(v: &[&str]) -> Vec<String> {
    v.iter().map(|s| s.to_string()).collect()
}

fn printf(v: &[&str]) -> String {
    let mut args = vec!["printf".to_string()];
    args.extend(strings(v));
    format_printf(&args)
}

fn test(v: &[&str]) -> i32 {
    let mut host: Box<dyn Host> = Box::new(NullHost);
    test_eval(&strings(v), &mut host, "/").code()
}

#[test]
fn arith_wraps_on_overflow() {
    assert_eq!(arith("9223372036854775807 + 1"), Ok(i64::MIN));
    assert_eq!(arith("-9223372036854775807 - 2"), Ok(i64::MAX));
    assert_eq!(arith("4611686018427387904 * 4"), Ok(0));
}

#[test]
fn arith_division_truncates_toward_zero() {
    assert_eq!(arith("-7 / 2"), Ok(-3));
    assert_eq!(arith("-7 % 2"), Ok(-1));
    assert_eq!(arith("7 % -2"), Ok(1));
    assert_eq!(arith("(-9223372036854775807 - 1) / -1"), Ok(i64::MIN));
    assert_eq!(arith("(-9223372036854775807 - 1) % -1"), Ok(0));
}

#[test]
fn arith_errors() {
    assert!(arith("1 / 0").is_err());
    assert!(arith("1 % 0").is_err());
    assert!(arith("0x").is_err());
    assert!(arith("99999999999999999999").is_err());
    assert!(arith("1 @ 2").is_err());
    assert!(arith("(1 + 2").is_err());
    assert!(arith("1 2").is_err());
}

#[test]
fn arith_shift_uses_low_six_bits() {
    assert_eq!(arith("1 << 65"), Ok(2));
    assert_eq!(arith("-16 >> 2"), Ok(-4));
}

#[test]
fn arith_number_forms() {
    assert_eq!(arith("0x1F + 0X10"), Ok(47));
    assert_eq!(arith("017"), Ok(15));
    assert_eq!(arith("08"), Ok(8));
    assert_eq!(arith("~0"), Ok(-1));
    assert_eq!(arith("!5"), Ok(0));
}

#[test]
fn arith_assignment_and_readonly() {
    let mut vars = Variables::new();
    assert_eq!(eval_arith("x = 5, 0", &mut vars, ExitStatus::SUCCESS(), 1).is_err(), true);
    assert_eq!(eval_arith("x = 5", &mut vars, ExitStatus::SUCCESS(), 1), Ok(5));
    assert_eq!(vars.get("x"), Some("5"));
    assert_eq!(eval_arith("x += 2", &mut vars, ExitStatus::SUCCESS(), 1), Ok(7));
    assert_eq!(vars.get("x"), Some("7"));
    vars.set_readonly("x");
    assert_eq!(eval_arith("x = 9", &mut vars, ExitStatus::SUCCESS(), 1), Ok(9));
    assert_eq!(vars.get("x"), Some("7"));
    assert_eq!(eval_arith("x + 1", &mut vars, ExitStatus::SUCCESS(), 1), Ok(8));
}

#[test]
fn arith_ternary_evaluates_both_branches() {
    let mut vars = Variables::new();
    assert_eq!(eval_arith("1 ? (y = 1) : (y = 2)", &mut vars, ExitStatus::SUCCESS(), 1), Ok(1));
    assert_eq!(vars.get("y"), Some("2"));
}

#[test]
fn arith_unset_and_non_numeric_read_as_zero() {
    let mut vars = Variables::new();
    vars.set("s", "hello").unwrap();
    assert_eq!(eval_arith("s + unset_name + 3", &mut vars, ExitStatus::SUCCESS(), 1), Ok(3));
}

#[test]
fn tokenize_forms() {
    let t = tokenize("a<<=0x10").unwrap();
    assert_eq!(t.len(), 3);
    assert!(matches!(&t[0], ArithToken::Var(s) if s == "a"));
    assert!(matches!(t[1], ArithToken::ShlAssign));
    assert!(matches!(t[2], ArithToken::Num(16)));
    assert!(tokenize("a $ b").is_err());
}

#[test]
fn printf_conversions() {
    assert_eq!(printf(&["%s-%d|%5s|%-5s|%05d", "a", "42", "x", "y", "7"]), "a-42|    x|y    |00007");
    assert_eq!(printf(&["%x %X %o", "255", "255", "8"]), "ff FF 10");
    assert_eq!(printf(&["%x", "-1"]), "ffffffffffffffff");
    assert_eq!(printf(&["%.2s%c%%", "hello", "xyz"]), "hex%");
    assert_eq!(printf(&["%b", "a\\tb"]), "a\tb");
    assert_eq!(printf(&["%q"]), "%q");
    assert_eq!(printf(&["\\0101\\n\\x"]), "A\n\\x");
}

#[test]
fn printf_reuses_format() {
    assert_eq!(printf(&["%s,", "a", "b", "c"]), "a,b,c,");
    assert_eq!(printf(&["%s %s|", "a", "b", "c"]), "a b|c |");
    assert_eq!(printf(&["plain"]), "plain");
    assert_eq!(printf(&["%d", "zz"]), "0");
}

#[test]
fn text_helpers() {
    assert_eq!(to_upper("aBc-z"), "ABC-Z");
    assert_eq!(unescape_echo("a\\nb\\qc\\"), "a\nb\\qc\\");
    assert_eq!(pad("ab", 5, false, '.'), "...ab");
    assert_eq!(pad("ab", 5, true, '.'), "ab...");
    assert_eq!(pad("abcdef", 3, true, '.'), "abcdef");
    let d: String = radix_digits(255, 16, true).into_iter().collect();
    assert_eq!(d, "FF");
    assert_eq!(parse_octal("755"), Some(0o755));
    assert_eq!(parse_octal("8"), None);
    assert_eq!(parse_octal(""), None);
    assert_eq!(parse_octal("77777777777"), None);
}

#[test]
fn test_string_and_integer_operators() {
    assert_eq!(test(&["abc", "=", "abc"]), 0);
    assert_eq!(test(&["abc", "!=", "abc"]), 1);
    assert_eq!(test(&["a", "<", "b"]), 0);
    assert_eq!(test(&["b", "<", "a"]), 1);
    assert_eq!(test(&["10", "-gt", "9"]), 0);
    assert_eq!(test(&["x", "-eq", "0"]), 0);
    assert_eq!(test(&["-n", ""]), 1);
    assert_eq!(test(&["-z", ""]), 0);
    assert_eq!(test(&["!", "-z", ""]), 1);
    assert_eq!(test(&["(", "a", "=", "b", ")", "-o", "x"]), 0);
    assert_eq!(test(&["", "-a", "x"]), 1);
    assert_eq!(test(&[]), 1);
    assert_eq!(test(&[""]), 1);
    assert_eq!(test(&["-n"]), 0);
}

#[test]
fn encoding_round_trip_of_raw_bytes() {
    let raw: Vec<u8> = vec![b'a', 0xff, 0xc3, 0xa9, 0x80, b'z'];
    let s = bytes_to_str(&raw);
    assert_eq!(s.chars().count(), 5);
    assert_eq!(str_to_bytes(&s), raw);
    let b = ShellBytes::from_vec(raw.clone());
    assert_eq!(ShellBytes::from_str_lossless(&b.to_shell_string()).into_vec(), raw);
}

#[test]
fn shell_bytes_lossy_text() {
    assert_eq!(ShellBytes::from_vec(b"caf\xc3\xa9".to_vec()).to_string_lossy(), "café");
    assert_eq!(ShellBytes::from_vec(vec![b'f', 0xff]).to_string_lossy(), "f\u{FFFD}");
}

#[test]
fn escape_then_remove_is_identity() {
    for s in ["", "a*b", "\\", "x\\y?[z]"] {
        assert_eq!(remove_escapes(&escape_all(s)), s);
    }
}

#[test]
fn fnmatch_laws_on_values() {
    assert!(fnmatch("*", "anything at all"));
    assert!(fnmatch("?", "x"));
    assert!(!fnmatch("?", "xy"));
    assert!(fnmatch("plain", "plain"));
    assert!(!fnmatch("plain", "plainer"));
}

#[test]
fn builtin_names() {
    assert!(is_builtin("getopts"));
    assert!(is_builtin("["));
    assert!(!is_builtin("rm"));
}

#[test]
fn heredoc_delimiter_at_end_of_input() {
    let mut shell = Shell::new();
    shell.run_script("x=$(cat <<EOF\nhi\nEOF\n)");
    assert_eq!(shell.get_var("x"), Some(""));
    let mut shell = Shell::new();
    assert_eq!(shell.run_script(": <<EOF\nbody\nEOF"), 0);
}

fn lex_all(src: &str) -> Result<Vec<epsh::lexer::Token>, epsh::error::ShellError> {
    let mut lex = epsh::lexer::Lexer::new(src);
    let mut toks = Vec::new();
    loop {
        let (tok, _) = lex.next_token()?;
        if tok == epsh::lexer::Token::Eof {
            return Ok(toks);
        }
        toks.push(tok);
    }
}

fn word(s: &str) -> epsh::lexer::Token {
    epsh::lexer::Token::Word(s.to_string())
}

#[test]
fn lexer_line_continuation_joins_word() {
    assert_eq!(lex_all("ec\\\nho hi").unwrap(), vec![word("echo"), word("hi")]);
    assert_eq!(lex_all("$\\\nHOME").unwrap(), vec![word("$HOME")]);
}

#[test]
fn lexer_keeps_expansions_raw() {
    assert_eq!(lex_all("a$(echo ')' \"(\")b").unwrap(), vec![word("a$(echo ')' \"(\")b")]);
    assert_eq!(lex_all("$((1+(2)))x").unwrap(), vec![word("$((1+(2)))x")]);
    assert_eq!(lex_all("${x:-\"}\"}").unwrap(), vec![word("${x:-\"}\"}")]);
    assert_eq!(lex_all("`a\\`b`").unwrap(), vec![word("`a\\`b`")]);
}

#[test]
fn lexer_comments_and_assignments() {
    assert_eq!(lex_all("a=b c # d\n").unwrap(), vec![
        Token::Assignment { name: "a".into(), value: "b".into() },
        word("c"),
        Token::Newline,
    ]);
    assert_eq!(lex_all("1a=b x#y").unwrap(), vec![word("1a=b"), word("x#y")]);
    assert_eq!(lex_all("if").unwrap(), vec![Token::If]);
}

#[test]
fn lexer_unterminated_forms_fail() {
    assert!(lex_all("'abc").is_err());
    assert!(lex_all("\"abc").is_err());
    assert!(lex_all("$(abc").is_err());
    assert!(lex_all("${abc").is_err());
    assert!(lex_all("$((1+2)").is_err());
    assert!(lex_all("`abc").is_err());
}

#[test]
fn lexer_without_reserved_words() {
    let mut lex = epsh::lexer::Lexer::new("if");
    lex.recognize_reserved = false;
    assert_eq!(lex.next_token().unwrap().0, word("if"));
}

fn quoted_at_word() -> epsh::ast::Word {
    let span = epsh::error::Span { offset: 0, line: 1, col: 1 };
    let at = WordPart::Param(ParamExpr { name: "@".into(), op: ParamOp::Normal, span });
    Word { parts: vec![WordPart::DoubleQuoted(vec![at])], span }
}

#[test]
fn quoted_at_gives_each_parameter_unchanged() {
    let mut vars = Variables::new();
    vars.set_params(strings(&["a b", "*", "", "x\\y"]));
    let fields = epsh::expand::expand_word_to_fields(&quoted_at_word(), &mut vars, 0, 1, &mut None);
    assert_eq!(fields, strings(&["a b", "*", "", "x\\y"]));
}

#[test]
fn quoted_at_without_parameters_gives_no_field() {
    let mut vars = Variables::new();
    let fields = epsh::expand::expand_word_to_fields(&quoted_at_word(), &mut vars, 0, 1, &mut None);
    assert!(fields.is_empty());
}

#[test]
fn quoted_at_joins_surrounding_text() {
    let mut sh = Shell::new();
    assert_eq!(sh.run_script("set -- 1 2 3; for a in \"<$@>\"; do echo \"$a\"; done"), 0);
    assert_eq!(String::from_utf8_lossy(&sh.take_stdout()), "<1\n2\n3>\n");
}

#[test]
fn static_word_is_one_field() {
    let w = Word {
        parts: vec![WordPart::Literal("a".into()), WordPart::SingleQuoted("b c".into())],
        span: epsh::error::Span { offset: 0, line: 1, col: 1 },
    };
    let mut vars = Variables::new();
    assert_eq!(epsh::expand::expand_word_to_fields(&w, &mut vars, 0, 1, &mut None), strings(&["ab c"]));
    assert_eq!(epsh::expand::expand_word_to_string(&w, &mut vars, 0, 1, &mut None), "ab c");
}

fn sh_out(script: &str) -> (String, String, i32) {
    let mut sh = Shell::new();
    let code = sh.run_script(script);
    (
        String::from_utf8_lossy(&sh.take_stdout()).into_owned(),
        String::from_utf8_lossy(&sh.take_stderr()).into_owned(),
        code,
    )
}

#[test]
fn arith_expansion_text() {
    assert_eq!(sh_out("echo $((1+2*3)) \"$((7/2))\"").0, "7 3\n");
    assert_eq!(sh_out("x=5; echo $((x+=2)) $x").0, "7 7\n");
    assert_eq!(sh_out("echo $((1/0))").0, "0\n");
}

#[test]
fn redirection_duplicates_and_closes() {
    let (out, err, _) = sh_out("echo to-err >&2; echo to-out 2>&1");
    assert_eq!(out, "to-out\n");
    assert_eq!(err, "to-err\n");
    let (_, err, code) = sh_out("echo x >&bad");
    assert!(err.contains("bad file descriptor"));
    assert_ne!(code, 0);
}

#[test]
fn heredoc_feeds_standard_input() {
    assert_eq!(sh_out("read a b <<EOF\nfirst second\nEOF\necho \"$b $a\"").0, "second first\n");
    assert_eq!(sh_out("read a <<'EOF'\n$HOME\nEOF\necho \"$a\"").0, "$HOME\n");
}

#[test]
fn shift_drops_parameters() {
    assert_eq!(sh_out("set -- a b c d; shift 2; echo \"$@\"").0, "c d\n");
    assert_eq!(sh_out("set -- a b; shift; echo \"$#\" \"$1\"").0, "1 b\n");
    let (out, err, _) = sh_out("set -- a b; shift 3; echo \"$?\" \"$#\"");
    assert_eq!(out, "1 2\n");
    assert!(err.contains("shift"));
}

#[test]
fn unset_removes_all_but_readonly() {
    assert_eq!(sh_out("x=1; y=2; unset x y; echo \"${x-none}\" \"${y-none}\"").0, "none none\n");
    assert_eq!(sh_out("x=1; readonly r=2; unset x r; echo \"$?\" \"${x-none}\" \"$r\"").0, "1 none 2\n");
    assert_eq!(sh_out("f() { echo f; }; unset -f f; x=1; unset -v x; echo \"${x-gone}\"").0, "gone\n");
}

#[test]
fn subshell_changes_do_not_survive() {
    let (out, _, _) = sh_out("x=1; set -- a b; (x=2; set -- c; set -u; g() { :; }); echo \"$x\" \"$@\"; g 2>/dev/null || echo no-g");
    assert_eq!(out, "1 a b\nno-g\n");
}

#[test]
fn command_substitution_changes_do_not_survive() {
    let (out, _, _) = sh_out("x=1; y=$(x=2; echo \"$x\"; echo); echo \"$x\" \"[$y]\"");
    assert_eq!(out, "1 [2]\n");
}

#[test]
fn errexit_stops_after_failing_command() {
    let (out, _, code) = sh_out("set -e; echo a; false; echo b");
    assert_eq!(out, "a\n");
    assert_eq!(code, 1);
    let (out, _, _) = sh_out("set -e; if false; then :; fi; false || echo c; ! true; echo d");
    assert_eq!(out, "c\nd\n");
}

#[test]
fn function_definition_succeeds() {
    let (out, _, _) = sh_out("f() { echo in-f; }; echo $?; f");
    assert_eq!(out, "0\nin-f\n");
}

#[test]
fn arith_logical_operators_short_circuit() {
    let mut vars = Variables::new();
    assert_eq!(eval_arith("0 && (x = 1)", &mut vars, ExitStatus::SUCCESS(), 1), Ok(0));
    assert_eq!(vars.get("x"), None);
    assert_eq!(eval_arith("1 || (x = 1)", &mut vars, ExitStatus::SUCCESS(), 1), Ok(1));
    assert_eq!(vars.get("x"), None);
    assert_eq!(eval_arith("1 && (x = 2)", &mut vars, ExitStatus::SUCCESS(), 1), Ok(1));
    assert_eq!(vars.get("x"), Some("2"));
    assert_eq!(arith("0 && 1 / 0"), Ok(0));
    assert_eq!(arith("1 || 1 / 0"), Ok(1));
    assert!(arith("1 && 1 / 0").is_err());
}

#[test]
fn arith_ternary_evaluates_one_branch() {
    let mut vars = Variables::new();
    assert_eq!(eval_arith("1 ? (a = 3) : (b = 4)", &mut vars, ExitStatus::SUCCESS(), 1), Ok(3));
    assert_eq!(vars.get("a"), Some("3"));
    assert_eq!(vars.get("b"), None);
    assert_eq!(arith("0 ? 1 / 0 : 7"), Ok(7));
    assert_eq!(arith("1 ? 7 : 1 % 0"), Ok(7));
}
