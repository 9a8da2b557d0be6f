use epsh::ast::{Command, ParamOp, Program, RedirKind, WordPart};
use epsh::parser::{parse_word_parts, Parser};

fn parse(src: &str) -> Program {
    Parser::new(src).parse().unwrap()
}

#[test]
fn parser_simple_command() {
    let prog = parse("echo hello world");
    assert_eq!(prog.commands.len(), 1);
    match &prog.commands[0] {
        Command::Simple { args, .. } => assert_eq!(args.len(), 3),
        other => panic!("expected Simple, got {other:?}"),
    }
}

#[test]
fn parser_pipeline() {
    let prog = parse("ls | grep foo | wc -l");
    match &prog.commands[0] {
        Command::Pipeline { commands, bang, .. } => {
            assert_eq!(commands.len(), 3);
            assert!(!bang);
        }
        other => panic!("expected Pipeline, got {other:?}"),
    }
}

#[test]
fn negated_pipeline() {
    let prog = parse("! grep error log");
    match &prog.commands[0] {
        Command::Pipeline { bang, .. } => assert!(bang),
        other => panic!("expected Pipeline with bang, got {other:?}"),
    }
}

#[test]
fn and_or_list() {
    let prog = parse("a && b || c");
    match &prog.commands[0] {
        Command::Or(_, _) => {} // top-level is Or(And(a,b), c)
        other => panic!("expected Or, got {other:?}"),
    }
}

#[test]
fn parser_sequence() {
    let prog = parse("a; b; c");
    // Should be Sequence(Sequence(a, b), c)
    match &prog.commands[0] {
        Command::Sequence(_, _) => {}
        other => panic!("expected Sequence, got {other:?}"),
    }
}

#[test]
fn parser_background() {
    let prog = parse("sleep 10 &");
    match &prog.commands[0] {
        Command::Background { .. } => {}
        other => panic!("expected Background, got {other:?}"),
    }
}

#[test]
fn if_then_fi() {
    let prog = parse("if true; then echo yes; fi");
    match &prog.commands[0] {
        Command::If { else_part, .. } => assert!(else_part.is_none()),
        other => panic!("expected If, got {other:?}"),
    }
}

#[test]
fn if_then_else_fi() {
    let prog = parse("if true; then echo yes; else echo no; fi");
    match &prog.commands[0] {
        Command::If { else_part, .. } => assert!(else_part.is_some()),
        other => panic!("expected If, got {other:?}"),
    }
}

#[test]
fn parser_while_loop() {
    let prog = parse("while true; do echo loop; done");
    match &prog.commands[0] {
        Command::While { .. } => {}
        other => panic!("expected While, got {other:?}"),
    }
}

#[test]
fn parser_until_loop() {
    let prog = parse("until false; do echo loop; done");
    match &prog.commands[0] {
        Command::Until { .. } => {}
        other => panic!("expected Until, got {other:?}"),
    }
}

#[test]
fn for_loop_with_words() {
    let prog = parse("for x in a b c; do echo $x; done");
    match &prog.commands[0] {
        Command::For { var, words, .. } => {
            assert_eq!(var, "x");
            assert_eq!(words.as_ref().unwrap().len(), 3);
        }
        other => panic!("expected For, got {other:?}"),
    }
}

#[test]
fn for_loop_without_words() {
    let prog = parse("for x; do echo $x; done");
    match &prog.commands[0] {
        Command::For { var, words, .. } => {
            assert_eq!(var, "x");
            assert!(words.is_none());
        }
        other => panic!("expected For, got {other:?}"),
    }
}

#[test]
fn parser_case_statement() {
    let prog = parse("case $x in\na) echo a;;\nb|c) echo bc;;\nesac");
    match &prog.commands[0] {
        Command::Case { arms, .. } => {
            assert_eq!(arms.len(), 2);
            assert_eq!(arms[1].patterns.len(), 2);
        }
        other => panic!("expected Case, got {other:?}"),
    }
}

#[test]
fn parser_subshell() {
    let prog = parse("(echo hello)");
    match &prog.commands[0] {
        Command::Subshell { .. } => {}
        other => panic!("expected Subshell, got {other:?}"),
    }
}

#[test]
fn parser_brace_group() {
    let prog = parse("{ echo hello; }");
    match &prog.commands[0] {
        Command::BraceGroup { .. } => {}
        other => panic!("expected BraceGroup, got {other:?}"),
    }
}

#[test]
fn parser_function_def() {
    let prog = parse("myfunc() { echo hello; }");
    match &prog.commands[0] {
        Command::FuncDef { name, .. } => assert_eq!(name, "myfunc"),
        other => panic!("expected FuncDef, got {other:?}"),
    }
}

#[test]
fn parser_assignment() {
    let prog = parse("FOO=bar");
    match &prog.commands[0] {
        Command::Simple { assigns, args, .. } => {
            assert_eq!(assigns.len(), 1);
            assert_eq!(assigns[0].name, "FOO");
            assert!(args.is_empty());
        }
        other => panic!("expected Simple with assignment, got {other:?}"),
    }
}

#[test]
fn parser_assignment_with_command() {
    let prog = parse("FOO=bar echo $FOO");
    match &prog.commands[0] {
        Command::Simple { assigns, args, .. } => {
            assert_eq!(assigns.len(), 1);
            assert_eq!(args.len(), 2);
        }
        other => panic!("expected Simple, got {other:?}"),
    }
}

#[test]
fn parser_redirections() {
    let prog = parse("echo hello > output.txt");
    match &prog.commands[0] {
        Command::Simple { redirs, .. } => {
            assert_eq!(redirs.len(), 1);
            assert!(matches!(redirs[0].kind, RedirKind::Output(_)));
        }
        other => panic!("expected Simple with redirs, got {other:?}"),
    }
}

#[test]
fn word_parts_literal() {
    let parts = parse_word_parts("hello");
    assert_eq!(parts.len(), 1);
    assert!(matches!(&parts[0], WordPart::Literal(s) if s == "hello"));
}

#[test]
fn word_parts_variable() {
    let parts = parse_word_parts("$HOME");
    assert_eq!(parts.len(), 1);
    assert!(matches!(&parts[0], WordPart::Param(p) if p.name == "HOME"));
}

#[test]
fn word_parts_brace_default() {
    let parts = parse_word_parts("${var:-default}");
    assert_eq!(parts.len(), 1);
    match &parts[0] {
        WordPart::Param(p) => {
            assert_eq!(p.name, "var");
            assert!(matches!(p.op, ParamOp::Default { colon: true, .. }));
        }
        other => panic!("expected Param, got {other:?}"),
    }
}

#[test]
fn word_parts_length() {
    let parts = parse_word_parts("${#var}");
    assert_eq!(parts.len(), 1);
    match &parts[0] {
        WordPart::Param(p) => {
            assert_eq!(p.name, "var");
            assert!(matches!(p.op, ParamOp::Length));
        }
        other => panic!("expected Param Length, got {other:?}"),
    }
}

#[test]
fn word_parts_single_quoted() {
    let parts = parse_word_parts("'hello world'");
    assert_eq!(parts.len(), 1);
    assert!(matches!(&parts[0], WordPart::SingleQuoted(s) if s == "hello world"));
}

#[test]
fn word_parts_double_quoted_with_var() {
    let parts = parse_word_parts("\"hello $name\"");
    assert_eq!(parts.len(), 1);
    match &parts[0] {
        WordPart::DoubleQuoted(inner) => {
            assert_eq!(inner.len(), 2);
            assert!(matches!(&inner[0], WordPart::Literal(s) if s == "hello "));
            assert!(matches!(&inner[1], WordPart::Param(p) if p.name == "name"));
        }
        other => panic!("expected DoubleQuoted, got {other:?}"),
    }
}

#[test]
fn word_parts_tilde() {
    let parts = parse_word_parts("~/bin");
    assert_eq!(parts.len(), 2);
    assert!(matches!(&parts[0], WordPart::Tilde(s) if s.is_empty()));
    assert!(matches!(&parts[1], WordPart::Literal(s) if s == "/bin"));
}

#[test]
fn word_parts_cmd_subst() {
    let parts = parse_word_parts("$(date)");
    assert_eq!(parts.len(), 1);
    assert!(matches!(&parts[0], WordPart::CmdSubst(_)));
}

#[test]
fn word_parts_arith() {
    let parts = parse_word_parts("$((1+2))");
    assert_eq!(parts.len(), 1);
    assert!(matches!(&parts[0], WordPart::Arith(_)));
}

#[test]
fn word_parts_mixed() {
    let parts = parse_word_parts("prefix${var}suffix");
    assert_eq!(parts.len(), 3);
    assert!(matches!(&parts[0], WordPart::Literal(s) if s == "prefix"));
    assert!(matches!(&parts[1], WordPart::Param(p) if p.name == "var"));
    assert!(matches!(&parts[2], WordPart::Literal(s) if s == "suffix"));
}

#[test]
fn multiline_program() {
    let prog = parse("echo a\necho b\necho c");
    assert_eq!(prog.commands.len(), 3);
}

#[test]
fn empty_program() {
    let prog = parse("");
    assert!(prog.commands.is_empty());
}

#[test]
fn comments_only() {
    let prog = parse("# this is a comment\n");
    assert!(prog.commands.is_empty());
}

#[test]
fn elif_chain() {
    let prog = parse("if a; then b; elif c; then d; elif e; then f; else g; fi");
    match &prog.commands[0] {
        Command::If { else_part, .. } => {
            let else_cmd = else_part.as_ref().unwrap();
            assert!(matches!(else_cmd.as_ref(), Command::If { .. }));
        }
        other => panic!("expected If, got {other:?}"),
    }
}

#[test]
fn trim_operations() {
    let parts = parse_word_parts("${file%.txt}");
    match &parts[0] {
        WordPart::Param(p) => {
            assert_eq!(p.name, "file");
            assert!(matches!(p.op, ParamOp::TrimSuffixSmall(_)));
        }
        other => panic!("expected Param, got {other:?}"),
    }

    let parts = parse_word_parts("${path##*/}");
    match &parts[0] {
        WordPart::Param(p) => {
            assert_eq!(p.name, "path");
            assert!(matches!(p.op, ParamOp::TrimPrefixLarge(_)));
        }
        other => panic!("expected Param, got {other:?}"),
    }
}
