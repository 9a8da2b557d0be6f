use epsh::ast::{ParamExpr, ParamOp, Word, WordPart};
use epsh::error::Span;
use epsh::expand::{expand_word_to_fields, expand_word_to_string, field_split, ExpandedWord};
use epsh::var::Variables;


fn make_vars() -> Variables {
    let mut vars = Variables::new();
    vars.set("FOO", "hello").unwrap();
    vars.set("EMPTY", "").unwrap();
    vars.set("PATH_VAR", "/usr/local/bin:/usr/bin:/bin")
        .unwrap();
    vars.set("FILE", "archive.tar.gz").unwrap();
    vars
}

fn make_word(parts: Vec<WordPart>) -> Word {
    Word {
        parts,
        span: Span::default(),
    }
}

#[test]
fn expand_literal() {
    let mut vars = make_vars();
    let word = make_word(vec![WordPart::Literal("hello".into())]);
    assert_eq!(
        expand_word_to_fields(&word, &mut vars, 0, 1, &mut None),
        vec!["hello"]
    );
}

#[test]
fn expand_simple_variable() {
    let mut vars = make_vars();
    let word = make_word(vec![WordPart::Param(ParamExpr {
        name: "FOO".into(),
        op: ParamOp::Normal,
        span: Span::default(),
    })]);
    assert_eq!(
        expand_word_to_fields(&word, &mut vars, 0, 1, &mut None),
        vec!["hello"]
    );
}

#[test]
fn expand_default_unset() {
    let mut vars = make_vars();
    let word = make_word(vec![WordPart::Param(ParamExpr {
        name: "UNSET".into(),
        op: ParamOp::Default {
            colon: false,
            word: vec![WordPart::Literal("fallback".into())],
        },
        span: Span::default(),
    })]);
    assert_eq!(
        expand_word_to_fields(&word, &mut vars, 0, 1, &mut None),
        vec!["fallback"]
    );
}

#[test]
fn expand_default_colon_empty() {
    let mut vars = make_vars();
    let word = make_word(vec![WordPart::Param(ParamExpr {
        name: "EMPTY".into(),
        op: ParamOp::Default {
            colon: true,
            word: vec![WordPart::Literal("fallback".into())],
        },
        span: Span::default(),
    })]);
    assert_eq!(
        expand_word_to_fields(&word, &mut vars, 0, 1, &mut None),
        vec!["fallback"]
    );
}

#[test]
fn expand_default_set() {
    let mut vars = make_vars();
    let word = make_word(vec![WordPart::Param(ParamExpr {
        name: "FOO".into(),
        op: ParamOp::Default {
            colon: false,
            word: vec![WordPart::Literal("fallback".into())],
        },
        span: Span::default(),
    })]);
    assert_eq!(
        expand_word_to_fields(&word, &mut vars, 0, 1, &mut None),
        vec!["hello"]
    );
}

#[test]
fn expand_assign_default() {
    let mut vars = make_vars();
    let word = make_word(vec![WordPart::Param(ParamExpr {
        name: "NEW_VAR".into(),
        op: ParamOp::Assign {
            colon: false,
            word: vec![WordPart::Literal("assigned".into())],
        },
        span: Span::default(),
    })]);
    assert_eq!(
        expand_word_to_fields(&word, &mut vars, 0, 1, &mut None),
        vec!["assigned"]
    );
    assert_eq!(vars.get("NEW_VAR"), Some("assigned"));
}

#[test]
fn expand_alternative_set() {
    let mut vars = make_vars();
    let word = make_word(vec![WordPart::Param(ParamExpr {
        name: "FOO".into(),
        op: ParamOp::Alternative {
            colon: false,
            word: vec![WordPart::Literal("alt".into())],
        },
        span: Span::default(),
    })]);
    assert_eq!(
        expand_word_to_fields(&word, &mut vars, 0, 1, &mut None),
        vec!["alt"]
    );
}

#[test]
fn expand_alternative_unset() {
    let mut vars = make_vars();
    let word = make_word(vec![WordPart::Param(ParamExpr {
        name: "UNSET".into(),
        op: ParamOp::Alternative {
            colon: false,
            word: vec![WordPart::Literal("alt".into())],
        },
        span: Span::default(),
    })]);
    let result = expand_word_to_fields(&word, &mut vars, 0, 1, &mut None);
    assert!(result.is_empty() || result == vec![""]);
}

#[test]
fn expand_length() {
    let mut vars = make_vars();
    let word = make_word(vec![WordPart::Param(ParamExpr {
        name: "FOO".into(),
        op: ParamOp::Length,
        span: Span::default(),
    })]);
    assert_eq!(
        expand_word_to_fields(&word, &mut vars, 0, 1, &mut None),
        vec!["5"]
    );
}

#[test]
fn expand_trim_suffix_small() {
    let mut vars = make_vars();
    let word = make_word(vec![WordPart::Param(ParamExpr {
        name: "FILE".into(),
        op: ParamOp::TrimSuffixSmall(vec![WordPart::Literal(".*".into())]),
        span: Span::default(),
    })]);
    assert_eq!(
        expand_word_to_fields(&word, &mut vars, 0, 1, &mut None),
        vec!["archive.tar"]
    );
}

#[test]
fn expand_trim_suffix_large() {
    let mut vars = make_vars();
    let word = make_word(vec![WordPart::Param(ParamExpr {
        name: "FILE".into(),
        op: ParamOp::TrimSuffixLarge(vec![WordPart::Literal(".*".into())]),
        span: Span::default(),
    })]);
    assert_eq!(
        expand_word_to_fields(&word, &mut vars, 0, 1, &mut None),
        vec!["archive"]
    );
}

#[test]
fn expand_trim_prefix_small() {
    let mut vars = make_vars();
    let word = make_word(vec![WordPart::Param(ParamExpr {
        name: "PATH_VAR".into(),
        op: ParamOp::TrimPrefixSmall(vec![WordPart::Literal("*/".into())]),
        span: Span::default(),
    })]);
    // Smallest prefix matching */: removes "/" (since */ matches "/")
    let result = expand_word_to_fields(&word, &mut vars, 0, 1, &mut None);
    assert_eq!(result, vec!["usr/local/bin:/usr/bin:/bin"]);
}

#[test]
fn expand_trim_prefix_large() {
    let mut vars = make_vars();
    let word = make_word(vec![WordPart::Param(ParamExpr {
        name: "PATH_VAR".into(),
        op: ParamOp::TrimPrefixLarge(vec![WordPart::Literal("*/".into())]),
        span: Span::default(),
    })]);
    // Largest prefix matching */: removes everything up to last /
    let result = expand_word_to_fields(&word, &mut vars, 0, 1, &mut None);
    assert_eq!(result, vec!["bin"]);
}

#[test]
fn expand_single_quoted() {
    let mut vars = make_vars();
    let word = make_word(vec![WordPart::SingleQuoted("$FOO".into())]);
    assert_eq!(
        expand_word_to_fields(&word, &mut vars, 0, 1, &mut None),
        vec!["$FOO"]
    );
}

#[test]
fn expand_double_quoted_no_split() {
    let mut vars = make_vars();
    vars.set("X", "a  b  c").unwrap();
    let word = make_word(vec![WordPart::DoubleQuoted(vec![WordPart::Param(
        ParamExpr {
            name: "X".into(),
            op: ParamOp::Normal,
            span: Span::default(),
        },
    )])]);
    // Inside double quotes, no field splitting
    assert_eq!(
        expand_word_to_fields(&word, &mut vars, 0, 1, &mut None),
        vec!["a  b  c"]
    );
}

#[test]
fn field_split_basic() {
    let fragments = vec![ExpandedWord {
        value: "a b c".into(),
        split_fields: true,
        word_break: false,
    }];
    let result = field_split(&fragments, " \t\n");
    assert_eq!(result, vec!["a", "b", "c"]);
}

#[test]
fn field_split_custom_ifs() {
    let fragments = vec![ExpandedWord {
        value: "a:b:c".into(),
        split_fields: true,
        word_break: false,
    }];
    let result = field_split(&fragments, ":");
    assert_eq!(result, vec!["a", "b", "c"]);
}

#[test]
fn field_split_mixed() {
    let fragments = vec![
        ExpandedWord {
            value: "prefix-".into(),
            split_fields: false,
            word_break: false,
        },
        ExpandedWord {
            value: "a b".into(),
            split_fields: true,
            word_break: false,
        },
    ];
    let result = field_split(&fragments, " \t\n");
    assert_eq!(result, vec!["prefix-a", "b"]);
}

#[test]
fn expand_exit_status() {
    let mut vars = make_vars();
    let word = make_word(vec![WordPart::Param(ParamExpr {
        name: "?".into(),
        op: ParamOp::Normal,
        span: Span::default(),
    })]);
    assert_eq!(
        expand_word_to_fields(&word, &mut vars, 42, 1, &mut None),
        vec!["42"]
    );
}
