use epsh::lexer::{Lexer, Token};

fn tokens(src: &str) -> Vec<Token> {
    let mut lex = Lexer::new(src);
    let mut toks = Vec::new();
    loop {
        let (tok, _) = lex.next_token().unwrap();
        if tok == Token::Eof {
            break;
        }
        toks.push(tok);
    }
    toks
}

#[test]
fn lexer_simple_command() {
    assert_eq!(tokens("echo hello"), vec![
        Token::Word("echo".into()),
        Token::Word("hello".into()),
    ]);
}

#[test]
fn lexer_pipeline() {
    assert_eq!(tokens("ls | grep foo"), vec![
        Token::Word("ls".into()),
        Token::Pipe,
        Token::Word("grep".into()),
        Token::Word("foo".into()),
    ]);
}

#[test]
fn and_or() {
    assert_eq!(tokens("a && b || c"), vec![
        Token::Word("a".into()),
        Token::And,
        Token::Word("b".into()),
        Token::Or,
        Token::Word("c".into()),
    ]);
}

#[test]
fn lexer_redirections() {
    // "in" is a reserved word, so the lexer returns Token::In here.
    // The parser handles context: after a redir operator, it accepts
    // reserved words as filenames.
    assert_eq!(tokens("cat < in > out 2>&1"), vec![
        Token::Word("cat".into()),
        Token::Less,
        Token::In,
        Token::Great,
        Token::Word("out".into()),
        Token::Word("2".into()),
        Token::GreatAnd,
        Token::Word("1".into()),
    ]);
}

#[test]
fn redir_filename() {
    // Non-reserved filenames work fine
    assert_eq!(tokens("cat < input.txt"), vec![
        Token::Word("cat".into()),
        Token::Less,
        Token::Word("input.txt".into()),
    ]);
}

#[test]
fn single_quotes() {
    assert_eq!(tokens("echo 'hello world'"), vec![
        Token::Word("echo".into()),
        Token::Word("'hello world'".into()),
    ]);
}

#[test]
fn double_quotes() {
    assert_eq!(tokens(r#"echo "hello $name""#), vec![
        Token::Word("echo".into()),
        Token::Word("\"hello $name\"".into()),
    ]);
}

#[test]
fn lexer_command_substitution() {
    assert_eq!(tokens("echo $(date)"), vec![
        Token::Word("echo".into()),
        Token::Word("$(date)".into()),
    ]);
}

#[test]
fn lexer_assignment() {
    let toks = tokens("FOO=bar");
    assert_eq!(toks, vec![
        Token::Assignment { name: "FOO".into(), value: "bar".into() },
    ]);
}

#[test]
fn reserved_words() {
    assert_eq!(tokens("if true; then echo yes; fi"), vec![
        Token::If,
        Token::Word("true".into()),
        Token::Semi,
        Token::Then,
        Token::Word("echo".into()),
        Token::Word("yes".into()),
        Token::Semi,
        Token::Fi,
    ]);
}

#[test]
fn lexer_background() {
    assert_eq!(tokens("sleep 10 &"), vec![
        Token::Word("sleep".into()),
        Token::Word("10".into()),
        Token::Amp,
    ]);
}

#[test]
fn case_tokens() {
    assert_eq!(tokens(";;"), vec![Token::SemiSemi]);
}

#[test]
fn dollar_brace() {
    assert_eq!(tokens("${var:-default}"), vec![
        Token::Word("${var:-default}".into()),
    ]);
}

#[test]
fn lexer_arithmetic() {
    assert_eq!(tokens("$((1+2))"), vec![
        Token::Word("$((1+2))".into()),
    ]);
}

#[test]
fn heredoc_operator() {
    assert_eq!(tokens("cat << EOF"), vec![
        Token::Word("cat".into()),
        Token::DLess,
        Token::Word("EOF".into()),
    ]);
}

#[test]
fn comments() {
    assert_eq!(tokens("echo hello # comment"), vec![
        Token::Word("echo".into()),
        Token::Word("hello".into()),
    ]);
}

#[test]
fn backslash_newline() {
    assert_eq!(tokens("echo hel\\\nlo"), vec![
        Token::Word("echo".into()),
        Token::Word("hello".into()),
    ]);
}

#[test]
fn empty_input() {
    assert_eq!(tokens(""), Vec::<Token>::new());
}

#[test]
fn unterminated_single_quote() {
    let mut lex = Lexer::new("echo 'unterminated");
    // First token is fine
    let _ = lex.next_token().unwrap();
    // Second token should error
    assert!(lex.next_token().is_err());
}
