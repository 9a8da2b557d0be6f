use vstd::prelude::*;

use crate::ast::{Assignment, CaseArm, Command, HereDocBody, ParamExpr, ParamOp, Program, Redir, RedirKind, Word, WordPart, clone_heredoc, heredoc_same};
use crate::error::{ShellError, Span};
use crate::lexer::{Lexer, PendingHereDoc, Token, append_chars, spec_is_redir, clone_token, heredoc_scan, is_name_chars, slice_chars};
use crate::text::{chars_of, digits_value, string_of};
use crate::token_syntax::{TokView, lex_next, tok_view};
use crate::word_syntax::{
    SOp, SPart, arith_scan, backtick_end, brace_name_end, brace_param, brace_word, brace_word_scan, cmdsubst_end,
    coalesce, deeper, dollar, dq_loop, dq_parts, flush, lemma_parts_view_len, lemma_parts_view_push, part_view, parts_view, past_brace,
    shallower, word_loop, word_parts, is_word_name_char, is_digit_char, tilde_char, plain_char, heredoc_loop,
    heredoc_parts, heredoc_text_char,
};

verus! {

/// Recursive-descent parser for POSIX shell grammar.
///
/// ```text
/// program       = linebreak complete_commands linebreak
/// complete_cmd  = and_or { (';' | '&') and_or } [';' | '&']
/// and_or        = pipeline { ('&&' | '||') linebreak pipeline }
/// pipeline      = ['!'] command { '|' linebreak command }
/// command       = simple_cmd | compound_cmd [redirects] | func_def
/// ```
///
/// Every step spends one unit of an evaluation budget (`fuel`), which is
/// what bounds the recursion; a parser starts with the largest budget.
pub struct Parser {
    lexer: Lexer,
    /// Here-document bodies read at newlines, waiting to be patched in.
    heredoc_bodies: Vec<HereDocBody>,
    fuel: u64,
}

/// The error reported when the parsing budget runs out.
fn exhausted() -> (e: ShellError)
    ensures
        e matches ShellError::Syntax { msg, span } && msg@ == "input too deeply nested"@ && span.offset == 0
            && span.line == 0 && span.col == 0,
{
    ShellError::Syntax { msg: "input too deeply nested".to_owned(), span: Span { offset: 0, line: 0, col: 0 } }
}

fn syntax(msg: String, span: Span) -> (e: ShellError)
    ensures
        e == (ShellError::Syntax { msg, span }),
{
    ShellError::Syntax { msg, span }
}

fn concat3(a: &str, b: &str, c: &str) -> (r: String)
    ensures
        r@ == a@ + b@ + c@,
{
    let mut s = a.to_owned();
    s.append(b);
    s.append(c);
    s
}

/// A readable name for a token, used in syntax error messages.
pub open spec fn spec_token_name(t: Token) -> Seq<char> {
    match t {
        Token::Word(w) => "Word(\""@ + w@ + "\")"@,
        Token::Assignment { name, value } => "Assignment("@ + name@ + "="@ + value@ + ")"@,
        Token::Newline => "Newline"@,
        Token::Semi => "Semi"@,
        Token::Amp => "Amp"@,
        Token::Pipe => "Pipe"@,
        Token::And => "And"@,
        Token::Or => "Or"@,
        Token::SemiSemi => "SemiSemi"@,
        Token::Less => "Less"@,
        Token::Great => "Great"@,
        Token::DLess => "DLess"@,
        Token::DGreat => "DGreat"@,
        Token::LessAnd => "LessAnd"@,
        Token::GreatAnd => "GreatAnd"@,
        Token::LessGreat => "LessGreat"@,
        Token::DLessDash => "DLessDash"@,
        Token::Clobber => "Clobber"@,
        Token::LParen => "LParen"@,
        Token::RParen => "RParen"@,
        Token::If => "If"@,
        Token::Then => "Then"@,
        Token::Else => "Else"@,
        Token::Elif => "Elif"@,
        Token::Fi => "Fi"@,
        Token::Do => "Do"@,
        Token::Done => "Done"@,
        Token::Case => "Case"@,
        Token::Esac => "Esac"@,
        Token::While => "While"@,
        Token::Until => "Until"@,
        Token::For => "For"@,
        Token::In => "In"@,
        Token::Lbrace => "Lbrace"@,
        Token::Rbrace => "Rbrace"@,
        Token::Bang => "Bang"@,
        Token::Eof => "Eof"@,
    }
}

/// A readable name for a token, used in syntax error messages.
pub fn token_name(t: &Token) -> (r: String)
    ensures
        r@ == spec_token_name(*t),
{
    match t {
        Token::Word(w) => concat3("Word(\"", w.as_str(), "\")"),
        Token::Assignment { name, value } => {
            let mut s = concat3("Assignment(", name.as_str(), "=");
            s.append(value.as_str());
            s.append(")");
            s
        },
        Token::Newline => "Newline".to_owned(),
        Token::Semi => "Semi".to_owned(),
        Token::Amp => "Amp".to_owned(),
        Token::Pipe => "Pipe".to_owned(),
        Token::And => "And".to_owned(),
        Token::Or => "Or".to_owned(),
        Token::SemiSemi => "SemiSemi".to_owned(),
        Token::Less => "Less".to_owned(),
        Token::Great => "Great".to_owned(),
        Token::DLess => "DLess".to_owned(),
        Token::DGreat => "DGreat".to_owned(),
        Token::LessAnd => "LessAnd".to_owned(),
        Token::GreatAnd => "GreatAnd".to_owned(),
        Token::LessGreat => "LessGreat".to_owned(),
        Token::DLessDash => "DLessDash".to_owned(),
        Token::Clobber => "Clobber".to_owned(),
        Token::LParen => "LParen".to_owned(),
        Token::RParen => "RParen".to_owned(),
        Token::If => "If".to_owned(),
        Token::Then => "Then".to_owned(),
        Token::Else => "Else".to_owned(),
        Token::Elif => "Elif".to_owned(),
        Token::Fi => "Fi".to_owned(),
        Token::Do => "Do".to_owned(),
        Token::Done => "Done".to_owned(),
        Token::Case => "Case".to_owned(),
        Token::Esac => "Esac".to_owned(),
        Token::While => "While".to_owned(),
        Token::Until => "Until".to_owned(),
        Token::For => "For".to_owned(),
        Token::In => "In".to_owned(),
        Token::Lbrace => "Lbrace".to_owned(),
        Token::Rbrace => "Rbrace".to_owned(),
        Token::Bang => "Bang".to_owned(),
        Token::Eof => "Eof".to_owned(),
    }
}

/// The descriptor a redirection operator applies to by default: 0 for the
/// input forms, 1 for the output forms.
pub open spec fn default_fd(op: Token) -> int {
    match op {
        Token::Less => 0,
        Token::DLess => 0,
        Token::DLessDash => 0,
        Token::LessAnd => 0,
        Token::LessGreat => 0,
        _ => 1,
    }
}

/// The word parts of a redirection's target token (read with reserved
/// words off): a word's or an assignment's text parsed as a word, a
/// reserved word as literal text; `None` for any other token.
pub open spec fn redir_target_parts(tv: TokView, fuel: int) -> Option<Seq<SPart>> {
    match tv {
        TokView::Word(t) => Some(word_parts(t, false, fuel)),
        TokView::Assignment(n, v) => Some(word_parts(n + seq!['='] + v, false, fuel)),
        TokView::Other(t) => if spec_reserved_text(t).len() > 0 {
            Some(seq![SPart::Lit(spec_reserved_text(t))])
        } else {
            None
        },
    }
}

/// The raw delimiter word of a here-document (read with reserved words
/// off): a word's or an assignment's text; `None` for any other token.
pub open spec fn heredoc_delimiter(tv: TokView) -> Option<Seq<char>> {
    match tv {
        TokView::Word(t) => Some(t),
        TokView::Assignment(n, v) => Some(n + seq!['='] + v),
        TokView::Other(_) => None,
    }
}

/// `after` is `before` with one more pending here-document: delimiter
/// `delim`, leading tabs stripped when `strip`, unexpanded when `quoted`.
pub open spec fn pending_pushed(
    after: Seq<PendingHereDoc>,
    before: Seq<PendingHereDoc>,
    delim: Seq<char>,
    strip: bool,
    quoted: bool,
) -> bool {
    &&& after.len() == before.len() + 1
    &&& after.take(before.len() as int) == before
    &&& after.last().delimiter@ == delim
    &&& after.last().strip_tabs == strip
    &&& after.last().quoted == quoted
}

/// `k` is the redirection that operator `op` makes with a target word of
/// parts `ps`.
pub open spec fn redir_kind_is(op: Token, k: RedirKind, ps: Seq<SPart>) -> bool {
    match op {
        Token::Less => k matches RedirKind::Input(w) && parts_view(w.parts@) == ps,
        Token::Great => k matches RedirKind::Output(w) && parts_view(w.parts@) == ps,
        Token::DGreat => k matches RedirKind::Append(w) && parts_view(w.parts@) == ps,
        Token::Clobber => k matches RedirKind::Clobber(w) && parts_view(w.parts@) == ps,
        Token::LessGreat => k matches RedirKind::ReadWrite(w) && parts_view(w.parts@) == ps,
        Token::LessAnd => k matches RedirKind::DupInput(w) && parts_view(w.parts@) == ps,
        _ => k matches RedirKind::DupOutput(w) && parts_view(w.parts@) == ps,
    }
}

/// The text of a reserved-word token, or "" for any other token.
pub open spec fn spec_reserved_text(t: Token) -> Seq<char> {
    match t {
        Token::If => seq!['i', 'f'],
        Token::Then => seq!['t', 'h', 'e', 'n'],
        Token::Else => seq!['e', 'l', 's', 'e'],
        Token::Elif => seq!['e', 'l', 'i', 'f'],
        Token::Fi => seq!['f', 'i'],
        Token::Do => seq!['d', 'o'],
        Token::Done => seq!['d', 'o', 'n', 'e'],
        Token::Case => seq!['c', 'a', 's', 'e'],
        Token::Esac => seq!['e', 's', 'a', 'c'],
        Token::While => seq!['w', 'h', 'i', 'l', 'e'],
        Token::Until => seq!['u', 'n', 't', 'i', 'l'],
        Token::For => seq!['f', 'o', 'r'],
        Token::In => seq!['i', 'n'],
        Token::Lbrace => seq!['{'],
        Token::Rbrace => seq!['}'],
        Token::Bang => seq!['!'],
        _ => Seq::empty(),
    }
}

/// Reading a reserved word and writing it back agree: the word a reserved
/// token is read from is its text, and the text of a reserved token reads
/// back as that token.
pub proof fn law_reserved_round_trip(w: Seq<char>, t: Token)
    ensures
        crate::lexer::spec_reserved(w) == Some(t) ==> spec_reserved_text(t) == w,
        spec_reserved_text(t).len() > 0 ==> crate::lexer::spec_reserved(spec_reserved_text(t)) == Some(t),
{
    assert(seq!['i', 'f'][0] == 'i' && seq!['i', 'f'][1] == 'f');
    assert(seq!['t', 'h', 'e', 'n'][0] == 't' && seq!['t', 'h', 'e', 'n'][1] == 'h' && seq!['t', 'h', 'e', 'n'][2] == 'e' && seq!['t', 'h', 'e', 'n'][3] == 'n');
    assert(seq!['e', 'l', 's', 'e'][0] == 'e' && seq!['e', 'l', 's', 'e'][1] == 'l' && seq!['e', 'l', 's', 'e'][2] == 's' && seq!['e', 'l', 's', 'e'][3] == 'e');
    assert(seq!['e', 'l', 'i', 'f'][0] == 'e' && seq!['e', 'l', 'i', 'f'][1] == 'l' && seq!['e', 'l', 'i', 'f'][2] == 'i' && seq!['e', 'l', 'i', 'f'][3] == 'f');
    assert(seq!['f', 'i'][0] == 'f' && seq!['f', 'i'][1] == 'i');
    assert(seq!['d', 'o'][0] == 'd' && seq!['d', 'o'][1] == 'o');
    assert(seq!['d', 'o', 'n', 'e'][0] == 'd' && seq!['d', 'o', 'n', 'e'][1] == 'o' && seq!['d', 'o', 'n', 'e'][2] == 'n' && seq!['d', 'o', 'n', 'e'][3] == 'e');
    assert(seq!['c', 'a', 's', 'e'][0] == 'c' && seq!['c', 'a', 's', 'e'][1] == 'a' && seq!['c', 'a', 's', 'e'][2] == 's' && seq!['c', 'a', 's', 'e'][3] == 'e');
    assert(seq!['e', 's', 'a', 'c'][0] == 'e' && seq!['e', 's', 'a', 'c'][1] == 's' && seq!['e', 's', 'a', 'c'][2] == 'a' && seq!['e', 's', 'a', 'c'][3] == 'c');
    assert(seq!['w', 'h', 'i', 'l', 'e'][0] == 'w' && seq!['w', 'h', 'i', 'l', 'e'][1] == 'h' && seq!['w', 'h', 'i', 'l', 'e'][2] == 'i' && seq!['w', 'h', 'i', 'l', 'e'][3] == 'l' && seq!['w', 'h', 'i', 'l', 'e'][4] == 'e');
    assert(seq!['u', 'n', 't', 'i', 'l'][0] == 'u' && seq!['u', 'n', 't', 'i', 'l'][1] == 'n' && seq!['u', 'n', 't', 'i', 'l'][2] == 't' && seq!['u', 'n', 't', 'i', 'l'][3] == 'i' && seq!['u', 'n', 't', 'i', 'l'][4] == 'l');
    assert(seq!['f', 'o', 'r'][0] == 'f' && seq!['f', 'o', 'r'][1] == 'o' && seq!['f', 'o', 'r'][2] == 'r');
    assert(seq!['i', 'n'][0] == 'i' && seq!['i', 'n'][1] == 'n');
    assert(seq!['{'][0] == '{');
    assert(seq!['}'][0] == '}');
    assert(seq!['!'][0] == '!');
    let x = spec_reserved_text(t);
    if x.len() > 0 {
        assert(x[0] == x[0]);
    }
    if x.len() > 1 {
        assert(x[1] == x[1]);
    }
    if x.len() > 2 {
        assert(x[2] == x[2]);
    }
    if x.len() > 3 {
        assert(x[3] == x[3]);
    }
}

/// The text of a reserved-word token, or "" for any other token.
pub fn reserved_word_text(t: &Token) -> (r: Vec<char>)
    ensures
        r@ == spec_reserved_text(*t),
{
    let r: Vec<char> = match t {
        Token::If => vec!['i', 'f'],
        Token::Then => vec!['t', 'h', 'e', 'n'],
        Token::Else => vec!['e', 'l', 's', 'e'],
        Token::Elif => vec!['e', 'l', 'i', 'f'],
        Token::Fi => vec!['f', 'i'],
        Token::Do => vec!['d', 'o'],
        Token::Done => vec!['d', 'o', 'n', 'e'],
        Token::Case => vec!['c', 'a', 's', 'e'],
        Token::Esac => vec!['e', 's', 'a', 'c'],
        Token::While => vec!['w', 'h', 'i', 'l', 'e'],
        Token::Until => vec!['u', 'n', 't', 'i', 'l'],
        Token::For => vec!['f', 'o', 'r'],
        Token::In => vec!['i', 'n'],
        Token::Lbrace => vec!['{'],
        Token::Rbrace => vec!['}'],
        Token::Bang => vec!['!'],
        _ => Vec::new(),
    };
    assert(r@ =~= spec_reserved_text(*t));
    r
}

/// True for the tokens that can start a command.
pub open spec fn spec_is_command_start(t: Token) -> bool {
    match t {
        Token::Word(_) | Token::Assignment { .. } | Token::If | Token::While | Token::Until
        | Token::For | Token::Case | Token::LParen | Token::Lbrace | Token::Bang => true,
        _ => false,
    }
}

/// Check if a token can start a command.
pub fn is_command_start(t: &Token) -> (r: bool)
    ensures
        r == spec_is_command_start(*t),
{
    match t {
        Token::Word(_) | Token::Assignment { .. } | Token::If | Token::While | Token::Until
        | Token::For | Token::Case | Token::LParen | Token::Lbrace | Token::Bang => true,
        _ => false,
    }
}

/// True if the raw word text contains quoting characters.
pub open spec fn spec_has_quoting(w: Seq<char>) -> bool {
    exists|i: int| 0 <= i < w.len() && (w[i] == '\'' || w[i] == '"' || w[i] == '\\')
}

fn has_quoting(w: &Vec<char>) -> (r: bool)
    ensures
        r == spec_has_quoting(w@),
{
    let mut i: usize = 0;
    while i < w.len()
        invariant
            i <= w.len(),
            forall|j: int| 0 <= j < i ==> !(w@[j] == '\'' || w@[j] == '"' || w@[j] == '\\'),
        decreases w.len() - i,
    {
        if w[i] == '\'' || w[i] == '"' || w[i] == '\\' {
            return true;
        }
        i += 1;
    }
    false
}

/// The text of a raw word after quote removal: quote characters dropped,
/// a backslash replaced by the character it escapes.
pub open spec fn spec_unquoted(w: Seq<char>) -> Seq<char>
    decreases w.len(),
{
    if w.len() == 0 {
        Seq::empty()
    } else if w[0] == '\'' || w[0] == '"' {
        spec_unquoted(w.drop_first())
    } else if w[0] == '\\' && w.len() >= 2 {
        seq![w[1]] + spec_unquoted(w.subrange(2, w.len() as int))
    } else {
        seq![w[0]] + spec_unquoted(w.drop_first())
    }
}

/// The text of a raw word after quote removal.
fn unquoted_text(w: &Vec<char>) -> (r: Vec<char>)
    ensures
        r@ == spec_unquoted(w@),
{
    let mut r: Vec<char> = Vec::new();
    let mut i: usize = 0;
    assert(w@.subrange(0, w@.len() as int) =~= w@);
    assert(r@ + spec_unquoted(w@) =~= spec_unquoted(w@));
    while i < w.len()
        invariant
            i <= w.len(),
            r@ + spec_unquoted(w@.subrange(i as int, w@.len() as int)) == spec_unquoted(w@),
        decreases w.len() - i,
    {
        let ghost rest = w@.subrange(i as int, w@.len() as int);
        let c = w[i];
        if c == '\'' || c == '"' {
            assert(rest.drop_first() =~= w@.subrange(i + 1, w@.len() as int));
            i += 1;
        } else if c == '\\' && i + 1 < w.len() {
            r.push(w[i + 1]);
            assert(rest.subrange(2, rest.len() as int) =~= w@.subrange(i + 2, w@.len() as int));
            assert(r@ + spec_unquoted(w@.subrange(i + 2, w@.len() as int)) =~= spec_unquoted(w@));
            i += 2;
        } else {
            r.push(c);
            assert(rest.drop_first() =~= w@.subrange(i + 1, w@.len() as int));
            assert(r@ + spec_unquoted(w@.subrange(i + 1, w@.len() as int)) =~= spec_unquoted(w@));
            i += 1;
        }
    }
    assert(w@.subrange(w@.len() as int, w@.len() as int) =~= Seq::<char>::empty());
    assert(r@ + Seq::<char>::empty() =~= r@);
    r
}

/// True if `w` is one to four decimal digits (an IO_NUMBER candidate).
pub open spec fn spec_is_io_number(w: Seq<char>) -> bool {
    1 <= w.len() <= 4 && forall|i: int| 0 <= i < w.len() ==> '0' <= #[trigger] w[i] <= '9'
}

fn is_io_number(w: &Vec<char>) -> (r: bool)
    ensures
        r == spec_is_io_number(w@),
{
    if w.len() == 0 || w.len() > 4 {
        return false;
    }
    let mut i: usize = 0;
    while i < w.len()
        invariant
            i <= w.len(),
            forall|j: int| 0 <= j < i ==> '0' <= #[trigger] w@[j] <= '9',
        decreases w.len() - i,
    {
        if !('0' <= w[i] && w[i] <= '9') {
            return false;
        }
        i += 1;
    }
    true
}

/// The decimal value of an IO_NUMBER.
fn io_number_value(w: &Vec<char>) -> (r: i32)
    requires
        spec_is_io_number(w@),
    ensures
        r == digits_value(w@),
        0 <= r <= 9999,
{
    let mut v: i32 = 0;
    let mut i: usize = 0;
    while i < w.len()
        invariant
            i <= w.len(),
            w.len() <= 4,
            spec_is_io_number(w@),
            v == digits_value(w@.take(i as int)),
            0 <= v < (if i == 0 { 1int } else if i == 1 { 10int } else if i == 2 { 100int }
                else if i == 3 { 1000int } else { 10000int }),
        decreases w.len() - i,
    {
        assert(w@.take(i + 1).drop_last() =~= w@.take(i as int));
        let d = (w[i] as u32 - 48) as i32;
        v = v * 10 + d;
        i += 1;
    }
    assert(w@.take(w.len() as int) =~= w@);
    v
}

/// Build a here-document body from its raw text.
fn make_heredoc_body(raw: String, quoted: bool, fuel: u64) -> (r: HereDocBody)
    ensures
        body_matches(r, raw@, quoted, fuel as int),
    decreases fuel, 3nat,
{
    if quoted {
        HereDocBody::Literal(raw)
    } else {
        let cs = chars_of(raw.as_str());
        HereDocBody::Parsed(parse_word_parts_heredoc(&cs, fuel))
    }
}

/// Parse a raw word string into word parts (see `word_parts`).
pub fn parse_word_parts(raw: &str) -> (r: Vec<WordPart>)
    ensures
        parts_view(r@) == word_parts(raw@, false, u64::MAX as int),
{
    let cs = chars_of(raw);
    parse_word_parts_impl(&cs, false, u64::MAX)
}

/// Join adjacent literal parts into one.
pub fn coalesce_literals(parts: Vec<WordPart>) -> (r: Vec<WordPart>)
    ensures
        parts_view(r@) == coalesce(parts_view(parts@)),
{
    let ghost orig = parts@;
    let mut parts = parts;
    let mut result: Vec<WordPart> = Vec::new();
    let ghost mut k: int = 0;
    proof {
        assert(orig.subrange(0, 0) =~= Seq::<WordPart>::empty());
        assert(orig.subrange(0, orig.len() as int) =~= orig);
    }
    while parts.len() > 0
        invariant
            0 <= k <= orig.len(),
            parts@ == orig.subrange(k, orig.len() as int),
            parts_view(result@) == coalesce(parts_view(orig.subrange(0, k))),
        decreases parts.len(),
    {
        let part = parts.remove(0);
        let ghost pre = orig.subrange(0, k);
        proof {
            assert(part == orig[k]);
            assert(orig.subrange(0, k + 1) =~= pre.push(part));
            lemma_parts_view_push(pre, part);
            assert(parts_view(pre.push(part)).drop_last() =~= parts_view(pre));
            assert(parts@ =~= orig.subrange(k + 1, orig.len() as int));
        }
        let ghost before = result@;
        match part {
            WordPart::Literal(s) => {
                let last = result.pop();
                match last {
                    Some(WordPart::Literal(prev)) => {
                        let mut joined = prev;
                        joined.append(s.as_str());
                        proof {
                            lemma_parts_view_push(result@, WordPart::Literal(prev));
                            assert(result@.push(WordPart::Literal(prev)) =~= before);
                        }
                        let np = WordPart::Literal(joined);
                        proof {
                            lemma_parts_view_push(result@, np);
                        }
                        result.push(np);
                    },
                    Some(other) => {
                        proof {
                            lemma_parts_view_push(result@, other);
                            assert(result@.push(other) =~= before);
                        }
                        let np = WordPart::Literal(s);
                        proof {
                            lemma_parts_view_push(before, np);
                        }
                        result.push(other);
                        result.push(np);
                    },
                    None => {
                        let np = WordPart::Literal(s);
                        proof {
                            lemma_parts_view_push(result@, np);
                        }
                        result.push(np);
                    },
                }
            },
            other => {
                proof {
                    lemma_parts_view_push(result@, other);
                }
                result.push(other);
            },
        }
        proof {
            k = k + 1;
        }
    }
    proof {
        assert(orig.subrange(0, k) =~= orig);
    }
    result
}

fn literal(cs: &Vec<char>) -> (r: WordPart)
    ensures
        part_view(r) == SPart::Lit(cs@),
{
    WordPart::Literal(string_of(cs))
}

fn literal_char(c: char) -> (r: WordPart)
    ensures
        part_view(r) == SPart::Lit(seq![c]),
{
    let v = vec![c];
    assert(v@ =~= seq![c]);
    WordPart::Literal(string_of(&v))
}

fn literal2(a: char, b: char) -> (r: WordPart)
    ensures
        part_view(r) == SPart::Lit(seq![a, b]),
{
    let v = vec![a, b];
    WordPart::Literal(string_of(&v))
}

/// Scan backtick content starting at `*i` (just after the opening backtick);
/// returns the content and leaves `*i` after the closing backtick.
fn scan_backtick(chars: &Vec<char>, i: &mut usize) -> (r: Vec<char>)
    requires
        *old(i) <= chars.len(),
    ensures
        *old(i) <= *final(i) <= chars.len(),
        *final(i) == backtick_end(chars@, *old(i) as int),
{
    let start = *i;
    while *i < chars.len() && chars[*i] != '`'
        invariant
            start <= *i <= chars.len(),
            backtick_end(chars@, start as int) == backtick_end(chars@, *i as int),
        decreases chars.len() - *i,
    {
        if chars[*i] == '\\' && *i + 1 < chars.len() {
            *i = *i + 1;
        }
        *i = *i + 1;
    }
    let content = slice_chars(chars, start, *i);
    if *i < chars.len() {
        *i = *i + 1;
    }
    content
}

/// Parse word parts in here-document context: quotes are literal and only
/// `\$`, `` \` ``, `\\` and `\<newline>` are special escapes.
fn parse_word_parts_heredoc(chars: &Vec<char>, fuel: u64) -> (r: Vec<WordPart>)
    ensures
        parts_view(r@) == heredoc_parts(chars@, fuel as int),
    decreases fuel, 2nat,
{
    if fuel == 0 {
        proof {
            lemma_parts_view_len(Seq::<WordPart>::empty());
        }
        return Vec::new();
    }
    let ghost cs = chars@;
    let ghost f = fuel as int;
    let mut parts: Vec<WordPart> = Vec::new();
    let mut i: usize = 0;
    proof {
        lemma_parts_view_len(parts@);
    }
    while i < chars.len()
        invariant
            i <= chars.len(),
            fuel > 0,
            cs == chars@,
            f == fuel as int,
            heredoc_loop(cs, 0, f, Seq::empty()) == heredoc_loop(cs, i as int, f, parts_view(parts@)),
        decreases chars.len() - i,
    {
        let c = chars[i];
        if c == '$' {
            i += 1;
            let p = parse_dollar(chars, &mut i, true, fuel - 1);
            let np = match p {
                Some(part) => part,
                None => literal_char('$'),
            };
            proof {
                lemma_parts_view_push(parts@, np);
            }
            parts.push(np);
        } else if c == '`' {
            i += 1;
            let content = scan_backtick(chars, &mut i);
            let cmd = parse_cmdsubst_content(&content, fuel - 1);
            let np = WordPart::Backtick(Box::new(cmd));
            proof {
                lemma_parts_view_push(parts@, np);
            }
            parts.push(np);
        } else if c == '\\' {
            i += 1;
            if i < chars.len() {
                let d = chars[i];
                if d == '\n' {
                    i += 1;
                } else if d == '$' || d == '`' || d == '\\' {
                    let np = literal_char(d);
                    proof {
                        lemma_parts_view_push(parts@, np);
                    }
                    parts.push(np);
                    i += 1;
                } else {
                    let np = literal2('\\', d);
                    proof {
                        lemma_parts_view_push(parts@, np);
                    }
                    parts.push(np);
                    i += 1;
                }
            }
        } else {
            let start = i;
            while i < chars.len() && chars[i] != '$' && chars[i] != '`' && chars[i] != '\\'
                invariant
                    start <= i <= chars.len(),
                    forall|k: int| start <= k < i ==> heredoc_text_char(#[trigger] chars@[k]),
                decreases chars.len() - i,
            {
                i += 1;
            }
            proof {
                assert(start < i);
                crate::arith::lemma_run_end_at(cs, start + 1, i as int, |c: char| heredoc_text_char(c));
            }
            let text = slice_chars(chars, start, i);
            if text.len() > 0 {
                let np = literal(&text);
                proof {
                    lemma_parts_view_push(parts@, np);
                }
                parts.push(np);
            }
        }
    }
    coalesce_literals(parts)
}

/// Parse raw word text into parts (see `word_parts`). `in_dquote` selects
/// double-quote rules (single quotes literal, no tilde).
fn parse_word_parts_impl(chars: &Vec<char>, in_dquote: bool, fuel: u64) -> (r: Vec<WordPart>)
    ensures
        parts_view(r@) == word_parts(chars@, in_dquote, fuel as int),
    decreases fuel, 2nat,
{
    if fuel == 0 {
        proof {
            lemma_parts_view_len(Seq::<WordPart>::empty());
        }
        return Vec::new();
    }
    let ghost cs = chars@;
    let ghost f = fuel as int;
    let mut parts: Vec<WordPart> = Vec::new();
    let mut i: usize = 0;
    proof {
        lemma_parts_view_len(parts@);
    }
    while i < chars.len()
        invariant
            i <= chars.len(),
            fuel > 0,
            cs == chars@,
            f == fuel as int,
            word_loop(cs, 0, in_dquote, f, Seq::empty()) == word_loop(cs, i as int, in_dquote, f, parts_view(parts@)),
        decreases chars.len() - i,
    {
        let ghost i0 = i as int;
        let ghost pv = parts_view(parts@);
        proof {
            lemma_parts_view_len(parts@);
        }
        let c = chars[i];
        if c == '\'' && !in_dquote {
            i += 1;
            let start = i;
            while i < chars.len() && chars[i] != '\''
                invariant
                    start <= i <= chars.len(),
                    forall|k: int| start <= k < i ==> #[trigger] chars@[k] != '\'',
                decreases chars.len() - i,
            {
                i += 1;
            }
            proof {
                crate::arith::lemma_run_end_at(cs, start as int, i as int, |c: char| c != '\'');
            }
            let content = slice_chars(chars, start, i);
            let np = WordPart::SingleQuoted(string_of(&content));
            proof {
                lemma_parts_view_push(parts@, np);
            }
            parts.push(np);
            if i < chars.len() {
                i += 1;
            }
        } else if c == '"' {
            i += 1;
            let inner = parse_double_quoted_parts(chars, &mut i, fuel - 1);
            let np = WordPart::DoubleQuoted(inner);
            proof {
                lemma_parts_view_push(parts@, np);
            }
            parts.push(np);
            if i < chars.len() && chars[i] == '"' {
                i += 1;
            }
        } else if c == '$' {
            i += 1;
            let p = parse_dollar(chars, &mut i, in_dquote, fuel - 1);
            let np = match p {
                Some(part) => part,
                None => literal_char('$'),
            };
            proof {
                lemma_parts_view_push(parts@, np);
            }
            parts.push(np);
        } else if c == '`' {
            i += 1;
            let content = scan_backtick(chars, &mut i);
            let cmd = parse_cmdsubst_content(&content, fuel - 1);
            let np = WordPart::Backtick(Box::new(cmd));
            proof {
                lemma_parts_view_push(parts@, np);
            }
            parts.push(np);
        } else if c == '\\' {
            i += 1;
            if i < chars.len() {
                let d = chars[i];
                if d == '\n' {
                    i += 1;
                } else if in_dquote && (d == '$' || d == '`' || d == '"' || d == '\\') {
                    let np = literal_char(d);
                    proof {
                        lemma_parts_view_push(parts@, np);
                    }
                    parts.push(np);
                    i += 1;
                } else {
                    let np = literal2('\\', d);
                    proof {
                        lemma_parts_view_push(parts@, np);
                    }
                    parts.push(np);
                    i += 1;
                }
            }
        } else if c == '~' && parts.len() == 0 {
            i += 1;
            let start = i;
            while i < chars.len() && chars[i] != '/' && chars[i] != ':' && chars[i] != ' '
                && chars[i] != '\t' && chars[i] != '\n'
                invariant
                    start <= i <= chars.len(),
                    forall|k: int| start <= k < i ==> tilde_char(#[trigger] chars@[k]),
                decreases chars.len() - i,
            {
                i += 1;
            }
            proof {
                crate::arith::lemma_run_end_at(cs, start as int, i as int, |c: char| tilde_char(c));
            }
            let user = slice_chars(chars, start, i);
            let np = WordPart::Tilde(string_of(&user));
            proof {
                lemma_parts_view_push(parts@, np);
            }
            parts.push(np);
        } else {
            let start = i;
            i += 1;
            while i < chars.len() && chars[i] != '$' && chars[i] != '`' && chars[i] != '\\'
                && chars[i] != '"' && (in_dquote || chars[i] != '\'')
                invariant
                    start < i <= chars.len(),
                    forall|k: int| start < k < i ==> plain_char(#[trigger] chars@[k], in_dquote),
                decreases chars.len() - i,
            {
                i += 1;
            }
            proof {
                crate::arith::lemma_run_end_at(cs, start + 1, i as int, |c: char| plain_char(c, in_dquote));
            }
            let text = slice_chars(chars, start, i);
            let np = literal(&text);
            proof {
                lemma_parts_view_push(parts@, np);
            }
            parts.push(np);
        }
    }
    coalesce_literals(parts)
}

/// Parse the inside of a double-quoted region starting at `*i` (see
/// `dq_parts`); stops at the closing quote (not consumed) or the end.
fn parse_double_quoted_parts(chars: &Vec<char>, i: &mut usize, fuel: u64) -> (r: Vec<WordPart>)
    requires
        *old(i) <= chars.len(),
    ensures
        *old(i) <= *final(i) <= chars.len(),
        (parts_view(r@), *final(i) as int) == dq_parts(chars@, *old(i) as int, fuel as int),
    decreases fuel, 2nat,
{
    let mut parts: Vec<WordPart> = Vec::new();
    proof {
        lemma_parts_view_len(parts@);
    }
    if fuel == 0 {
        return parts;
    }
    let ghost cs = chars@;
    let ghost f = fuel as int;
    let mut lit: Vec<char> = Vec::new();
    let ghost start = *i;
    while *i < chars.len() && chars[*i] != '"'
        invariant
            start <= *i <= chars.len(),
            start == *old(i),
            fuel > 0,
            cs == chars@,
            f == fuel as int,
            dq_loop(cs, start as int, f, Seq::empty(), Seq::empty()) == dq_loop(
                cs,
                *i as int,
                f,
                parts_view(parts@),
                lit@,
            ),
        decreases chars.len() - *i,
    {
        let ghost i0 = *i as int;
        let ghost pv0 = parts_view(parts@);
        let ghost lit0 = lit@;
        let c = chars[*i];
        if c == '$' {
            if lit.len() > 0 {
                let np = literal(&lit);
                proof {
                    lemma_parts_view_push(parts@, np);
                }
                parts.push(np);
                lit = Vec::new();
            }
            *i = *i + 1;
            let p = parse_dollar(chars, i, true, fuel - 1);
            assert(parts_view(parts@) == flush(pv0, lit0));
            assert(lit@ == Seq::<char>::empty());
            match p {
                Some(part) => {
                    proof {
                        lemma_parts_view_push(parts@, part);
                    }
                    parts.push(part);
                    assert(dq_loop(cs, i0, f, pv0, lit0) == dq_loop(cs, *i as int, f, parts_view(parts@), lit@));
                },
                None => {
                    lit.push('$');
                    assert(lit@ =~= seq!['$']);
                    assert(dq_loop(cs, i0, f, pv0, lit0) == dq_loop(cs, *i as int, f, parts_view(parts@), lit@));
                },
            }
        } else if c == '`' {
            if lit.len() > 0 {
                let np = literal(&lit);
                proof {
                    lemma_parts_view_push(parts@, np);
                }
                parts.push(np);
                lit = Vec::new();
            }
            *i = *i + 1;
            assert(parts_view(parts@) == flush(pv0, lit0));
            assert(lit@ == Seq::<char>::empty());
            let content = scan_backtick(chars, i);
            let cmd = parse_cmdsubst_content(&content, fuel - 1);
            let np = WordPart::Backtick(Box::new(cmd));
            proof {
                lemma_parts_view_push(parts@, np);
            }
            parts.push(np);
        } else if c == '\\' {
            *i = *i + 1;
            if *i < chars.len() {
                let d = chars[*i];
                let ghost lit0 = lit@;
                if d == '$' || d == '`' || d == '"' || d == '\\' || d == '\n' {
                    if d != '\n' {
                        lit.push(d);
                    }
                } else {
                    lit.push('\\');
                    lit.push(d);
                    assert(lit@ =~= lit0 + seq!['\\', d]);
                }
                *i = *i + 1;
            }
        } else {
            lit.push(c);
            *i = *i + 1;
        }
    }
    if lit.len() > 0 {
        let np = literal(&lit);
        proof {
            lemma_parts_view_push(parts@, np);
        }
        parts.push(np);
    }
    parts
}

fn is_special_param_char(c: char) -> (r: bool)
    ensures
        r == crate::word_syntax::is_special_param(c),
{
    c == '@' || c == '*' || c == '#' || c == '?' || c == '-' || c == '$' || c == '!'
}

fn is_name_char_exec(c: char) -> (r: bool)
    ensures
        r == is_word_name_char(c),
{
    c == '_' || ('a' <= c && c <= 'z') || ('A' <= c && c <= 'Z') || ('0' <= c && c <= '9')
}

fn param_part(name: Vec<char>, op: ParamOp) -> (r: WordPart)
    ensures
        part_view(r) == SPart::Param(name@, crate::word_syntax::op_view(op)),
{
    WordPart::Param(ParamExpr { name: string_of(&name), op, span: Span { offset: 0, line: 0, col: 0 } })
}

/// The parts of an optional `$` expansion, as `dollar` describes them.
pub open spec fn opt_view(p: Option<WordPart>) -> Option<SPart> {
    match p {
        Some(x) => Some(part_view(x)),
        None => None,
    }
}

/// After `$` at `*i`: parse `{...}`, `((...))`, `(...)`, a special parameter,
/// a digit or a name (see `dollar`). `None` when nothing follows that makes
/// an expansion.
fn parse_dollar(chars: &Vec<char>, i: &mut usize, in_dquote: bool, fuel: u64) -> (r: Option<
    WordPart,
>)
    requires
        *old(i) <= chars.len(),
    ensures
        *old(i) <= *final(i) <= chars.len(),
        (opt_view(r), *final(i) as int) == dollar(chars@, *old(i) as int, in_dquote, fuel as int),
    decreases fuel, 2nat,
{
    if fuel == 0 || *i >= chars.len() {
        return None;
    }
    let ghost cs = chars@;
    let ghost s0 = *i as int;
    let c = chars[*i];
    if c == '{' {
        *i = *i + 1;
        Some(parse_brace_param(chars, i, in_dquote, fuel - 1))
    } else if c == '(' {
        *i = *i + 1;
        if *i < chars.len() && chars[*i] == '(' {
            *i = *i + 1;
            let ghost a0 = *i as int;
            let mut content: Vec<char> = Vec::new();
            let mut depth: u64 = 1;
            let mut done = false;
            while !done && *i < chars.len()
                invariant
                    *old(i) <= *i <= chars.len(),
                    cs == chars@,
                    !done ==> arith_scan(cs, a0, 1, Seq::empty()) == arith_scan(
                        cs,
                        *i as int,
                        depth as int,
                        content@,
                    ),
                    done ==> arith_scan(cs, a0, 1, Seq::empty()) == (content@, *i as int),
                decreases chars.len() - *i, if done { 0nat } else { 1nat },
            {
                let d = chars[*i];
                if d == ')' && *i + 1 < chars.len() && chars[*i + 1] == ')' && depth == 1 {
                    *i = *i + 2;
                    done = true;
                } else if d == '(' {
                    if depth < u64::MAX {
                        depth = depth + 1;
                    }
                    content.push(d);
                    *i = *i + 1;
                } else if d == ')' {
                    if depth > 0 {
                        depth = depth - 1;
                    }
                    content.push(d);
                    *i = *i + 1;
                } else {
                    content.push(d);
                    *i = *i + 1;
                }
            }
            let inner = parse_word_parts_impl(&content, false, fuel - 1);
            Some(WordPart::Arith(inner))
        } else {
            let ghost c0 = *i as int;
            let mut content: Vec<char> = Vec::new();
            let mut depth: u64 = 1;
            let mut done = false;
            while !done && *i < chars.len()
                invariant
                    *old(i) <= *i <= chars.len(),
                    cs == chars@,
                    !done ==> cmdsubst_end(cs, c0, 1) == cmdsubst_end(cs, *i as int, depth as int),
                    done ==> cmdsubst_end(cs, c0, 1) == *i as int,
                decreases chars.len() - *i, if done { 0nat } else { 1nat },
            {
                let d = chars[*i];
                if d == ')' {
                    if depth > 0 {
                        depth = depth - 1;
                    }
                    if depth == 0 {
                        *i = *i + 1;
                        done = true;
                    } else {
                        content.push(')');
                        *i = *i + 1;
                    }
                } else if d == '(' {
                    if depth < u64::MAX {
                        depth = depth + 1;
                    }
                    content.push('(');
                    *i = *i + 1;
                } else if d == '\'' {
                    content.push('\'');
                    *i = *i + 1;
                    let q = *i;
                    while *i < chars.len() && chars[*i] != '\''
                        invariant
                            q <= *i <= chars.len(),
                            forall|k: int| q <= k < *i ==> #[trigger] chars@[k] != '\'',
                        decreases chars.len() - *i,
                    {
                        content.push(chars[*i]);
                        *i = *i + 1;
                    }
                    proof {
                        crate::arith::lemma_run_end_at(cs, q as int, *i as int, |c: char| c != '\'');
                    }
                    if *i < chars.len() {
                        content.push('\'');
                        *i = *i + 1;
                    } else {
                        done = true;
                    }
                } else {
                    content.push(d);
                    *i = *i + 1;
                }
            }
            let cmd = parse_cmdsubst_content(&content, fuel - 1);
            Some(WordPart::CmdSubst(Box::new(cmd)))
        }
    } else if is_special_param_char(c) || ('0' <= c && c <= '9') {
        *i = *i + 1;
        let v = vec![c];
        assert(v@ =~= seq![c]);
        Some(param_part(v, ParamOp::Normal))
    } else if c == '_' || ('a' <= c && c <= 'z') || ('A' <= c && c <= 'Z') {
        let start = *i;
        while *i < chars.len() && is_name_char_exec(chars[*i])
            invariant
                start <= *i <= chars.len(),
                start == *old(i),
                forall|k: int| start <= k < *i ==> is_word_name_char(#[trigger] chars@[k]),
            decreases chars.len() - *i,
        {
            *i = *i + 1;
        }
        proof {
            crate::arith::lemma_run_end_at(cs, start as int, *i as int, |c: char| is_word_name_char(c));
        }
        let name = slice_chars(chars, start, *i);
        Some(param_part(name, ParamOp::Normal))
    } else {
        None
    }
}

/// Skip to just past the next `}` (or the end).
fn skip_past_brace(chars: &Vec<char>, i: &mut usize)
    requires
        *old(i) <= chars.len(),
    ensures
        *old(i) <= *final(i) <= chars.len(),
        *final(i) == past_brace(chars@, *old(i) as int),
{
    let start = *i;
    while *i < chars.len() && chars[*i] != '}'
        invariant
            start <= *i <= chars.len(),
            forall|k: int| start <= k < *i ==> #[trigger] chars@[k] != '}',
        decreases chars.len() - *i,
    {
        *i = *i + 1;
    }
    proof {
        crate::arith::lemma_run_end_at(chars@, start as int, *i as int, |c: char| c != '}');
    }
    if *i < chars.len() {
        *i = *i + 1;
    }
}

/// Parse `${...}` after the opening `{` (see `brace_param`).
fn parse_brace_param(chars: &Vec<char>, i: &mut usize, in_dquote: bool, fuel: u64) -> (r:
    WordPart)
    requires
        *old(i) <= chars.len(),
    ensures
        *old(i) <= *final(i) <= chars.len(),
        (part_view(r), *final(i) as int) == brace_param(chars@, *old(i) as int, in_dquote, fuel as int),
    decreases fuel, 2nat,
{
    let ghost cs = chars@;
    if *i >= chars.len() {
        return literal2('$', '{');
    }
    if fuel == 0 {
        skip_past_brace(chars, i);
        return literal2('$', '{');
    }
    let length = chars[*i] == '#' && *i + 1 < chars.len() && chars[*i + 1] != '}';
    if length {
        *i = *i + 1;
    }
    let start = *i;
    if *i < chars.len() && is_special_param_char(chars[*i]) {
        *i = *i + 1;
    } else if *i < chars.len() && '0' <= chars[*i] && chars[*i] <= '9' {
        while *i < chars.len() && '0' <= chars[*i] && chars[*i] <= '9'
            invariant
                start <= *i <= chars.len(),
                *old(i) <= start,
                forall|k: int| start <= k < *i ==> is_digit_char(#[trigger] chars@[k]),
            decreases chars.len() - *i,
        {
            *i = *i + 1;
        }
        proof {
            crate::arith::lemma_run_end_at(cs, start as int, *i as int, |c: char| is_digit_char(c));
        }
    } else {
        while *i < chars.len() && is_name_char_exec(chars[*i])
            invariant
                start <= *i <= chars.len(),
                *old(i) <= start,
                forall|k: int| start <= k < *i ==> is_word_name_char(#[trigger] chars@[k]),
            decreases chars.len() - *i,
        {
            *i = *i + 1;
        }
        proof {
            crate::arith::lemma_run_end_at(cs, start as int, *i as int, |c: char| is_word_name_char(c));
        }
    }
    assert(*i as int == brace_name_end(cs, start as int));
    let name = slice_chars(chars, start, *i);
    if length {
        skip_past_brace(chars, i);
        return param_part(name, ParamOp::Length);
    }
    if *i >= chars.len() || chars[*i] == '}' {
        if *i < chars.len() {
            *i = *i + 1;
        }
        return param_part(name, ParamOp::Normal);
    }
    let op_char = chars[*i];
    if !(op_char == ':' || op_char == '-' || op_char == '=' || op_char == '?' || op_char == '+'
        || op_char == '%' || op_char == '#') {
        skip_past_brace(chars, i);
        let mut bad = name;
        bad.push(op_char);
        return param_part(bad, ParamOp::BadSubst);
    }
    *i = *i + 1;
    let op = if op_char == ':' && *i < chars.len() {
        let op2 = chars[*i];
        *i = *i + 1;
        let word = read_brace_word(chars, i, in_dquote, fuel - 1);
        if op2 == '-' {
            ParamOp::Default { colon: true, word }
        } else if op2 == '=' {
            ParamOp::Assign { colon: true, word }
        } else if op2 == '?' {
            ParamOp::Error { colon: true, word }
        } else if op2 == '+' {
            ParamOp::Alternative { colon: true, word }
        } else {
            ParamOp::Normal
        }
    } else if op_char == '-' {
        ParamOp::Default { colon: false, word: read_brace_word(chars, i, in_dquote, fuel - 1) }
    } else if op_char == '=' {
        ParamOp::Assign { colon: false, word: read_brace_word(chars, i, in_dquote, fuel - 1) }
    } else if op_char == '?' {
        ParamOp::Error { colon: false, word: read_brace_word(chars, i, in_dquote, fuel - 1) }
    } else if op_char == '+' {
        ParamOp::Alternative { colon: false, word: read_brace_word(chars, i, in_dquote, fuel - 1) }
    } else if op_char == '%' {
        // Trim patterns always use unquoted rules: single quotes quote.
        if *i < chars.len() && chars[*i] == '%' {
            *i = *i + 1;
            ParamOp::TrimSuffixLarge(read_brace_word(chars, i, false, fuel - 1))
        } else {
            ParamOp::TrimSuffixSmall(read_brace_word(chars, i, false, fuel - 1))
        }
    } else if op_char == '#' {
        if *i < chars.len() && chars[*i] == '#' {
            *i = *i + 1;
            ParamOp::TrimPrefixLarge(read_brace_word(chars, i, false, fuel - 1))
        } else {
            ParamOp::TrimPrefixSmall(read_brace_word(chars, i, false, fuel - 1))
        }
    } else {
        skip_past_brace(chars, i);
        ParamOp::Normal
    };
    param_part(name, op)
}

/// Read the word of `${var<op>word}` up to the closing `}` and parse it
/// (see `brace_word`).
fn read_brace_word(chars: &Vec<char>, i: &mut usize, in_dquote: bool, fuel: u64) -> (r: Vec<
    WordPart,
>)
    requires
        *old(i) <= chars.len(),
    ensures
        *old(i) <= *final(i) <= chars.len(),
        (parts_view(r@), *final(i) as int) == brace_word(chars@, *old(i) as int, in_dquote, fuel as int),
    decreases fuel, 2nat,
{
    let ghost cs = chars@;
    let ghost s0 = *i as int;
    let mut raw: Vec<char> = Vec::new();
    let mut depth: u64 = 1;
    let mut done = false;
    while !done && *i < chars.len()
        invariant
            *old(i) <= *i <= chars.len(),
            s0 == *old(i) as int,
            cs == chars@,
            !done ==> brace_word_scan(cs, s0, in_dquote, 1, Seq::empty()) == brace_word_scan(
                cs,
                *i as int,
                in_dquote,
                depth as int,
                raw@,
            ),
            done ==> brace_word_scan(cs, s0, in_dquote, 1, Seq::empty()) == (raw@, *i as int),
        decreases chars.len() - *i, if done { 0nat } else { 1nat },
    {
        let c = chars[*i];
        if c == '}' {
            if depth > 0 {
                depth = depth - 1;
            }
            if depth == 0 {
                *i = *i + 1;
                done = true;
            } else {
                raw.push('}');
                *i = *i + 1;
            }
        } else if c == '$' && *i + 1 < chars.len() && chars[*i + 1] == '{' {
            if depth < u64::MAX {
                depth = depth + 1;
            }
            let ghost r0 = raw@;
            raw.push('$');
            raw.push('{');
            assert(raw@ =~= r0 + seq!['$', '{']);
            *i = *i + 2;
        } else if c == '\'' && !in_dquote {
            let ghost q0 = *i as int;
            raw.push('\'');
            *i = *i + 1;
            let ghost r1 = raw@;
            let q = *i;
            while *i < chars.len() && chars[*i] != '\''
                invariant
                    q <= *i <= chars.len(),
                    forall|k: int| q <= k < *i ==> #[trigger] chars@[k] != '\'',
                    raw@ == r1 + chars@.subrange(q as int, *i as int),
                decreases chars.len() - *i,
            {
                let ghost rr = raw@;
                raw.push(chars[*i]);
                assert(chars@.subrange(q as int, *i + 1) =~= chars@.subrange(q as int, *i as int).push(chars@[*i as int]));
                assert(raw@ =~= r1 + chars@.subrange(q as int, *i + 1));
                *i = *i + 1;
            }
            proof {
                crate::arith::lemma_run_end_at(cs, q as int, *i as int, |c: char| c != '\'');
            }
            if *i < chars.len() {
                raw.push('\'');
                *i = *i + 1;
            } else {
                done = true;
            }
        } else if c == '\\' {
            let ghost r0 = raw@;
            raw.push('\\');
            *i = *i + 1;
            if *i < chars.len() {
                raw.push(chars[*i]);
                assert(raw@ =~= r0 + seq!['\\', chars@[*i as int]]);
                *i = *i + 1;
            } else {
                done = true;
            }
        } else {
            raw.push(c);
            *i = *i + 1;
        }
    }
    if fuel == 0 {
        proof {
            lemma_parts_view_len(Seq::<WordPart>::empty());
        }
        return Vec::new();
    }
    parse_word_parts_impl(&raw, in_dquote, fuel - 1)
}

fn empty_simple() -> (r: Command)
    ensures
        r matches Command::Simple { assigns, args, redirs, span } && assigns@.len() == 0 && args@.len() == 0
            && redirs@.len() == 0 && span.offset == 0 && span.line == 0 && span.col == 0,
{
    Command::Simple {
        assigns: Vec::new(),
        args: Vec::new(),
        redirs: Vec::new(),
        span: Span { offset: 0, line: 0, col: 0 },
    }
}

/// A simple command with no assignments, words or redirections.
pub open spec fn is_empty_simple(c: Command) -> bool {
    c matches Command::Simple { assigns, args, redirs, .. } && assigns@.len() == 0 && args@.len() == 0
        && redirs@.len() == 0
}

/// Command lists joined by sequences from the left.
pub open spec fn joined_lists(c: Command) -> bool
    decreases c,
{
    match c {
        Command::Sequence(l, r) => joined_lists(*l) && list_shape(*r),
        _ => list_shape(c),
    }
}

/// A command list is itself a joined sequence of command lists.
proof fn lemma_list_joined(c: Command)
    requires
        list_shape(c),
    ensures
        joined_lists(c),
    decreases c,
{
    if let Command::Sequence(l, r) = c {
        lemma_list_joined(*l);
        assert(list_shape(*r));
    }
}

/// Parse command substitution content with a nested parser. A list of
/// commands becomes a sequence; a parse error or empty content becomes an
/// empty simple command.
pub fn parse_cmdsubst_content(content: &Vec<char>, fuel: u64) -> (r: Command)
    ensures
        fuel == 0 ==> is_empty_simple(r),
        is_empty_simple(r) || joined_lists(r),
    decreases fuel, 2nat,
{
    if fuel == 0 {
        return empty_simple();
    }
    let mut p = Parser { lexer: Lexer::from_chars(content.clone()), heredoc_bodies: Vec::new(), fuel: fuel - 1 };
    match p.parse() {
        Ok(program) => {
            let mut cmds = program.commands;
            if cmds.len() == 0 {
                empty_simple()
            } else {
                let ghost all = cmds@;
                let mut result = cmds.remove(0);
                proof {
                    lemma_list_joined(result);
                }
                let ghost mut k: int = 1;
                while cmds.len() > 0
                    invariant
                        1 <= k <= all.len(),
                        cmds@ == all.skip(k),
                        forall|i: int| 0 <= i < all.len() ==> list_shape(#[trigger] all[i]),
                        joined_lists(result),
                    decreases cmds.len(),
                {
                    let c = cmds.remove(0);
                    proof {
                        assert(c == all[k]);
                        assert(cmds@ =~= all.skip(k + 1));
                        k = k + 1;
                    }
                    result = Command::Sequence(Box::new(result), Box::new(c));
                }
                result
            }
        },
        Err(_) => empty_simple(),
    }
}

/// Replace the placeholder bodies of here-document redirections, in order,
/// with the bodies read so far.
/// A here-document redirection whose body is still the empty placeholder.
pub open spec fn is_placeholder(k: RedirKind) -> bool {
    match k {
        RedirKind::HereDoc(HereDocBody::Literal(s)) => s@.len() == 0,
        RedirKind::HereDocStrip(HereDocBody::Literal(s)) => s@.len() == 0,
        _ => false,
    }
}

/// The index of the next body once `rs[..j]` is patched from index `i`,
/// with `n` bodies read.
pub open spec fn patch_index(rs: Seq<Redir>, n: int, i: int, j: int) -> int
    decreases j,
{
    if j <= 0 || j > rs.len() {
        i
    } else {
        let p = patch_index(rs, n, i, j - 1);
        if p < n && is_placeholder(rs[j - 1].kind) {
            p + 1
        } else {
            p
        }
    }
}

/// `got` is `k` patched with `bodies[p]`: a placeholder takes that body,
/// when there is one; any other kind stays as it is.
pub open spec fn patched_kind(got: RedirKind, k: RedirKind, bodies: Seq<HereDocBody>, p: int) -> bool {
    if 0 <= p < bodies.len() && is_placeholder(k) {
        match k {
            RedirKind::HereDoc(_) => got matches RedirKind::HereDoc(b) && heredoc_same(b, bodies[p]),
            _ => got matches RedirKind::HereDocStrip(b) && heredoc_same(b, bodies[p]),
        }
    } else {
        got == k
    }
}

fn patch_heredoc_redirs(redirs: Vec<Redir>, bodies: &Vec<HereDocBody>, idx: &mut usize) -> (r: Vec<
    Redir,
>)
    ensures
        r@.len() == redirs@.len(),
        *final(idx) == patch_index(redirs@, bodies@.len() as int, *old(idx) as int, redirs@.len() as int),
        *old(idx) <= *final(idx),
        *final(idx) <= *old(idx) || *final(idx) <= bodies@.len(),
        redirs_patched(r@, redirs@),
        forall|j: int| 0 <= j < redirs@.len() ==> #[trigger] r@[j].fd == redirs@[j].fd && r@[j].span == redirs@[j].span
            && patched_kind(
            r@[j].kind,
            redirs@[j].kind,
            bodies@,
            patch_index(redirs@, bodies@.len() as int, *old(idx) as int, j),
        ),
{
    let ghost orig = redirs@;
    let ghost n = bodies@.len() as int;
    let ghost i0 = *idx as int;
    let mut redirs = redirs;
    let mut out: Vec<Redir> = Vec::new();
    let ghost mut j: int = 0;
    while redirs.len() > 0
        invariant
            0 <= j <= orig.len(),
            redirs@ == orig.skip(j),
            out@.len() == j,
            n == bodies@.len(),
            *idx as int == patch_index(orig, n, i0, j),
            i0 <= *idx,
            *idx <= i0 || *idx <= n,
            forall|t: int| 0 <= t < j ==> redir_patched(#[trigger] out@[t], orig[t]),
            forall|t: int| 0 <= t < j ==> #[trigger] out@[t].fd == orig[t].fd && out@[t].span == orig[t].span
                && patched_kind(out@[t].kind, orig[t].kind, bodies@, patch_index(orig, n, i0, t)),
        decreases redirs.len(),
    {
        let ghost p = *idx as int;
        let rd = redirs.remove(0);
        proof {
            assert(rd == orig[j]);
            assert(redirs@ =~= orig.skip(j + 1));
        }
        let Redir { fd, kind, span } = rd;
        let kind = if *idx < bodies.len() {
            match kind {
                RedirKind::HereDoc(HereDocBody::Literal(s)) => {
                    if s.as_str().is_empty() {
                        let b = clone_heredoc(&bodies[*idx]);
                        *idx = *idx + 1;
                        RedirKind::HereDoc(b)
                    } else {
                        RedirKind::HereDoc(HereDocBody::Literal(s))
                    }
                },
                RedirKind::HereDocStrip(HereDocBody::Literal(s)) => {
                    if s.as_str().is_empty() {
                        let b = clone_heredoc(&bodies[*idx]);
                        *idx = *idx + 1;
                        RedirKind::HereDocStrip(b)
                    } else {
                        RedirKind::HereDocStrip(HereDocBody::Literal(s))
                    }
                },
                other => other,
            }
        } else {
            kind
        };
        out.push(Redir { fd, kind, span });
        proof {
            assert(out@[j] == Redir { fd, kind, span });
            j = j + 1;
        }
    }
    out
}

/// `got` is the redirection `orig` with at most its placeholder body
/// replaced, by a body of the same operator.
pub open spec fn redir_patched(got: Redir, orig: Redir) -> bool {
    &&& got.fd == orig.fd
    &&& got.span == orig.span
    &&& got.kind == orig.kind || (is_placeholder(orig.kind) && (orig.kind is HereDoc ==> got.kind is HereDoc) && (
    orig.kind is HereDocStrip ==> got.kind is HereDocStrip))
}

/// Two lists of redirections, one by one patched.
pub open spec fn redirs_patched(got: Seq<Redir>, orig: Seq<Redir>) -> bool {
    got.len() == orig.len() && forall|i: int| 0 <= i < orig.len() ==> redir_patched(#[trigger] got[i], orig[i])
}

/// `got` is the command tree `orig` in which only placeholder
/// here-document bodies were replaced: every other part is as it was.
pub open spec fn tree_patched(got: Command, orig: Command) -> bool
    decreases orig,
{
    match (got, orig) {
        (
            Command::Simple { assigns: a1, args: g1, redirs: r1, span: s1 },
            Command::Simple { assigns: a2, args: g2, redirs: r2, span: s2 },
        ) => a1 == a2 && g1 == g2 && redirs_patched(r1@, r2@) && s1 == s2,
        (
            Command::Pipeline { commands: c1, bang: b1, span: s1 },
            Command::Pipeline { commands: c2, bang: b2, span: s2 },
        ) => {
            &&& c1@.len() == c2@.len()
            &&& forall|i: int| 0 <= i < c2@.len() ==> tree_patched(#[trigger] c1@[i], c2@[i])
            &&& b1 == b2
            &&& s1 == s2
        },
        (Command::And(l1, r1), Command::And(l2, r2)) => tree_patched(*l1, *l2) && tree_patched(*r1, *r2),
        (Command::Or(l1, r1), Command::Or(l2, r2)) => tree_patched(*l1, *l2) && tree_patched(*r1, *r2),
        (Command::Sequence(l1, r1), Command::Sequence(l2, r2)) => tree_patched(*l1, *l2) && tree_patched(*r1, *r2),
        (
            Command::Subshell { body: b1, redirs: r1, span: s1 },
            Command::Subshell { body: b2, redirs: r2, span: s2 },
        ) => tree_patched(*b1, *b2) && redirs_patched(r1@, r2@) && s1 == s2,
        (
            Command::BraceGroup { body: b1, redirs: r1, span: s1 },
            Command::BraceGroup { body: b2, redirs: r2, span: s2 },
        ) => tree_patched(*b1, *b2) && redirs_patched(r1@, r2@) && s1 == s2,
        (
            Command::If { cond: c1, then_part: t1, else_part: e1, span: s1 },
            Command::If { cond: c2, then_part: t2, else_part: e2, span: s2 },
        ) => {
            &&& tree_patched(*c1, *c2)
            &&& tree_patched(*t1, *t2)
            &&& match (e1, e2) {
                (Some(x), Some(y)) => tree_patched(*x, *y),
                (None, None) => true,
                _ => false,
            }
            &&& s1 == s2
        },
        (
            Command::While { cond: c1, body: b1, span: s1 },
            Command::While { cond: c2, body: b2, span: s2 },
        ) => tree_patched(*c1, *c2) && tree_patched(*b1, *b2) && s1 == s2,
        (
            Command::Until { cond: c1, body: b1, span: s1 },
            Command::Until { cond: c2, body: b2, span: s2 },
        ) => tree_patched(*c1, *c2) && tree_patched(*b1, *b2) && s1 == s2,
        (
            Command::For { var: v1, words: w1, body: b1, span: s1 },
            Command::For { var: v2, words: w2, body: b2, span: s2 },
        ) => v1 == v2 && w1 == w2 && tree_patched(*b1, *b2) && s1 == s2,
        (Command::Case { word: w1, arms: a1, span: s1 }, Command::Case { word: w2, arms: a2, span: s2 }) => {
            &&& w1 == w2
            &&& a1@.len() == a2@.len()
            &&& forall|i: int| 0 <= i < a2@.len() ==> (#[trigger] a1@[i]).patterns == a2@[i].patterns && a1@[i].span
                == a2@[i].span && match (a1@[i].body, a2@[i].body) {
                (Some(x), Some(y)) => tree_patched(x, y),
                (None, None) => true,
                _ => false,
            }
            &&& s1 == s2
        },
        (
            Command::FuncDef { name: n1, body: b1, span: s1 },
            Command::FuncDef { name: n2, body: b2, span: s2 },
        ) => n1 == n2 && tree_patched(*b1, *b2) && s1 == s2,
        (Command::Not(x), Command::Not(y)) => tree_patched(*x, *y),
        (Command::Background { cmd: c1, redirs: r1 }, Command::Background { cmd: c2, redirs: r2 }) => tree_patched(
            *c1,
            *c2,
        ) && redirs_patched(r1@, r2@),
        _ => false,
    }
}

/// Patching keeps a command's kind.
proof fn lemma_patched_command_shape(got: Command, orig: Command)
    requires
        tree_patched(got, orig),
    ensures
        command_shape(orig) ==> command_shape(got),
        pipeline_shape(orig) ==> pipeline_shape(got),
{
    match (got, orig) {
        (Command::Pipeline { commands: c1, .. }, Command::Pipeline { commands: c2, .. }) => {
            if pipeline_shape(orig) {
                assert forall|i: int| 0 <= i < c1@.len() implies command_shape(#[trigger] c1@[i]) by {
                    assert(tree_patched(c1@[i], c2@[i]));
                    assert(command_shape(c2@[i]));
                }
            }
        },
        _ => {},
    }
}

/// Patching keeps the grammar's shape of and-or lists and command lists.
proof fn lemma_patched_list_shape(got: Command, orig: Command)
    requires
        tree_patched(got, orig),
    ensures
        and_or_shape(orig) ==> and_or_shape(got),
        list_shape(orig) ==> list_shape(got),
    decreases orig,
{
    lemma_patched_command_shape(got, orig);
    match (got, orig) {
        (Command::And(l1, r1), Command::And(l2, r2)) => {
            lemma_patched_list_shape(*l1, *l2);
            lemma_patched_command_shape(*r1, *r2);
        },
        (Command::Or(l1, r1), Command::Or(l2, r2)) => {
            lemma_patched_list_shape(*l1, *l2);
            lemma_patched_command_shape(*r1, *r2);
        },
        (Command::Sequence(l1, r1), Command::Sequence(l2, r2)) => {
            lemma_patched_list_shape(*l1, *l2);
            lemma_patched_list_shape(*r1, *r2);
        },
        (Command::Background { cmd: c1, .. }, Command::Background { cmd: c2, .. }) => {
            lemma_patched_list_shape(*c1, *c2);
        },
        _ => {},
    }
}

fn patch_heredocs_inner(cmd: Command, bodies: &Vec<HereDocBody>, idx: &mut usize) -> (r: Command)
    ensures
        tree_patched(r, cmd),
        *old(idx) <= *final(idx),
        *final(idx) <= *old(idx) || *final(idx) <= bodies@.len(),
    decreases cmd,
{
    match cmd {
        Command::Simple { assigns, args, redirs, span } => Command::Simple {
            assigns,
            args,
            redirs: patch_heredoc_redirs(redirs, bodies, idx),
            span,
        },
        Command::Pipeline { commands, bang, span } => {
            let ghost orig = commands@;
            proof {
                assert forall|k: int| 0 <= k < orig.len() implies decreases_to!(cmd => #[trigger] orig[k]) by {
                    assert(decreases_to!(cmd => commands));
                    assert(decreases_to!(commands => commands@));
                    assert(decreases_to!(commands@ => commands@[k]));
                }
            }
            let mut commands = commands;
            let mut out: Vec<Command> = Vec::new();
            let ghost i0 = *idx;
            while commands.len() > 0
                invariant
                    commands@.len() <= orig.len(),
                    commands@ == orig.subrange(orig.len() - commands@.len(), orig.len() as int),
                    forall|k: int| 0 <= k < orig.len() ==> decreases_to!(cmd => #[trigger] orig[k]),
                    out@.len() == orig.len() - commands@.len(),
                    forall|k: int| 0 <= k < out@.len() ==> tree_patched(#[trigger] out@[k], orig[k]),
                    i0 <= *idx,
                    *idx <= i0 || *idx <= bodies@.len(),
                decreases commands.len(),
            {
                let ghost j = orig.len() - commands@.len();
                let c = commands.remove(0);
                assert(c == orig[j]);
                out.push(patch_heredocs_inner(c, bodies, idx));
            }
            Command::Pipeline { commands: out, bang, span }
        },
        Command::And(l, r) => {
            let l2 = patch_heredocs_inner(*l, bodies, idx);
            let r2 = patch_heredocs_inner(*r, bodies, idx);
            Command::And(Box::new(l2), Box::new(r2))
        },
        Command::Or(l, r) => {
            let l2 = patch_heredocs_inner(*l, bodies, idx);
            let r2 = patch_heredocs_inner(*r, bodies, idx);
            Command::Or(Box::new(l2), Box::new(r2))
        },
        Command::Sequence(l, r) => {
            let l2 = patch_heredocs_inner(*l, bodies, idx);
            let r2 = patch_heredocs_inner(*r, bodies, idx);
            Command::Sequence(Box::new(l2), Box::new(r2))
        },
        Command::Subshell { body, redirs, span } => {
            let b = patch_heredocs_inner(*body, bodies, idx);
            Command::Subshell { body: Box::new(b), redirs: patch_heredoc_redirs(redirs, bodies, idx), span }
        },
        Command::BraceGroup { body, redirs, span } => {
            let b = patch_heredocs_inner(*body, bodies, idx);
            Command::BraceGroup { body: Box::new(b), redirs: patch_heredoc_redirs(redirs, bodies, idx), span }
        },
        Command::If { cond, then_part, else_part, span } => {
            let c2 = patch_heredocs_inner(*cond, bodies, idx);
            let t2 = patch_heredocs_inner(*then_part, bodies, idx);
            let e2 = match else_part {
                Some(e) => Some(Box::new(patch_heredocs_inner(*e, bodies, idx))),
                None => None,
            };
            Command::If { cond: Box::new(c2), then_part: Box::new(t2), else_part: e2, span }
        },
        Command::While { cond, body, span } => {
            let c2 = patch_heredocs_inner(*cond, bodies, idx);
            let b2 = patch_heredocs_inner(*body, bodies, idx);
            Command::While { cond: Box::new(c2), body: Box::new(b2), span }
        },
        Command::Until { cond, body, span } => {
            let c2 = patch_heredocs_inner(*cond, bodies, idx);
            let b2 = patch_heredocs_inner(*body, bodies, idx);
            Command::Until { cond: Box::new(c2), body: Box::new(b2), span }
        },
        Command::For { var, words, body, span } => {
            let b2 = patch_heredocs_inner(*body, bodies, idx);
            Command::For { var, words, body: Box::new(b2), span }
        },
        Command::Case { word, arms, span } => {
            let ghost orig = arms@;
            proof {
                assert forall|k: int| 0 <= k < orig.len() implies decreases_to!(cmd => #[trigger] orig[k]) by {
                    assert(decreases_to!(cmd => arms));
                    assert(decreases_to!(arms => arms@));
                    assert(decreases_to!(arms@ => arms@[k]));
                }
            }
            let mut arms = arms;
            let mut out: Vec<CaseArm> = Vec::new();
            let ghost i0 = *idx;
            while arms.len() > 0
                invariant
                    arms@.len() <= orig.len(),
                    arms@ == orig.subrange(orig.len() - arms@.len(), orig.len() as int),
                    forall|k: int| 0 <= k < orig.len() ==> decreases_to!(cmd => #[trigger] orig[k]),
                    out@.len() == orig.len() - arms@.len(),
                    forall|k: int| 0 <= k < out@.len() ==> (#[trigger] out@[k]).patterns == orig[k].patterns
                        && out@[k].span == orig[k].span && match (out@[k].body, orig[k].body) {
                        (Some(x), Some(y)) => tree_patched(x, y),
                        (None, None) => true,
                        _ => false,
                    },
                    i0 <= *idx,
                    *idx <= i0 || *idx <= bodies@.len(),
                decreases arms.len(),
            {
                let ghost j = orig.len() - arms@.len();
                let arm = arms.remove(0);
                assert(arm == orig[j]);
                let CaseArm { patterns, body, span: arm_span } = arm;
                let body2 = match body {
                    Some(b) => {
                        assert(decreases_to!(orig[j] => orig[j].body));
                        assert(decreases_to!(orig[j].body => b));
                        Some(patch_heredocs_inner(b, bodies, idx))
                    },
                    None => None,
                };
                out.push(CaseArm { patterns, body: body2, span: arm_span });
            }
            Command::Case { word, arms: out, span }
        },
        Command::FuncDef { name, body, span } => {
            let b2 = patch_heredocs_inner(*body, bodies, idx);
            Command::FuncDef { name, body: Box::new(b2), span }
        },
        Command::Not(inner) => {
            let i2 = patch_heredocs_inner(*inner, bodies, idx);
            Command::Not(Box::new(i2))
        },
        Command::Background { cmd: inner, redirs } => {
            let i2 = patch_heredocs_inner(*inner, bodies, idx);
            Command::Background { cmd: Box::new(i2), redirs: patch_heredoc_redirs(redirs, bodies, idx) }
        },
    }
}

/// `b` is the body built from the raw text `raw` of a here-document that
/// is `quoted` or not.
pub open spec fn body_matches(b: HereDocBody, raw: Seq<char>, quoted: bool, fuel: int) -> bool {
    match b {
        HereDocBody::Literal(s) => quoted && s@ == raw,
        HereDocBody::Parsed(ps) => !quoted && parts_view(ps@) == heredoc_parts(raw, fuel),
    }
}

/// The position after the bodies of the first `k` of `pending`, read one
/// after another from `p`.
pub open spec fn heredocs_end(src: Seq<char>, p: int, pending: Seq<PendingHereDoc>, k: int) -> int
    decreases k,
{
    if k <= 0 || k > pending.len() {
        p
    } else {
        heredoc_scan(
            src,
            heredocs_end(src, p, pending, k - 1),
            pending[k - 1].delimiter@,
            pending[k - 1].strip_tabs,
            Seq::empty(),
        ).1
    }
}

/// The raw text of the body of `pending[k]`, read after those before it.
pub open spec fn heredoc_raw(src: Seq<char>, p: int, pending: Seq<PendingHereDoc>, k: int) -> Seq<char> {
    heredoc_scan(src, heredocs_end(src, p, pending, k), pending[k].delimiter@, pending[k].strip_tabs, Seq::empty()).0
}

/// The value of the next token the parser reads: the pushed-back token,
/// else the one that starts at the lexer's position.
pub open spec fn next_view(l: Lexer) -> Option<TokView> {
    match l.pushed() {
        Some((t, _)) => Some(tok_view(t)),
        None => match lex_next(l.source(), l.position(), l.recognize_reserved) {
            Some((tv, _)) => Some(tv),
            None => None,
        },
    }
}

/// The command inside the brace group that trailing redirections of a
/// compound command add; any other command itself.
pub open spec fn unwrapped(c: Command) -> Command {
    match c {
        Command::BraceGroup { body, .. } => *body,
        _ => c,
    }
}

/// The next token is neither a redirection operator nor a word (which
/// could be the descriptor number of one).
pub open spec fn no_redirection_next(l: Lexer) -> bool {
    match next_view(l) {
        Some(TokView::Other(t)) => !spec_is_redir(t),
        Some(TokView::Assignment(_, _)) => true,
        _ => false,
    }
}

/// A command as `command` of the grammar gives it: a compound command, a
/// function definition or a simple command.
pub open spec fn command_shape(c: Command) -> bool {
    !(c is And || c is Or || c is Sequence || c is Not || c is Background || c is Pipeline)
}

/// A pipeline as the grammar gives it: a pipeline node of commands, or a
/// lone command.
pub open spec fn pipeline_shape(c: Command) -> bool {
    match c {
        Command::Pipeline { commands, .. } => forall|i: int| 0 <= i < commands@.len() ==> command_shape(
            #[trigger] commands@[i],
        ),
        _ => command_shape(c),
    }
}

/// An and-or list: pipelines joined by `&&` and `||` from the left.
pub open spec fn and_or_shape(c: Command) -> bool
    decreases c,
{
    match c {
        Command::And(l, r) => and_or_shape(*l) && pipeline_shape(*r),
        Command::Or(l, r) => and_or_shape(*l) && pipeline_shape(*r),
        _ => pipeline_shape(c),
    }
}

/// A command list: and-or lists joined by `;` or newlines from the left,
/// a trailing `&` running all that comes before it in the background.
pub open spec fn list_shape(c: Command) -> bool
    decreases c,
{
    match c {
        Command::Sequence(l, r) => list_shape(*l) && and_or_shape(*r),
        Command::Background { cmd, redirs } => list_shape(*cmd) && redirs@.len() == 0,
        _ => and_or_shape(c),
    }
}

fn patch_heredocs(cmd: Command, bodies: &Vec<HereDocBody>) -> (r: Command)
    ensures
        tree_patched(r, cmd),
{
    let mut idx: usize = 0;
    patch_heredocs_inner(cmd, bodies, &mut idx)
}

impl Parser {
    /// The lexer invariant holds.
    pub closed spec fn wf(&self) -> bool {
        self.lexer.wf()
    }

    /// The remaining evaluation budget.
    pub closed spec fn budget(&self) -> u64 {
        self.fuel
    }

    pub fn new(source: &str) -> (r: Parser)
        ensures
            r.wf(),
            r.budget() == u64::MAX,
    {
        Parser { lexer: Lexer::new(source), heredoc_bodies: Vec::new(), fuel: u64::MAX }
    }

    /// Spend one unit of budget.
    fn tick(&mut self) -> (r: Result<(), ShellError>)
        ensures
            final(self).lexer == old(self).lexer,
            final(self).heredoc_bodies@ == old(self).heredoc_bodies@,
            r is Ok ==> old(self).fuel > 0 && final(self).fuel == old(self).fuel - 1,
            r is Err ==> final(self).fuel == old(self).fuel,
            r is Ok <==> old(self).fuel > 0,
    {
        if self.fuel == 0 {
            return Err(exhausted());
        }
        self.fuel = self.fuel - 1;
        Ok(())
    }

    /// Parse the entire input as a shell program.
    pub fn parse(&mut self) -> (r: Result<Program, ShellError>)
        requires
            old(self).wf(),
        ensures
            final(self).wf(),
            final(self).budget() <= old(self).budget(),
            r matches Ok(p) ==> forall|i: int| 0 <= i < p.commands@.len() ==> list_shape(#[trigger] p.commands@[i]),
        decreases old(self).budget(), 1nat,
    {
        self.tick()?;
        let commands = self.parse_program()?;
        Ok(Program { commands })
    }

    /// Peek at the next token without consuming it.
    fn peek(&mut self) -> (r: Result<(Token, Span), ShellError>)
        requires
            old(self).lexer.wf(),
        ensures
            final(self).lexer.wf(),
            final(self).fuel == old(self).fuel,
            final(self).heredoc_bodies@ == old(self).heredoc_bodies@,
            final(self).lexer.source() == old(self).lexer.source(),
            final(self).lexer.recognize_reserved == old(self).lexer.recognize_reserved,
            final(self).lexer.pending_heredocs@ == old(self).lexer.pending_heredocs@,
            r matches Ok((t, s)) ==> final(self).lexer.pushed() matches Some((t2, s2)) && tok_view(t2) == tok_view(t)
                && s2 == s,
            old(self).lexer.pushed().is_some() ==> r == Ok::<(Token, Span), ShellError>(
                old(self).lexer.pushed().unwrap(),
            ) && final(self).lexer.position() == old(self).lexer.position(),
            old(self).lexer.pushed().is_none() ==> match lex_next(
                old(self).lexer.source(),
                old(self).lexer.position(),
                old(self).lexer.recognize_reserved,
            ) {
                Some((tv, q)) => r matches Ok((t, _)) && tok_view(t) == tv && final(self).lexer.position()
                    == q,
                None => r is Err,
            },
    {
        let (tok, span) = self.lexer.next_token()?;
        let t2 = clone_token(&tok);
        self.lexer.push_back(t2, span);
        Ok((tok, span))
    }

    /// Consume the next token.
    fn next(&mut self) -> (r: Result<(Token, Span), ShellError>)
        requires
            old(self).lexer.wf(),
        ensures
            final(self).lexer.wf(),
            final(self).fuel == old(self).fuel,
            final(self).heredoc_bodies@ == old(self).heredoc_bodies@,
            final(self).lexer.pushed().is_none(),
            final(self).lexer.source() == old(self).lexer.source(),
            final(self).lexer.recognize_reserved == old(self).lexer.recognize_reserved,
            final(self).lexer.pending_heredocs@ == old(self).lexer.pending_heredocs@,
            old(self).lexer.pushed().is_some() ==> r == Ok::<(Token, Span), ShellError>(
                old(self).lexer.pushed().unwrap(),
            ) && final(self).lexer.position() == old(self).lexer.position(),
            old(self).lexer.pushed().is_none() ==> match lex_next(
                old(self).lexer.source(),
                old(self).lexer.position(),
                old(self).lexer.recognize_reserved,
            ) {
                Some((tv, q)) => r matches Ok((t, _)) && tok_view(t) == tv && final(self).lexer.position()
                    == q,
                None => r is Err,
            },
    {
        self.lexer.next_token()
    }

    /// Consume the next token, expecting a particular kind.
    fn expect(&mut self, expected: &Token) -> (r: Result<Span, ShellError>)
        requires
            old(self).lexer.wf(),
        ensures
            final(self).lexer.wf(),
            final(self).fuel == old(self).fuel,
            final(self).heredoc_bodies@ == old(self).heredoc_bodies@,
            final(self).lexer.pushed().is_none(),
            final(self).lexer.source() == old(self).lexer.source(),
            final(self).lexer.recognize_reserved == old(self).lexer.recognize_reserved,
            final(self).lexer.pending_heredocs@ == old(self).lexer.pending_heredocs@,
            old(self).lexer.pushed() matches Some((t, s)) ==> final(self).lexer.position() == old(self).lexer.position()
                && if tok_view(t) == tok_view(*expected) {
                r == Ok::<Span, ShellError>(s)
            } else {
                r is Err
            },
            old(self).lexer.pushed().is_none() ==> match lex_next(
                old(self).lexer.source(),
                old(self).lexer.position(),
                old(self).lexer.recognize_reserved,
            ) {
                Some((tv, q)) => final(self).lexer.position() == q && (r is Ok <==> tv == tok_view(*expected)),
                None => r is Err,
            },
            r is Ok <==> next_view(old(self).lexer) == Some(tok_view(*expected)),
    {
        let (tok, span) = self.next()?;
        if same_kind(&tok, expected) {
            Ok(span)
        } else {
            let mut msg = concat3("expected ", token_name(expected).as_str(), ", got ");
            msg.append(token_name(&tok).as_str());
            Err(syntax(msg, span))
        }
    }

    /// Read the bodies of all pending here-documents into `heredoc_bodies`.
    fn read_heredocs_into_pending(&mut self) -> (r: Result<(), ShellError>)
        requires
            old(self).lexer.wf(),
        ensures
            final(self).lexer.wf(),
            final(self).fuel == old(self).fuel,
            r is Ok <==> old(self).fuel > 0,
            r is Err ==> *final(self) == *old(self),
            final(self).lexer.source() == old(self).lexer.source(),
            final(self).lexer.pushed() == old(self).lexer.pushed(),
            final(self).lexer.recognize_reserved == old(self).lexer.recognize_reserved,
            r is Ok ==> final(self).lexer.pending_heredocs@.len() == 0,
            r is Ok ==> final(self).lexer.position() == heredocs_end(
                old(self).lexer.source(),
                old(self).lexer.position(),
                old(self).lexer.pending_heredocs@,
                old(self).lexer.pending_heredocs@.len() as int,
            ),
            r is Ok ==> final(self).heredoc_bodies@.len() == old(self).heredoc_bodies@.len()
                + old(self).lexer.pending_heredocs@.len(),
            r is Ok ==> forall|i: int| 0 <= i < old(self).heredoc_bodies@.len() ==> #[trigger] final(self).heredoc_bodies@[i]
                == old(self).heredoc_bodies@[i],
            r is Ok ==> forall|k: int| 0 <= k < old(self).lexer.pending_heredocs@.len() ==> body_matches(
                #[trigger] final(self).heredoc_bodies@[old(self).heredoc_bodies@.len() + k],
                heredoc_raw(old(self).lexer.source(), old(self).lexer.position(), old(self).lexer.pending_heredocs@, k),
                old(self).lexer.pending_heredocs@[k].quoted,
                old(self).fuel - 1,
            ),
        decreases old(self).fuel, 0nat,
    {
        if self.fuel == 0 {
            return Err(exhausted());
        }
        let mut pending: Vec<PendingHereDoc> = Vec::new();
        std::mem::swap(&mut pending, &mut self.lexer.pending_heredocs);
        let ghost src = old(self).lexer.source();
        let ghost p0 = old(self).lexer.position();
        let ghost n0 = old(self).heredoc_bodies@.len();
        let mut k: usize = 0;
        while k < pending.len()
            invariant
                self.lexer.wf(),
                self.fuel == old(self).fuel,
                self.fuel > 0,
                pending@ == old(self).lexer.pending_heredocs@,
                self.lexer.pending_heredocs@.len() == 0,
                self.lexer.source() == src,
                self.lexer.pushed() == old(self).lexer.pushed(),
                self.lexer.recognize_reserved == old(self).lexer.recognize_reserved,
                k <= pending@.len(),
                self.lexer.position() == heredocs_end(src, p0, pending@, k as int),
                self.heredoc_bodies@.len() == n0 + k,
                forall|i: int| 0 <= i < n0 ==> #[trigger] self.heredoc_bodies@[i] == old(self).heredoc_bodies@[i],
                forall|j: int| 0 <= j < k ==> body_matches(
                    #[trigger] self.heredoc_bodies@[n0 + j],
                    heredoc_raw(src, p0, pending@, j),
                    pending@[j].quoted,
                    self.fuel - 1,
                ),
            decreases pending.len() - k,
        {
            let raw = self.lexer.read_heredoc_body(&pending[k])?;
            let b = make_heredoc_body(raw, pending[k].quoted, self.fuel - 1);
            self.heredoc_bodies.push(b);
            proof {
                assert(self.heredoc_bodies@[n0 + k] == b);
            }
            k += 1;
        }
        Ok(())
    }

    /// Consume newlines, reading here-document bodies that follow them.
    fn skip_newlines(&mut self) -> (r: Result<(), ShellError>)
        requires
            old(self).lexer.wf(),
        ensures
            final(self).lexer.wf(),
            final(self).fuel <= old(self).fuel,
            final(self).lexer.source() == old(self).lexer.source(),
            final(self).lexer.recognize_reserved == old(self).lexer.recognize_reserved,
            r is Ok ==> (final(self).lexer.pushed() matches Some((t, _)) && !(t is Newline)),
        decreases old(self).fuel, 1nat,
    {
        loop
            invariant
                self.lexer.wf(),
                self.fuel <= old(self).fuel,
                self.lexer.source() == old(self).lexer.source(),
                self.lexer.recognize_reserved == old(self).lexer.recognize_reserved,
            decreases self.fuel,
        {
            self.tick()?;
            let (tok, span) = self.next()?;
            if matches!(tok, Token::Newline) {
                if self.lexer.pending_heredocs.len() > 0 {
                    self.read_heredocs_into_pending()?;
                }
            } else {
                self.lexer.push_back(tok, span);
                return Ok(());
            }
        }
    }

    /// program = linebreak complete_commands linebreak EOF
    fn parse_program(&mut self) -> (r: Result<Vec<Command>, ShellError>)
        requires
            old(self).lexer.wf(),
        ensures
            final(self).lexer.wf(),
            final(self).fuel <= old(self).fuel,
            r matches Ok(v) ==> forall|i: int| 0 <= i < v@.len() ==> list_shape(#[trigger] v@[i]),
        decreases old(self).fuel, 0nat,
    {
        self.tick()?;
        self.skip_newlines()?;
        let mut commands: Vec<Command> = Vec::new();
        loop
            invariant
                self.lexer.wf(),
                self.fuel < old(self).fuel,
                forall|i: int| 0 <= i < commands@.len() ==> list_shape(#[trigger] commands@[i]),
            decreases self.fuel,
        {
            self.tick()?;
            let (tok, _) = self.peek()?;
            if matches!(tok, Token::Eof) {
                break;
            }
            let cmd = self.parse_command_list(false)?;
            let cmd = self.read_pending_heredocs(cmd)?;
            commands.push(cmd);
            self.skip_newlines()?;
        }
        Ok(commands)
    }

    fn read_pending_heredocs(&mut self, cmd: Command) -> (r: Result<Command, ShellError>)
        requires
            old(self).lexer.wf(),
        ensures
            final(self).lexer.wf(),
            final(self).fuel <= old(self).fuel,
            r matches Ok(c) ==> (list_shape(cmd) ==> list_shape(c)),
            r is Ok ==> final(self).heredoc_bodies@.len() == 0 && final(self).lexer.pending_heredocs@.len() == 0,
        decreases old(self).fuel, 0nat,
    {
        self.tick()?;
        let ghost c0 = cmd;
        let mut cmd = cmd;
        if self.lexer.pending_heredocs.len() > 0 {
            let mut pending: Vec<PendingHereDoc> = Vec::new();
            std::mem::swap(&mut pending, &mut self.lexer.pending_heredocs);
            let mut bodies: Vec<HereDocBody> = Vec::new();
            let mut k: usize = 0;
            while k < pending.len()
                invariant
                    self.lexer.wf(),
                    self.fuel < old(self).fuel,
                    self.lexer.pending_heredocs@.len() == 0,
                    cmd == c0,
                decreases pending.len() - k,
            {
                let raw = self.lexer.read_heredoc_body(&pending[k])?;
                bodies.push(make_heredoc_body(raw, pending[k].quoted, self.fuel));
                k += 1;
            }
            let ghost before = cmd;
            cmd = patch_heredocs(cmd, &bodies);
            proof {
                lemma_patched_list_shape(cmd, before);
            }
        }
        let ghost mid = cmd;
        if self.heredoc_bodies.len() > 0 {
            let mut bodies: Vec<HereDocBody> = Vec::new();
            std::mem::swap(&mut bodies, &mut self.heredoc_bodies);
            cmd = patch_heredocs(cmd, &bodies);
            proof {
                lemma_patched_list_shape(cmd, mid);
            }
        }
        Ok(cmd)
    }

    /// and_or lists separated by `;`, `&` and (inside compound commands)
    /// newlines.
    fn parse_command_list(&mut self, allow_newline_sep: bool) -> (r: Result<Command, ShellError>)
        requires
            old(self).lexer.wf(),
        ensures
            final(self).lexer.wf(),
            final(self).fuel <= old(self).fuel,
            r matches Ok(c) ==> list_shape(c),
        decreases old(self).fuel, 0nat,
    {
        self.tick()?;
        let mut cmd = self.parse_and_or()?;
        loop
            invariant
                self.lexer.wf(),
                self.fuel < old(self).fuel,
                list_shape(cmd),
            decreases self.fuel,
        {
            self.tick()?;
            let (tok, _span) = self.peek()?;
            if matches!(tok, Token::Semi) {
                self.next()?;
                self.skip_newlines()?;
                let (next_tok, _) = self.peek()?;
                if is_command_start(&next_tok) {
                    let right = self.parse_and_or()?;
                    cmd = Command::Sequence(Box::new(cmd), Box::new(right));
                }
            } else if matches!(tok, Token::Newline) && allow_newline_sep {
                self.next()?;
                if self.lexer.pending_heredocs.len() > 0 {
                    self.read_heredocs_into_pending()?;
                }
                self.skip_newlines()?;
                let (next_tok, _) = self.peek()?;
                if is_command_start(&next_tok) {
                    let right = self.parse_and_or()?;
                    cmd = Command::Sequence(Box::new(cmd), Box::new(right));
                }
            } else if matches!(tok, Token::Amp) {
                self.next()?;
                cmd = Command::Background { cmd: Box::new(cmd), redirs: Vec::new() };
                assert(list_shape(cmd));
                if allow_newline_sep {
                    self.skip_newlines()?;
                }
                let (next_tok, _) = self.peek()?;
                if is_command_start(&next_tok) {
                    let right = self.parse_and_or()?;
                    cmd = Command::Sequence(Box::new(cmd), Box::new(right));
                }
            } else {
                break;
            }
        }
        Ok(cmd)
    }

    /// and_or = pipeline { ('&&' | '||') linebreak pipeline }
    fn parse_and_or(&mut self) -> (r: Result<Command, ShellError>)
        requires
            old(self).lexer.wf(),
        ensures
            final(self).lexer.wf(),
            final(self).fuel <= old(self).fuel,
            r matches Ok(c) ==> and_or_shape(c),
        decreases old(self).fuel, 0nat,
    {
        self.tick()?;
        let mut left = self.parse_pipeline()?;
        loop
            invariant
                self.lexer.wf(),
                self.fuel < old(self).fuel,
                and_or_shape(left),
            decreases self.fuel,
        {
            self.tick()?;
            let (tok, _) = self.peek()?;
            if matches!(tok, Token::And) {
                self.next()?;
                self.skip_newlines()?;
                let right = self.parse_pipeline()?;
                left = Command::And(Box::new(left), Box::new(right));
            } else if matches!(tok, Token::Or) {
                self.next()?;
                self.skip_newlines()?;
                let right = self.parse_pipeline()?;
                left = Command::Or(Box::new(left), Box::new(right));
            } else {
                break;
            }
        }
        Ok(left)
    }

    /// pipeline = ['!'] command { '|' linebreak command }
    fn parse_pipeline(&mut self) -> (r: Result<Command, ShellError>)
        requires
            old(self).lexer.wf(),
        ensures
            final(self).lexer.wf(),
            final(self).fuel <= old(self).fuel,
            next_view(old(self).lexer) == Some(tok_view(Token::Bang)) ==> (r matches Ok(c) ==> (c matches Command::Pipeline {
                bang,
                ..
            } && bang)),
            r matches Ok(Command::Pipeline { commands, bang, .. }) ==> commands@.len() >= 2 || bang,
            r matches Ok(c) ==> pipeline_shape(c),
        decreases old(self).fuel, 0nat,
    {
        self.tick()?;
        let (tok, span) = self.peek()?;
        let bang = matches!(tok, Token::Bang);
        if bang {
            self.next()?;
        }
        let first = self.parse_command()?;
        let mut commands: Vec<Command> = Vec::new();
        commands.push(first);
        loop
            invariant
                self.lexer.wf(),
                self.fuel < old(self).fuel,
                commands@.len() >= 1,
                forall|k: int| 0 <= k < commands@.len() ==> command_shape(#[trigger] commands@[k]),
            decreases self.fuel,
        {
            self.tick()?;
            let (tok, _) = self.peek()?;
            if matches!(tok, Token::Pipe) {
                self.next()?;
                self.skip_newlines()?;
                let c = self.parse_command()?;
                commands.push(c);
            } else {
                break;
            }
        }
        if commands.len() == 1 && !bang {
            Ok(commands.remove(0))
        } else {
            Ok(Command::Pipeline { commands, bang, span })
        }
    }

    /// command = compound_command [redirects] | func_def | simple_command
    fn parse_command(&mut self) -> (r: Result<Command, ShellError>)
        requires
            old(self).lexer.wf(),
        ensures
            final(self).lexer.wf(),
            final(self).fuel <= old(self).fuel,
            r matches Ok(c) ==> match next_view(old(self).lexer) {
                Some(TokView::Other(Token::LParen)) => c is Subshell,
                Some(TokView::Other(Token::Lbrace)) => c is BraceGroup,
                Some(TokView::Other(Token::If)) => unwrapped(c) is If,
                Some(TokView::Other(Token::While)) => unwrapped(c) is While,
                Some(TokView::Other(Token::Until)) => unwrapped(c) is Until,
                Some(TokView::Other(Token::For)) => unwrapped(c) is For,
                Some(TokView::Other(Token::Case)) => unwrapped(c) is Case,
                _ => c is Simple || c is FuncDef,
            },
        decreases old(self).fuel, 0nat,
    {
        self.tick()?;
        let (tok, _span) = self.peek()?;
        match tok {
            Token::LParen => self.parse_subshell(),
            Token::Lbrace => self.parse_brace_group(),
            Token::If => self.parse_if(),
            Token::While => self.parse_while_until(true),
            Token::Until => self.parse_while_until(false),
            Token::For => self.parse_for(),
            Token::Case => self.parse_case(),
            _ => self.parse_simple_command_or_func(),
        }
    }

    /// The word parts of a raw word token.
    fn word_of(&mut self, text: &Vec<char>, span: Span) -> (r: Result<Word, ShellError>)
        requires
            old(self).lexer.wf(),
        ensures
            final(self).lexer.wf(),
            final(self).fuel <= old(self).fuel,
            final(self).lexer == old(self).lexer,
            final(self).heredoc_bodies@ == old(self).heredoc_bodies@,
            old(self).fuel > 0 <==> r is Ok,
            r matches Ok(w) ==> parts_view(w.parts@) == word_parts(text@, false, old(self).fuel - 1),
        decreases old(self).fuel, 0nat,
    {
        self.tick()?;
        Ok(Word { parts: parse_word_parts_impl(text, false, self.fuel), span })
    }

    /// A function body after `name (`: expects `)`, then a command.
    fn parse_func_body(&mut self, name: Vec<char>, span: Span) -> (r: Result<Command, ShellError>)
        requires
            old(self).lexer.wf(),
        ensures
            final(self).lexer.wf(),
            final(self).fuel <= old(self).fuel,
            r matches Ok(c) ==> (c matches Command::FuncDef { name: n, span: sp, .. } && n@ == name@ && sp == span),
        decreases old(self).fuel, 0nat,
    {
        self.tick()?;
        self.next()?;
        self.expect(&Token::RParen)?;
        self.skip_newlines()?;
        let body = self.parse_command()?;
        Ok(Command::FuncDef { name: string_of(&name), body: Box::new(body), span })
    }

    /// simple_command = { assignment } { word | redirect }, at least one
    /// element; also function definitions `name() command`.
    fn parse_simple_command_or_func(&mut self) -> (r: Result<Command, ShellError>)
        requires
            old(self).lexer.wf(),
        ensures
            final(self).lexer.wf(),
            final(self).fuel <= old(self).fuel,
            r matches Ok(c) ==> (c matches Command::Simple { assigns, args, redirs, .. } && assigns@.len() + args@.len()
                + redirs@.len() > 0) || c is FuncDef,
        decreases old(self).fuel, 0nat,
    {
        self.tick()?;
        let span = self.lexer.span();
        let mut assigns: Vec<Assignment> = Vec::new();
        let mut args: Vec<Word> = Vec::new();
        let mut redirs: Vec<Redir> = Vec::new();

        // Leading assignments
        loop
            invariant
                self.lexer.wf(),
                self.fuel < old(self).fuel,
            decreases self.fuel,
        {
            self.tick()?;
            let (tok, tok_span) = self.peek()?;
            match tok {
                Token::Assignment { name, value } => {
                    self.next()?;
                    let vcs = chars_of(value.as_str());
                    let w = self.word_of(&vcs, tok_span)?;
                    assigns.push(Assignment { name, value: w, span: tok_span });
                },
                _ => break,
            }
        }

        // Arguments and redirections
        loop
            invariant
                self.lexer.wf(),
                self.fuel < old(self).fuel,
            decreases self.fuel,
        {
            self.tick()?;
            let (tok, tok_span) = self.peek()?;
            match tok {
                Token::Word(w) => {
                    let text = chars_of(w.as_str());
                    self.next()?;
                    if !has_quoting(&text) && is_io_number(&text) {
                        let (next_tok, next_span) = self.peek()?;
                        if next_tok.is_redir() {
                            let fd = io_number_value(&text);
                            self.next()?;
                            let mut redir = self.parse_redir_after_op(&next_tok, next_span)?;
                            redir.fd = fd;
                            redirs.push(redir);
                            continue;
                        }
                    }
                    if args.len() == 0 && assigns.len() == 0 {
                        let (next, _) = self.peek()?;
                        if matches!(next, Token::LParen) {
                            return self.parse_func_body(text, tok_span);
                        }
                    }
                    let word = self.word_of(&text, tok_span)?;
                    args.push(word);
                },
                Token::Assignment { name, value } => {
                    if args.len() == 0 {
                        break;
                    }
                    self.next()?;
                    let mut raw = chars_of(name.as_str());
                    raw.push('=');
                    let vcs = chars_of(value.as_str());
                    // The name part is literal; the value is parsed as a word.
                    let mut parts: Vec<WordPart> = Vec::new();
                    parts.push(literal(&raw));
                    let w = self.word_of(&vcs, tok_span)?;
                    let mut vparts = w.parts;
                    parts.append(&mut vparts);
                    args.push(Word { parts: coalesce_literals(parts), span: tok_span });
                },
                _ => {
                    if tok.is_redir() {
                        self.next()?;
                        let redir = self.parse_redir_after_op(&tok, tok_span)?;
                        redirs.push(redir);
                    } else if args.len() > 0 && is_reserved(&tok) {
                        self.next()?;
                        let text = reserved_word_text(&tok);
                        args.push(Word { parts: vec![literal(&text)], span: tok_span });
                    } else {
                        break;
                    }
                },
            }
        }

        if assigns.len() == 0 && args.len() == 0 && redirs.len() == 0 {
            let (tok, span) = self.next()?;
            let msg = concat3("unexpected token: ", token_name(&tok).as_str(), "");
            return Err(syntax(msg, span));
        }
        Ok(Command::Simple { assigns, args, redirs, span })
    }

    /// Parse a redirection after its operator token was consumed.
    fn parse_redir_after_op(&mut self, op: &Token, span: Span) -> (r: Result<Redir, ShellError>)
        requires
            old(self).lexer.wf(),
        ensures
            final(self).lexer.wf(),
            final(self).fuel <= old(self).fuel,
            old(self).lexer.pushed().is_none() && old(self).fuel >= 2 && !(*op is DLess) && !(
            *op is DLessDash) ==> match lex_next(old(self).lexer.source(), old(self).lexer.position(), false) {
                Some((tv, q)) => match redir_target_parts(tv, old(self).fuel - 2) {
                    Some(ps) => r matches Ok(rd) && rd.fd == default_fd(*op) && redir_kind_is(*op, rd.kind, ps)
                        && final(self).lexer.position() == q,
                    None => r is Err,
                },
                None => r is Err,
            },
            old(self).lexer.pushed().is_none() && old(self).fuel >= 1 && (*op is DLess || *op is DLessDash)
                ==> match lex_next(old(self).lexer.source(), old(self).lexer.position(), false) {
                Some((tv, q)) => match heredoc_delimiter(tv) {
                    Some(raw) => r matches Ok(rd) && rd.fd == 0 && (if *op is DLessDash {
                        rd.kind is HereDocStrip
                    } else {
                        rd.kind is HereDoc
                    }) && final(self).lexer.position() == q && pending_pushed(
                        final(self).lexer.pending_heredocs@,
                        old(self).lexer.pending_heredocs@,
                        spec_unquoted(raw),
                        *op is DLessDash,
                        spec_has_quoting(raw),
                    ),
                    None => r is Err,
                },
                None => r is Err,
            },
        decreases old(self).fuel, 0nat,
    {
        self.tick()?;
        let fd: i32 = match op {
            Token::Less | Token::DLess | Token::DLessDash | Token::LessAnd | Token::LessGreat => 0,
            _ => 1,
        };
        if matches!(op, Token::DLess) || matches!(op, Token::DLessDash) {
            let strip_tabs = matches!(op, Token::DLessDash);
            self.lexer.recognize_reserved = false;
            let res = self.next();
            self.lexer.recognize_reserved = true;
            let (delim_tok, delim_span) = res?;
            let raw = match delim_tok {
                Token::Word(w) => chars_of(w.as_str()),
                Token::Assignment { name, value } => {
                    let mut v = chars_of(name.as_str());
                    v.push('=');
                    let vv = chars_of(value.as_str());
                    append_chars(&mut v, &vv);
                    assert(v@ =~= name@ + seq!['='] + value@);
                    v
                },
                other => {
                    let msg = concat3("expected here-doc delimiter, got ", token_name(&other).as_str(), "");
                    return Err(syntax(msg, delim_span));
                },
            };
            let quoted = has_quoting(&raw);
            let delimiter = unquoted_text(&raw);
            let ghost before = self.lexer.pending_heredocs@;
            self.lexer.pending_heredocs.push(
                PendingHereDoc { delimiter: string_of(&delimiter), strip_tabs, quoted },
            );
            assert(self.lexer.pending_heredocs@.take(before.len() as int) =~= before);
            let kind = if strip_tabs {
                RedirKind::HereDocStrip(HereDocBody::Literal(String::new()))
            } else {
                RedirKind::HereDoc(HereDocBody::Literal(String::new()))
            };
            return Ok(Redir { fd, kind, span });
        }
        self.lexer.recognize_reserved = false;
        let res = self.next();
        self.lexer.recognize_reserved = true;
        let (word_tok, word_span) = res?;
        let word = match word_tok {
            Token::Word(w) => {
                let cs = chars_of(w.as_str());
                self.word_of(&cs, word_span)?
            },
            Token::Assignment { name, value } => {
                let mut v = chars_of(name.as_str());
                v.push('=');
                let vv = chars_of(value.as_str());
                append_chars(&mut v, &vv);
                assert(v@ =~= name@ + seq!['='] + value@);
                self.word_of(&v, word_span)?
            },
            other => {
                let text = reserved_word_text(&other);
                if text.len() == 0 {
                    let msg = concat3("expected filename, got ", token_name(&other).as_str(), "");
                    return Err(syntax(msg, word_span));
                }
                let part = literal(&text);
                let parts = vec![part];
                proof {
                    lemma_parts_view_push(Seq::<WordPart>::empty(), part);
                    assert(parts@ =~= Seq::<WordPart>::empty().push(part));
                    assert(parts_view(Seq::<WordPart>::empty()) =~= Seq::<SPart>::empty());
                }
                Word { parts, span: word_span }
            },
        };
        let kind = match op {
            Token::Less => RedirKind::Input(word),
            Token::Great => RedirKind::Output(word),
            Token::DGreat => RedirKind::Append(word),
            Token::Clobber => RedirKind::Clobber(word),
            Token::LessGreat => RedirKind::ReadWrite(word),
            Token::LessAnd => RedirKind::DupInput(word),
            _ => RedirKind::DupOutput(word),
        };
        Ok(Redir { fd, kind, span })
    }

    /// subshell = '(' compound_list ')'
    fn parse_subshell(&mut self) -> (r: Result<Command, ShellError>)
        requires
            old(self).lexer.wf(),
        ensures
            final(self).lexer.wf(),
            final(self).fuel <= old(self).fuel,
            r matches Ok(c) ==> next_view(old(self).lexer) == Some(tok_view(Token::LParen)) && c is Subshell,
        decreases old(self).fuel, 0nat,
    {
        self.tick()?;
        let span = self.expect(&Token::LParen)?;
        self.skip_newlines()?;
        let body = self.parse_command_list(true)?;
        self.skip_newlines()?;
        self.expect(&Token::RParen)?;
        let redirs = self.parse_redirections()?;
        Ok(Command::Subshell { body: Box::new(body), redirs, span })
    }

    /// brace_group = '{' compound_list '}'
    fn parse_brace_group(&mut self) -> (r: Result<Command, ShellError>)
        requires
            old(self).lexer.wf(),
        ensures
            final(self).lexer.wf(),
            final(self).fuel <= old(self).fuel,
            r matches Ok(c) ==> next_view(old(self).lexer) == Some(tok_view(Token::Lbrace)) && c is BraceGroup,
        decreases old(self).fuel, 0nat,
    {
        self.tick()?;
        let span = self.expect(&Token::Lbrace)?;
        self.skip_newlines()?;
        let body = self.parse_command_list(true)?;
        self.skip_newlines()?;
        self.expect(&Token::Rbrace)?;
        let redirs = self.parse_redirections()?;
        Ok(Command::BraceGroup { body: Box::new(body), redirs, span })
    }

    /// The rest of an if/elif after its condition and `then` part:
    /// `elif ...`, `else ... fi` or `fi`.
    fn parse_if_tail(&mut self) -> (r: Result<Option<Box<Command>>, ShellError>)
        requires
            old(self).lexer.wf(),
        ensures
            final(self).lexer.wf(),
            final(self).fuel <= old(self).fuel,
            r matches Ok(None) ==> next_view(old(self).lexer) == Some(tok_view(Token::Fi)),
            r matches Ok(Some(_)) ==> next_view(old(self).lexer) == Some(tok_view(Token::Elif)) || next_view(
                old(self).lexer,
            ) == Some(tok_view(Token::Else)),
            old(self).fuel > 0 && next_view(old(self).lexer) is Some && next_view(old(self).lexer) != Some(
                tok_view(Token::Fi),
            ) && next_view(old(self).lexer) != Some(tok_view(Token::Elif)) && next_view(old(self).lexer) != Some(
                tok_view(Token::Else),
            ) ==> r is Err,
        decreases old(self).fuel, 0nat,
    {
        self.tick()?;
        let (tok, _) = self.peek()?;
        match tok {
            Token::Elif => Ok(Some(Box::new(self.parse_elif()?))),
            Token::Else => {
                self.next()?;
                self.skip_newlines()?;
                let body = self.parse_command_list(true)?;
                self.skip_newlines()?;
                self.expect(&Token::Fi)?;
                Ok(Some(Box::new(body)))
            },
            Token::Fi => {
                self.next()?;
                Ok(None)
            },
            _ => {
                let (tok, span) = self.next()?;
                let msg = concat3("expected 'elif', 'else', or 'fi', got ", token_name(&tok).as_str(), "");
                Err(syntax(msg, span))
            },
        }
    }

    /// The condition and `then` part of an if/elif, after its keyword.
    fn parse_cond_then(&mut self) -> (r: Result<(Command, Command), ShellError>)
        requires
            old(self).lexer.wf(),
        ensures
            final(self).lexer.wf(),
            final(self).fuel <= old(self).fuel,
            r matches Ok((c, t)) ==> list_shape(c) && list_shape(t),
        decreases old(self).fuel, 0nat,
    {
        self.tick()?;
        self.skip_newlines()?;
        let cond = self.parse_command_list(true)?;
        self.skip_newlines()?;
        self.expect(&Token::Then)?;
        self.skip_newlines()?;
        let then_part = self.parse_command_list(true)?;
        self.skip_newlines()?;
        Ok((cond, then_part))
    }

    /// if_clause = 'if' list 'then' list { 'elif' list 'then' list }
    ///             [ 'else' list ] 'fi'
    fn parse_if(&mut self) -> (r: Result<Command, ShellError>)
        requires
            old(self).lexer.wf(),
        ensures
            final(self).lexer.wf(),
            final(self).fuel <= old(self).fuel,
            r matches Ok(c) ==> next_view(old(self).lexer) == Some(tok_view(Token::If)) && unwrapped(c) is If,
        decreases old(self).fuel, 0nat,
    {
        self.tick()?;
        let span = self.expect(&Token::If)?;
        let (cond, then_part) = self.parse_cond_then()?;
        let else_part = self.parse_if_tail()?;
        let redirs = self.parse_redirections()?;
        let cmd = Command::If { cond: Box::new(cond), then_part: Box::new(then_part), else_part, span };
        Ok(wrap_redirs(cmd, redirs, span))
    }

    fn parse_elif(&mut self) -> (r: Result<Command, ShellError>)
        requires
            old(self).lexer.wf(),
        ensures
            final(self).lexer.wf(),
            final(self).fuel <= old(self).fuel,
            r matches Ok(c) ==> next_view(old(self).lexer) == Some(tok_view(Token::Elif)) && c is If,
        decreases old(self).fuel, 0nat,
    {
        self.tick()?;
        let span = self.expect(&Token::Elif)?;
        let (cond, then_part) = self.parse_cond_then()?;
        let else_part = self.parse_if_tail()?;
        Ok(Command::If { cond: Box::new(cond), then_part: Box::new(then_part), else_part, span })
    }

    /// while_clause / until_clause = ('while' | 'until') list 'do' list 'done'
    fn parse_while_until(&mut self, is_while: bool) -> (r: Result<Command, ShellError>)
        requires
            old(self).lexer.wf(),
        ensures
            final(self).lexer.wf(),
            final(self).fuel <= old(self).fuel,
            r matches Ok(c) ==> next_view(old(self).lexer) == Some(
                tok_view(if is_while { Token::While } else { Token::Until }),
            ) && if is_while {
                unwrapped(c) is While
            } else {
                unwrapped(c) is Until
            },
        decreases old(self).fuel, 0nat,
    {
        self.tick()?;
        let span = if is_while {
            self.expect(&Token::While)?
        } else {
            self.expect(&Token::Until)?
        };
        self.skip_newlines()?;
        let cond = self.parse_command_list(true)?;
        self.skip_newlines()?;
        self.expect(&Token::Do)?;
        self.skip_newlines()?;
        let body = self.parse_command_list(true)?;
        self.skip_newlines()?;
        self.expect(&Token::Done)?;
        let redirs = self.parse_redirections()?;
        let cmd = if is_while {
            Command::While { cond: Box::new(cond), body: Box::new(body), span }
        } else {
            Command::Until { cond: Box::new(cond), body: Box::new(body), span }
        };
        Ok(wrap_redirs(cmd, redirs, span))
    }

    /// for_clause = 'for' name [linebreak 'in' wordlist ';'] linebreak
    ///              'do' list 'done'
    fn parse_for(&mut self) -> (r: Result<Command, ShellError>)
        requires
            old(self).lexer.wf(),
        ensures
            final(self).lexer.wf(),
            final(self).fuel <= old(self).fuel,
            r matches Ok(c) ==> next_view(old(self).lexer) == Some(tok_view(Token::For)) && unwrapped(c) is For,
        decreases old(self).fuel, 0nat,
    {
        self.tick()?;
        let span = self.expect(&Token::For)?;
        self.lexer.recognize_reserved = false;
        let res = self.next();
        self.lexer.recognize_reserved = true;
        let (name_tok, name_span) = res?;
        let var = match name_tok {
            Token::Word(w) => w,
            other => {
                let msg = concat3("expected variable name after 'for', got ", token_name(&other).as_str(), "");
                return Err(syntax(msg, name_span));
            },
        };
        self.skip_newlines()?;
        let (tok, _) = self.peek()?;
        let words = if matches!(tok, Token::In) {
            self.next()?;
            let mut words: Vec<Word> = Vec::new();
            loop
                invariant
                    self.lexer.wf(),
                    self.fuel < old(self).fuel,
                decreases self.fuel,
            {
                self.tick()?;
                let (tok, tok_span) = self.peek()?;
                match tok {
                    Token::Word(w) => {
                        self.next()?;
                        let cs = chars_of(w.as_str());
                        let word = self.word_of(&cs, tok_span)?;
                        words.push(word);
                    },
                    Token::Assignment { name, value } => {
                        self.next()?;
                        let mut v = chars_of(name.as_str());
                        v.push('=');
                        let vv = chars_of(value.as_str());
                        append_chars(&mut v, &vv);
                        let word = self.word_of(&v, tok_span)?;
                        words.push(word);
                    },
                    Token::Semi | Token::Newline => {
                        self.next()?;
                        break;
                    },
                    _ => break,
                }
            }
            Some(words)
        } else {
            if matches!(tok, Token::Semi) {
                self.next()?;
            }
            None
        };
        self.skip_newlines()?;
        self.expect(&Token::Do)?;
        self.skip_newlines()?;
        let body = self.parse_command_list(true)?;
        self.skip_newlines()?;
        self.expect(&Token::Done)?;
        let redirs = self.parse_redirections()?;
        let cmd = Command::For { var, words, body: Box::new(body), span };
        Ok(wrap_redirs(cmd, redirs, span))
    }

    /// case_clause = 'case' word linebreak 'in' linebreak { case_item } 'esac'
    fn parse_case(&mut self) -> (r: Result<Command, ShellError>)
        requires
            old(self).lexer.wf(),
        ensures
            final(self).lexer.wf(),
            final(self).fuel <= old(self).fuel,
            r matches Ok(c) ==> next_view(old(self).lexer) == Some(tok_view(Token::Case)) && unwrapped(c) is Case,
        decreases old(self).fuel, 0nat,
    {
        self.tick()?;
        let span = self.expect(&Token::Case)?;
        self.lexer.recognize_reserved = false;
        let res = self.next();
        self.lexer.recognize_reserved = true;
        let (word_tok, word_span) = res?;
        let word = match word_tok {
            Token::Word(w) => {
                let cs = chars_of(w.as_str());
                self.word_of(&cs, word_span)?
            },
            other => {
                let msg = concat3("expected word after 'case', got ", token_name(&other).as_str(), "");
                return Err(syntax(msg, word_span));
            },
        };
        self.skip_newlines()?;
        self.expect(&Token::In)?;
        self.skip_newlines()?;
        let mut arms: Vec<CaseArm> = Vec::new();
        loop
            invariant
                self.lexer.wf(),
                self.fuel < old(self).fuel,
            decreases self.fuel,
        {
            self.tick()?;
            let (tok, _) = self.peek()?;
            if matches!(tok, Token::Esac) {
                self.next()?;
                break;
            }
            if matches!(tok, Token::Eof) {
                let (tok, span) = self.next()?;
                let msg = concat3("expected Esac, got ", token_name(&tok).as_str(), "");
                return Err(syntax(msg, span));
            }
            let arm = self.parse_case_arm()?;
            arms.push(arm);
            self.skip_newlines()?;
        }
        let redirs = self.parse_redirections()?;
        let cmd = Command::Case { word, arms, span };
        Ok(wrap_redirs(cmd, redirs, span))
    }

    /// case_item = ['('] pattern { '|' pattern } ')' [list] [';;']
    fn parse_case_arm(&mut self) -> (r: Result<CaseArm, ShellError>)
        requires
            old(self).lexer.wf(),
        ensures
            final(self).lexer.wf(),
            final(self).fuel <= old(self).fuel,
            r matches Ok(arm) ==> arm.patterns@.len() >= 1,
        decreases old(self).fuel, 0nat,
    {
        self.tick()?;
        let span = self.lexer.span();
        let (tok, _) = self.peek()?;
        if matches!(tok, Token::LParen) {
            self.next()?;
        }
        let mut patterns: Vec<Word> = Vec::new();
        loop
            invariant_except_break
                self.lexer.wf(),
                self.fuel < old(self).fuel,
            ensures
                self.lexer.wf(),
                self.fuel < old(self).fuel,
                patterns@.len() >= 1,
            decreases self.fuel,
        {
            self.tick()?;
            self.lexer.recognize_reserved = false;
            let res = self.next();
            self.lexer.recognize_reserved = true;
            let (tok, tok_span) = res?;
            let pat = match tok {
                Token::Word(w) => {
                    let cs = chars_of(w.as_str());
                    self.word_of(&cs, tok_span)?
                },
                Token::Assignment { name, value } => {
                    let mut v = chars_of(name.as_str());
                    v.push('=');
                    let vv = chars_of(value.as_str());
                    append_chars(&mut v, &vv);
                    self.word_of(&v, tok_span)?
                },
                other => {
                    let text = reserved_word_text(&other);
                    if text.len() == 0 {
                        let msg = concat3("expected pattern in case arm, got ", token_name(&other).as_str(), "");
                        return Err(syntax(msg, tok_span));
                    }
                    Word { parts: vec![literal(&text)], span: tok_span }
                },
            };
            patterns.push(pat);
            let (tok, _) = self.peek()?;
            if matches!(tok, Token::Pipe) {
                self.next()?;
            } else {
                break;
            }
        }
        self.expect(&Token::RParen)?;
        self.skip_newlines()?;
        let (tok, _) = self.peek()?;
        let body = if matches!(tok, Token::SemiSemi) || matches!(tok, Token::Esac) {
            None
        } else {
            Some(self.parse_command_list(true)?)
        };
        let (tok, _) = self.peek()?;
        if matches!(tok, Token::SemiSemi) {
            self.next()?;
            self.skip_newlines()?;
        }
        Ok(CaseArm { patterns, body, span })
    }

    /// Optional trailing redirections after a compound command.
    fn parse_redirections(&mut self) -> (r: Result<Vec<Redir>, ShellError>)
        requires
            old(self).lexer.wf(),
        ensures
            final(self).lexer.wf(),
            final(self).fuel <= old(self).fuel,
            old(self).fuel >= 2 && no_redirection_next(old(self).lexer) ==> (r matches Ok(v) && v@.len() == 0),
        decreases old(self).fuel, 0nat,
    {
        self.tick()?;
        let mut redirs: Vec<Redir> = Vec::new();
        loop
            invariant_except_break
                self.lexer.wf(),
                self.fuel < old(self).fuel,
                redirs@.len() == 0 ==> next_view(self.lexer) == next_view(old(self).lexer) && self.fuel + 1 == old(
                    self,
                ).fuel,
                redirs@.len() > 0 ==> !no_redirection_next(old(self).lexer),
            ensures
                self.lexer.wf(),
                self.fuel < old(self).fuel,
                redirs@.len() > 0 ==> !no_redirection_next(old(self).lexer),
            decreases self.fuel,
        {
            self.tick()?;
            let (tok, span) = self.peek()?;
            if tok.is_redir() {
                self.next()?;
                let rd = self.parse_redir_after_op(&tok, span)?;
                redirs.push(rd);
            } else {
                match tok {
                    Token::Word(w) => {
                        let text = chars_of(w.as_str());
                        if !has_quoting(&text) && is_io_number(&text) {
                            self.next()?;
                            let (next, next_span) = self.peek()?;
                            if next.is_redir() {
                                let fd = io_number_value(&text);
                                self.next()?;
                                let mut rd = self.parse_redir_after_op(&next, next_span)?;
                                rd.fd = fd;
                                redirs.push(rd);
                            } else {
                                // Not a redirection: give the digit word back.
                                self.lexer.push_back(Token::Word(w), span);
                                break;
                            }
                        } else {
                            break;
                        }
                    },
                    _ => break,
                }
            }
        }
        Ok(redirs)
    }
}

/// Wrap a compound command in a brace group when it has redirections.
fn wrap_redirs(cmd: Command, redirs: Vec<Redir>, span: Span) -> (r: Command)
    ensures
        redirs@.len() > 0 ==> r == (Command::BraceGroup { body: Box::new(cmd), redirs, span }),
        redirs@.len() == 0 ==> r == cmd,
{
    if redirs.len() > 0 {
        Command::BraceGroup { body: Box::new(cmd), redirs, span }
    } else {
        cmd
    }
}

/// True for the reserved-word tokens.
fn is_reserved(t: &Token) -> (r: bool)
    ensures
        r == (spec_reserved_text(*t).len() > 0),
{
    match t {
        Token::If | Token::Then | Token::Else | Token::Elif | Token::Fi | Token::Do | Token::Done
        | Token::Case | Token::Esac | Token::While | Token::Until | Token::For | Token::In
        | Token::Lbrace | Token::Rbrace | Token::Bang => true,
        _ => false,
    }
}

/// True if two tokens are of the same kind; words and assignments also
/// compare their text.
pub open spec fn spec_same_kind(a: Token, b: Token) -> bool {
    match (a, b) {
        (Token::Word(x), Token::Word(y)) => x@ == y@,
        (Token::Assignment { name: n1, value: v1 }, Token::Assignment { name: n2, value: v2 }) => n1@ == n2@
            && v1@ == v2@,
        _ => !(a is Word) && !(a is Assignment) && a == b,
    }
}

/// True if two tokens are of the same kind; words and assignments also
/// compare their text.
fn same_kind(a: &Token, b: &Token) -> (r: bool)
    ensures
        r == spec_same_kind(*a, *b),
        r == (tok_view(*a) == tok_view(*b)),
{
    match (a, b) {
        (Token::Word(x), Token::Word(y)) => *x == *y,
        (Token::Assignment { name: n1, value: v1 }, Token::Assignment { name: n2, value: v2 }) => *n1
            == *n2 && *v1 == *v2,
        (Token::Newline, Token::Newline) | (Token::Semi, Token::Semi) | (Token::Amp, Token::Amp)
        | (Token::Pipe, Token::Pipe) | (Token::And, Token::And) | (Token::Or, Token::Or) | (
            Token::SemiSemi,
            Token::SemiSemi,
        ) | (Token::Less, Token::Less) | (Token::Great, Token::Great) | (
            Token::DLess,
            Token::DLess,
        ) | (Token::DGreat, Token::DGreat) | (Token::LessAnd, Token::LessAnd) | (
            Token::GreatAnd,
            Token::GreatAnd,
        ) | (Token::LessGreat, Token::LessGreat) | (Token::DLessDash, Token::DLessDash) | (
            Token::Clobber,
            Token::Clobber,
        ) | (Token::LParen, Token::LParen) | (Token::RParen, Token::RParen) | (
            Token::If,
            Token::If,
        ) | (Token::Then, Token::Then) | (Token::Else, Token::Else) | (Token::Elif, Token::Elif)
        | (Token::Fi, Token::Fi) | (Token::Do, Token::Do) | (Token::Done, Token::Done) | (
            Token::Case,
            Token::Case,
        ) | (Token::Esac, Token::Esac) | (Token::While, Token::While) | (
            Token::Until,
            Token::Until,
        ) | (Token::For, Token::For) | (Token::In, Token::In) | (Token::Lbrace, Token::Lbrace) | (
            Token::Rbrace,
            Token::Rbrace,
        ) | (Token::Bang, Token::Bang) | (Token::Eof, Token::Eof) => true,
        _ => false,
    }
}

} // verus!
