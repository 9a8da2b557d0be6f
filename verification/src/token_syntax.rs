//! The tokens of shell source text: where each token ends and the raw text
//! a word token keeps (its quoting and expansions unparsed).

use vstd::prelude::*;

use crate::arith::run_end;
use crate::lexer::{Token, is_name_char, is_name_start, spec_is_name, spec_operator, spec_reserved};

verus! {

/// A token as a value: words and assignments by their text.
pub enum TokView {
    Word(Seq<char>),
    Assignment(Seq<char>, Seq<char>),
    Other(Token),
}

/// The value of a token.
pub open spec fn tok_view(t: Token) -> TokView {
    match t {
        Token::Word(w) => TokView::Word(w@),
        Token::Assignment { name, value } => TokView::Assignment(name@, value@),
        other => TokView::Other(other),
    }
}

/// Raw text `t` in front of what a scan gives.
pub open spec fn then_text(t: Seq<char>, r: Option<(Seq<char>, int)>) -> Option<(Seq<char>, int)> {
    match r {
        Some((x, q)) => Some((t + x, q)),
        None => None,
    }
}

/// Putting `a` and then `b` in front is putting `a + b` in front.
pub proof fn lemma_then_text_then(a: Seq<char>, b: Seq<char>, r: Option<(Seq<char>, int)>)
    ensures
        then_text(a, then_text(b, r)) == then_text(a + b, r),
{
    if let Some((x, q)) = r {
        assert(a + (b + x) =~= (a + b) + x);
    }
}

/// Backtick content from `p` up to the closing backtick, and the position
/// after it; `None` when it is unterminated. A backslash keeps the next
/// character.
pub open spec fn lx_backtick(src: Seq<char>, p: int) -> Option<(Seq<char>, int)>
    decreases src.len() - p,
{
    if p < 0 || p >= src.len() {
        None
    } else if src[p] == '`' {
        Some((Seq::empty(), p + 1))
    } else if src[p] == '\\' {
        if p + 1 < src.len() {
            then_text(seq!['\\', src[p + 1]], lx_backtick(src, p + 2))
        } else {
            None
        }
    } else {
        then_text(seq![src[p]], lx_backtick(src, p + 1))
    }
}

/// The text after a `$` at `p` and the position after it: `{...}`,
/// `((...))`, `(...)`, a special parameter or digit, a name, or nothing.
pub open spec fn lx_dollar(src: Seq<char>, p: int) -> Option<(Seq<char>, int)>
    decreases src.len() - p, 3int,
{
    if p < 0 || p >= src.len() {
        Some((Seq::empty(), p))
    } else if src[p] == '{' {
        match lx_brace(src, p + 1) {
            Some((t, q)) => Some((seq!['{'] + t + seq!['}'], q)),
            None => None,
        }
    } else if src[p] == '(' {
        if p + 1 < src.len() && src[p + 1] == '(' {
            match lx_arith(src, p + 2, 1) {
                Some((t, q)) => Some((seq!['(', '('] + t + seq![')', ')'], q)),
                None => None,
            }
        } else {
            match lx_cmdsub(src, p + 1, 1) {
                Some((t, q)) => Some((seq!['('] + t + seq![')'], q)),
                None => None,
            }
        }
    } else if crate::word_syntax::is_special_param(src[p]) || crate::word_syntax::is_digit_char(src[p]) {
        Some((seq![src[p]], p + 1))
    } else if is_name_start(src[p]) {
        let j = run_end(src, p + 1, |c: char| is_name_char(c));
        Some((src.subrange(p, j), j))
    } else {
        Some((Seq::empty(), p))
    }
}

/// A double-quoted region's content from `p` up to the closing quote (not
/// kept), and the position after it; `None` when unterminated.
pub open spec fn lx_dquote(src: Seq<char>, p: int) -> Option<(Seq<char>, int)>
    decreases src.len() - p, 2int,
{
    if p < 0 || p >= src.len() {
        None
    } else if src[p] == '"' {
        Some((Seq::empty(), p + 1))
    } else if src[p] == '\\' {
        if p + 1 < src.len() {
            then_text(seq!['\\', src[p + 1]], lx_dquote(src, p + 2))
        } else {
            None
        }
    } else if src[p] == '$' {
        match lx_dollar(src, p + 1) {
            Some((t, q)) => if p < q <= src.len() {
                then_text(seq!['$'] + t, lx_dquote(src, q))
            } else {
                None
            },
            None => None,
        }
    } else if src[p] == '`' {
        match lx_backtick(src, p + 1) {
            Some((t, q)) => if p < q <= src.len() {
                then_text(seq!['`'] + t + seq!['`'], lx_dquote(src, q))
            } else {
                None
            },
            None => None,
        }
    } else {
        then_text(seq![src[p]], lx_dquote(src, p + 1))
    }
}

/// The content of `${...}` from `p` up to the closing brace (not kept),
/// and the position after it; `None` when unterminated.
pub open spec fn lx_brace(src: Seq<char>, p: int) -> Option<(Seq<char>, int)>
    decreases src.len() - p, 2int,
{
    if p < 0 || p >= src.len() {
        None
    } else if src[p] == '}' {
        Some((Seq::empty(), p + 1))
    } else if src[p] == '$' {
        match lx_dollar(src, p + 1) {
            Some((t, q)) => if p < q <= src.len() {
                then_text(seq!['$'] + t, lx_brace(src, q))
            } else {
                None
            },
            None => None,
        }
    } else if src[p] == '"' {
        match lx_dquote(src, p + 1) {
            Some((t, q)) => if p < q <= src.len() {
                then_text(seq!['"'] + t + seq!['"'], lx_brace(src, q))
            } else {
                None
            },
            None => None,
        }
    } else if src[p] == '\\' {
        if p + 1 < src.len() {
            then_text(seq!['\\', src[p + 1]], lx_brace(src, p + 2))
        } else {
            None
        }
    } else if src[p] == '`' {
        match lx_backtick(src, p + 1) {
            Some((t, q)) => if p < q <= src.len() {
                then_text(seq!['`'] + t + seq!['`'], lx_brace(src, q))
            } else {
                None
            },
            None => None,
        }
    } else {
        then_text(seq![src[p]], lx_brace(src, p + 1))
    }
}

/// The content of `$(...)` from `p` at nesting depth `depth`, up to the
/// matching `)` (not kept), and the position after it; `None` when
/// unterminated. Quotes, escapes, expansions and comments are kept whole.
pub open spec fn lx_cmdsub(src: Seq<char>, p: int, depth: int) -> Option<(Seq<char>, int)>
    decreases src.len() - p, 2int,
{
    if p < 0 || p >= src.len() {
        None
    } else if src[p] == ')' {
        if depth - 1 == 0 {
            Some((Seq::empty(), p + 1))
        } else {
            then_text(seq![')'], lx_cmdsub(src, p + 1, depth - 1))
        }
    } else if src[p] == '(' {
        then_text(seq!['('], lx_cmdsub(src, p + 1, if depth < usize::MAX { depth + 1 } else { depth }))
    } else if src[p] == '\'' {
        let j = run_end(src, p + 1, |c: char| c != '\'');
        proof {
            crate::arith::lemma_run_end_bounds(src, p + 1, |c: char| c != '\'');
        }
        if j < src.len() {
            then_text(src.subrange(p, j + 1), lx_cmdsub(src, j + 1, depth))
        } else {
            None
        }
    } else if src[p] == '"' {
        match lx_dquote(src, p + 1) {
            Some((t, q)) => if p < q <= src.len() {
                then_text(seq!['"'] + t + seq!['"'], lx_cmdsub(src, q, depth))
            } else {
                None
            },
            None => None,
        }
    } else if src[p] == '\\' {
        if p + 1 < src.len() {
            then_text(seq!['\\', src[p + 1]], lx_cmdsub(src, p + 2, depth))
        } else {
            None
        }
    } else if src[p] == '$' {
        match lx_dollar(src, p + 1) {
            Some((t, q)) => if p < q <= src.len() {
                then_text(seq!['$'] + t, lx_cmdsub(src, q, depth))
            } else {
                None
            },
            None => None,
        }
    } else if src[p] == '`' {
        match lx_backtick(src, p + 1) {
            Some((t, q)) => if p < q <= src.len() {
                then_text(seq!['`'] + t + seq!['`'], lx_cmdsub(src, q, depth))
            } else {
                None
            },
            None => None,
        }
    } else if src[p] == '#' {
        let j = run_end(src, p + 1, |c: char| c != '\n');
        proof {
            crate::arith::lemma_run_end_bounds(src, p + 1, |c: char| c != '\n');
        }
        then_text(src.subrange(p, j), lx_cmdsub(src, j, depth))
    } else {
        then_text(seq![src[p]], lx_cmdsub(src, p + 1, depth))
    }
}

/// The content of `$((...))` from `p` at depth `depth` up to the closing
/// `))` (not kept), and the position after it; `None` when unterminated.
pub open spec fn lx_arith(src: Seq<char>, p: int, depth: int) -> Option<(Seq<char>, int)>
    decreases src.len() - p, 2int,
{
    if p < 0 || p >= src.len() {
        None
    } else if src[p] == ')' && p + 1 < src.len() && src[p + 1] == ')' && depth == 1 {
        Some((Seq::empty(), p + 2))
    } else if src[p] == ')' {
        then_text(seq![')'], lx_arith(src, p + 1, if depth > i64::MIN { depth - 1 } else { depth }))
    } else if src[p] == '(' {
        then_text(seq!['('], lx_arith(src, p + 1, if depth < i64::MAX { depth + 1 } else { depth }))
    } else if src[p] == '$' {
        match lx_dollar(src, p + 1) {
            Some((t, q)) => if p < q <= src.len() {
                then_text(seq!['$'] + t, lx_arith(src, q, depth))
            } else {
                None
            },
            None => None,
        }
    } else {
        then_text(seq![src[p]], lx_arith(src, p + 1, depth))
    }
}

/// The position after the backslash-newline pairs from `q`.
pub open spec fn continuations_end(src: Seq<char>, q: int) -> int
    decreases src.len() - q,
{
    if 0 <= q && q + 1 < src.len() && src[q] == '\\' && src[q + 1] == '\n' {
        continuations_end(src, q + 2)
    } else {
        q
    }
}

/// The characters that end a word.
pub open spec fn ends_word(c: char) -> bool {
    c == ' ' || c == '\t' || c == '\n' || c == ';' || c == '&' || c == '(' || c == ')' || c == '|' || c
        == '<' || c == '>'
}

/// The raw text of the word from `p` after `word`, and the position after
/// it; `None` for an unterminated quote or expansion. A backslash-newline
/// is a line continuation and disappears; a `#` starting a word begins a
/// comment.
pub open spec fn lx_word(src: Seq<char>, p: int, word: Seq<char>) -> Option<(Seq<char>, int)>
    decreases src.len() - p, 4int,
{
    if p < 0 || p >= src.len() || ends_word(src[p]) {
        Some((word, p))
    } else if src[p] == '\\' {
        if p + 1 < src.len() && src[p + 1] == '\n' {
            lx_word(src, p + 2, word)
        } else if p + 1 < src.len() {
            lx_word(src, p + 2, word + seq!['\\', src[p + 1]])
        } else {
            lx_word(src, p + 1, word.push('\\'))
        }
    } else if src[p] == '\'' {
        let j = run_end(src, p + 1, |c: char| c != '\'');
        proof {
            crate::arith::lemma_run_end_bounds(src, p + 1, |c: char| c != '\'');
        }
        if j < src.len() {
            lx_word(src, j + 1, word + src.subrange(p, j + 1))
        } else {
            None
        }
    } else if src[p] == '"' {
        match lx_dquote(src, p + 1) {
            Some((t, q)) => if p < q <= src.len() {
                lx_word(src, q, word + seq!['"'] + t + seq!['"'])
            } else {
                None
            },
            None => None,
        }
    } else if src[p] == '`' {
        match lx_backtick(src, p + 1) {
            Some((t, q)) => if p < q <= src.len() {
                lx_word(src, q, word + seq!['`'] + t + seq!['`'])
            } else {
                None
            },
            None => None,
        }
    } else if src[p] == '$' {
        let q0 = continuations_end(src, p + 1);
        match lx_dollar(src, q0) {
            Some((t, q)) => if p < q <= src.len() {
                lx_word(src, q, word + seq!['$'] + t)
            } else {
                None
            },
            None => None,
        }
    } else if src[p] == '#' && word.len() == 0 {
        Some((word, p))
    } else {
        lx_word(src, p + 1, word.push(src[p]))
    }
}

/// The token a word's raw text makes: a reserved word (when they are
/// recognized), an assignment `name=value` with a valid name, or a word;
/// `None` for no text.
pub open spec fn classify(w: Seq<char>, reserved: bool) -> Option<TokView> {
    if w.len() == 0 {
        None
    } else if reserved && spec_reserved(w) is Some {
        Some(TokView::Other(spec_reserved(w).unwrap()))
    } else {
        let eq = run_end(w, 0, |c: char| c != '=');
        if 0 < eq < w.len() && spec_is_name(w.subrange(0, eq)) {
            Some(TokView::Assignment(w.subrange(0, eq), w.subrange(eq + 1, w.len() as int)))
        } else {
            Some(TokView::Word(w))
        }
    }
}

/// The word token starting at `p` and the position after it; `None` when
/// the word is malformed or empty.
pub open spec fn lx_word_token(src: Seq<char>, p: int, reserved: bool) -> Option<(TokView, int)> {
    match lx_word(src, p, Seq::empty()) {
        Some((w, q)) => match classify(w, reserved) {
            Some(tv) => Some((tv, q)),
            None => None,
        },
        None => None,
    }
}

/// The position after the blanks and comments from `p`.
pub open spec fn blanks_end(src: Seq<char>, p: int) -> int
    decreases src.len() - p,
{
    if 0 <= p < src.len() && (src[p] == ' ' || src[p] == '\t') {
        blanks_end(src, p + 1)
    } else if 0 <= p < src.len() && src[p] == '#' {
        let j = run_end(src, p + 1, |c: char| c != '\n');
        proof {
            crate::arith::lemma_run_end_bounds(src, p + 1, |c: char| c != '\n');
        }
        blanks_end(src, j)
    } else {
        p
    }
}

/// The next token from position `pos` and the position after it: end of
/// input, a newline, an operator, or a word; `None` for a malformed word.
pub open spec fn lex_next(src: Seq<char>, pos: int, reserved: bool) -> Option<(TokView, int)> {
    let p = blanks_end(src, pos);
    if p >= src.len() {
        Some((TokView::Other(Token::Eof), p))
    } else if src[p] == '\n' {
        Some((TokView::Other(Token::Newline), p + 1))
    } else if spec_operator(src.subrange(p, src.len() as int)) is Some {
        let (t, n) = spec_operator(src.subrange(p, src.len() as int)).unwrap();
        Some((TokView::Other(t), p + n))
    } else {
        lx_word_token(src, p, reserved)
    }
}

} // verus!
