//! The structure of a shell word as the parser reads it from raw text:
//! literals, quoting, `$` expansions, backticks and tilde prefixes.
//!
//! A parsed word is seen through `part_view`, which keeps everything of a
//! part except the commands inside command substitutions.

use vstd::prelude::*;

use crate::arith::run_end;
use crate::ast::{ParamOp, WordPart};

verus! {

/// A word part as a value; command substitutions are seen without their
/// commands.
pub enum SPart {
    Lit(Seq<char>),
    SQ(Seq<char>),
    DQ(Seq<SPart>),
    Param(Seq<char>, SOp),
    CmdSubst,
    Backtick,
    Arith(Seq<SPart>),
    Tilde(Seq<char>),
}

/// A parameter operation as a value.
pub enum SOp {
    Normal,
    Length,
    Default(bool, Seq<SPart>),
    Assign(bool, Seq<SPart>),
    Error(bool, Seq<SPart>),
    Alternative(bool, Seq<SPart>),
    TrimSuffixSmall(Seq<SPart>),
    TrimSuffixLarge(Seq<SPart>),
    TrimPrefixSmall(Seq<SPart>),
    TrimPrefixLarge(Seq<SPart>),
    BadSubst,
}

/// The value of a word part.
pub open spec fn part_view(p: WordPart) -> SPart
    decreases p,
{
    match p {
        WordPart::Literal(s) => SPart::Lit(s@),
        WordPart::SingleQuoted(s) => SPart::SQ(s@),
        WordPart::DoubleQuoted(v) => SPart::DQ(parts_view(v@)),
        WordPart::Param(pe) => SPart::Param(pe.name@, op_view(pe.op)),
        WordPart::CmdSubst(_) => SPart::CmdSubst,
        WordPart::Backtick(_) => SPart::Backtick,
        WordPart::Arith(v) => SPart::Arith(parts_view(v@)),
        WordPart::Tilde(s) => SPart::Tilde(s@),
    }
}

/// The values of a list of word parts.
pub open spec fn parts_view(s: Seq<WordPart>) -> Seq<SPart>
    decreases s,
{
    if s.len() == 0 {
        Seq::empty()
    } else {
        parts_view(s.subrange(0, s.len() - 1)).push(part_view(s[s.len() - 1]))
    }
}

/// The value of a parameter operation.
pub open spec fn op_view(o: ParamOp) -> SOp
    decreases o,
{
    match o {
        ParamOp::Normal => SOp::Normal,
        ParamOp::Length => SOp::Length,
        ParamOp::Default { colon, word } => SOp::Default(colon, parts_view(word@)),
        ParamOp::Assign { colon, word } => SOp::Assign(colon, parts_view(word@)),
        ParamOp::Error { colon, word } => SOp::Error(colon, parts_view(word@)),
        ParamOp::Alternative { colon, word } => SOp::Alternative(colon, parts_view(word@)),
        ParamOp::TrimSuffixSmall(w) => SOp::TrimSuffixSmall(parts_view(w@)),
        ParamOp::TrimSuffixLarge(w) => SOp::TrimSuffixLarge(parts_view(w@)),
        ParamOp::TrimPrefixSmall(w) => SOp::TrimPrefixSmall(parts_view(w@)),
        ParamOp::TrimPrefixLarge(w) => SOp::TrimPrefixLarge(parts_view(w@)),
        ParamOp::BadSubst => SOp::BadSubst,
    }
}

/// Appending a part appends its value.
pub proof fn lemma_parts_view_push(s: Seq<WordPart>, p: WordPart)
    ensures
        parts_view(s.push(p)) == parts_view(s).push(part_view(p)),
{
    assert(s.push(p).subrange(0, s.len() as int) =~= s);
}

/// A list of parts has as many values.
pub proof fn lemma_parts_view_len(s: Seq<WordPart>)
    ensures
        parts_view(s).len() == s.len(),
    decreases s.len(),
{
    if s.len() > 0 {
        lemma_parts_view_len(s.subrange(0, s.len() - 1));
    }
}

/// The special parameter characters.
pub open spec fn is_special_param(c: char) -> bool {
    c == '@' || c == '*' || c == '#' || c == '?' || c == '-' || c == '$' || c == '!'
}

pub open spec fn is_digit_char(c: char) -> bool {
    '0' <= c && c <= '9'
}

pub open spec fn is_name_start_char(c: char) -> bool {
    c == '_' || ('a' <= c && c <= 'z') || ('A' <= c && c <= 'Z')
}

pub open spec fn is_word_name_char(c: char) -> bool {
    is_name_start_char(c) || is_digit_char(c)
}

/// A nesting depth one deeper, saturating.
pub open spec fn deeper(d: int) -> int {
    if d < u64::MAX {
        d + 1
    } else {
        d
    }
}

/// A nesting depth one shallower, not below zero.
pub open spec fn shallower(d: int) -> int {
    if d > 0 {
        d - 1
    } else {
        0
    }
}

/// The position after a backtick substitution whose content starts at `i`:
/// a backslash escapes the next character; the closing backtick is
/// consumed when there is one.
pub open spec fn backtick_end(cs: Seq<char>, i: int) -> int
    decreases cs.len() - i,
{
    if i < 0 || i >= cs.len() {
        i
    } else if cs[i] == '`' {
        i + 1
    } else if cs[i] == '\\' && i + 1 < cs.len() {
        backtick_end(cs, i + 2)
    } else {
        backtick_end(cs, i + 1)
    }
}

/// The position after a `$(...)` whose content starts at `i`, at nesting
/// depth `depth`: parentheses nest, single quotes hide them.
pub open spec fn cmdsubst_end(cs: Seq<char>, i: int, depth: int) -> int
    decreases cs.len() - i,
{
    if i < 0 || i >= cs.len() {
        i
    } else if cs[i] == ')' {
        if shallower(depth) == 0 {
            i + 1
        } else {
            cmdsubst_end(cs, i + 1, shallower(depth))
        }
    } else if cs[i] == '(' {
        cmdsubst_end(cs, i + 1, deeper(depth))
    } else if cs[i] == '\'' {
        let j = run_end(cs, i + 1, |c: char| c != '\'');
        proof {
            crate::arith::lemma_run_end_bounds(cs, i + 1, |c: char| c != '\'');
        }
        if j < cs.len() {
            cmdsubst_end(cs, j + 1, depth)
        } else {
            j
        }
    } else {
        cmdsubst_end(cs, i + 1, depth)
    }
}

/// The content of a `$((...))` from `i`, at nesting depth `depth`, and the
/// position after its closing `))`.
pub open spec fn arith_scan(cs: Seq<char>, i: int, depth: int, content: Seq<char>) -> (Seq<char>, int)
    decreases cs.len() - i,
{
    if i < 0 || i >= cs.len() {
        (content, i)
    } else if cs[i] == ')' && i + 1 < cs.len() && cs[i + 1] == ')' && depth == 1 {
        (content, i + 2)
    } else if cs[i] == '(' {
        arith_scan(cs, i + 1, deeper(depth), content.push('('))
    } else if cs[i] == ')' {
        arith_scan(cs, i + 1, shallower(depth), content.push(')'))
    } else {
        arith_scan(cs, i + 1, depth, content.push(cs[i]))
    }
}

/// The position just past the next `}` from `i` (or the end).
pub open spec fn past_brace(cs: Seq<char>, i: int) -> int {
    let j = run_end(cs, i, |c: char| c != '}');
    if j < cs.len() {
        j + 1
    } else {
        j
    }
}

/// The raw text of the word of `${name<op>word}` from `i`, at brace depth
/// `depth`, and the position after the closing `}`.
pub open spec fn brace_word_scan(cs: Seq<char>, i: int, in_dquote: bool, depth: int, raw: Seq<char>) -> (
    Seq<char>,
    int,
)
    decreases cs.len() - i,
{
    if i < 0 || i >= cs.len() {
        (raw, i)
    } else if cs[i] == '}' {
        if shallower(depth) == 0 {
            (raw, i + 1)
        } else {
            brace_word_scan(cs, i + 1, in_dquote, shallower(depth), raw.push('}'))
        }
    } else if cs[i] == '$' && i + 1 < cs.len() && cs[i + 1] == '{' {
        brace_word_scan(cs, i + 2, in_dquote, deeper(depth), raw + seq!['$', '{'])
    } else if cs[i] == '\'' && !in_dquote {
        let j = run_end(cs, i + 1, |c: char| c != '\'');
        proof {
            crate::arith::lemma_run_end_bounds(cs, i + 1, |c: char| c != '\'');
        }
        let raw2 = raw.push('\'') + cs.subrange(i + 1, j);
        if j < cs.len() {
            brace_word_scan(cs, j + 1, in_dquote, depth, raw2.push('\''))
        } else {
            (raw2, j)
        }
    } else if cs[i] == '\\' {
        if i + 1 < cs.len() {
            brace_word_scan(cs, i + 2, in_dquote, depth, raw + seq!['\\', cs[i + 1]])
        } else {
            (raw.push('\\'), i + 1)
        }
    } else {
        brace_word_scan(cs, i + 1, in_dquote, depth, raw.push(cs[i]))
    }
}

/// Adjacent literals joined, as `coalesce_literals` does for `parts[..n]`.
pub open spec fn coalesce(parts: Seq<SPart>) -> Seq<SPart>
    decreases parts.len(),
{
    if parts.len() == 0 {
        Seq::empty()
    } else {
        let r = coalesce(parts.drop_last());
        match parts.last() {
            SPart::Lit(s) => if r.len() > 0 && r.last() is Lit {
                r.drop_last().push(SPart::Lit(r.last()->Lit_0 + s))
            } else {
                r.push(SPart::Lit(s))
            },
            other => r.push(other),
        }
    }
}

/// A literal part unless empty.
pub open spec fn flush(parts: Seq<SPart>, lit: Seq<char>) -> Seq<SPart> {
    if lit.len() > 0 {
        parts.push(SPart::Lit(lit))
    } else {
        parts
    }
}

/// The characters that end a run of plain text in a word.
pub open spec fn plain_char(c: char, in_dquote: bool) -> bool {
    c != '$' && c != '`' && c != '\\' && c != '"' && (in_dquote || c != '\'')
}

/// The characters of a tilde prefix's user name.
pub open spec fn tilde_char(c: char) -> bool {
    c != '/' && c != ':' && c != ' ' && c != '\t' && c != '\n'
}

/// The parts of raw word text (see `word_loop`); nothing without budget.
pub open spec fn word_parts(cs: Seq<char>, in_dquote: bool, fuel: int) -> Seq<SPart>
    decreases fuel, 3int, 0int,
{
    if fuel <= 0 {
        Seq::empty()
    } else {
        coalesce(word_loop(cs, 0, in_dquote, fuel, Seq::empty()))
    }
}

/// The parts of `cs[i..]` after `parts`: single quotes (unless inside
/// double quotes), double quotes, `$` expansions, backticks, backslash
/// escapes, a leading tilde prefix, and plain text.
pub open spec fn word_loop(cs: Seq<char>, i: int, in_dquote: bool, fuel: int, parts: Seq<SPart>) -> Seq<SPart>
    decreases fuel, 2int, cs.len() - i,
{
    if i < 0 || i >= cs.len() || fuel <= 0 {
        parts
    } else if cs[i] == '\'' && !in_dquote {
        let j = run_end(cs, i + 1, |c: char| c != '\'');
        proof {
            crate::arith::lemma_run_end_bounds(cs, i + 1, |c: char| c != '\'');
        }
        let k = if j < cs.len() {
            j + 1
        } else {
            j
        };
        word_loop(cs, k, in_dquote, fuel, parts.push(SPart::SQ(cs.subrange(i + 1, j))))
    } else if cs[i] == '"' {
        let (inner, j) = dq_parts(cs, i + 1, fuel - 1);
        let k = if 0 <= j < cs.len() && cs[j] == '"' {
            j + 1
        } else {
            j
        };
        if i < k <= cs.len() {
            word_loop(cs, k, in_dquote, fuel, parts.push(SPart::DQ(inner)))
        } else {
            parts.push(SPart::DQ(inner))
        }
    } else if cs[i] == '$' {
        let (p, j) = dollar(cs, i + 1, in_dquote, fuel - 1);
        let part = match p {
            Some(x) => x,
            None => SPart::Lit(seq!['$']),
        };
        if i < j <= cs.len() {
            word_loop(cs, j, in_dquote, fuel, parts.push(part))
        } else {
            parts.push(part)
        }
    } else if cs[i] == '`' {
        let j = backtick_end(cs, i + 1);
        if i < j <= cs.len() {
            word_loop(cs, j, in_dquote, fuel, parts.push(SPart::Backtick))
        } else {
            parts.push(SPart::Backtick)
        }
    } else if cs[i] == '\\' {
        if i + 1 < cs.len() {
            let d = cs[i + 1];
            if d == '\n' {
                word_loop(cs, i + 2, in_dquote, fuel, parts)
            } else if in_dquote && (d == '$' || d == '`' || d == '"' || d == '\\') {
                word_loop(cs, i + 2, in_dquote, fuel, parts.push(SPart::Lit(seq![d])))
            } else {
                word_loop(cs, i + 2, in_dquote, fuel, parts.push(SPart::Lit(seq!['\\', d])))
            }
        } else {
            word_loop(cs, i + 1, in_dquote, fuel, parts)
        }
    } else if cs[i] == '~' && parts.len() == 0 {
        let j = run_end(cs, i + 1, |c: char| tilde_char(c));
        proof {
            crate::arith::lemma_run_end_bounds(cs, i + 1, |c: char| tilde_char(c));
        }
        word_loop(cs, j, in_dquote, fuel, parts.push(SPart::Tilde(cs.subrange(i + 1, j))))
    } else {
        let j = run_end(cs, i + 1, |c: char| plain_char(c, in_dquote));
        proof {
            crate::arith::lemma_run_end_bounds(cs, i + 1, |c: char| plain_char(c, in_dquote));
        }
        word_loop(cs, j, in_dquote, fuel, parts.push(SPart::Lit(cs.subrange(i, j))))
    }
}

/// A character of plain here-document text.
pub open spec fn heredoc_text_char(c: char) -> bool {
    c != '$' && c != '`' && c != '\\'
}

/// The parts of an unquoted here-document body: quotes are plain text;
/// `$` expansions, backticks and the escapes `\$`, `` \` ``, `\\` and
/// `\<newline>` are special; adjacent literal text is joined.
pub open spec fn heredoc_parts(cs: Seq<char>, fuel: int) -> Seq<SPart> {
    if fuel <= 0 {
        Seq::empty()
    } else {
        coalesce(heredoc_loop(cs, 0, fuel, Seq::empty()))
    }
}

/// The here-document parts of `cs[i..]` after `parts`.
pub open spec fn heredoc_loop(cs: Seq<char>, i: int, fuel: int, parts: Seq<SPart>) -> Seq<SPart>
    decreases cs.len() - i,
{
    if i < 0 || i >= cs.len() || fuel <= 0 {
        parts
    } else if cs[i] == '$' {
        let (p, j) = dollar(cs, i + 1, true, fuel - 1);
        let part = match p {
            Some(x) => x,
            None => SPart::Lit(seq!['$']),
        };
        if i < j <= cs.len() {
            heredoc_loop(cs, j, fuel, parts.push(part))
        } else {
            parts.push(part)
        }
    } else if cs[i] == '`' {
        let j = backtick_end(cs, i + 1);
        if i < j <= cs.len() {
            heredoc_loop(cs, j, fuel, parts.push(SPart::Backtick))
        } else {
            parts.push(SPart::Backtick)
        }
    } else if cs[i] == '\\' {
        if i + 1 < cs.len() {
            let d = cs[i + 1];
            if d == '\n' {
                heredoc_loop(cs, i + 2, fuel, parts)
            } else if d == '$' || d == '`' || d == '\\' {
                heredoc_loop(cs, i + 2, fuel, parts.push(SPart::Lit(seq![d])))
            } else {
                heredoc_loop(cs, i + 2, fuel, parts.push(SPart::Lit(seq!['\\', d])))
            }
        } else {
            heredoc_loop(cs, i + 1, fuel, parts)
        }
    } else {
        let j = run_end(cs, i + 1, |c: char| heredoc_text_char(c));
        proof {
            crate::arith::lemma_run_end_bounds(cs, i + 1, |c: char| heredoc_text_char(c));
        }
        heredoc_loop(cs, j, fuel, parts.push(SPart::Lit(cs.subrange(i, j))))
    }
}

/// The parts inside a double-quoted region from `i` up to the closing
/// quote (not consumed), and the position there.
pub open spec fn dq_parts(cs: Seq<char>, i: int, fuel: int) -> (Seq<SPart>, int)
    decreases fuel, 3int, 0int,
{
    if fuel <= 0 {
        (Seq::empty(), i)
    } else {
        dq_loop(cs, i, fuel, Seq::empty(), Seq::empty())
    }
}

/// The double-quoted parts of `cs[i..]` after `parts`, with pending literal
/// text `lit`.
pub open spec fn dq_loop(cs: Seq<char>, i: int, fuel: int, parts: Seq<SPart>, lit: Seq<char>) -> (
    Seq<SPart>,
    int,
)
    decreases fuel, 2int, cs.len() - i,
{
    if i < 0 || i >= cs.len() || cs[i] == '"' || fuel <= 0 {
        (flush(parts, lit), i)
    } else if cs[i] == '$' {
        let parts1 = flush(parts, lit);
        let (p, j) = dollar(cs, i + 1, true, fuel - 1);
        if i < j <= cs.len() {
            match p {
                Some(x) => dq_loop(cs, j, fuel, parts1.push(x), Seq::empty()),
                None => dq_loop(cs, j, fuel, parts1, seq!['$']),
            }
        } else {
            (parts1, j)
        }
    } else if cs[i] == '`' {
        let parts1 = flush(parts, lit);
        let j = backtick_end(cs, i + 1);
        if i < j <= cs.len() {
            dq_loop(cs, j, fuel, parts1.push(SPart::Backtick), Seq::empty())
        } else {
            (parts1, j)
        }
    } else if cs[i] == '\\' {
        if i + 1 < cs.len() {
            let d = cs[i + 1];
            let lit2 = if d == '$' || d == '`' || d == '"' || d == '\\' || d == '\n' {
                if d != '\n' {
                    lit.push(d)
                } else {
                    lit
                }
            } else {
                lit + seq!['\\', d]
            };
            dq_loop(cs, i + 2, fuel, parts, lit2)
        } else {
            dq_loop(cs, i + 1, fuel, parts, lit)
        }
    } else {
        dq_loop(cs, i + 1, fuel, parts, lit.push(cs[i]))
    }
}

/// What follows a `$` at `i`: `${...}`, `$((...))`, `$(...)`, a special
/// parameter or digit, or a name; `None` (nothing consumed) otherwise.
pub open spec fn dollar(cs: Seq<char>, i: int, in_dquote: bool, fuel: int) -> (Option<SPart>, int)
    decreases fuel, 1int, 0int,
{
    if fuel <= 0 || i < 0 || i >= cs.len() {
        (None, i)
    } else if cs[i] == '{' {
        let (p, j) = brace_param(cs, i + 1, in_dquote, fuel - 1);
        (Some(p), j)
    } else if cs[i] == '(' {
        if i + 1 < cs.len() && cs[i + 1] == '(' {
            let (content, j) = arith_scan(cs, i + 2, 1, Seq::empty());
            (Some(SPart::Arith(word_parts(content, false, fuel - 1))), j)
        } else {
            (Some(SPart::CmdSubst), cmdsubst_end(cs, i + 1, 1))
        }
    } else if is_special_param(cs[i]) || is_digit_char(cs[i]) {
        (Some(SPart::Param(seq![cs[i]], SOp::Normal)), i + 1)
    } else if is_name_start_char(cs[i]) {
        let j = run_end(cs, i, |c: char| is_word_name_char(c));
        (Some(SPart::Param(cs.subrange(i, j), SOp::Normal)), j)
    } else {
        (None, i)
    }
}

/// The word of `${name<op>word}` from `i`, parsed, and the position after
/// the closing `}`.
pub open spec fn brace_word(cs: Seq<char>, i: int, in_dquote: bool, fuel: int) -> (Seq<SPart>, int)
    decreases fuel, 1int, 0int,
{
    let (raw, j) = brace_word_scan(cs, i, in_dquote, 1, Seq::empty());
    if fuel <= 0 {
        (Seq::empty(), j)
    } else {
        (word_parts(raw, in_dquote, fuel - 1), j)
    }
}

/// The end of the parameter name of `${...}` that starts at `start`: one
/// special character, a run of digits, or a run of name characters.
pub open spec fn brace_name_end(cs: Seq<char>, start: int) -> int {
    if 0 <= start < cs.len() && is_special_param(cs[start]) {
        start + 1
    } else if 0 <= start < cs.len() && is_digit_char(cs[start]) {
        run_end(cs, start, |c: char| is_digit_char(c))
    } else {
        run_end(cs, start, |c: char| is_word_name_char(c))
    }
}

/// The operator characters that may follow the name in `${...}`.
pub open spec fn is_brace_op(c: char) -> bool {
    c == ':' || c == '-' || c == '=' || c == '?' || c == '+' || c == '%' || c == '#'
}

/// `${...}` after the opening brace at `i`: `${#name}`, `${name}`, the
/// operations `:- - := = :? ? :+ + % %% # ##` with their word, or a bad
/// substitution; and the position after it.
pub open spec fn brace_param(cs: Seq<char>, i: int, in_dquote: bool, fuel: int) -> (SPart, int)
    decreases fuel, 1int, 0int,
{
    if i < 0 || i >= cs.len() {
        (SPart::Lit(seq!['$', '{']), i)
    } else if fuel <= 0 {
        (SPart::Lit(seq!['$', '{']), past_brace(cs, i))
    } else {
        let length = cs[i] == '#' && i + 1 < cs.len() && cs[i + 1] != '}';
        let start = if length {
            i + 1
        } else {
            i
        };
        let k = brace_name_end(cs, start);
        let name = cs.subrange(start, k);
        if length {
            (SPart::Param(name, SOp::Length), past_brace(cs, k))
        } else if k >= cs.len() || cs[k] == '}' {
            (SPart::Param(name, SOp::Normal), if k < cs.len() { k + 1 } else { k })
        } else if !is_brace_op(cs[k]) {
            (SPart::Param(name.push(cs[k]), SOp::BadSubst), past_brace(cs, k))
        } else if cs[k] == ':' {
            if k + 1 < cs.len() {
                let op2 = cs[k + 1];
                let (word, j) = brace_word(cs, k + 2, in_dquote, fuel - 1);
                let op = if op2 == '-' {
                    SOp::Default(true, word)
                } else if op2 == '=' {
                    SOp::Assign(true, word)
                } else if op2 == '?' {
                    SOp::Error(true, word)
                } else if op2 == '+' {
                    SOp::Alternative(true, word)
                } else {
                    SOp::Normal
                };
                (SPart::Param(name, op), j)
            } else {
                (SPart::Param(name, SOp::Normal), past_brace(cs, k + 1))
            }
        } else if cs[k] == '-' {
            let (word, j) = brace_word(cs, k + 1, in_dquote, fuel - 1);
            (SPart::Param(name, SOp::Default(false, word)), j)
        } else if cs[k] == '=' {
            let (word, j) = brace_word(cs, k + 1, in_dquote, fuel - 1);
            (SPart::Param(name, SOp::Assign(false, word)), j)
        } else if cs[k] == '?' {
            let (word, j) = brace_word(cs, k + 1, in_dquote, fuel - 1);
            (SPart::Param(name, SOp::Error(false, word)), j)
        } else if cs[k] == '+' {
            let (word, j) = brace_word(cs, k + 1, in_dquote, fuel - 1);
            (SPart::Param(name, SOp::Alternative(false, word)), j)
        } else if cs[k] == '%' {
            if k + 1 < cs.len() && cs[k + 1] == '%' {
                let (word, j) = brace_word(cs, k + 2, false, fuel - 1);
                (SPart::Param(name, SOp::TrimSuffixLarge(word)), j)
            } else {
                let (word, j) = brace_word(cs, k + 1, false, fuel - 1);
                (SPart::Param(name, SOp::TrimSuffixSmall(word)), j)
            }
        } else {
            if k + 1 < cs.len() && cs[k + 1] == '#' {
                let (word, j) = brace_word(cs, k + 2, false, fuel - 1);
                (SPart::Param(name, SOp::TrimPrefixLarge(word)), j)
            } else {
                let (word, j) = brace_word(cs, k + 1, false, fuel - 1);
                (SPart::Param(name, SOp::TrimPrefixSmall(word)), j)
            }
        }
    }
}

} // verus!
