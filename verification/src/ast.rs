use vstd::prelude::*;

use crate::error::Span;
use crate::word_syntax::{lemma_parts_view_push, op_view, part_view, parts_view};

verus! {

/// A complete shell program: a list of complete commands separated by
/// newlines or semicolons.
#[derive(Debug)]
pub struct Program {
    pub commands: Vec<Command>,
}

/// A shell command (any node in the command grammar).
#[derive(Debug)]
pub enum Command {
    /// Simple command: optional assignments, arguments, redirections.
    /// `FOO=bar cmd arg1 arg2 >file`
    Simple {
        assigns: Vec<Assignment>,
        args: Vec<Word>,
        redirs: Vec<Redir>,
        span: Span,
    },
    /// Pipeline: `cmd1 | cmd2 | cmd3`, optionally negated with `!`
    Pipeline {
        commands: Vec<Command>,
        bang: bool,
        span: Span,
    },
    /// AND list: `left && right`
    And(Box<Command>, Box<Command>),
    /// OR list: `left || right`
    Or(Box<Command>, Box<Command>),
    /// Sequential: `left ; right` or `left <newline> right`
    Sequence(Box<Command>, Box<Command>),
    /// Subshell: `( list )`
    Subshell {
        body: Box<Command>,
        redirs: Vec<Redir>,
        span: Span,
    },
    /// Brace group: `{ list; }`
    BraceGroup {
        body: Box<Command>,
        redirs: Vec<Redir>,
        span: Span,
    },
    /// If statement: `if cond; then body; [elif ...;] [else ...;] fi`
    If {
        cond: Box<Command>,
        then_part: Box<Command>,
        else_part: Option<Box<Command>>,
        span: Span,
    },
    /// While loop: `while cond; do body; done`
    While {
        cond: Box<Command>,
        body: Box<Command>,
        span: Span,
    },
    /// Until loop: `until cond; do body; done`
    Until {
        cond: Box<Command>,
        body: Box<Command>,
        span: Span,
    },
    /// For loop: `for var [in words...]; do body; done`
    /// `words` is None for `for var; do ...` (iterates over "$@")
    For {
        var: String,
        words: Option<Vec<Word>>,
        body: Box<Command>,
        span: Span,
    },
    /// Case statement: `case word in (pattern) body ;; ... esac`
    Case {
        word: Word,
        arms: Vec<CaseArm>,
        span: Span,
    },
    /// Function definition: `name() body`
    FuncDef {
        name: String,
        body: Box<Command>,
        span: Span,
    },
    /// Negation: `! command`
    Not(Box<Command>),
    /// Background: `command &`
    Background {
        cmd: Box<Command>,
        redirs: Vec<Redir>,
    },
}

/// A case arm: `pattern1 | pattern2) body ;;`
#[derive(Debug)]
pub struct CaseArm {
    pub patterns: Vec<Word>,
    pub body: Option<Command>,
    pub span: Span,
}

/// Variable assignment: `name=word`
#[derive(Debug)]
pub struct Assignment {
    pub name: String,
    pub value: Word,
    pub span: Span,
}

/// A shell word: a list of parts that concatenate to form a single token.
/// For example, `hello"world"${x}` is three parts: Literal, DoubleQuoted, Param.
#[derive(Debug)]
pub struct Word {
    pub parts: Vec<WordPart>,
    pub span: Span,
}

/// A component of a shell word.
#[derive(Debug)]
pub enum WordPart {
    /// Unquoted literal text
    Literal(String),
    /// Single-quoted string (no expansion)
    SingleQuoted(String),
    /// Double-quoted region (expansions apply, but no field splitting or globbing)
    DoubleQuoted(Vec<WordPart>),
    /// Parameter/variable expansion: `$var`, `${var}`, `${var:-default}`, `${#var}`, etc.
    Param(ParamExpr),
    /// Command substitution: `$(command)`
    CmdSubst(Box<Command>),
    /// Backtick command substitution: `` `command` ``
    Backtick(Box<Command>),
    /// Arithmetic expansion: `$((expression))`
    Arith(Vec<WordPart>),
    /// Tilde prefix: `~` or `~user`
    Tilde(String),
}

/// Parameter expansion expression.
#[derive(Debug)]
pub struct ParamExpr {
    /// Variable name, or special char (`@`, `*`, `#`, `?`, `-`, `$`, `!`, `0`-`9`)
    pub name: String,
    /// Operation to perform
    pub op: ParamOp,
    pub span: Span,
}

/// Parameter expansion operations (POSIX 2.6.2).
#[derive(Debug)]
pub enum ParamOp {
    /// `$var` or `${var}` — simple expansion
    Normal,
    /// `${#var}` — string length
    Length,
    /// `${var-word}` or `${var:-word}` — use default
    Default { colon: bool, word: Vec<WordPart> },
    /// `${var=word}` or `${var:=word}` — assign default
    Assign { colon: bool, word: Vec<WordPart> },
    /// `${var?word}` or `${var:?word}` — error if unset
    Error { colon: bool, word: Vec<WordPart> },
    /// `${var+word}` or `${var:+word}` — use alternative
    Alternative { colon: bool, word: Vec<WordPart> },
    /// `${var%pattern}` — remove smallest suffix
    TrimSuffixSmall(Vec<WordPart>),
    /// `${var%%pattern}` — remove largest suffix
    TrimSuffixLarge(Vec<WordPart>),
    /// `${var#pattern}` — remove smallest prefix
    TrimPrefixSmall(Vec<WordPart>),
    /// `${var##pattern}` — remove largest prefix
    TrimPrefixLarge(Vec<WordPart>),
    /// Invalid substitution syntax — produces error at expansion time
    BadSubst,
}

/// I/O redirection.
#[derive(Debug)]
pub struct Redir {
    /// File descriptor number (default: 0 for input, 1 for output)
    pub fd: i32,
    pub kind: RedirKind,
    pub span: Span,
}

/// Pre-parsed heredoc body.
#[derive(Debug)]
pub enum HereDocBody {
    /// Quoted heredoc (<<'EOF') — no expansion, literal text
    Literal(String),
    /// Unquoted heredoc (<<EOF) — contains expandable word parts
    Parsed(Vec<WordPart>),
}

/// Redirection type.
#[derive(Debug)]
pub enum RedirKind {
    /// `< file`
    Input(Word),
    /// `> file`
    Output(Word),
    /// `>| file` (clobber)
    Clobber(Word),
    /// `>> file`
    Append(Word),
    /// `<> file` (read-write)
    ReadWrite(Word),
    /// `<& fd` or `<& -`
    DupInput(Word),
    /// `>& fd` or `>& -`
    DupOutput(Word),
    /// `<< delimiter` (here-document)
    HereDoc(HereDocBody),
    /// `<<- delimiter` (here-document, strip tabs)
    HereDocStrip(HereDocBody),
}


/// A copy of a list of words.
pub fn clone_words(ws: &Vec<Word>) -> (r: Vec<Word>)
    ensures
        r@.len() == ws@.len(),
        words_same(r@, ws@),
    decreases ws, 0nat,
{
    let mut r: Vec<Word> = Vec::new();
    let mut i: usize = 0;
    while i < ws.len()
        invariant
            i <= ws.len(),
            r@.len() == i,
            forall|t: int| 0 <= t < i ==> #[trigger] word_same(r@[t], ws@[t]),
        decreases ws.len() - i,
    {
        proof {
            assert(decreases_to!(ws => ws@[i as int]));
        }
        r.push(clone_word(&ws[i]));
        i += 1;
    }
    r
}

/// Two words with the same parts (by value) and position.
pub open spec fn word_same(a: Word, b: Word) -> bool {
    parts_view(a.parts@) == parts_view(b.parts@) && a.span == b.span
}

/// Two lists of words, word by word the same.
pub open spec fn words_same(a: Seq<Word>, b: Seq<Word>) -> bool {
    a.len() == b.len() && forall|i: int| 0 <= i < a.len() ==> #[trigger] word_same(a[i], b[i])
}

/// Two lists of redirections, one by one the same.
pub open spec fn redirs_same(a: Seq<Redir>, b: Seq<Redir>) -> bool {
    &&& a.len() == b.len()
    &&& forall|i: int| 0 <= i < a.len() ==> #[trigger] a[i].fd == b[i].fd && a[i].span == b[i].span && kind_same(
        a[i].kind,
        b[i].kind,
    )
}

/// Two lists of assignments, one by one the same.
pub open spec fn assigns_same(a: Seq<Assignment>, b: Seq<Assignment>) -> bool {
    &&& a.len() == b.len()
    &&& forall|i: int| 0 <= i < a.len() ==> #[trigger] a[i].name@ == b[i].name@ && word_same(a[i].value, b[i].value)
        && a[i].span == b[i].span
}

/// Two command trees of the same shape, with the same words, redirections,
/// names and positions throughout.
pub open spec fn command_same(a: Command, b: Command) -> bool
    decreases a,
{
    match (a, b) {
        (
            Command::Simple { assigns: a1, args: g1, redirs: r1, span: s1 },
            Command::Simple { assigns: a2, args: g2, redirs: r2, span: s2 },
        ) => assigns_same(a1@, a2@) && words_same(g1@, g2@) && redirs_same(r1@, r2@) && s1 == s2,
        (
            Command::Pipeline { commands: c1, bang: b1, span: s1 },
            Command::Pipeline { commands: c2, bang: b2, span: s2 },
        ) => {
            &&& c1@.len() == c2@.len()
            &&& forall|i: int| 0 <= i < c1@.len() ==> #[trigger] command_same(c1@[i], c2@[i])
            &&& b1 == b2
            &&& s1 == s2
        },
        (Command::And(l1, r1), Command::And(l2, r2)) => command_same(*l1, *l2) && command_same(*r1, *r2),
        (Command::Or(l1, r1), Command::Or(l2, r2)) => command_same(*l1, *l2) && command_same(*r1, *r2),
        (Command::Sequence(l1, r1), Command::Sequence(l2, r2)) => command_same(*l1, *l2) && command_same(*r1, *r2),
        (
            Command::Subshell { body: b1, redirs: r1, span: s1 },
            Command::Subshell { body: b2, redirs: r2, span: s2 },
        ) => command_same(*b1, *b2) && redirs_same(r1@, r2@) && s1 == s2,
        (
            Command::BraceGroup { body: b1, redirs: r1, span: s1 },
            Command::BraceGroup { body: b2, redirs: r2, span: s2 },
        ) => command_same(*b1, *b2) && redirs_same(r1@, r2@) && s1 == s2,
        (
            Command::If { cond: c1, then_part: t1, else_part: e1, span: s1 },
            Command::If { cond: c2, then_part: t2, else_part: e2, span: s2 },
        ) => {
            &&& command_same(*c1, *c2)
            &&& command_same(*t1, *t2)
            &&& match (e1, e2) {
                (Some(x), Some(y)) => command_same(*x, *y),
                (None, None) => true,
                _ => false,
            }
            &&& s1 == s2
        },
        (
            Command::While { cond: c1, body: b1, span: s1 },
            Command::While { cond: c2, body: b2, span: s2 },
        ) => command_same(*c1, *c2) && command_same(*b1, *b2) && s1 == s2,
        (
            Command::Until { cond: c1, body: b1, span: s1 },
            Command::Until { cond: c2, body: b2, span: s2 },
        ) => command_same(*c1, *c2) && command_same(*b1, *b2) && s1 == s2,
        (
            Command::For { var: v1, words: w1, body: b1, span: s1 },
            Command::For { var: v2, words: w2, body: b2, span: s2 },
        ) => {
            &&& v1@ == v2@
            &&& match (w1, w2) {
                (Some(x), Some(y)) => words_same(x@, y@),
                (None, None) => true,
                _ => false,
            }
            &&& command_same(*b1, *b2)
            &&& s1 == s2
        },
        (Command::Case { word: w1, arms: a1, span: s1 }, Command::Case { word: w2, arms: a2, span: s2 }) => {
            &&& word_same(w1, w2)
            &&& a1@.len() == a2@.len()
            &&& forall|i: int| 0 <= i < a1@.len() ==> #[trigger] arm_same_at(a1@, a2@, i)
                && match (a1@[i].body, a2@[i].body) {
                (Some(x), Some(y)) => command_same(x, y),
                (None, None) => true,
                _ => false,
            }
            &&& s1 == s2
        },
        (
            Command::FuncDef { name: n1, body: b1, span: s1 },
            Command::FuncDef { name: n2, body: b2, span: s2 },
        ) => n1@ == n2@ && command_same(*b1, *b2) && s1 == s2,
        (Command::Not(x), Command::Not(y)) => command_same(*x, *y),
        (Command::Background { cmd: c1, redirs: r1 }, Command::Background { cmd: c2, redirs: r2 }) => command_same(
            *c1,
            *c2,
        ) && redirs_same(r1@, r2@),
        _ => false,
    }
}

/// The case arms at `i` have the same patterns and position.
pub open spec fn arm_same_at(a: Seq<CaseArm>, b: Seq<CaseArm>, i: int) -> bool {
    words_same(a[i].patterns@, b[i].patterns@) && a[i].span == b[i].span
}

/// Two here-document bodies with the same text or the same parts.
pub open spec fn heredoc_same(a: HereDocBody, b: HereDocBody) -> bool {
    match (a, b) {
        (HereDocBody::Literal(x), HereDocBody::Literal(y)) => x@ == y@,
        (HereDocBody::Parsed(u), HereDocBody::Parsed(v)) => parts_view(u@) == parts_view(v@),
        _ => false,
    }
}

/// Two redirection kinds of the same operator with the same target.
pub open spec fn kind_same(a: RedirKind, b: RedirKind) -> bool {
    match (a, b) {
        (RedirKind::Input(x), RedirKind::Input(y)) => word_same(x, y),
        (RedirKind::Output(x), RedirKind::Output(y)) => word_same(x, y),
        (RedirKind::Clobber(x), RedirKind::Clobber(y)) => word_same(x, y),
        (RedirKind::Append(x), RedirKind::Append(y)) => word_same(x, y),
        (RedirKind::ReadWrite(x), RedirKind::ReadWrite(y)) => word_same(x, y),
        (RedirKind::DupInput(x), RedirKind::DupInput(y)) => word_same(x, y),
        (RedirKind::DupOutput(x), RedirKind::DupOutput(y)) => word_same(x, y),
        (RedirKind::HereDoc(x), RedirKind::HereDoc(y)) => heredoc_same(x, y),
        (RedirKind::HereDocStrip(x), RedirKind::HereDocStrip(y)) => heredoc_same(x, y),
        _ => false,
    }
}

/// A copy of a word.
pub fn clone_word(w: &Word) -> (r: Word)
    ensures
        word_same(r, *w),
    decreases w, 0nat,
{
    Word { parts: clone_parts(&w.parts), span: w.span }
}

/// A copy of a list of word parts.
pub fn clone_parts(ps: &Vec<WordPart>) -> (r: Vec<WordPart>)
    ensures
        r@.len() == ps@.len(),
        parts_view(r@) == parts_view(ps@),
    decreases ps, 0nat,
{
    let mut r: Vec<WordPart> = Vec::new();
    let mut i: usize = 0;
    assert(ps@.take(0) =~= Seq::<WordPart>::empty());
    assert(r@ =~= Seq::<WordPart>::empty());
    while i < ps.len()
        invariant
            i <= ps.len(),
            r@.len() == i,
            parts_view(r@) == parts_view(ps@.take(i as int)),
        decreases ps.len() - i,
    {
        proof {
            assert(decreases_to!(ps => ps@[i as int]));
        }
        let c = clone_part(&ps[i]);
        proof {
            lemma_parts_view_push(r@, c);
            lemma_parts_view_push(ps@.take(i as int), ps@[i as int]);
            assert(ps@.take(i + 1) =~= ps@.take(i as int).push(ps@[i as int]));
        }
        r.push(c);
        i += 1;
    }
    assert(ps@.take(ps@.len() as int) =~= ps@);
    r
}

/// A copy of a word part.
pub fn clone_part(p: &WordPart) -> (r: WordPart)
    ensures
        part_view(r) == part_view(*p),
    decreases p, 0nat,
{
    match p {
        WordPart::Literal(s) => WordPart::Literal(s.clone()),
        WordPart::SingleQuoted(s) => WordPart::SingleQuoted(s.clone()),
        WordPart::DoubleQuoted(v) => WordPart::DoubleQuoted(clone_parts(v)),
        WordPart::Param(pe) => WordPart::Param(clone_param(pe)),
        WordPart::CmdSubst(c) => WordPart::CmdSubst(Box::new(clone_command(c))),
        WordPart::Backtick(c) => WordPart::Backtick(Box::new(clone_command(c))),
        WordPart::Arith(v) => WordPart::Arith(clone_parts(v)),
        WordPart::Tilde(s) => WordPart::Tilde(s.clone()),
    }
}

/// A copy of a parameter expansion.
pub fn clone_param(pe: &ParamExpr) -> (r: ParamExpr)
    ensures
        r.name@ == pe.name@,
        op_view(r.op) == op_view(pe.op),
        r.span == pe.span,
    decreases pe, 0nat,
{
    let op = match &pe.op {
        ParamOp::Normal => ParamOp::Normal,
        ParamOp::Length => ParamOp::Length,
        ParamOp::Default { colon, word } => ParamOp::Default { colon: *colon, word: clone_parts(word) },
        ParamOp::Assign { colon, word } => ParamOp::Assign { colon: *colon, word: clone_parts(word) },
        ParamOp::Error { colon, word } => ParamOp::Error { colon: *colon, word: clone_parts(word) },
        ParamOp::Alternative { colon, word } => ParamOp::Alternative {
            colon: *colon,
            word: clone_parts(word),
        },
        ParamOp::TrimSuffixSmall(w) => ParamOp::TrimSuffixSmall(clone_parts(w)),
        ParamOp::TrimSuffixLarge(w) => ParamOp::TrimSuffixLarge(clone_parts(w)),
        ParamOp::TrimPrefixSmall(w) => ParamOp::TrimPrefixSmall(clone_parts(w)),
        ParamOp::TrimPrefixLarge(w) => ParamOp::TrimPrefixLarge(clone_parts(w)),
        ParamOp::BadSubst => ParamOp::BadSubst,
    };
    ParamExpr { name: pe.name.clone(), op, span: pe.span }
}

/// A copy of a list of redirections.
pub fn clone_redirs(rs: &Vec<Redir>) -> (r: Vec<Redir>)
    ensures
        r@.len() == rs@.len(),
        redirs_same(r@, rs@),
    decreases rs, 0nat,
{
    let mut r: Vec<Redir> = Vec::new();
    let mut i: usize = 0;
    while i < rs.len()
        invariant
            i <= rs.len(),
            r@.len() == i,
            forall|t: int| 0 <= t < i ==> #[trigger] r@[t].fd == rs@[t].fd && r@[t].span == rs@[t].span
                && kind_same(r@[t].kind, rs@[t].kind),
        decreases rs.len() - i,
    {
        proof {
            assert(decreases_to!(rs => rs@[i as int]));
        }
        r.push(clone_redir(&rs[i]));
        i += 1;
    }
    r
}

/// A copy of a here-document body.
pub fn clone_heredoc(b: &HereDocBody) -> (r: HereDocBody)
    ensures
        heredoc_same(r, *b),
    decreases b, 0nat,
{
    match b {
        HereDocBody::Literal(s) => HereDocBody::Literal(s.clone()),
        HereDocBody::Parsed(v) => HereDocBody::Parsed(clone_parts(v)),
    }
}

/// A copy of a redirection.
pub fn clone_redir(rd: &Redir) -> (r: Redir)
    ensures
        r.fd == rd.fd,
        r.span == rd.span,
        kind_same(r.kind, rd.kind),
    decreases rd, 0nat,
{
    let kind = match &rd.kind {
        RedirKind::Input(w) => RedirKind::Input(clone_word(w)),
        RedirKind::Output(w) => RedirKind::Output(clone_word(w)),
        RedirKind::Clobber(w) => RedirKind::Clobber(clone_word(w)),
        RedirKind::Append(w) => RedirKind::Append(clone_word(w)),
        RedirKind::ReadWrite(w) => RedirKind::ReadWrite(clone_word(w)),
        RedirKind::DupInput(w) => RedirKind::DupInput(clone_word(w)),
        RedirKind::DupOutput(w) => RedirKind::DupOutput(clone_word(w)),
        RedirKind::HereDoc(b) => RedirKind::HereDoc(clone_heredoc(b)),
        RedirKind::HereDocStrip(b) => RedirKind::HereDocStrip(clone_heredoc(b)),
    };
    Redir { fd: rd.fd, kind, span: rd.span }
}

/// A copy of a list of assignments.
pub fn clone_assigns(xs: &Vec<Assignment>) -> (r: Vec<Assignment>)
    ensures
        r@.len() == xs@.len(),
        assigns_same(r@, xs@),
    decreases xs, 0nat,
{
    let mut r: Vec<Assignment> = Vec::new();
    let mut i: usize = 0;
    while i < xs.len()
        invariant
            i <= xs.len(),
            r@.len() == i,
            forall|t: int| 0 <= t < i ==> #[trigger] r@[t].name@ == xs@[t].name@ && word_same(r@[t].value, xs@[t].value)
                && r@[t].span == xs@[t].span,
        decreases xs.len() - i,
    {
        proof {
            assert(decreases_to!(xs => xs@[i as int]));
        }
        let a = &xs[i];
        r.push(Assignment { name: a.name.clone(), value: clone_word(&a.value), span: a.span });
        i += 1;
    }
    r
}

/// A copy of a list of commands.
pub fn clone_commands(cs: &Vec<Command>) -> (r: Vec<Command>)
    ensures
        r@.len() == cs@.len(),
        forall|t: int| 0 <= t < cs@.len() ==> command_same(#[trigger] r@[t], cs@[t]),
    decreases cs, 0nat,
{
    let mut r: Vec<Command> = Vec::new();
    let mut i: usize = 0;
    while i < cs.len()
        invariant
            i <= cs.len(),
            r@.len() == i,
            forall|t: int| 0 <= t < i ==> #[trigger] command_same(r@[t], cs@[t]),
        decreases cs.len() - i,
    {
        proof {
            assert(decreases_to!(cs => cs@[i as int]));
        }
        r.push(clone_command(&cs[i]));
        i += 1;
    }
    r
}

/// A copy of a list of case arms.
pub fn clone_arms(arms: &Vec<CaseArm>) -> (r: Vec<CaseArm>)
    ensures
        r@.len() == arms@.len(),
        forall|t: int| 0 <= t < arms@.len() ==> arm_same_at(r@, arms@, t) && match (#[trigger] r@[t].body, arms@[t].body) {
            (Some(x), Some(y)) => command_same(x, y),
            (None, None) => true,
            _ => false,
        },
    decreases arms, 0nat,
{
    let mut r: Vec<CaseArm> = Vec::new();
    let mut i: usize = 0;
    while i < arms.len()
        invariant
            i <= arms.len(),
            r@.len() == i,
            forall|t: int| 0 <= t < i ==> arm_same_at(r@, arms@, t) && match (#[trigger] r@[t].body, arms@[t].body) {
                (Some(x), Some(y)) => command_same(x, y),
                (None, None) => true,
                _ => false,
            },
        decreases arms.len() - i,
    {
        proof {
            assert(decreases_to!(arms => arms@[i as int]));
        }
        let ghost old_r = r@;
        let a = &arms[i];
        let body = match &a.body {
            Some(b) => Some(clone_command(b)),
            None => None,
        };
        let arm = CaseArm { patterns: clone_words(&a.patterns), body, span: a.span };
        r.push(arm);
        proof {
            assert(r@[i as int] == arm);
            assert(forall|t: int| 0 <= t < i ==> r@[t] == old_r[t]);
        }
        i += 1;
    }
    r
}

/// A copy of a command tree.
pub fn clone_command(c: &Command) -> (r: Command)
    ensures
        command_same(r, *c),
    decreases c, 0nat,
{
    match c {
        Command::Simple { assigns, args, redirs, span } => Command::Simple {
            assigns: clone_assigns(assigns),
            args: clone_words(args),
            redirs: clone_redirs(redirs),
            span: *span,
        },
        Command::Pipeline { commands, bang, span } => Command::Pipeline {
            commands: clone_commands(commands),
            bang: *bang,
            span: *span,
        },
        Command::And(l, r) => Command::And(Box::new(clone_command(l)), Box::new(clone_command(r))),
        Command::Or(l, r) => Command::Or(Box::new(clone_command(l)), Box::new(clone_command(r))),
        Command::Sequence(l, r) => Command::Sequence(
            Box::new(clone_command(l)),
            Box::new(clone_command(r)),
        ),
        Command::Subshell { body, redirs, span } => Command::Subshell {
            body: Box::new(clone_command(body)),
            redirs: clone_redirs(redirs),
            span: *span,
        },
        Command::BraceGroup { body, redirs, span } => Command::BraceGroup {
            body: Box::new(clone_command(body)),
            redirs: clone_redirs(redirs),
            span: *span,
        },
        Command::If { cond, then_part, else_part, span } => {
            let e = match else_part {
                Some(b) => Some(Box::new(clone_command(b))),
                None => None,
            };
            Command::If {
                cond: Box::new(clone_command(cond)),
                then_part: Box::new(clone_command(then_part)),
                else_part: e,
                span: *span,
            }
        },
        Command::While { cond, body, span } => Command::While {
            cond: Box::new(clone_command(cond)),
            body: Box::new(clone_command(body)),
            span: *span,
        },
        Command::Until { cond, body, span } => Command::Until {
            cond: Box::new(clone_command(cond)),
            body: Box::new(clone_command(body)),
            span: *span,
        },
        Command::For { var, words, body, span } => {
            let w = match words {
                Some(ws) => Some(clone_words(ws)),
                None => None,
            };
            Command::For {
                var: var.clone(),
                words: w,
                body: Box::new(clone_command(body)),
                span: *span,
            }
        },
        Command::Case { word, arms, span } => Command::Case {
            word: clone_word(word),
            arms: clone_arms(arms),
            span: *span,
        },
        Command::FuncDef { name, body, span } => Command::FuncDef {
            name: name.clone(),
            body: Box::new(clone_command(body)),
            span: *span,
        },
        Command::Not(x) => Command::Not(Box::new(clone_command(x))),
        Command::Background { cmd, redirs } => Command::Background {
            cmd: Box::new(clone_command(cmd)),
            redirs: clone_redirs(redirs),
        },
    }
}

} // verus!
