use vstd::prelude::*;

use crate::error::{ShellError, Span};
use crate::text::{chars_of, string_of};
use crate::arith::{lemma_run_end_at, run_end};
use crate::token_syntax::{
    TokView, blanks_end, classify, continuations_end, lemma_then_text_then, lex_next, lx_arith,
    lx_word_token,
    lx_backtick, lx_brace, lx_cmdsub, lx_dollar, lx_dquote, lx_word, then_text, tok_view,
};

verus! {

/// Token types produced by the lexer.
#[derive(Debug, Clone, PartialEq, Eq)]
pub enum Token {
    /// A word (command name, argument, filename, ...). Holds the raw text;
    /// quoting and expansions are interpreted later by the parser.
    Word(String),
    /// An assignment word `name=value` where `name` is a valid variable name.
    Assignment { name: String, value: String },
    /// `\n` (significant in shell grammar)
    Newline,
    /// `;`
    Semi,
    /// `&`
    Amp,
    /// `|`
    Pipe,
    /// `&&`
    And,
    /// `||`
    Or,
    /// `;;`
    SemiSemi,
    /// `<`
    Less,
    /// `>`
    Great,
    /// `<<`
    DLess,
    /// `>>`
    DGreat,
    /// `<&`
    LessAnd,
    /// `>&`
    GreatAnd,
    /// `<>`
    LessGreat,
    /// `<<-`
    DLessDash,
    /// `>|`
    Clobber,
    /// `(`
    LParen,
    /// `)`
    RParen,
    If,
    Then,
    Else,
    Elif,
    Fi,
    Do,
    Done,
    Case,
    Esac,
    While,
    Until,
    For,
    In,
    /// `{`
    Lbrace,
    /// `}`
    Rbrace,
    /// `!`
    Bang,
    /// End of input
    Eof,
}

/// A copy of a token.
pub fn clone_token(t: &Token) -> (r: Token)
    ensures
        crate::token_syntax::tok_view(r) == crate::token_syntax::tok_view(*t),
{
    match t {
        Token::Word(w) => Token::Word(w.clone()),
        Token::Assignment { name, value } => Token::Assignment { name: name.clone(), value: value.clone() },
        Token::Newline => Token::Newline,
        Token::Semi => Token::Semi,
        Token::Amp => Token::Amp,
        Token::Pipe => Token::Pipe,
        Token::And => Token::And,
        Token::Or => Token::Or,
        Token::SemiSemi => Token::SemiSemi,
        Token::Less => Token::Less,
        Token::Great => Token::Great,
        Token::DLess => Token::DLess,
        Token::DGreat => Token::DGreat,
        Token::LessAnd => Token::LessAnd,
        Token::GreatAnd => Token::GreatAnd,
        Token::LessGreat => Token::LessGreat,
        Token::DLessDash => Token::DLessDash,
        Token::Clobber => Token::Clobber,
        Token::LParen => Token::LParen,
        Token::RParen => Token::RParen,
        Token::If => Token::If,
        Token::Then => Token::Then,
        Token::Else => Token::Else,
        Token::Elif => Token::Elif,
        Token::Fi => Token::Fi,
        Token::Do => Token::Do,
        Token::Done => Token::Done,
        Token::Case => Token::Case,
        Token::Esac => Token::Esac,
        Token::While => Token::While,
        Token::Until => Token::Until,
        Token::For => Token::For,
        Token::In => Token::In,
        Token::Lbrace => Token::Lbrace,
        Token::Rbrace => Token::Rbrace,
        Token::Bang => Token::Bang,
        Token::Eof => Token::Eof,
    }
}

/// True for the redirection operator tokens.
pub open spec fn spec_is_redir(t: Token) -> bool {
    match t {
        Token::Less | Token::Great | Token::DLess | Token::DGreat | Token::LessAnd
        | Token::GreatAnd | Token::LessGreat | Token::DLessDash | Token::Clobber => true,
        _ => false,
    }
}

impl Token {
    /// Check if this is a redirection operator.
    pub fn is_redir(&self) -> (r: bool)
        ensures
            r == spec_is_redir(*self),
    {
        match self {
            Token::Less | Token::Great | Token::DLess | Token::DGreat | Token::LessAnd
            | Token::GreatAnd | Token::LessGreat | Token::DLessDash | Token::Clobber => true,
            _ => false,
        }
    }
}

/// Pending here-document that needs its body read.
#[derive(Debug)]
pub struct PendingHereDoc {
    pub delimiter: String,
    pub strip_tabs: bool,
    pub quoted: bool,
}

/// The operator token that starts `s`, with the number of characters it
/// takes, if `s` starts with one.
pub open spec fn spec_operator(s: Seq<char>) -> Option<(Token, nat)> {
    if s.len() == 0 {
        None
    } else {
        let c = s[0];
        let n = if s.len() > 1 { Some(s[1]) } else { None };
        let n2 = if s.len() > 2 { Some(s[2]) } else { None };
        if c == ';' {
            if n == Some(';') { Some((Token::SemiSemi, 2)) } else { Some((Token::Semi, 1)) }
        } else if c == '&' {
            if n == Some('&') { Some((Token::And, 2)) } else { Some((Token::Amp, 1)) }
        } else if c == '|' {
            if n == Some('|') { Some((Token::Or, 2)) } else { Some((Token::Pipe, 1)) }
        } else if c == '(' {
            Some((Token::LParen, 1))
        } else if c == ')' {
            Some((Token::RParen, 1))
        } else if c == '<' {
            if n == Some('<') {
                if n2 == Some('-') { Some((Token::DLessDash, 3)) } else { Some((Token::DLess, 2)) }
            } else if n == Some('&') {
                Some((Token::LessAnd, 2))
            } else if n == Some('>') {
                Some((Token::LessGreat, 2))
            } else {
                Some((Token::Less, 1))
            }
        } else if c == '>' {
            if n == Some('>') {
                Some((Token::DGreat, 2))
            } else if n == Some('&') {
                Some((Token::GreatAnd, 2))
            } else if n == Some('|') {
                Some((Token::Clobber, 2))
            } else {
                Some((Token::Great, 1))
            }
        } else {
            None
        }
    }
}

/// How an operator token is written.
pub open spec fn operator_text(t: Token) -> Seq<char> {
    match t {
        Token::Semi => seq![';'],
        Token::SemiSemi => seq![';', ';'],
        Token::Amp => seq!['&'],
        Token::And => seq!['&', '&'],
        Token::Pipe => seq!['|'],
        Token::Or => seq!['|', '|'],
        Token::LParen => seq!['('],
        Token::RParen => seq![')'],
        Token::Less => seq!['<'],
        Token::DLess => seq!['<', '<'],
        Token::DLessDash => seq!['<', '<', '-'],
        Token::LessAnd => seq!['<', '&'],
        Token::LessGreat => seq!['<', '>'],
        Token::Great => seq!['>'],
        Token::DGreat => seq!['>', '>'],
        Token::GreatAnd => seq!['>', '&'],
        Token::Clobber => seq!['>', '|'],
        _ => Seq::empty(),
    }
}

/// The operator read at the start of `s` is the one written there, and it
/// is the longest one written there: no operator that `s` also starts with
/// is longer.
pub proof fn law_operator_spelling(s: Seq<char>, other: Token)
    ensures
        spec_operator(s) matches Some((t, n)) ==> (n == operator_text(t).len() && n <= s.len() && s.subrange(
            0,
            n as int,
        ) == operator_text(t) && (operator_text(other).len() > 0 && operator_text(other).len() <= s.len()
            && s.subrange(0, operator_text(other).len() as int) == operator_text(other) ==> operator_text(
            other,
        ).len() <= n)),
        operator_text(other).len() > 0 && operator_text(other).len() <= s.len() && s.subrange(
            0,
            operator_text(other).len() as int,
        ) == operator_text(other) ==> spec_operator(s) is Some,
{
    if let Some((t, n)) = spec_operator(s) {
        assert(s.subrange(0, n as int) =~= operator_text(t));
    }
    let o = operator_text(other);
    if o.len() > 0 && o.len() <= s.len() && s.subrange(0, o.len() as int) == o {
        assert(s[0] == o[0]);
        if o.len() >= 2 {
            assert(s[1] == o[1]);
        }
        if o.len() >= 3 {
            assert(s[2] == o[2]);
        }
    }
}

/// The reserved-word token spelled by `w`, if any.
pub open spec fn spec_reserved(w: Seq<char>) -> Option<Token> {
    if w == seq!['i', 'f'] {
        Some(Token::If)
    } else if w == seq!['t', 'h', 'e', 'n'] {
        Some(Token::Then)
    } else if w == seq!['e', 'l', 's', 'e'] {
        Some(Token::Else)
    } else if w == seq!['e', 'l', 'i', 'f'] {
        Some(Token::Elif)
    } else if w == seq!['f', 'i'] {
        Some(Token::Fi)
    } else if w == seq!['d', 'o'] {
        Some(Token::Do)
    } else if w == seq!['d', 'o', 'n', 'e'] {
        Some(Token::Done)
    } else if w == seq!['c', 'a', 's', 'e'] {
        Some(Token::Case)
    } else if w == seq!['e', 's', 'a', 'c'] {
        Some(Token::Esac)
    } else if w == seq!['w', 'h', 'i', 'l', 'e'] {
        Some(Token::While)
    } else if w == seq!['u', 'n', 't', 'i', 'l'] {
        Some(Token::Until)
    } else if w == seq!['f', 'o', 'r'] {
        Some(Token::For)
    } else if w == seq!['i', 'n'] {
        Some(Token::In)
    } else if w == seq!['{'] {
        Some(Token::Lbrace)
    } else if w == seq!['}'] {
        Some(Token::Rbrace)
    } else if w == seq!['!'] {
        Some(Token::Bang)
    } else {
        None
    }
}

/// True if `c` may appear in a variable name after the first character.
pub open spec fn is_name_char(c: char) -> bool {
    c == '_' || ('a' <= c && c <= 'z') || ('A' <= c && c <= 'Z') || ('0' <= c && c <= '9')
}

/// True if `c` may start a variable name.
pub open spec fn is_name_start(c: char) -> bool {
    c == '_' || ('a' <= c && c <= 'z') || ('A' <= c && c <= 'Z')
}

/// True if `s` is a valid shell variable name: a letter or underscore,
/// then letters, digits and underscores.
pub open spec fn spec_is_name(s: Seq<char>) -> bool {
    &&& s.len() > 0
    &&& is_name_start(s[0])
    &&& forall|i: int| 0 <= i < s.len() ==> is_name_char(#[trigger] s[i])
}

/// `is_name` over a character sequence.
pub fn is_name_chars(s: &[char]) -> (r: bool)
    ensures
        r == spec_is_name(s@),
{
    if s.len() == 0 {
        return false;
    }
    let c0 = s[0];
    if !(c0 == '_' || ('a' <= c0 && c0 <= 'z') || ('A' <= c0 && c0 <= 'Z')) {
        return false;
    }
    let mut i: usize = 0;
    while i < s.len()
        invariant
            i <= s.len(),
            forall|j: int| 0 <= j < i ==> is_name_char(#[trigger] s@[j]),
        decreases s.len() - i,
    {
        let c = s[i];
        if !(c == '_' || ('a' <= c && c <= 'z') || ('A' <= c && c <= 'Z') || ('0' <= c && c
            <= '9')) {
            assert(!is_name_char(s@[i as int]));
            return false;
        }
        i += 1;
    }
    true
}

/// Check if `s` is a valid shell variable name.
pub fn is_name(s: &str) -> (r: bool)
    ensures
        r == spec_is_name(s@),
{
    let cs = chars_of(s);
    is_name_chars(cs.as_slice())
}

/// True if `w` spells exactly the characters of `lit`.
pub fn chars_eq(w: &[char], lit: &[char]) -> (r: bool)
    ensures
        r == (w@ == lit@),
{
    if w.len() != lit.len() {
        return false;
    }
    let mut i: usize = 0;
    while i < w.len()
        invariant
            i <= w.len(),
            w.len() == lit.len(),
            forall|j: int| 0 <= j < i ==> w@[j] == lit@[j],
        decreases w.len() - i,
    {
        if w[i] != lit[i] {
            return false;
        }
        i += 1;
    }
    assert(w@ =~= lit@);
    true
}

/// The reserved-word token spelled by `w`, if any.
pub fn reserved_word(w: &[char]) -> (r: Option<Token>)
    ensures
        r == spec_reserved(w@),
{
    if chars_eq(w, &['i', 'f']) {
        assert(['i', 'f']@ =~= seq!['i', 'f']);
        Some(Token::If)
    } else if chars_eq(w, &['t', 'h', 'e', 'n']) {
        assert(['t', 'h', 'e', 'n']@ =~= seq!['t', 'h', 'e', 'n']);
        Some(Token::Then)
    } else if chars_eq(w, &['e', 'l', 's', 'e']) {
        assert(['e', 'l', 's', 'e']@ =~= seq!['e', 'l', 's', 'e']);
        Some(Token::Else)
    } else if chars_eq(w, &['e', 'l', 'i', 'f']) {
        assert(['e', 'l', 'i', 'f']@ =~= seq!['e', 'l', 'i', 'f']);
        Some(Token::Elif)
    } else if chars_eq(w, &['f', 'i']) {
        assert(['f', 'i']@ =~= seq!['f', 'i']);
        Some(Token::Fi)
    } else if chars_eq(w, &['d', 'o']) {
        assert(['d', 'o']@ =~= seq!['d', 'o']);
        Some(Token::Do)
    } else if chars_eq(w, &['d', 'o', 'n', 'e']) {
        assert(['d', 'o', 'n', 'e']@ =~= seq!['d', 'o', 'n', 'e']);
        Some(Token::Done)
    } else if chars_eq(w, &['c', 'a', 's', 'e']) {
        assert(['c', 'a', 's', 'e']@ =~= seq!['c', 'a', 's', 'e']);
        Some(Token::Case)
    } else if chars_eq(w, &['e', 's', 'a', 'c']) {
        assert(['e', 's', 'a', 'c']@ =~= seq!['e', 's', 'a', 'c']);
        Some(Token::Esac)
    } else if chars_eq(w, &['w', 'h', 'i', 'l', 'e']) {
        assert(['w', 'h', 'i', 'l', 'e']@ =~= seq!['w', 'h', 'i', 'l', 'e']);
        Some(Token::While)
    } else if chars_eq(w, &['u', 'n', 't', 'i', 'l']) {
        assert(['u', 'n', 't', 'i', 'l']@ =~= seq!['u', 'n', 't', 'i', 'l']);
        Some(Token::Until)
    } else if chars_eq(w, &['f', 'o', 'r']) {
        assert(['f', 'o', 'r']@ =~= seq!['f', 'o', 'r']);
        Some(Token::For)
    } else if chars_eq(w, &['i', 'n']) {
        assert(['i', 'n']@ =~= seq!['i', 'n']);
        Some(Token::In)
    } else if chars_eq(w, &['{']) {
        assert(['{']@ =~= seq!['{']);
        Some(Token::Lbrace)
    } else if chars_eq(w, &['}']) {
        assert(['}']@ =~= seq!['}']);
        Some(Token::Rbrace)
    } else if chars_eq(w, &['!']) {
        assert(['!']@ =~= seq!['!']);
        Some(Token::Bang)
    } else {
        proof {
            assert(['i', 'f']@ =~= seq!['i', 'f']);
            assert(['t', 'h', 'e', 'n']@ =~= seq!['t', 'h', 'e', 'n']);
            assert(['e', 'l', 's', 'e']@ =~= seq!['e', 'l', 's', 'e']);
            assert(['e', 'l', 'i', 'f']@ =~= seq!['e', 'l', 'i', 'f']);
            assert(['f', 'i']@ =~= seq!['f', 'i']);
            assert(['d', 'o']@ =~= seq!['d', 'o']);
            assert(['d', 'o', 'n', 'e']@ =~= seq!['d', 'o', 'n', 'e']);
            assert(['c', 'a', 's', 'e']@ =~= seq!['c', 'a', 's', 'e']);
            assert(['e', 's', 'a', 'c']@ =~= seq!['e', 's', 'a', 'c']);
            assert(['w', 'h', 'i', 'l', 'e']@ =~= seq!['w', 'h', 'i', 'l', 'e']);
            assert(['u', 'n', 't', 'i', 'l']@ =~= seq!['u', 'n', 't', 'i', 'l']);
            assert(['f', 'o', 'r']@ =~= seq!['f', 'o', 'r']);
            assert(['i', 'n']@ =~= seq!['i', 'n']);
            assert(['{']@ =~= seq!['{']);
            assert(['}']@ =~= seq!['}']);
            assert(['!']@ =~= seq!['!']);
        }
        None
    }
}

/// Shell lexer / tokenizer.
///
/// Turns source text into tokens: operators, reserved words (when the
/// parser asks for them), words with their quoting kept raw, and comments
/// dropped. Here-document bodies are read on request by the parser.
pub struct Lexer {
    pub src: Vec<char>,
    pub pos: usize,
    pub line: u32,
    pub col: u32,
    /// If set, the next `next_token` returns this instead of scanning.
    pub pushback: Option<(Token, Span)>,
    /// Whether the next word is checked against the reserved words.
    pub recognize_reserved: bool,
    /// Here-documents whose bodies are still to be read.
    pub pending_heredocs: Vec<PendingHereDoc>,
}

fn syntax(msg: &str, span: Span) -> (e: ShellError)
    ensures
        e matches ShellError::Syntax { msg: m, span: s } && m@ == msg@ && s == span,
{
    ShellError::Syntax { msg: msg.to_owned(), span }
}

impl Lexer {
    /// The source characters.
    pub open spec fn source(&self) -> Seq<char> {
        self.src@
    }

    /// The scan position (an index into the source).
    pub open spec fn position(&self) -> int {
        self.pos as int
    }

    /// The token pushed back for the next `next_token`, if any.
    pub open spec fn pushed(&self) -> Option<(Token, Span)> {
        self.pushback
    }

    /// The position never passes the end of the source.
    pub open spec fn wf(&self) -> bool {
        self.pos <= self.src.len()
    }

    /// What a scanning step keeps: the source, the options, the pushback
    /// and the pending here-documents; the position only moves forward.
    pub open spec fn scans_from(&self, old: &Lexer) -> bool {
        &&& self.src@ == old.src@
        &&& self.pos >= old.pos
        &&& self.pos <= self.src.len()
        &&& self.pushback == old.pushback
        &&& self.recognize_reserved == old.recognize_reserved
        &&& self.pending_heredocs@ == old.pending_heredocs@
    }

    pub fn new(source: &str) -> (r: Lexer)
        ensures
            r.wf(),
            r.source() == source@,
            r.position() == 0,
            r.pushed().is_none(),
            r.recognize_reserved,
            r.pending_heredocs@.len() == 0,
    {
        Lexer {
            src: chars_of(source),
            pos: 0,
            line: 1,
            col: 1,
            pushback: None,
            recognize_reserved: true,
            pending_heredocs: Vec::new(),
        }
    }

    /// A lexer over the given characters.
    pub fn from_chars(src: Vec<char>) -> (r: Lexer)
        ensures
            r.wf(),
            r.source() == src@,
            r.position() == 0,
            r.pushed().is_none(),
            r.recognize_reserved,
            r.pending_heredocs@.len() == 0,
    {
        Lexer {
            src,
            pos: 0,
            line: 1,
            col: 1,
            pushback: None,
            recognize_reserved: true,
            pending_heredocs: Vec::new(),
        }
    }

    /// Return the current source position.
    pub fn span(&self) -> (r: Span)
        ensures
            r.offset == self.pos,
            r.line == self.line,
            r.col == self.col,
    {
        Span { offset: self.pos, line: self.line, col: self.col }
    }

    /// Push a token back so it will be returned by the next `next_token` call.
    pub fn push_back(&mut self, tok: Token, span: Span)
        ensures
            final(self).pushed() == Some((tok, span)),
            final(self).source() == old(self).source(),
            final(self).position() == old(self).position(),
            final(self).line == old(self).line,
            final(self).col == old(self).col,
            final(self).wf() == old(self).wf(),
            final(self).recognize_reserved == old(self).recognize_reserved,
            final(self).pending_heredocs@ == old(self).pending_heredocs@,
    {
        self.pushback = Some((tok, span));
    }

    /// Peek at the next character without consuming it.
    fn peek(&self) -> (r: Option<char>)
        requires
            self.wf(),
        ensures
            r == (if self.pos < self.src.len() { Some(self.src@[self.pos as int]) } else { None }),
    {
        if self.pos < self.src.len() {
            Some(self.src[self.pos])
        } else {
            None
        }
    }

    /// The character after the next one.
    fn peek2(&self) -> (r: Option<char>)
        requires
            self.wf(),
        ensures
            r == (if self.pos + 1 < self.src.len() {
                Some(self.src@[self.pos + 1])
            } else {
                None
            }),
    {
        if self.src.len() - self.pos > 1 {
            Some(self.src[self.pos + 1])
        } else {
            None
        }
    }

    /// Consume and return the next character, updating line and column.
    fn advance(&mut self) -> (r: Option<char>)
        requires
            old(self).wf(),
        ensures
            final(self).scans_from(old(self)),
            old(self).pos < old(self).src.len() ==> r == Some(old(self).src@[old(self).pos as int])
                && final(self).pos == old(self).pos + 1,
            old(self).pos >= old(self).src.len() ==> r.is_none() && final(self).pos
                == old(self).pos,
    {
        if self.pos >= self.src.len() {
            return None;
        }
        let ch = self.src[self.pos];
        self.pos = self.pos + 1;
        if ch == '\n' {
            if self.line < u32::MAX {
                self.line = self.line + 1;
            }
            self.col = 1;
        } else if self.col < u32::MAX {
            self.col = self.col + 1;
        }
        Some(ch)
    }

    /// Skip blanks and comments (not newlines: those are tokens).
    fn skip_blanks(&mut self)
        requires
            old(self).wf(),
        ensures
            final(self).scans_from(old(self)),
            final(self).pos == blanks_end(old(self).src@, old(self).pos as int),
    {
        let ghost src = self.src@;
        while self.pos < self.src.len()
            invariant
                self.scans_from(old(self)),
                src == self.src@,
                blanks_end(src, old(self).pos as int) == blanks_end(src, self.pos as int),
            ensures
                self.scans_from(old(self)),
                blanks_end(src, old(self).pos as int) == self.pos,
            decreases self.src.len() - self.pos,
        {
            let ghost p = self.pos as int;
            let ch = self.src[self.pos];
            if ch == ' ' || ch == '\t' {
                self.advance();
            } else if ch == '#' {
                self.advance();
                while self.pos < self.src.len() && self.src[self.pos] != '\n'
                    invariant
                        self.scans_from(old(self)),
                        src == self.src@,
                        0 <= p < src.len(),
                        src[p] == '#',
                        self.pos >= p + 1,
                        blanks_end(src, old(self).pos as int) == blanks_end(src, p),
                        forall|k: int| p + 1 <= k < self.pos ==> #[trigger] src[k] != '\n',
                    decreases self.src.len() - self.pos,
                {
                    self.advance();
                }
                proof {
                    lemma_run_end_at(src, p + 1, self.pos as int, |c: char| c != '\n');
                }
            } else {
                assert(blanks_end(src, p) == p);
                break;
            }
        }
    }

    /// Read the next token from the source.
    pub fn next_token(&mut self) -> (r: Result<(Token, Span), ShellError>)
        requires
            old(self).wf(),
        ensures
            final(self).wf(),
            final(self).source() == old(self).source(),
            final(self).position() >= old(self).position(),
            final(self).pushed().is_none(),
            final(self).recognize_reserved == old(self).recognize_reserved,
            old(self).pushed().is_some() ==> r == Ok::<(Token, Span), ShellError>(
                old(self).pushed().unwrap(),
            ) && final(self).position() == old(self).position() && final(self).line == old(self).line
                && final(self).col == old(self).col,
            final(self).pending_heredocs@ == old(self).pending_heredocs@,
            r matches Ok((t, _)) && !(t is Eof) && old(self).pushed().is_none()
                ==> final(self).position() > old(self).position(),
            old(self).pushed().is_none() ==> match lex_next(
                old(self).source(),
                old(self).position(),
                old(self).recognize_reserved,
            ) {
                Some((tv, q)) => r matches Ok((t, _)) && tok_view(t) == tv && final(self).position()
                    == q,
                None => r is Err,
            },
    {
        let pb = self.pushback.take();
        if let Some(p) = pb {
            return Ok(p);
        }
        self.skip_blanks();
        let span = self.span();
        let ch = match self.peek() {
            None => return Ok((Token::Eof, span)),
            Some(c) => c,
        };
        if ch == '\n' {
            self.advance();
            return Ok((Token::Newline, span));
        }
        if let Some(tok) = self.try_operator() {
            return Ok((tok, span));
        }
        self.read_word(span)
    }

    /// Read an operator token if the next characters spell one.
    fn try_operator(&mut self) -> (r: Option<Token>)
        requires
            old(self).wf(),
        ensures
            final(self).scans_from(old(self)),
            r == match spec_operator(old(self).src@.subrange(old(self).pos as int, old(self).src@.len() as int)) {
                Some((t, _)) => Some(t),
                None => None,
            },
            r.is_some() ==> final(self).pos == old(self).pos + spec_operator(
                old(self).src@.subrange(old(self).pos as int, old(self).src@.len() as int),
            ).unwrap().1,
            r.is_some() ==> final(self).pos > old(self).pos,
            r.is_none() ==> final(self).pos == old(self).pos,
    {
        let ghost rest = self.src@.subrange(self.pos as int, self.src@.len() as int);
        let c = match self.peek() {
            Some(c) => c,
            None => return None,
        };
        let n = self.peek2();
        let n2: Option<char> = if self.src.len() - self.pos > 2 {
            Some(self.src[self.pos + 2])
        } else {
            None
        };
        proof {
            assert(rest[0] == c);
            if rest.len() > 1 {
                assert(rest[1] == self.src@[self.pos + 1]);
            }
            if rest.len() > 2 {
                assert(rest[2] == self.src@[self.pos + 2]);
            }
        }
        let (tok, len): (Token, usize) = if c == ';' {
            if n == Some(';') { (Token::SemiSemi, 2) } else { (Token::Semi, 1) }
        } else if c == '&' {
            if n == Some('&') { (Token::And, 2) } else { (Token::Amp, 1) }
        } else if c == '|' {
            if n == Some('|') { (Token::Or, 2) } else { (Token::Pipe, 1) }
        } else if c == '(' {
            (Token::LParen, 1)
        } else if c == ')' {
            (Token::RParen, 1)
        } else if c == '<' {
            if n == Some('<') {
                if n2 == Some('-') { (Token::DLessDash, 3) } else { (Token::DLess, 2) }
            } else if n == Some('&') {
                (Token::LessAnd, 2)
            } else if n == Some('>') {
                (Token::LessGreat, 2)
            } else {
                (Token::Less, 1)
            }
        } else if c == '>' {
            if n == Some('>') {
                (Token::DGreat, 2)
            } else if n == Some('&') {
                (Token::GreatAnd, 2)
            } else if n == Some('|') {
                (Token::Clobber, 2)
            } else {
                (Token::Great, 1)
            }
        } else {
            return None;
        };
        assert((tok, len as nat) == spec_operator(rest).unwrap());
        let mut k: usize = 0;
        while k < len
            invariant
                k <= len,
                len <= 3,
                len as int <= rest.len(),
                rest.len() == self.src@.len() - old(self).pos,
                self.scans_from(old(self)),
                self.pos == old(self).pos + k,
            decreases len - k,
        {
            self.advance();
            k += 1;
        }
        Some(tok)
    }

    /// Read a word token, keeping quotes, escapes and expansions raw.
    fn read_word(&mut self, span: Span) -> (r: Result<(Token, Span), ShellError>)
        requires
            old(self).wf(),
        ensures
            final(self).wf(),
            final(self).src@ == old(self).src@,
            final(self).pos >= old(self).pos,
            final(self).pushback == old(self).pushback,
            final(self).recognize_reserved == old(self).recognize_reserved,
            final(self).pending_heredocs@ == old(self).pending_heredocs@,
            r matches Ok((Token::Word(w), _)) ==> w@.len() > 0,
            r matches Ok((t, _)) ==> !(t is Eof) && final(self).pos > old(self).pos,
            match lx_word_token(old(self).src@, old(self).pos as int, old(self).recognize_reserved) {
                Some((tv, q)) => r matches Ok((t, s)) && tok_view(t) == tv && s == span
                    && final(self).pos == q,
                None => r is Err,
            },
    {
        let ghost src = self.src@;
        let mut word: Vec<char> = Vec::new();
        let ghost start = self.pos as int;
        loop
            invariant
                self.scans_from(old(self)),
                src == self.src@,
                word@.len() > 0 ==> self.pos > start,
                start == old(self).pos,
                lx_word(src, start, Seq::empty()) == lx_word(src, self.pos as int, word@),
            ensures
                self.scans_from(old(self)),
                src == self.src@,
                word@.len() > 0 ==> self.pos > start,
                lx_word(src, start, Seq::empty()) == Some((word@, self.pos as int)),
            decreases self.src.len() - self.pos,
        {
            match self.scan_word_part(&mut word, span) {
                Ok(true) => break,
                Ok(false) => {},
                Err(e) => {
                    return Err(e);
                },
            }
        }
        if word.len() == 0 {
            return Err(syntax("unexpected character", span));
        }
        if self.recognize_reserved {
            if let Some(tok) = reserved_word(word.as_slice()) {
                return Ok((tok, span));
            }
        }
        // Assignment word: name=value with a valid name before the first '='.
        let mut eq: usize = 0;
        while eq < word.len() && word[eq] != '='
            invariant
                eq <= word.len(),
                forall|k: int| 0 <= k < eq ==> #[trigger] word@[k] != '=',
            decreases word.len() - eq,
        {
            eq += 1;
        }
        proof {
            lemma_run_end_at(word@, 0, eq as int, |c: char| c != '=');
        }
        if eq < word.len() && eq > 0 {
            let name = slice_chars(&word, 0, eq);
            if is_name_chars(name.as_slice()) {
                let value = slice_chars(&word, eq + 1, word.len());
                return Ok(
                    (Token::Assignment { name: string_of(&name), value: string_of(&value) }, span),
                );
            }
        }
        let w = string_of(&word);
        Ok((Token::Word(w), span))
    }

    /// Scan one piece of a word (a character, an escape, a quoted region or
    /// an expansion) and append it raw to `word`; `Ok(true)` when the word
    /// ends here and nothing was consumed.
    #[verifier::rlimit(40)]
    fn scan_word_part(&mut self, word: &mut Vec<char>, span: Span) -> (r: Result<bool, ShellError>)
        requires
            old(self).wf(),
        ensures
            final(self).scans_from(old(self)),
            match r {
                Ok(true) => lx_word(old(self).src@, old(self).pos as int, old(word)@) == Some(
                    (old(word)@, old(self).pos as int),
                ) && final(word)@ == old(word)@ && final(self).pos == old(self).pos,
                Ok(false) => final(self).pos > old(self).pos && lx_word(
                    old(self).src@,
                    old(self).pos as int,
                    old(word)@,
                ) == lx_word(old(self).src@, final(self).pos as int, final(word)@),
                Err(_) => lx_word(old(self).src@, old(self).pos as int, old(word)@) is None,
            },
    {
        let ghost src = self.src@;
        let ghost iter_start = self.pos as int;
        let ghost ws = word@;
        let ch = match self.peek() {
            None => {
                return Ok(true);
            },
            Some(c) => c,
        };
        if ch == ' ' || ch == '\t' || ch == '\n' || ch == ';' || ch == '&' || ch == '(' || ch == ')'
            || ch == '|' || ch == '<' || ch == '>' {
            return Ok(true);
        } else if ch == '\\' {
            self.advance();
            if self.peek() == Some('\n') {
                self.advance();
                return Ok(false);
            }
            word.push('\\');
            if let Some(escaped) = self.advance() {
                word.push(escaped);
                assert(word@ =~= ws + seq!['\\', escaped]);
            }
        } else if ch == '\'' {
            word.push('\'');
            self.advance();
            proof {
                assert(word@ =~= ws + src.subrange(iter_start, self.pos as int));
            }
            while self.pos < self.src.len() && self.src[self.pos] != '\''
                invariant
                    self.scans_from(old(self)),
                    src == self.src@,
                    0 <= iter_start < src.len(),
                    iter_start == old(self).pos,
                    ws == old(word)@,
                    src[iter_start] == '\'',
                    self.pos >= iter_start + 1,
                    word@ == ws + src.subrange(iter_start, self.pos as int),
                    forall|k: int| iter_start + 1 <= k < self.pos ==> #[trigger] src[k] != '\'',
                decreases self.src.len() - self.pos,
            {
                word.push(self.src[self.pos]);
                self.advance();
                assert(word@ =~= ws + src.subrange(iter_start, self.pos as int));
            }
            let ghost j = self.pos as int;
            proof {
                lemma_run_end_at(src, iter_start + 1, j, |c: char| c != '\'');
            }
            if self.pos >= self.src.len() {
                return Err(syntax("unterminated single quote", span));
            }
            word.push('\'');
            self.advance();
            proof {
                assert(src.subrange(iter_start, j + 1) =~= src.subrange(iter_start, j).push('\''));
                assert(word@ =~= ws + src.subrange(iter_start, j + 1));
            }
        } else if ch == '"' {
            word.push('"');
            self.advance();
            match self.read_double_quoted(word, span) {
                Ok(()) => {},
                Err(e) => {
                    return Err(e);
                },
            }
            word.push('"');
            proof {
                let (t, q) = lx_dquote(src, iter_start + 1).unwrap();
                assert(word@ =~= ws + seq!['"'] + t + seq!['"']);
            }
        } else if ch == '`' {
            word.push('`');
            self.advance();
            match self.read_backtick(word, span) {
                Ok(()) => {},
                Err(e) => {
                    return Err(e);
                },
            }
            word.push('`');
            proof {
                let (t, q) = lx_backtick(src, iter_start + 1).unwrap();
                assert(word@ =~= ws + seq!['`'] + t + seq!['`']);
            }
        } else if ch == '$' {
            word.push('$');
            self.advance();
            while self.peek() == Some('\\') && self.peek2() == Some('\n')
                invariant
                    self.scans_from(old(self)),
                    src == self.src@,
                    self.pos > iter_start,
                    iter_start == old(self).pos,
                    ws == old(word)@,
                    0 <= iter_start < src.len(),
                    src[iter_start] == '$',
                    word@ == ws.push('$'),
                    continuations_end(src, iter_start + 1) == continuations_end(
                        src,
                        self.pos as int,
                    ),
                decreases self.src.len() - self.pos,
            {
                self.advance();
                self.advance();
            }
            match self.read_dollar(word, span) {
                Ok(()) => {},
                Err(e) => {
                    return Err(e);
                },
            }
            proof {
                let q0 = continuations_end(src, iter_start + 1);
                let (t, q) = lx_dollar(src, q0).unwrap();
                assert(word@ =~= ws + seq!['$'] + t);
            }
        } else if ch == '#' && word.len() == 0 {
            return Ok(true);
        } else {
            word.push(ch);
            self.advance();
        }
        Ok(false)
    }

    /// Read inside double quotes up to the closing `"`, appending raw text.
    fn read_double_quoted(&mut self, word: &mut Vec<char>, span: Span) -> (r: Result<
        (),
        ShellError,
    >)
        requires
            old(self).wf(),
        ensures
            final(self).scans_from(old(self)),
            match lx_dquote(old(self).src@, old(self).pos as int) {
                Some((t, q)) => r is Ok && final(word)@ == old(word)@ + t && final(self).pos == q,
                None => r is Err,
            },
        decreases old(self).src.len() - old(self).pos, 0nat,
    {
        let ghost src = self.src@;
        let ghost start = self.pos as int;
        let ghost mut acc: Seq<char> = Seq::empty();
        proof {
            assert(old(word)@ + acc =~= old(word)@);
        }
        loop
            invariant
                self.scans_from(old(self)),
                src == self.src@,
                start == old(self).pos,
                word@ == old(word)@ + acc,
                lx_dquote(src, start) == then_text(acc, lx_dquote(src, self.pos as int)),
            decreases self.src.len() - self.pos,
        {
            let ghost p = self.pos as int;
            match self.advance() {
                None => {
                    assert(lx_dquote(src, p) is None);
                    return Err(syntax("unterminated double quote", span));
                },
                Some(c) => {
                    if c == '"' {
                        proof {
                            assert(lx_dquote(src, p) == Some((Seq::<char>::empty(), p + 1)));
                            assert(acc + Seq::<char>::empty() =~= acc);
                        }
                        return Ok(());
                    } else if c == '\\' {
                        word.push('\\');
                        if let Some(d) = self.advance() {
                            word.push(d);
                            proof {
                                lemma_then_text_then(acc, seq!['\\', d], lx_dquote(src, p + 2));
                                acc = acc + seq!['\\', d];
                                assert(word@ =~= old(word)@ + acc);
                            }
                        } else {
                            proof {
                                acc = acc + seq!['\\'];
                                assert(word@ =~= old(word)@ + acc);
                            }
                        }
                    } else if c == '$' {
                        word.push('$');
                        let ghost w1 = word@;
                        match self.read_dollar(word, span) {
                            Ok(()) => {},
                            Err(e) => {
                                assert(lx_dquote(src, p) is None);
                                return Err(e);
                            },
                        }
                        proof {
                            let (t, q) = lx_dollar(src, p + 1).unwrap();
                            lemma_then_text_then(acc, seq!['$'] + t, lx_dquote(src, q));
                            acc = acc + (seq!['$'] + t);
                            assert(word@ =~= old(word)@ + acc);
                        }
                    } else if c == '`' {
                        word.push('`');
                        match self.read_backtick(word, span) {
                            Ok(()) => {},
                            Err(e) => {
                                assert(lx_dquote(src, p) is None);
                                return Err(e);
                            },
                        }
                        word.push('`');
                        proof {
                            let (t, q) = lx_backtick(src, p + 1).unwrap();
                            lemma_then_text_then(acc, seq!['`'] + t + seq!['`'], lx_dquote(src, q));
                            acc = acc + (seq!['`'] + t + seq!['`']);
                            assert(word@ =~= old(word)@ + acc);
                        }
                    } else {
                        word.push(c);
                        proof {
                            lemma_then_text_then(acc, seq![c], lx_dquote(src, p + 1));
                            acc = acc + seq![c];
                            assert(word@ =~= old(word)@ + acc);
                        }
                    }
                },
            }
        }
    }

    /// After `$`, read `{...}`, `((...))`, `(...)`, a special parameter or a
    /// name, appending the raw text to `word`.
    fn read_dollar(&mut self, word: &mut Vec<char>, span: Span) -> (r: Result<(), ShellError>)
        requires
            old(self).wf(),
        ensures
            final(self).scans_from(old(self)),
            match lx_dollar(old(self).src@, old(self).pos as int) {
                Some((t, q)) => r is Ok && final(word)@ == old(word)@ + t && final(self).pos == q,
                None => r is Err,
            },
        decreases old(self).src.len() - old(self).pos, 1nat,
    {
        let ghost src = self.src@;
        let ghost p = self.pos as int;
        let c = match self.peek() {
            None => {
                assert(old(word)@ + Seq::<char>::empty() =~= old(word)@);
                return Ok(());
            },
            Some(c) => c,
        };
        if c == '{' {
            word.push('{');
            self.advance();
            let ghost w1 = word@;
            match self.read_brace_param(word, span) {
                Ok(()) => {},
                Err(e) => {
                    return Err(e);
                },
            }
            word.push('}');
            proof {
                let (t, q) = lx_brace(src, p + 1).unwrap();
                assert(word@ =~= old(word)@ + (seq!['{'] + t + seq!['}']));
            }
        } else if c == '(' {
            self.advance();
            if self.peek() == Some('(') {
                self.advance();
                word.push('(');
                word.push('(');
                match self.read_arith(word, span) {
                    Ok(()) => {},
                    Err(e) => {
                        return Err(e);
                    },
                }
                word.push(')');
                word.push(')');
                proof {
                    let (t, q) = lx_arith(src, p + 2, 1).unwrap();
                    assert(word@ =~= old(word)@ + (seq!['(', '('] + t + seq![')', ')']));
                }
            } else {
                word.push('(');
                match self.read_cmd_subst(word, span) {
                    Ok(()) => {},
                    Err(e) => {
                        return Err(e);
                    },
                }
                word.push(')');
                proof {
                    let (t, q) = lx_cmdsub(src, p + 1, 1).unwrap();
                    assert(word@ =~= old(word)@ + (seq!['('] + t + seq![')']));
                }
            }
        } else if c == '@' || c == '*' || c == '#' || c == '?' || c == '-' || c == '$' || c == '!'
            || ('0' <= c && c <= '9') {
            word.push(c);
            self.advance();
            assert(word@ =~= old(word)@ + seq![c]);
        } else if c == '_' || ('a' <= c && c <= 'z') || ('A' <= c && c <= 'Z') {
            word.push(c);
            self.advance();
            proof {
                assert(word@ =~= old(word)@ + src.subrange(p, p + 1));
            }
            while self.pos < self.src.len() && (self.src[self.pos] == '_' || ('a'
                <= self.src[self.pos] && self.src[self.pos] <= 'z') || ('A' <= self.src[self.pos]
                && self.src[self.pos] <= 'Z') || ('0' <= self.src[self.pos] && self.src[self.pos]
                <= '9'))
                invariant
                    self.scans_from(old(self)),
                    src == self.src@,
                    p == old(self).pos,
                    self.pos >= p + 1,
                    word@ == old(word)@ + src.subrange(p, self.pos as int),
                    forall|k: int| p + 1 <= k < self.pos ==> is_name_char(#[trigger] src[k]),
                decreases self.src.len() - self.pos,
            {
                let ghost q = self.pos as int;
                word.push(self.src[self.pos]);
                self.advance();
                assert(word@ =~= old(word)@ + src.subrange(p, self.pos as int));
            }
            proof {
                lemma_run_end_at(src, p + 1, self.pos as int, |c: char| is_name_char(c));
            }
        } else {
            assert(old(word)@ + Seq::<char>::empty() =~= old(word)@);
        }
        Ok(())
    }

    /// Read `${...}` content after the opening `{`.
    fn read_brace_param(&mut self, word: &mut Vec<char>, span: Span) -> (r: Result<
        (),
        ShellError,
    >)
        requires
            old(self).wf(),
        ensures
            final(self).scans_from(old(self)),
            match lx_brace(old(self).src@, old(self).pos as int) {
                Some((t, q)) => r is Ok && final(word)@ == old(word)@ + t && final(self).pos == q,
                None => r is Err,
            },
        decreases old(self).src.len() - old(self).pos, 0nat,
    {
        let ghost src = self.src@;
        let ghost start = self.pos as int;
        let ghost mut acc: Seq<char> = Seq::empty();
        proof {
            assert(old(word)@ + acc =~= old(word)@);
        }
        loop
            invariant
                self.scans_from(old(self)),
                src == self.src@,
                start == old(self).pos,
                word@ == old(word)@ + acc,
                lx_brace(src, start) == then_text(acc, lx_brace(src, self.pos as int)),
            decreases self.src.len() - self.pos,
        {
            let ghost p = self.pos as int;
            match self.advance() {
                None => {
                    assert(lx_brace(src, p) is None);
                    return Err(syntax("unterminated ${", span));
                },
                Some(c) => {
                    if c == '}' {
                        proof {
                            assert(lx_brace(src, p) == Some((Seq::<char>::empty(), p + 1)));
                            assert(acc + Seq::<char>::empty() =~= acc);
                        }
                        return Ok(());
                    } else if c == '$' {
                        word.push('$');
                        match self.read_dollar(word, span) {
                            Ok(()) => {},
                            Err(e) => {
                                assert(lx_brace(src, p) is None);
                                return Err(e);
                            },
                        }
                        proof {
                            let (t, q) = lx_dollar(src, p + 1).unwrap();
                            lemma_then_text_then(acc, seq!['$'] + t, lx_brace(src, q));
                            acc = acc + (seq!['$'] + t);
                            assert(word@ =~= old(word)@ + acc);
                        }
                    } else if c == '"' {
                        word.push('"');
                        match self.read_double_quoted(word, span) {
                            Ok(()) => {},
                            Err(e) => {
                                assert(lx_brace(src, p) is None);
                                return Err(e);
                            },
                        }
                        word.push('"');
                        proof {
                            let (t, q) = lx_dquote(src, p + 1).unwrap();
                            lemma_then_text_then(acc, seq!['"'] + t + seq!['"'], lx_brace(src, q));
                            acc = acc + (seq!['"'] + t + seq!['"']);
                            assert(word@ =~= old(word)@ + acc);
                        }
                    } else if c == '\\' {
                        word.push('\\');
                        if let Some(d) = self.advance() {
                            word.push(d);
                            proof {
                                lemma_then_text_then(acc, seq!['\\', d], lx_brace(src, p + 2));
                                acc = acc + seq!['\\', d];
                                assert(word@ =~= old(word)@ + acc);
                            }
                        } else {
                            proof {
                                acc = acc + seq!['\\'];
                                assert(word@ =~= old(word)@ + acc);
                            }
                        }
                    } else if c == '`' {
                        word.push('`');
                        match self.read_backtick(word, span) {
                            Ok(()) => {},
                            Err(e) => {
                                assert(lx_brace(src, p) is None);
                                return Err(e);
                            },
                        }
                        word.push('`');
                        proof {
                            let (t, q) = lx_backtick(src, p + 1).unwrap();
                            lemma_then_text_then(acc, seq!['`'] + t + seq!['`'], lx_brace(src, q));
                            acc = acc + (seq!['`'] + t + seq!['`']);
                            assert(word@ =~= old(word)@ + acc);
                        }
                    } else {
                        word.push(c);
                        proof {
                            lemma_then_text_then(acc, seq![c], lx_brace(src, p + 1));
                            acc = acc + seq![c];
                            assert(word@ =~= old(word)@ + acc);
                        }
                    }
                },
            }
        }
    }

    /// Read `$(...)` content after the opening `(`.
    fn read_cmd_subst(&mut self, word: &mut Vec<char>, span: Span) -> (r: Result<
        (),
        ShellError,
    >)
        requires
            old(self).wf(),
        ensures
            final(self).scans_from(old(self)),
            match lx_cmdsub(old(self).src@, old(self).pos as int, 1) {
                Some((t, q)) => r is Ok && final(word)@ == old(word)@ + t && final(self).pos == q,
                None => r is Err,
            },
        decreases old(self).src.len() - old(self).pos, 0nat,
    {
        let ghost src = self.src@;
        let ghost start = self.pos as int;
        let ghost mut acc: Seq<char> = Seq::empty();
        proof {
            assert(old(word)@ + acc =~= old(word)@);
        }
        let mut depth: usize = 1;
        loop
            invariant
                self.scans_from(old(self)),
                src == self.src@,
                start == old(self).pos,
                word@ == old(word)@ + acc,
                depth >= 1,
                lx_cmdsub(src, start, 1) == then_text(acc, lx_cmdsub(src, self.pos as int, depth as int)),
            decreases self.src.len() - self.pos,
        {
            let ghost p = self.pos as int;
            let ghost d0 = depth as int;
            match self.advance() {
                None => {
                    assert(lx_cmdsub(src, p, d0) is None);
                    return Err(syntax("unterminated $(", span));
                },
                Some(c) => {
                    if c == ')' {
                        depth = depth - 1;
                        if depth == 0 {
                            proof {
                                assert(lx_cmdsub(src, p, d0) == Some((Seq::<char>::empty(), p + 1)));
                                assert(acc + Seq::<char>::empty() =~= acc);
                            }
                            return Ok(());
                        }
                        word.push(')');
                        proof {
                            lemma_then_text_then(acc, seq![')'], lx_cmdsub(src, p + 1, d0 - 1));
                            acc = acc + seq![')'];
                            assert(word@ =~= old(word)@ + acc);
                        }
                    } else if c == '(' {
                        if depth < usize::MAX {
                            depth = depth + 1;
                        }
                        word.push('(');
                        proof {
                            lemma_then_text_then(acc, seq!['('], lx_cmdsub(src, p + 1, depth as int));
                            acc = acc + seq!['('];
                            assert(word@ =~= old(word)@ + acc);
                        }
                    } else if c == '\'' {
                        word.push('\'');
                        proof {
                            assert(word@ =~= old(word)@ + acc + src.subrange(p, self.pos as int));
                        }
                        while self.pos < self.src.len() && self.src[self.pos] != '\''
                            invariant
                                self.scans_from(old(self)),
                                src == self.src@,
                                start == old(self).pos,
                                depth >= 1,
                                depth == d0,
                                0 <= p < src.len(),
                                src[p] == '\'',
                                self.pos >= p + 1,
                                lx_cmdsub(src, start, 1) == then_text(acc, lx_cmdsub(src, p, d0)),
                                word@ == old(word)@ + acc + src.subrange(p, self.pos as int),
                                forall|k: int| p + 1 <= k < self.pos ==> #[trigger] src[k] != '\'',
                            decreases self.src.len() - self.pos,
                        {
                            word.push(self.src[self.pos]);
                            self.advance();
                            assert(word@ =~= old(word)@ + acc + src.subrange(p, self.pos as int));
                        }
                        let ghost j = self.pos as int;
                        proof {
                            lemma_run_end_at(src, p + 1, j, |c: char| c != '\'');
                        }
                        if self.pos >= self.src.len() {
                            return Err(syntax("unterminated single quote in $()", span));
                        }
                        word.push('\'');
                        self.advance();
                        proof {
                            lemma_then_text_then(acc, src.subrange(p, j + 1), lx_cmdsub(src, j + 1, d0));
                            assert(src.subrange(p, j + 1) =~= src.subrange(p, j).push('\''));
                            acc = acc + src.subrange(p, j + 1);
                            assert(word@ =~= old(word)@ + acc);
                        }
                    } else if c == '"' {
                        word.push('"');
                        match self.read_double_quoted(word, span) {
                            Ok(()) => {},
                            Err(e) => {
                                assert(lx_cmdsub(src, p, d0) is None);
                                return Err(e);
                            },
                        }
                        word.push('"');
                        proof {
                            let (t, q) = lx_dquote(src, p + 1).unwrap();
                            lemma_then_text_then(acc, seq!['"'] + t + seq!['"'], lx_cmdsub(src, q, d0));
                            acc = acc + (seq!['"'] + t + seq!['"']);
                            assert(word@ =~= old(word)@ + acc);
                        }
                    } else if c == '\\' {
                        word.push('\\');
                        if let Some(d) = self.advance() {
                            word.push(d);
                            proof {
                                lemma_then_text_then(acc, seq!['\\', d], lx_cmdsub(src, p + 2, d0));
                                acc = acc + seq!['\\', d];
                                assert(word@ =~= old(word)@ + acc);
                            }
                        } else {
                            proof {
                                acc = acc + seq!['\\'];
                                assert(word@ =~= old(word)@ + acc);
                            }
                        }
                    } else if c == '$' {
                        word.push('$');
                        match self.read_dollar(word, span) {
                            Ok(()) => {},
                            Err(e) => {
                                assert(lx_cmdsub(src, p, d0) is None);
                                return Err(e);
                            },
                        }
                        proof {
                            let (t, q) = lx_dollar(src, p + 1).unwrap();
                            lemma_then_text_then(acc, seq!['$'] + t, lx_cmdsub(src, q, d0));
                            acc = acc + (seq!['$'] + t);
                            assert(word@ =~= old(word)@ + acc);
                        }
                    } else if c == '`' {
                        word.push('`');
                        match self.read_backtick(word, span) {
                            Ok(()) => {},
                            Err(e) => {
                                assert(lx_cmdsub(src, p, d0) is None);
                                return Err(e);
                            },
                        }
                        word.push('`');
                        proof {
                            let (t, q) = lx_backtick(src, p + 1).unwrap();
                            lemma_then_text_then(acc, seq!['`'] + t + seq!['`'], lx_cmdsub(src, q, d0));
                            acc = acc + (seq!['`'] + t + seq!['`']);
                            assert(word@ =~= old(word)@ + acc);
                        }
                    } else if c == '#' {
                        word.push('#');
                        proof {
                            assert(word@ =~= old(word)@ + acc + src.subrange(p, self.pos as int));
                        }
                        while self.pos < self.src.len() && self.src[self.pos] != '\n'
                            invariant
                                self.scans_from(old(self)),
                                src == self.src@,
                                start == old(self).pos,
                                depth >= 1,
                                depth == d0,
                                0 <= p < src.len(),
                                src[p] == '#',
                                self.pos >= p + 1,
                                lx_cmdsub(src, start, 1) == then_text(acc, lx_cmdsub(src, p, d0)),
                                word@ == old(word)@ + acc + src.subrange(p, self.pos as int),
                                forall|k: int| p + 1 <= k < self.pos ==> #[trigger] src[k] != '\n',
                            decreases self.src.len() - self.pos,
                        {
                            word.push(self.src[self.pos]);
                            self.advance();
                            assert(word@ =~= old(word)@ + acc + src.subrange(p, self.pos as int));
                        }
                        proof {
                            let j = self.pos as int;
                            lemma_run_end_at(src, p + 1, j, |c: char| c != '\n');
                            lemma_then_text_then(acc, src.subrange(p, j), lx_cmdsub(src, j, d0));
                            acc = acc + src.subrange(p, j);
                            assert(word@ =~= old(word)@ + acc);
                        }
                    } else {
                        word.push(c);
                        proof {
                            lemma_then_text_then(acc, seq![c], lx_cmdsub(src, p + 1, d0));
                            acc = acc + seq![c];
                            assert(word@ =~= old(word)@ + acc);
                        }
                    }
                },
            }
        }
    }

    /// Read `$((...))` content after the opening `((`.
    fn read_arith(&mut self, word: &mut Vec<char>, span: Span) -> (r: Result<(), ShellError>)
        requires
            old(self).wf(),
        ensures
            final(self).scans_from(old(self)),
            match lx_arith(old(self).src@, old(self).pos as int, 1) {
                Some((t, q)) => r is Ok && final(word)@ == old(word)@ + t && final(self).pos == q,
                None => r is Err,
            },
        decreases old(self).src.len() - old(self).pos, 0nat,
    {
        let ghost src = self.src@;
        let ghost start = self.pos as int;
        let ghost mut acc: Seq<char> = Seq::empty();
        proof {
            assert(old(word)@ + acc =~= old(word)@);
        }
        let mut depth: i64 = 1;
        loop
            invariant
                self.scans_from(old(self)),
                src == self.src@,
                start == old(self).pos,
                word@ == old(word)@ + acc,
                lx_arith(src, start, 1) == then_text(acc, lx_arith(src, self.pos as int, depth as int)),
            decreases self.src.len() - self.pos,
        {
            let ghost p = self.pos as int;
            let ghost d0 = depth as int;
            match self.advance() {
                None => {
                    assert(lx_arith(src, p, d0) is None);
                    return Err(syntax("unterminated $((", span));
                },
                Some(c) => {
                    if c == ')' && self.peek() == Some(')') && depth == 1 {
                        self.advance();
                        proof {
                            assert(lx_arith(src, p, d0) == Some((Seq::<char>::empty(), p + 2)));
                            assert(acc + Seq::<char>::empty() =~= acc);
                        }
                        return Ok(());
                    } else if c == ')' {
                        if depth > i64::MIN {
                            depth = depth - 1;
                        }
                        word.push(')');
                        proof {
                            lemma_then_text_then(acc, seq![')'], lx_arith(src, p + 1, depth as int));
                            acc = acc + seq![')'];
                            assert(word@ =~= old(word)@ + acc);
                        }
                    } else if c == '(' {
                        if depth < i64::MAX {
                            depth = depth + 1;
                        }
                        word.push('(');
                        proof {
                            lemma_then_text_then(acc, seq!['('], lx_arith(src, p + 1, depth as int));
                            acc = acc + seq!['('];
                            assert(word@ =~= old(word)@ + acc);
                        }
                    } else if c == '$' {
                        word.push('$');
                        match self.read_dollar(word, span) {
                            Ok(()) => {},
                            Err(e) => {
                                assert(lx_arith(src, p, d0) is None);
                                return Err(e);
                            },
                        }
                        proof {
                            let (t, q) = lx_dollar(src, p + 1).unwrap();
                            lemma_then_text_then(acc, seq!['$'] + t, lx_arith(src, q, d0));
                            acc = acc + (seq!['$'] + t);
                            assert(word@ =~= old(word)@ + acc);
                        }
                    } else {
                        word.push(c);
                        proof {
                            lemma_then_text_then(acc, seq![c], lx_arith(src, p + 1, d0));
                            acc = acc + seq![c];
                            assert(word@ =~= old(word)@ + acc);
                        }
                    }
                },
            }
        }
    }

    /// Read backtick command substitution content after the opening backtick.
    fn read_backtick(&mut self, word: &mut Vec<char>, span: Span) -> (r: Result<
        (),
        ShellError,
    >)
        requires
            old(self).wf(),
        ensures
            final(self).scans_from(old(self)),
            final(word)@.len() >= old(word)@.len(),
            match lx_backtick(old(self).src@, old(self).pos as int) {
                Some((t, q)) => r is Ok && final(word)@ == old(word)@ + t && final(self).pos == q,
                None => r is Err,
            },
    {
        let ghost src = self.src@;
        let ghost start = self.pos as int;
        let ghost mut acc: Seq<char> = Seq::empty();
        proof {
            assert(old(word)@ + acc =~= old(word)@);
        }
        loop
            invariant
                self.scans_from(old(self)),
                src == self.src@,
                start == old(self).pos,
                word@ == old(word)@ + acc,
                lx_backtick(src, start) == then_text(acc, lx_backtick(src, self.pos as int)),
            decreases self.src.len() - self.pos,
        {
            let ghost p = self.pos as int;
            match self.advance() {
                None => {
                    assert(lx_backtick(src, p) is None);
                    return Err(syntax("unterminated backtick", span));
                },
                Some(c) => {
                    if c == '`' {
                        proof {
                            assert(lx_backtick(src, p) == Some((Seq::<char>::empty(), p + 1)));
                            assert(acc + Seq::<char>::empty() =~= acc);
                        }
                        return Ok(());
                    } else if c == '\\' {
                        word.push('\\');
                        if let Some(d) = self.advance() {
                            word.push(d);
                            proof {
                                lemma_then_text_then(acc, seq!['\\', d], lx_backtick(src, p + 2));
                                acc = acc + seq!['\\', d];
                                assert(word@ =~= old(word)@ + acc);
                            }
                        } else {
                            proof {
                                acc = acc.push('\\');
                                assert(word@ =~= old(word)@ + acc);
                            }
                        }
                    } else {
                        word.push(c);
                        proof {
                            lemma_then_text_then(acc, seq![c], lx_backtick(src, p + 1));
                            acc = acc + seq![c];
                            assert(word@ =~= old(word)@ + acc);
                        }
                    }
                },
            }
        }
    }

    /// Read a here-document body: lines up to one that equals the delimiter
    /// (leading tabs removed first when `strip_tabs`); the delimiter line may
    /// also end the input without a newline. At end of input the text read
    /// so far is the body.
    pub fn read_heredoc_body(&mut self, heredoc: &PendingHereDoc) -> (r: Result<
        String,
        ShellError,
    >)
        requires
            old(self).wf(),
        ensures
            final(self).wf(),
            final(self).source() == old(self).source(),
            final(self).position() >= old(self).position(),
            final(self).pushed() == old(self).pushed(),
            final(self).recognize_reserved == old(self).recognize_reserved,
            final(self).pending_heredocs@ == old(self).pending_heredocs@,
            r matches Ok(b) && (b@, final(self).position()) == heredoc_scan(
                old(self).source(),
                old(self).position(),
                heredoc.delimiter@,
                heredoc.strip_tabs,
                Seq::empty(),
            ),
    {
        let delim = chars_of(heredoc.delimiter.as_str());
        let mut body: Vec<char> = Vec::new();
        let ghost strip = heredoc.strip_tabs;
        loop
            invariant
                self.scans_from(old(self)),
                delim@ == heredoc.delimiter@,
                strip == heredoc.strip_tabs,
                heredoc_scan(self.src@, old(self).pos as int, delim@, strip, Seq::empty()) == heredoc_scan(
                    self.src@,
                    self.pos as int,
                    delim@,
                    strip,
                    body@,
                ),
            decreases self.src.len() - self.pos,
        {
            let line_start = self.pos;
            if heredoc.strip_tabs {
                while self.peek() == Some('\t')
                    invariant
                        self.scans_from(old(self)),
                        self.pos >= line_start,
                        forall|j: int| line_start <= j < self.pos ==> #[trigger] self.src@[j] == '\t',
                    decreases self.src.len() - self.pos,
                {
                    self.advance();
                }
                proof {
                    lemma_run_end_at(self.src@, line_start as int, self.pos as int, |c: char| c == '\t');
                }
            }
            let ghost s = self.pos as int;
            assert(s == after_tabs(self.src@, line_start as int, strip));
            let mut line: Vec<char> = Vec::new();
            let mut at_eof = false;
            loop
                invariant_except_break
                    self.scans_from(old(self)),
                    !at_eof,
                    0 <= s <= self.pos,
                    line@ == self.src@.subrange(s, self.pos as int),
                    forall|j: int| s <= j < self.pos ==> #[trigger] self.src@[j] != '\n',
                ensures
                    self.scans_from(old(self)),
                    self.pos > s || (at_eof && self.pos == s),
                    at_eof ==> self.pos == self.src.len() && line@ == self.src@.subrange(s, self.pos as int),
                    !at_eof ==> self.src@[self.pos - 1] == '\n' && line@ == self.src@.subrange(s, self.pos - 1),
                    forall|j: int| s <= j < self.pos - 1 ==> #[trigger] self.src@[j] != '\n',
                    at_eof ==> forall|j: int| s <= j < self.pos ==> #[trigger] self.src@[j] != '\n',
                decreases self.src.len() - self.pos,
            {
                match self.advance() {
                    None => {
                        at_eof = true;
                        break;
                    },
                    Some(c) => {
                        if c == '\n' {
                            break;
                        }
                        line.push(c);
                        proof {
                            assert(c == self.src@[self.pos - 1]);
                            assert(line@ =~= self.src@.subrange(s, self.pos as int));
                        }
                    },
                }
            }
            if at_eof {
                proof {
                    lemma_run_end_at(self.src@, s, self.pos as int, |c: char| c != '\n');
                }
                if !chars_eq(line.as_slice(), delim.as_slice()) {
                    append_chars(&mut body, &line);
                }
                return Ok(string_of(&body));
            }
            proof {
                lemma_run_end_at(self.src@, s, self.pos - 1, |c: char| c != '\n');
            }
            if chars_eq(line.as_slice(), delim.as_slice()) {
                return Ok(string_of(&body));
            }
            let ghost b0 = body@;
            append_chars(&mut body, &line);
            body.push('\n');
            proof {
                assert(body@ =~= b0 + line@ + seq!['\n']);
            }
        }
    }
}

/// Where the tabs that start the line at `p` end, when they are stripped.
pub open spec fn after_tabs(src: Seq<char>, p: int, strip: bool) -> int {
    if strip {
        run_end(src, p, |c: char| c == '\t')
    } else {
        p
    }
}

/// A here-document body read from the line at `p` on, after `body` read so
/// far: the body and the position after the delimiter line. Lines are
/// compared with the delimiter after their leading tabs go, when `strip`;
/// at end of input what was read is the body.
pub open spec fn heredoc_scan(src: Seq<char>, p: int, delim: Seq<char>, strip: bool, body: Seq<char>) -> (
    Seq<char>,
    int,
)
    decreases src.len() - p,
{
    let s = after_tabs(src, p, strip);
    let e = run_end(src, s, |c: char| c != '\n');
    let line = src.subrange(s, e);
    if e >= src.len() {
        (
            if line == delim {
                body
            } else {
                body + line
            },
            src.len() as int,
        )
    } else if line == delim || e < p {
        (body, e + 1)
    } else {
        heredoc_scan(src, e + 1, delim, strip, body + line + seq!['\n'])
    }
}

/// The characters `w[from..to]`.
pub fn slice_chars(w: &Vec<char>, from: usize, to: usize) -> (r: Vec<char>)
    requires
        from <= to <= w.len(),
    ensures
        r@ == w@.subrange(from as int, to as int),
{
    let mut r: Vec<char> = Vec::new();
    let mut i = from;
    while i < to
        invariant
            from <= i <= to,
            to <= w.len(),
            r@ == w@.subrange(from as int, i as int),
        decreases to - i,
    {
        r.push(w[i]);
        assert(w@.subrange(from as int, i + 1) =~= w@.subrange(from as int, i as int).push(w@[i as int]));
        i += 1;
    }
    r
}

/// Appends all of `src` to `dst`.
pub fn append_chars(dst: &mut Vec<char>, src: &Vec<char>)
    ensures
        final(dst)@ == old(dst)@ + src@,
{
    let mut i: usize = 0;
    while i < src.len()
        invariant
            i <= src.len(),
            dst@ == old(dst)@ + src@.take(i as int),
        decreases src.len() - i,
    {
        dst.push(src[i]);
        assert(src@.take(i + 1) =~= src@.take(i as int).push(src@[i as int]));
        i += 1;
    }
    assert(src@.take(src.len() as int) =~= src@);
}

} // verus!
