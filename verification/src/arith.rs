//! Arithmetic expression evaluator for $((expr)).
//!
//! POSIX shell arithmetic: 64-bit integers, C-like operators. Operators, by
//! precedence from low to high: assignment (`= *= /= %= += -= <<= >>= &= ^=
//! |=`), `?:`, `||`, `&&`, `|`, `^`, `&`, `== !=`, `< <= > >=`, `<< >>`,
//! `+ -`, `* / %`, and the unary `! ~ + -`. Results wrap around on overflow.

use vstd::prelude::*;

use crate::error::ExitStatus;
use crate::text::{chars_of, int_to_string, parse_i64, spec_parse_i64, string_of};
use crate::var::Variables;

verus! {

/// A token of an arithmetic expression.
#[derive(Debug)]
pub enum ArithToken {
    Num(i64),
    Var(String),
    Plus,
    Minus,
    Star,
    Slash,
    Percent,
    LParen,
    RParen,
    Eq,
    Ne,
    Lt,
    Le,
    Gt,
    Ge,
    And,
    Or,
    BitAnd,
    BitOr,
    BitXor,
    Shl,
    Shr,
    Not,
    BitNot,
    Assign,
    Question,
    Colon,
    AddAssign,
    SubAssign,
    MulAssign,
    DivAssign,
    ModAssign,
    ShlAssign,
    ShrAssign,
    AndAssign,
    OrAssign,
    XorAssign,
}

/// The value of a hexadecimal digit, if `c` is one.
pub open spec fn hex_value(c: char) -> Option<int> {
    if '0' <= c && c <= '9' {
        Some(c as int - 48)
    } else if 'a' <= c && c <= 'f' {
        Some(c as int - 87)
    } else if 'A' <= c && c <= 'F' {
        Some(c as int - 55)
    } else {
        None
    }
}

/// The value of the digits `s` in base `radix` (most significant first).
pub open spec fn radix_value(s: Seq<char>, radix: int) -> int
    decreases s.len(),
{
    if s.len() == 0 {
        0
    } else {
        radix_value(s.drop_last(), radix) * radix + hex_value(s.last()).unwrap_or(0)
    }
}

/// The value of digits `cs[from..to]` in base `radix`, when it fits in an
/// `i64` and there is at least one digit.
fn digits_in_radix(cs: &Vec<char>, from: usize, to: usize, radix: i64) -> (r: Option<i64>)
    requires
        from <= to <= cs@.len(),
        radix == 8 || radix == 16 || radix == 10,
        forall|k: int| from <= k < to ==> #[trigger] hex_value(cs@[k]) is Some && hex_value(cs@[k]).unwrap() < radix,
    ensures
        r matches Some(v) ==> from < to && v == radix_value(cs@.subrange(from as int, to as int), radix as int),
        r is None ==> from == to || radix_value(cs@.subrange(from as int, to as int), radix as int) > i64::MAX,
{
    if from == to {
        return None;
    }
    let mut acc: i64 = 0;
    let mut i = from;
    assert(cs@.subrange(from as int, from as int) =~= Seq::<char>::empty());
    while i < to
        invariant
            from <= i <= to <= cs@.len(),
            radix == 8 || radix == 16 || radix == 10,
            forall|k: int| from <= k < to ==> #[trigger] hex_value(cs@[k]) is Some && hex_value(cs@[k]).unwrap() < radix,
            0 <= acc,
            acc == radix_value(cs@.subrange(from as int, i as int), radix as int),
        decreases to - i,
    {
        let c = cs[i];
        let d: i64 = if '0' <= c && c <= '9' {
            (c as u32 - 48) as i64
        } else if 'a' <= c && c <= 'f' {
            (c as u32 - 87) as i64
        } else {
            (c as u32 - 55) as i64
        };
        assert(hex_value(cs@[i as int]) is Some);
        assert(d == hex_value(c).unwrap());
        assert(cs@.subrange(from as int, i + 1).drop_last() =~= cs@.subrange(from as int, i as int));
        let lim: i64 = (i64::MAX - d) / radix;
        if acc > lim {
            proof {
                assert(acc * radix + d > i64::MAX) by (nonlinear_arith)
                    requires
                        acc > lim,
                        lim == (i64::MAX - d) / (radix as int),
                        radix > 0,
                        0 <= d < radix,
                ;
                lemma_radix_prefix(cs@.subrange(from as int, to as int), (i + 1 - from) as int, radix as int);
                assert(cs@.subrange(from as int, to as int).take((i + 1 - from) as int) =~= cs@.subrange(
                    from as int,
                    i + 1,
                ));
            }
            return None;
        }
        proof {
            assert(acc * radix + d <= i64::MAX) by (nonlinear_arith)
                requires
                    acc <= lim,
                    lim == (i64::MAX - d) / (radix as int),
                    radix > 0,
                    0 <= d < radix,
                    acc >= 0,
            ;
            assert(acc * radix >= 0) by (nonlinear_arith)
                requires
                    radix > 0,
                    acc >= 0,
            ;
        }
        acc = acc * radix + d;
        i += 1;
    }
    Some(acc)
}

/// A longer digit string has a value at least that of its prefix.
pub proof fn lemma_radix_prefix(s: Seq<char>, k: int, radix: int)
    requires
        0 <= k <= s.len(),
        radix > 0,
        forall|j: int| 0 <= j < s.len() ==> #[trigger] hex_value(s[j]) is Some,
    ensures
        radix_value(s, radix) >= radix_value(s.take(k), radix),
        radix_value(s.take(k), radix) >= 0,
    decreases s.len(),
{
    if k < s.len() {
        assert(s.drop_last().take(k) =~= s.take(k));
        assert forall|j: int| 0 <= j < s.drop_last().len() implies #[trigger] hex_value(s.drop_last()[j]) is Some by {
            assert(s.drop_last()[j] == s[j]);
        }
        lemma_radix_prefix(s.drop_last(), k, radix);
        lemma_radix_prefix(s.drop_last(), s.len() - 1, radix);
        assert(s.drop_last().take(s.len() - 1) =~= s.drop_last());
        let v = radix_value(s.drop_last(), radix);
        assert(hex_value(s[s.len() - 1]) is Some);
        assert(v * radix >= v) by (nonlinear_arith)
            requires
                v >= 0,
                radix > 0,
        ;
    } else {
        assert(s.take(k) =~= s);
        if s.len() > 0 {
            assert forall|j: int| 0 <= j < s.drop_last().len() implies #[trigger] hex_value(s.drop_last()[j]) is Some by {
                assert(s.drop_last()[j] == s[j]);
            }
            lemma_radix_prefix(s.drop_last(), s.len() - 1, radix);
            assert(s.drop_last().take(s.len() - 1) =~= s.drop_last());
            let v = radix_value(s.drop_last(), radix);
            assert(v * radix >= 0) by (nonlinear_arith)
                requires
                    v >= 0,
                    radix > 0,
            ;
        }
    }
}

fn is_octal_digit(c: char) -> (r: bool)
    ensures
        r == ('0' <= c && c <= '7'),
{
    '0' <= c && c <= '7'
}

fn is_hex_digit(c: char) -> (r: bool)
    ensures
        r == (hex_value(c) is Some),
{
    ('0' <= c && c <= '9') || ('a' <= c && c <= 'f') || ('A' <= c && c <= 'F')
}

/// An error message: `prefix` followed by the characters `cs[from..to]`.
fn message_with(prefix: &str, cs: &Vec<char>, from: usize, to: usize) -> (r: String)
    requires
        from <= to <= cs@.len(),
    ensures
        r@ == prefix@ + cs@.subrange(from as int, to as int),
{
    let mut m = prefix.to_owned();
    let part = string_of(&crate::lexer::slice_chars(cs, from, to));
    m.append(part.as_str());
    m
}

/// An arithmetic token as a value: a number, a name, or an operator token.
pub enum ATok {
    Num(i64),
    Var(Seq<char>),
    Op(ArithToken),
}

/// The value of a token.
pub open spec fn tv(t: ArithToken) -> ATok {
    match t {
        ArithToken::Num(n) => ATok::Num(n),
        ArithToken::Var(s) => ATok::Var(s@),
        other => ATok::Op(other),
    }
}

/// The values of a token sequence.
pub open spec fn toks_view(s: Seq<ArithToken>) -> Seq<ATok> {
    s.map_values(|t: ArithToken| tv(t))
}

pub open spec fn is_blank(c: char) -> bool {
    c == ' ' || c == '\t' || c == '\n'
}

pub open spec fn is_dec(c: char) -> bool {
    '0' <= c && c <= '9'
}

pub open spec fn is_oct(c: char) -> bool {
    '0' <= c && c <= '7'
}

pub open spec fn is_name_start(c: char) -> bool {
    c == '_' || ('a' <= c && c <= 'z') || ('A' <= c && c <= 'Z')
}

pub open spec fn is_name_char(c: char) -> bool {
    is_name_start(c) || is_dec(c)
}

/// A variable name: a letter or `_`, then letters, digits and `_`.
pub open spec fn is_ident(s: Seq<char>) -> bool {
    &&& s.len() > 0
    &&& is_name_start(s[0])
    &&& forall|k: int| 0 <= k < s.len() ==> is_name_char(#[trigger] s[k])
}

/// The first index at or after `k` whose character fails `p` (or the end).
pub open spec fn run_end(cs: Seq<char>, k: int, p: spec_fn(char) -> bool) -> int
    decreases cs.len() - k,
{
    if 0 <= k < cs.len() && p(cs[k]) {
        run_end(cs, k + 1, p)
    } else {
        k
    }
}

pub proof fn lemma_run_end_bounds(cs: Seq<char>, k: int, p: spec_fn(char) -> bool)
    requires
        0 <= k <= cs.len(),
    ensures
        k <= run_end(cs, k, p) <= cs.len(),
    decreases cs.len() - k,
{
    if k < cs.len() && p(cs[k]) {
        lemma_run_end_bounds(cs, k + 1, p);
    }
}

/// A scan that stopped at `i` after characters satisfying `p` ends the run.
pub proof fn lemma_run_end_at(cs: Seq<char>, k: int, i: int, p: spec_fn(char) -> bool)
    requires
        0 <= k <= i <= cs.len(),
        forall|j: int| k <= j < i ==> p(#[trigger] cs[j]),
        i == cs.len() || !p(cs[i]),
    ensures
        run_end(cs, k, p) == i,
    decreases i - k,
{
    if k < i {
        lemma_run_end_at(cs, k + 1, i, p);
    }
}

/// The number token at `i` (a digit) and the index after it; `None` when
/// the number is malformed or does not fit in an `i64`.
pub open spec fn number_token(cs: Seq<char>, i: int) -> Option<(ATok, int)> {
    if cs[i] == '0' && i + 1 < cs.len() && (cs[i + 1] == 'x' || cs[i + 1] == 'X') {
        let j = run_end(cs, i + 2, |c: char| hex_value(c) is Some);
        let v = radix_value(cs.subrange(i + 2, j), 16);
        if j == i + 2 || v > i64::MAX {
            None
        } else {
            Some((ATok::Num(v as i64), j))
        }
    } else if cs[i] == '0' && i + 1 < cs.len() && is_oct(cs[i + 1]) {
        let j = run_end(cs, i + 1, |c: char| is_oct(c));
        let v = radix_value(cs.subrange(i + 1, j), 8);
        if v > i64::MAX {
            None
        } else {
            Some((ATok::Num(v as i64), j))
        }
    } else {
        let j = run_end(cs, i, |c: char| is_dec(c));
        match spec_parse_i64(cs.subrange(i, j)) {
            Some(n) => Some((ATok::Num(n), j)),
            None => None,
        }
    }
}

/// The operator `c` alone, or its `c=` form.
pub open spec fn one_or_assign_at(cs: Seq<char>, i: int, plain: ArithToken, assign: ArithToken) -> (ATok, int) {
    if i + 1 < cs.len() && cs[i + 1] == '=' {
        (ATok::Op(assign), i + 2)
    } else {
        (ATok::Op(plain), i + 1)
    }
}

/// The operator token at `i` and the index after it; `None` for a
/// character that starts no token.
pub open spec fn op_token(cs: Seq<char>, i: int) -> Option<(ATok, int)> {
    let c = cs[i];
    if c == '+' {
        Some(one_or_assign_at(cs, i, ArithToken::Plus, ArithToken::AddAssign))
    } else if c == '-' {
        Some(one_or_assign_at(cs, i, ArithToken::Minus, ArithToken::SubAssign))
    } else if c == '*' {
        Some(one_or_assign_at(cs, i, ArithToken::Star, ArithToken::MulAssign))
    } else if c == '/' {
        Some(one_or_assign_at(cs, i, ArithToken::Slash, ArithToken::DivAssign))
    } else if c == '%' {
        Some(one_or_assign_at(cs, i, ArithToken::Percent, ArithToken::ModAssign))
    } else if c == '^' {
        Some(one_or_assign_at(cs, i, ArithToken::BitXor, ArithToken::XorAssign))
    } else if c == '=' {
        Some(one_or_assign_at(cs, i, ArithToken::Assign, ArithToken::Eq))
    } else if c == '!' {
        Some(one_or_assign_at(cs, i, ArithToken::Not, ArithToken::Ne))
    } else if c == '(' {
        Some((ATok::Op(ArithToken::LParen), i + 1))
    } else if c == ')' {
        Some((ATok::Op(ArithToken::RParen), i + 1))
    } else if c == '~' {
        Some((ATok::Op(ArithToken::BitNot), i + 1))
    } else if c == '?' {
        Some((ATok::Op(ArithToken::Question), i + 1))
    } else if c == ':' {
        Some((ATok::Op(ArithToken::Colon), i + 1))
    } else if c == '<' || c == '>' {
        let lt = c == '<';
        if i + 1 < cs.len() && cs[i + 1] == '=' {
            Some((ATok::Op(if lt { ArithToken::Le } else { ArithToken::Ge }), i + 2))
        } else if i + 1 < cs.len() && cs[i + 1] == c {
            if i + 2 < cs.len() && cs[i + 2] == '=' {
                Some((ATok::Op(if lt { ArithToken::ShlAssign } else { ArithToken::ShrAssign }), i + 3))
            } else {
                Some((ATok::Op(if lt { ArithToken::Shl } else { ArithToken::Shr }), i + 2))
            }
        } else {
            Some((ATok::Op(if lt { ArithToken::Lt } else { ArithToken::Gt }), i + 1))
        }
    } else if c == '&' || c == '|' {
        let amp = c == '&';
        if i + 1 < cs.len() && cs[i + 1] == c {
            Some((ATok::Op(if amp { ArithToken::And } else { ArithToken::Or }), i + 2))
        } else if i + 1 < cs.len() && cs[i + 1] == '=' {
            Some((ATok::Op(if amp { ArithToken::AndAssign } else { ArithToken::OrAssign }), i + 2))
        } else {
            Some((ATok::Op(if amp { ArithToken::BitAnd } else { ArithToken::BitOr }), i + 1))
        }
    } else {
        None
    }
}

/// How an operator is written.
pub open spec fn op_text(t: ArithToken) -> Seq<char> {
    match t {
        ArithToken::Plus => seq!['+'],
        ArithToken::Minus => seq!['-'],
        ArithToken::Star => seq!['*'],
        ArithToken::Slash => seq!['/'],
        ArithToken::Percent => seq!['%'],
        ArithToken::LParen => seq!['('],
        ArithToken::RParen => seq![')'],
        ArithToken::Eq => seq!['=', '='],
        ArithToken::Ne => seq!['!', '='],
        ArithToken::Lt => seq!['<'],
        ArithToken::Le => seq!['<', '='],
        ArithToken::Gt => seq!['>'],
        ArithToken::Ge => seq!['>', '='],
        ArithToken::And => seq!['&', '&'],
        ArithToken::Or => seq!['|', '|'],
        ArithToken::BitAnd => seq!['&'],
        ArithToken::BitOr => seq!['|'],
        ArithToken::BitXor => seq!['^'],
        ArithToken::Shl => seq!['<', '<'],
        ArithToken::Shr => seq!['>', '>'],
        ArithToken::Not => seq!['!'],
        ArithToken::BitNot => seq!['~'],
        ArithToken::Assign => seq!['='],
        ArithToken::Question => seq!['?'],
        ArithToken::Colon => seq![':'],
        ArithToken::AddAssign => seq!['+', '='],
        ArithToken::SubAssign => seq!['-', '='],
        ArithToken::MulAssign => seq!['*', '='],
        ArithToken::DivAssign => seq!['/', '='],
        ArithToken::ModAssign => seq!['%', '='],
        ArithToken::ShlAssign => seq!['<', '<', '='],
        ArithToken::ShrAssign => seq!['>', '>', '='],
        ArithToken::AndAssign => seq!['&', '='],
        ArithToken::OrAssign => seq!['|', '='],
        ArithToken::XorAssign => seq!['^', '='],
        _ => Seq::empty(),
    }
}

/// The operator read at `i` is the one written there: the characters it
/// covers spell it.
pub proof fn law_operator_token(cs: Seq<char>, i: int)
    requires
        0 <= i < cs.len(),
    ensures
        op_token(cs, i) matches Some((tok, j)) ==> (tok matches ATok::Op(op) && j == i + op_text(op).len() && j
            <= cs.len() && cs.subrange(i, j) == op_text(op)),
{
    if let Some((tok, j)) = op_token(cs, i) {
        if let ATok::Op(op) = tok {
            assert(cs.subrange(i, j) =~= op_text(op));
        }
    }
}

/// Where an operator of two or three characters is written, it is read as
/// one token (`-=` is not `-` then `=`); only `<<` and `>>` may be the
/// start of a longer one.
pub proof fn law_longest_operator(cs: Seq<char>, i: int, op: ArithToken)
    requires
        0 <= i,
        i + op_text(op).len() <= cs.len(),
        op_text(op).len() >= 2,
        !(op is Shl || op is Shr),
        cs.subrange(i, i + op_text(op).len()) == op_text(op),
    ensures
        op_token(cs, i) == Some((ATok::Op(op), i + op_text(op).len())),
{
    let n = op_text(op).len();
    assert(cs[i] == op_text(op)[0]);
    assert(cs[i + 1] == op_text(op)[1]);
    if n == 3 {
        assert(cs[i + 2] == op_text(op)[2]);
    }
}

/// `tok` in front of the tokens `rest`, if there are any.
pub open spec fn prepend(tok: ATok, rest: Option<Seq<ATok>>) -> Option<Seq<ATok>> {
    match rest {
        Some(r) => Some(seq![tok] + r),
        None => None,
    }
}

/// The tokens of `cs[i..]`: blanks separate tokens; numbers are decimal,
/// `0x` hexadecimal or `0` octal; names start with a letter or `_`; the
/// rest are operators. `None` when some character starts no token or a
/// number is malformed or too large.
pub open spec fn spec_tokenize(cs: Seq<char>, i: int) -> Option<Seq<ATok>>
    decreases cs.len() - i,
{
    if i < 0 || i >= cs.len() {
        Some(Seq::empty())
    } else if is_blank(cs[i]) {
        spec_tokenize(cs, i + 1)
    } else if is_dec(cs[i]) {
        match number_token(cs, i) {
            Some((tok, j)) => {
                proof {
                    lemma_run_end_bounds(cs, i, |c: char| is_dec(c));
                    if i + 2 <= cs.len() {
                        lemma_run_end_bounds(cs, i + 2, |c: char| hex_value(c) is Some);
                    }
                    if i + 1 <= cs.len() {
                        lemma_run_end_bounds(cs, i + 1, |c: char| is_oct(c));
                    }
                }
                if j > i {
                    prepend(tok, spec_tokenize(cs, j))
                } else {
                    None
                }
            },
            None => None,
        }
    } else if is_name_start(cs[i]) {
        let j = run_end(cs, i, |c: char| is_name_char(c));
        proof {
            lemma_run_end_bounds(cs, i, |c: char| is_name_char(c));
        }
        if j > i {
            prepend(ATok::Var(cs.subrange(i, j)), spec_tokenize(cs, j))
        } else {
            None
        }
    } else {
        match op_token(cs, i) {
            Some((tok, j)) => if j > i {
                prepend(tok, spec_tokenize(cs, j))
            } else {
                None
            },
            None => None,
        }
    }
}

/// An operator token that may be followed by `=` to form its compound
/// assignment: one character, with the token alone and with `=`.
fn one_or_assign(cs: &Vec<char>, i: usize, plain: ArithToken, assign: ArithToken) -> (r: (ArithToken, usize))
    requires
        i < cs@.len(),
        tv(plain) == ATok::Op(plain),
        tv(assign) == ATok::Op(assign),
    ensures
        (tv(r.0), r.1 as int) == one_or_assign_at(cs@, i as int, plain, assign),
        r.1 <= cs@.len(),
{
    if cs.len() - i > 1 && cs[i + 1] == '=' {
        (assign, i + 2)
    } else {
        (plain, i + 1)
    }
}

/// Scan the number starting at `i` (a digit).
fn scan_number(chars: &Vec<char>, at: usize) -> (r: Result<(ArithToken, usize), String>)
    requires
        at < chars@.len(),
        is_dec(chars@[at as int]),
    ensures
        match number_token(chars@, at as int) {
            Some((tok, j)) => r matches Ok(p) && tv(p.0) == tok && p.1 == j,
            None => r is Err,
        },
        r matches Ok(p) ==> at < p.1 <= chars@.len() && !(tv(p.0) is Var),
{
    let n = chars.len();
    let start = at;
    let c = chars[at];
    let mut i = at;
    if c == '0' && i + 1 < chars.len() && (chars[i + 1] == 'x' || chars[i + 1] == 'X') {
        i += 2;
        while i < chars.len() && is_hex_digit(chars[i])
            invariant
                start + 2 <= i <= chars@.len(),
                forall|k: int| start + 2 <= k < i ==> #[trigger] hex_value(chars@[k]) is Some,
            decreases chars@.len() - i,
        {
            i += 1;
        }
        proof {
            lemma_run_end_at(chars@, start + 2, i as int, |c: char| hex_value(c) is Some);
            assert forall|k: int| start + 2 <= k < i implies #[trigger] hex_value(chars@[k]) is Some
                && hex_value(chars@[k]).unwrap() < 16 by {
                let ch = chars@[k];
                assert(hex_value(ch) is Some);
            }
        }
        match digits_in_radix(chars, start + 2, i, 16) {
            Some(n) => Ok((ArithToken::Num(n), i)),
            None => Err(message_with("invalid hex: ", chars, start, i)),
        }
    } else if c == '0' && i + 1 < chars.len() && is_octal_digit(chars[i + 1]) {
        i += 1;
        while i < chars.len() && is_octal_digit(chars[i])
            invariant
                start + 1 <= i <= chars@.len(),
                forall|k: int| start + 1 <= k < i ==> is_oct(#[trigger] chars@[k]),
            decreases chars@.len() - i,
        {
            i += 1;
        }
        proof {
            lemma_run_end_at(chars@, start + 1, i as int, |c: char| is_oct(c));
            assert forall|k: int| start + 1 <= k < i implies #[trigger] hex_value(chars@[k]) is Some
                && hex_value(chars@[k]).unwrap() < 8 by {
                assert(is_oct(chars@[k]));
            }
        }
        match digits_in_radix(chars, start + 1, i, 8) {
            Some(n) => Ok((ArithToken::Num(n), i)),
            None => Err(message_with("invalid octal: ", chars, start + 1, i)),
        }
    } else {
        while i < chars.len() && '0' <= chars[i] && chars[i] <= '9'
            invariant
                start <= i <= chars@.len(),
                start < chars@.len(),
                is_dec(chars@[start as int]),
                forall|k: int| start <= k < i ==> is_dec(#[trigger] chars@[k]),
            decreases chars@.len() - i,
        {
            i += 1;
        }
        proof {
            lemma_run_end_at(chars@, start as int, i as int, |c: char| is_dec(c));
        }
        let digits = crate::lexer::slice_chars(chars, start, i);
        match crate::text::parse_i64_chars(digits.as_slice()) {
            Some(n) => Ok((ArithToken::Num(n), i)),
            None => Err(message_with("invalid number: ", chars, start, i)),
        }
    }
}

/// Scan the operator starting at `i`.
fn scan_operator(chars: &Vec<char>, i: usize) -> (r: Result<(ArithToken, usize), String>)
    requires
        i < chars@.len(),
    ensures
        match op_token(chars@, i as int) {
            Some((tok, j)) => r matches Ok(p) && tv(p.0) == tok && p.1 == j,
            None => r is Err,
        },
        r matches Ok(p) ==> i < p.1 <= chars@.len() && !(tv(p.0) is Var),
{
    let n = chars.len();
    let c = chars[i];
    if c == '+' {
        Ok(one_or_assign(chars, i, ArithToken::Plus, ArithToken::AddAssign))
    } else if c == '-' {
        Ok(one_or_assign(chars, i, ArithToken::Minus, ArithToken::SubAssign))
    } else if c == '*' {
        Ok(one_or_assign(chars, i, ArithToken::Star, ArithToken::MulAssign))
    } else if c == '/' {
        Ok(one_or_assign(chars, i, ArithToken::Slash, ArithToken::DivAssign))
    } else if c == '%' {
        Ok(one_or_assign(chars, i, ArithToken::Percent, ArithToken::ModAssign))
    } else if c == '^' {
        Ok(one_or_assign(chars, i, ArithToken::BitXor, ArithToken::XorAssign))
    } else if c == '=' {
        Ok(one_or_assign(chars, i, ArithToken::Assign, ArithToken::Eq))
    } else if c == '!' {
        Ok(one_or_assign(chars, i, ArithToken::Not, ArithToken::Ne))
    } else if c == '(' {
        Ok((ArithToken::LParen, i + 1))
    } else if c == ')' {
        Ok((ArithToken::RParen, i + 1))
    } else if c == '~' {
        Ok((ArithToken::BitNot, i + 1))
    } else if c == '?' {
        Ok((ArithToken::Question, i + 1))
    } else if c == ':' {
        Ok((ArithToken::Colon, i + 1))
    } else if c == '<' || c == '>' {
        let lt = c == '<';
        let mut j = i + 1;
        if j < chars.len() && chars[j] == '=' {
            j += 1;
            Ok((if lt { ArithToken::Le } else { ArithToken::Ge }, j))
        } else if j < chars.len() && chars[j] == c {
            j += 1;
            if j < chars.len() && chars[j] == '=' {
                j += 1;
                Ok((if lt { ArithToken::ShlAssign } else { ArithToken::ShrAssign }, j))
            } else {
                Ok((if lt { ArithToken::Shl } else { ArithToken::Shr }, j))
            }
        } else {
            Ok((if lt { ArithToken::Lt } else { ArithToken::Gt }, j))
        }
    } else if c == '&' || c == '|' {
        let amp = c == '&';
        let mut j = i + 1;
        if j < chars.len() && chars[j] == c {
            j += 1;
            Ok((if amp { ArithToken::And } else { ArithToken::Or }, j))
        } else if j < chars.len() && chars[j] == '=' {
            j += 1;
            Ok((if amp { ArithToken::AndAssign } else { ArithToken::OrAssign }, j))
        } else {
            Ok((if amp { ArithToken::BitAnd } else { ArithToken::BitOr }, j))
        }
    } else {
        let mut m = "unexpected character in arithmetic: '".to_owned();
        crate::text::push_char(&mut m, c);
        crate::text::push_char(&mut m, '\'');
        Err(m)
    }
}

/// Split an arithmetic expression into tokens (see `spec_tokenize`).
pub fn tokenize(expr: &str) -> (r: Result<Vec<ArithToken>, String>)
    ensures
        match spec_tokenize(expr@, 0) {
            Some(ts) => r matches Ok(v) && toks_view(v@) == ts,
            None => r is Err,
        },
        r matches Ok(v) ==> names_are_idents(toks_view(v@)),
{
    let chars = chars_of(expr);
    let mut tokens: Vec<ArithToken> = Vec::new();
    let mut i: usize = 0;
    assert(toks_view(tokens@) =~= Seq::<ATok>::empty());
    assert(spec_tokenize(chars@, 0) == (match spec_tokenize(chars@, 0) {
        Some(rest) => Some(Seq::<ATok>::empty() + rest),
        None => None,
    })) by {
        if let Some(rest) = spec_tokenize(chars@, 0) {
            assert(Seq::<ATok>::empty() + rest =~= rest);
        }
    }
    while i < chars.len()
        invariant
            i <= chars@.len(),
            chars@ == expr@,
            spec_tokenize(chars@, 0) == (match spec_tokenize(chars@, i as int) {
                Some(rest) => Some(toks_view(tokens@) + rest),
                None => None,
            }),
            names_are_idents(toks_view(tokens@)),
        decreases chars@.len() - i,
    {
        let c = chars[i];
        let ghost before = tokens@;
        let ghost i0 = i as int;
        if c == ' ' || c == '\t' || c == '\n' {
            i += 1;
        } else {
            let scanned = if '0' <= c && c <= '9' {
                scan_number(&chars, i)
            } else if c == '_' || ('a' <= c && c <= 'z') || ('A' <= c && c <= 'Z') {
                let start = i;
                let mut j = i;
                while j < chars.len() && (chars[j] == '_' || ('a' <= chars[j] && chars[j] <= 'z') || ('A'
                    <= chars[j] && chars[j] <= 'Z') || ('0' <= chars[j] && chars[j] <= '9'))
                    invariant
                        start <= j <= chars@.len(),
                        start < chars@.len(),
                        is_name_start(chars@[start as int]),
                        forall|k: int| start <= k < j ==> is_name_char(#[trigger] chars@[k]),
                    decreases chars@.len() - j,
                {
                    j += 1;
                }
                proof {
                    lemma_run_end_at(chars@, start as int, j as int, |c: char| is_name_char(c));
                }
                let name = string_of(&crate::lexer::slice_chars(&chars, start, j));
                proof {
                    let sub = chars@.subrange(start as int, j as int);
                    assert(j > start);
                    assert(sub[0] == chars@[start as int]);
                    assert forall|k: int| 0 <= k < sub.len() implies is_name_char(#[trigger] sub[k]) by {
                        assert(sub[k] == chars@[start + k]);
                    }
                    assert(is_ident(name@));
                }
                Ok((ArithToken::Var(name), j))
            } else {
                scan_operator(&chars, i)
            };
            match scanned {
                Ok((t, j)) => {
                    proof {
                        assert(j > i0);
                        assert(toks_view(before.push(t)) =~= toks_view(before).push(tv(t)));
                        assert(tv(t) matches ATok::Var(n) ==> is_ident(n));
                        assert forall|k: int| 0 <= k < toks_view(before.push(t)).len() implies (
                            #[trigger] toks_view(before.push(t))[k] matches ATok::Var(n) ==> is_ident(n)) by {
                            if k < before.len() {
                                assert(toks_view(before.push(t))[k] == toks_view(before)[k]);
                            }
                        }
                        if let Some(rest) = spec_tokenize(chars@, j as int) {
                            assert(toks_view(before) + (seq![tv(t)] + rest) =~= toks_view(before).push(tv(t)) + rest);
                        }
                    }
                    tokens.push(t);
                    i = j;
                },
                Err(m) => {
                    return Err(m);
                },
            }
        }
    }
    proof {
        assert(toks_view(tokens@) + Seq::<ATok>::empty() =~= toks_view(tokens@));
    }
    Ok(tokens)
}

/// The binary operator of precedence level `level` (0 is `||`, 9 is
/// `* / %`) that `t` is, numbered within its level; `None` otherwise.
pub open spec fn spec_binary_op(t: ATok, level: u8) -> Option<u8> {
    match t {
        ATok::Op(op) => match (level, op) {
            (0, ArithToken::Or) => Some(0u8),
            (1, ArithToken::And) => Some(0u8),
            (2, ArithToken::BitOr) => Some(0u8),
            (3, ArithToken::BitXor) => Some(0u8),
            (4, ArithToken::BitAnd) => Some(0u8),
            (5, ArithToken::Eq) => Some(0u8),
            (5, ArithToken::Ne) => Some(1u8),
            (6, ArithToken::Lt) => Some(0u8),
            (6, ArithToken::Le) => Some(1u8),
            (6, ArithToken::Gt) => Some(2u8),
            (6, ArithToken::Ge) => Some(3u8),
            (7, ArithToken::Shl) => Some(0u8),
            (7, ArithToken::Shr) => Some(1u8),
            (8, ArithToken::Plus) => Some(0u8),
            (8, ArithToken::Minus) => Some(1u8),
            (9, ArithToken::Star) => Some(0u8),
            (9, ArithToken::Slash) => Some(1u8),
            (9, ArithToken::Percent) => Some(2u8),
            _ => None,
        },
        _ => None,
    }
}

fn binary_op(t: &ArithToken, level: u8) -> (r: Option<u8>)
    ensures
        r == spec_binary_op(tv(*t), level),
{
    match (level, t) {
        (0, ArithToken::Or) => Some(0),
        (1, ArithToken::And) => Some(0),
        (2, ArithToken::BitOr) => Some(0),
        (3, ArithToken::BitXor) => Some(0),
        (4, ArithToken::BitAnd) => Some(0),
        (5, ArithToken::Eq) => Some(0),
        (5, ArithToken::Ne) => Some(1),
        (6, ArithToken::Lt) => Some(0),
        (6, ArithToken::Le) => Some(1),
        (6, ArithToken::Gt) => Some(2),
        (6, ArithToken::Ge) => Some(3),
        (7, ArithToken::Shl) => Some(0),
        (7, ArithToken::Shr) => Some(1),
        (8, ArithToken::Plus) => Some(0),
        (8, ArithToken::Minus) => Some(1),
        (9, ArithToken::Star) => Some(0),
        (9, ArithToken::Slash) => Some(1),
        (9, ArithToken::Percent) => Some(2),
        _ => None,
    }
}

/// 1 for true, 0 for false.
pub open spec fn spec_flag(b: bool) -> i64 {
    if b {
        1i64
    } else {
        0i64
    }
}

fn flag(b: bool) -> (r: i64)
    ensures
        r == spec_flag(b),
{
    if b {
        1
    } else {
        0
    }
}

pub open spec fn abs_int(a: int) -> int {
    if a < 0 {
        -a
    } else {
        a
    }
}

/// Division rounding toward zero, as Rust's `/` on integers.
pub open spec fn trunc_div(a: int, b: int) -> int {
    let q = abs_int(a) / abs_int(b);
    if (a < 0) != (b < 0) {
        -q
    } else {
        q
    }
}

/// The remainder of `trunc_div`, with the sign of `a`, as Rust's `%`.
pub open spec fn trunc_rem(a: int, b: int) -> int {
    let m = abs_int(a) % abs_int(b);
    if a < 0 {
        -m
    } else {
        m
    }
}

/// The shift amount Rust uses for `<<` and `>>` on an `i64`: the low six bits.
pub open spec fn spec_shift(n: i64) -> u32 {
    (n & 63) as u32
}

/// The value of `left op right` for the operator numbered `op` in precedence
/// level `level`: logical operators give 0 or 1, arithmetic wraps around on
/// overflow, shifts use the low six bits of the count; `None` for division
/// or remainder by zero.
pub open spec fn spec_apply(level: u8, op: u8, left: i64, right: i64) -> Option<i64> {
    if level == 0 {
        Some(spec_flag(left != 0 || right != 0))
    } else if level == 1 {
        Some(spec_flag(left != 0 && right != 0))
    } else if level == 2 {
        Some(left | right)
    } else if level == 3 {
        Some(left ^ right)
    } else if level == 4 {
        Some(left & right)
    } else if level == 5 {
        if op == 0 {
            Some(spec_flag(left == right))
        } else {
            Some(spec_flag(left != right))
        }
    } else if level == 6 {
        if op == 0 {
            Some(spec_flag(left < right))
        } else if op == 1 {
            Some(spec_flag(left <= right))
        } else if op == 2 {
            Some(spec_flag(left > right))
        } else {
            Some(spec_flag(left >= right))
        }
    } else if level == 7 {
        if op == 0 {
            Some(left.wrapping_shl(spec_shift(right)))
        } else {
            Some(left.wrapping_shr(spec_shift(right)))
        }
    } else if level == 8 {
        if op == 0 {
            Some(left.wrapping_add(right))
        } else {
            Some(left.wrapping_sub(right))
        }
    } else {
        if op == 0 {
            Some(left.wrapping_mul(right))
        } else if right == 0 {
            None
        } else if left == i64::MIN && right == -1 {
            if op == 1 {
                Some(i64::MIN)
            } else {
                Some(0i64)
            }
        } else if op == 1 {
            Some(trunc_div(left as int, right as int) as i64)
        } else {
            Some(trunc_rem(left as int, right as int) as i64)
        }
    }
}

fn shift_amount(n: i64) -> (r: u32)
    ensures
        r == spec_shift(n),
        r < 64,
{
    let m = n & 63;
    assert(0 <= n & 63 <= 63) by (bit_vector);
    m as u32
}

/// The magnitude of `a`.
fn magnitude(a: i64) -> (r: u64)
    ensures
        r == abs_int(a as int),
{
    if a < 0 {
        if a == i64::MIN {
            9223372036854775808u64
        } else {
            (-a) as u64
        }
    } else {
        a as u64
    }
}

/// `a / b`, rounding toward zero.
fn div_toward_zero(a: i64, b: i64) -> (r: i64)
    requires
        b != 0,
        !(a == i64::MIN && b == -1),
    ensures
        r == trunc_div(a as int, b as int),
{
    let ua = magnitude(a);
    let ub = magnitude(b);
    let q = ua / ub;
    assert(q <= ua) by (nonlinear_arith)
        requires
            q == ua / ub,
            ub >= 1,
    ;
    if (a < 0) != (b < 0) {
        if q == 9223372036854775808u64 {
            i64::MIN
        } else {
            -(q as i64)
        }
    } else {
        assert(q < 9223372036854775808u64) by (nonlinear_arith)
            requires
                q == ua / ub,
                ub >= 1,
                ua <= 9223372036854775808u64,
                ua == 9223372036854775808u64 ==> ub >= 2,
        ;
        q as i64
    }
}

/// `a % b`, with the sign of `a`.
fn rem_toward_zero(a: i64, b: i64) -> (r: i64)
    requires
        b != 0,
    ensures
        r == trunc_rem(a as int, b as int),
{
    let ua = magnitude(a);
    let ub = magnitude(b);
    let m = ua % ub;
    if a < 0 {
        -(m as i64)
    } else {
        m as i64
    }
}

/// The value of `left op right` (see `spec_apply`); an error for division
/// by zero.
fn apply_binary(level: u8, op: u8, left: i64, right: i64) -> (r: Result<i64, String>)
    ensures
        match spec_apply(level, op, left, right) {
            Some(v) => r matches Ok(x) && x == v,
            None => r is Err,
        },
{
    if level == 0 {
        Ok(flag(left != 0 || right != 0))
    } else if level == 1 {
        Ok(flag(left != 0 && right != 0))
    } else if level == 2 {
        Ok(left | right)
    } else if level == 3 {
        Ok(left ^ right)
    } else if level == 4 {
        Ok(left & right)
    } else if level == 5 {
        if op == 0 {
            Ok(flag(left == right))
        } else {
            Ok(flag(left != right))
        }
    } else if level == 6 {
        if op == 0 {
            Ok(flag(left < right))
        } else if op == 1 {
            Ok(flag(left <= right))
        } else if op == 2 {
            Ok(flag(left > right))
        } else {
            Ok(flag(left >= right))
        }
    } else if level == 7 {
        if op == 0 {
            Ok(left.wrapping_shl(shift_amount(right)))
        } else {
            Ok(left.wrapping_shr(shift_amount(right)))
        }
    } else if level == 8 {
        if op == 0 {
            Ok(left.wrapping_add(right))
        } else {
            Ok(left.wrapping_sub(right))
        }
    } else {
        if op == 0 {
            Ok(left.wrapping_mul(right))
        } else if right == 0 {
            Err("division by zero".to_owned())
        } else if left == i64::MIN && right == -1 {
            if op == 1 {
                Ok(i64::MIN)
            } else {
                Ok(0)
            }
        } else if op == 1 {
            Ok(div_toward_zero(left, right))
        } else {
            Ok(rem_toward_zero(left, right))
        }
    }
}

/// The compound assignment that `t` is, as (level, op) of its operator;
/// (255, 0) for plain `=`; `None` for any other token.
pub open spec fn spec_assign_op(t: ATok) -> Option<(u8, u8)> {
    match t {
        ATok::Op(ArithToken::Assign) => Some((255u8, 0u8)),
        ATok::Op(ArithToken::AddAssign) => Some((8u8, 0u8)),
        ATok::Op(ArithToken::SubAssign) => Some((8u8, 1u8)),
        ATok::Op(ArithToken::MulAssign) => Some((9u8, 0u8)),
        ATok::Op(ArithToken::DivAssign) => Some((9u8, 1u8)),
        ATok::Op(ArithToken::ModAssign) => Some((9u8, 2u8)),
        ATok::Op(ArithToken::ShlAssign) => Some((7u8, 0u8)),
        ATok::Op(ArithToken::ShrAssign) => Some((7u8, 1u8)),
        ATok::Op(ArithToken::AndAssign) => Some((4u8, 0u8)),
        ATok::Op(ArithToken::OrAssign) => Some((2u8, 0u8)),
        ATok::Op(ArithToken::XorAssign) => Some((3u8, 0u8)),
        _ => None,
    }
}

fn assign_op(t: &ArithToken) -> (r: Option<(u8, u8)>)
    ensures
        r == spec_assign_op(tv(*t)),
{
    match t {
        ArithToken::Assign => Some((255, 0)),
        ArithToken::AddAssign => Some((8, 0)),
        ArithToken::SubAssign => Some((8, 1)),
        ArithToken::MulAssign => Some((9, 0)),
        ArithToken::DivAssign => Some((9, 1)),
        ArithToken::ModAssign => Some((9, 2)),
        ArithToken::ShlAssign => Some((7, 0)),
        ArithToken::ShrAssign => Some((7, 1)),
        ArithToken::AndAssign => Some((4, 0)),
        ArithToken::OrAssign => Some((2, 0)),
        ArithToken::XorAssign => Some((3, 0)),
        _ => None,
    }
}

/// The unary operator that `t` is: 1 `+`, 2 `-`, 3 `!`, 4 `~`; 0 otherwise.
pub open spec fn unary_kind(t: ATok) -> u8 {
    match t {
        ATok::Op(ArithToken::Plus) => 1u8,
        ATok::Op(ArithToken::Minus) => 2u8,
        ATok::Op(ArithToken::Not) => 3u8,
        ATok::Op(ArithToken::BitNot) => 4u8,
        _ => 0u8,
    }
}

/// A unary operator applied to `v`: negation wraps around.
pub open spec fn spec_unary(kind: u8, v: i64) -> i64 {
    if kind == 1 {
        v
    } else if kind == 2 {
        0i64.wrapping_sub(v)
    } else if kind == 3 {
        spec_flag(v == 0)
    } else {
        !v
    }
}

/// A short name of a token, for error messages: a number in decimal, a
/// name, a parenthesis, `:`, `?`, or the word `operator`.
pub open spec fn spec_token_text(t: ArithToken) -> Seq<char> {
    match t {
        ArithToken::Num(n) => crate::text::int_decimal(n as int),
        ArithToken::Var(s) => s@,
        ArithToken::LParen => "("@,
        ArithToken::RParen => ")"@,
        ArithToken::Colon => ":"@,
        ArithToken::Question => "?"@,
        _ => "operator"@,
    }
}

/// A short name of a token, for error messages.
fn token_text(t: &ArithToken) -> (r: String)
    ensures
        r@ == spec_token_text(*t),
{
    match t {
        ArithToken::Num(n) => int_to_string(*n),
        ArithToken::Var(s) => s.clone(),
        ArithToken::LParen => "(".to_owned(),
        ArithToken::RParen => ")".to_owned(),
        ArithToken::Colon => ":".to_owned(),
        ArithToken::Question => "?".to_owned(),
        _ => "operator".to_owned(),
    }
}

/// A variable's value as arithmetic reads it: its value read as a decimal
/// integer, 0 when unset or not a number.
pub open spec fn arith_var(vars: Variables, name: Seq<char>) -> i64 {
    match vars.value_of(name) {
        Some(s) => match spec_parse_i64(s) {
            Some(n) => n,
            None => 0,
        },
        None => 0,
    }
}

/// Every variable's value as arithmetic reads it.
pub open spec fn arith_env(vars: Variables) -> spec_fn(Seq<char>) -> i64 {
    |n: Seq<char>| arith_var(vars, n)
}

/// Which names are readonly.
pub open spec fn readonly_names(vars: Variables) -> spec_fn(Seq<char>) -> bool {
    |n: Seq<char>| vars.readonly(n)
}

/// The values after assigning `val` to `name`; a readonly name keeps its
/// value.
pub open spec fn env_set(
    env: spec_fn(Seq<char>) -> i64,
    ro: spec_fn(Seq<char>) -> bool,
    name: Seq<char>,
    val: i64,
) -> spec_fn(Seq<char>) -> i64 {
    if ro(name) {
        env
    } else {
        |n: Seq<char>| if n == name { val } else { env(n) }
    }
}

/// What evaluating from a position gives: the value, the position after the
/// expression, the steps left, and the variables' values afterwards.
pub type ArithOutcome = Option<(i64, int, nat, spec_fn(Seq<char>) -> i64)>;

/// expr := assignment (one step). When `live` is false the expression is
/// only parsed: nothing is assigned and no operator is applied, so no
/// division by zero is reported (the side not taken by `&&`, `||` and
/// `?:`).
pub open spec fn ev_expr(
    t: Seq<ATok>,
    pos: int,
    fuel: nat,
    env: spec_fn(Seq<char>) -> i64,
    ro: spec_fn(Seq<char>) -> bool,
    live: bool,
) -> ArithOutcome
    decreases fuel, 3nat,
{
    if fuel == 0 {
        None
    } else {
        ev_assignment(t, pos, (fuel - 1) as nat, env, ro, live)
    }
}

/// assignment := NAME op= assignment | ternary; the assigned value is the
/// result.
pub open spec fn ev_assignment(
    t: Seq<ATok>,
    pos: int,
    fuel: nat,
    env: spec_fn(Seq<char>) -> i64,
    ro: spec_fn(Seq<char>) -> bool,
    live: bool,
) -> ArithOutcome
    decreases fuel, 2nat,
{
    if 0 <= pos && pos + 1 < t.len() && t[pos] is Var && spec_assign_op(t[pos + 1]) is Some {
        let name = t[pos]->Var_0;
        let (level, op) = spec_assign_op(t[pos + 1]).unwrap();
        if fuel == 0 {
            None
        } else {
            match ev_assignment(t, pos + 2, (fuel - 1) as nat, env, ro, live) {
                Some((right, p1, f1, e1)) => if !live {
                    Some((right, p1, f1, e1))
                } else {
                    let val = if level == 255 {
                        Some(right)
                    } else {
                        spec_apply(level, op, e1(name), right)
                    };
                    match val {
                        Some(v) => Some((v, p1, f1, env_set(e1, ro, name, v))),
                        None => None,
                    }
                },
                None => None,
            }
        }
    } else {
        ev_ternary(t, pos, fuel, env, ro, live)
    }
}

/// `name = e` yields the value of `e` and stores it in `name`; `name op= e`
/// evaluates `e`, combines `name`'s value with it by the operator
/// (`+= -= *= &= |= ^= <<= >>=`; shifts by the low six bits), yields the
/// result and stores it in `name` (unless `name` is readonly).
pub proof fn law_compound_assignment(
    t: Seq<ATok>,
    pos: int,
    fuel: nat,
    env: spec_fn(Seq<char>) -> i64,
    ro: spec_fn(Seq<char>) -> bool,
    op: ArithToken,
)
    requires
        0 <= pos && pos + 1 < t.len(),
        t[pos] is Var,
        t[pos + 1] == ATok::Op(op),
        op is Assign || op is AddAssign || op is SubAssign || op is MulAssign || op is AndAssign || op is OrAssign
            || op is XorAssign || op is ShlAssign || op is ShrAssign,
        fuel > 0,
        ev_assignment(t, pos + 2, (fuel - 1) as nat, env, ro, true) is Some,
    ensures
        ({
            let (right, p1, f1, e1) = ev_assignment(t, pos + 2, (fuel - 1) as nat, env, ro, true).unwrap();
            let name = t[pos]->Var_0;
            let before = e1(name);
            let v = match op {
                ArithToken::Assign => right,
                ArithToken::AddAssign => before.wrapping_add(right),
                ArithToken::SubAssign => before.wrapping_sub(right),
                ArithToken::MulAssign => before.wrapping_mul(right),
                ArithToken::AndAssign => before & right,
                ArithToken::OrAssign => before | right,
                ArithToken::XorAssign => before ^ right,
                ArithToken::ShlAssign => before.wrapping_shl((right & 63) as u32),
                _ => before.wrapping_shr((right & 63) as u32),
            };
            ev_assignment(t, pos, fuel, env, ro, true) == Some((v, p1, f1, env_set(e1, ro, name, v)))
        }),
{
}

/// `name /= e` and `name %= e` divide `name`'s value by that of `e` (the
/// quotient or the remainder, stored in `name`), and fail when `e` is 0.
pub proof fn law_division_assignment(
    t: Seq<ATok>,
    pos: int,
    fuel: nat,
    env: spec_fn(Seq<char>) -> i64,
    ro: spec_fn(Seq<char>) -> bool,
    op: ArithToken,
)
    requires
        0 <= pos && pos + 1 < t.len(),
        t[pos] is Var,
        t[pos + 1] == ATok::Op(op),
        op is DivAssign || op is ModAssign,
        fuel > 0,
        ev_assignment(t, pos + 2, (fuel - 1) as nat, env, ro, true) is Some,
    ensures
        ({
            let (right, p1, f1, e1) = ev_assignment(t, pos + 2, (fuel - 1) as nat, env, ro, true).unwrap();
            let name = t[pos]->Var_0;
            let before = e1(name);
            let out = ev_assignment(t, pos, fuel, env, ro, true);
            &&& right == 0 ==> out is None
            &&& before >= 0 && right > 0 ==> out == Some(
                ({
                    let v = if op is DivAssign {
                        (before as int / right as int) as i64
                    } else {
                        (before as int % right as int) as i64
                    };
                    (v, p1, f1, env_set(e1, ro, name, v))
                }),
            )
        }),
{
}

/// ternary := binary(0) [ ? expr : expr ]; only the branch that the
/// condition picks takes effect.
pub open spec fn ev_ternary(
    t: Seq<ATok>,
    pos: int,
    fuel: nat,
    env: spec_fn(Seq<char>) -> i64,
    ro: spec_fn(Seq<char>) -> bool,
    live: bool,
) -> ArithOutcome
    decreases fuel, 1nat,
{
    if fuel == 0 {
        None
    } else {
        match ev_binary(t, pos, (fuel - 1) as nat, env, ro, 0, live) {
            Some((cond, p1, f1, e1)) => if 0 <= p1 < t.len() && t[p1] == ATok::Op(ArithToken::Question) {
                if f1 < fuel {
                    match ev_expr(t, p1 + 1, f1, e1, ro, live && cond != 0) {
                        Some((then_v, p2, f2, e2)) => if 0 <= p2 < t.len() && t[p2] == ATok::Op(
                            ArithToken::Colon,
                        ) && f2 < fuel {
                            match ev_expr(t, p2 + 1, f2, e2, ro, live && cond == 0) {
                                Some((else_v, p3, f3, e3)) => Some(
                                    (if cond != 0 { then_v } else { else_v }, p3, f3, e3),
                                ),
                                None => None,
                            }
                        } else {
                            None
                        },
                        None => None,
                    }
                } else {
                    None
                }
            } else {
                Some((cond, p1, f1, e1))
            },
            None => None,
        }
    }
}

/// binary(level) := binary(level + 1) { op(level) binary(level + 1) }.
pub open spec fn ev_binary(
    t: Seq<ATok>,
    pos: int,
    fuel: nat,
    env: spec_fn(Seq<char>) -> i64,
    ro: spec_fn(Seq<char>) -> bool,
    level: u8,
    live: bool,
) -> ArithOutcome
    decreases fuel, 0nat,
{
    if fuel == 0 {
        None
    } else if level >= 10 {
        ev_unary(t, pos, (fuel - 1) as nat, env, ro, live)
    } else {
        match ev_binary(t, pos, (fuel - 1) as nat, env, ro, (level + 1) as u8, live) {
            Some((left, p1, f1, e1)) => if f1 < fuel {
                ev_binary_rest(t, p1, f1, e1, ro, level, left, live)
            } else {
                None
            },
            None => None,
        }
    }
}

/// Whether the right operand of an operator of `level` takes effect: not
/// after a true left operand of `||`, nor after a false one of `&&`.
pub open spec fn right_live(level: u8, left: i64, live: bool) -> bool {
    if level == 0 {
        live && left == 0
    } else if level == 1 {
        live && left != 0
    } else {
        live
    }
}

/// The operators of `level` that follow a left operand `left`.
pub open spec fn ev_binary_rest(
    t: Seq<ATok>,
    pos: int,
    fuel: nat,
    env: spec_fn(Seq<char>) -> i64,
    ro: spec_fn(Seq<char>) -> bool,
    level: u8,
    left: i64,
    live: bool,
) -> ArithOutcome
    decreases fuel, 0nat,
{
    if !(0 <= pos < t.len()) || spec_binary_op(t[pos], level) is None {
        Some((left, pos, fuel, env))
    } else if fuel == 0 {
        None
    } else {
        let op = spec_binary_op(t[pos], level).unwrap();
        match ev_binary(t, pos + 1, (fuel - 1) as nat, env, ro, (level + 1) as u8, right_live(level, left, live)) {
            Some((right, p2, f2, e2)) => match (if live {
                spec_apply(level, op, left, right)
            } else {
                Some(left)
            }) {
                Some(v) => if f2 < fuel {
                    ev_binary_rest(t, p2, f2, e2, ro, level, v, live)
                } else {
                    None
                },
                None => None,
            },
            None => None,
        }
    }
}

/// The precedence level of a binary operator, from `||` (0) to `* / %` (9).
pub open spec fn precedence(op: ArithToken) -> Option<u8> {
    match op {
        ArithToken::Or => Some(0u8),
        ArithToken::And => Some(1u8),
        ArithToken::BitOr => Some(2u8),
        ArithToken::BitXor => Some(3u8),
        ArithToken::BitAnd => Some(4u8),
        ArithToken::Eq | ArithToken::Ne => Some(5u8),
        ArithToken::Lt | ArithToken::Le | ArithToken::Gt | ArithToken::Ge => Some(6u8),
        ArithToken::Shl | ArithToken::Shr => Some(7u8),
        ArithToken::Plus | ArithToken::Minus => Some(8u8),
        ArithToken::Star | ArithToken::Slash | ArithToken::Percent => Some(9u8),
        _ => None,
    }
}

/// `left op right` for a binary operator `op` at its precedence level: the
/// right operand is evaluated (with effect unless `||` or `&&` cut it
/// short), and the value combined is what the operator means on integers:
/// comparisons and logic give 1 or 0, `+ - *` wrap around, shifts take the
/// low six bits of the count, and division or remainder by zero fails.
pub proof fn law_binary_operator(
    t: Seq<ATok>,
    pos: int,
    fuel: nat,
    env: spec_fn(Seq<char>) -> i64,
    ro: spec_fn(Seq<char>) -> bool,
    op: ArithToken,
    left: i64,
)
    requires
        0 <= pos < t.len(),
        t[pos] == ATok::Op(op),
        precedence(op) is Some,
        fuel > 0,
    ensures
        ({
            let level = precedence(op).unwrap();
            let rl = if op is Or {
                left == 0
            } else if op is And {
                left != 0
            } else {
                true
            };
            let out = ev_binary_rest(t, pos, fuel, env, ro, level, left, true);
            match ev_binary(t, pos + 1, (fuel - 1) as nat, env, ro, (level + 1) as u8, rl) {
                None => out is None,
                Some((right, p2, f2, e2)) => {
                    let next = |v: i64|
                        if f2 < fuel {
                            ev_binary_rest(t, p2, f2, e2, ro, level, v, true)
                        } else {
                            None
                        };
                    &&& op is Or ==> out == next(if left != 0 || right != 0 { 1i64 } else { 0i64 })
                    &&& op is And ==> out == next(if left != 0 && right != 0 { 1i64 } else { 0i64 })
                    &&& op is BitOr ==> out == next(left | right)
                    &&& op is BitXor ==> out == next(left ^ right)
                    &&& op is BitAnd ==> out == next(left & right)
                    &&& op is Eq ==> out == next(if left == right { 1i64 } else { 0i64 })
                    &&& op is Ne ==> out == next(if left != right { 1i64 } else { 0i64 })
                    &&& op is Lt ==> out == next(if left < right { 1i64 } else { 0i64 })
                    &&& op is Le ==> out == next(if left <= right { 1i64 } else { 0i64 })
                    &&& op is Gt ==> out == next(if left > right { 1i64 } else { 0i64 })
                    &&& op is Ge ==> out == next(if left >= right { 1i64 } else { 0i64 })
                    &&& op is Shl ==> out == next(left.wrapping_shl((right & 63) as u32))
                    &&& op is Shr ==> out == next(left.wrapping_shr((right & 63) as u32))
                    &&& op is Plus ==> out == next(left.wrapping_add(right))
                    &&& op is Minus ==> out == next(left.wrapping_sub(right))
                    &&& op is Star ==> out == next(left.wrapping_mul(right))
                    &&& (op is Slash || op is Percent) && right == 0 ==> out is None
                    &&& op is Slash && left >= 0 && right > 0 ==> out == next((left as int / right as int) as i64)
                    &&& op is Percent && left >= 0 && right > 0 ==> out == next((left as int % right as int) as i64)
                },
            }
        }),
{
}

/// unary := + unary | - unary | ! unary | ~ unary | primary
pub open spec fn ev_unary(
    t: Seq<ATok>,
    pos: int,
    fuel: nat,
    env: spec_fn(Seq<char>) -> i64,
    ro: spec_fn(Seq<char>) -> bool,
    live: bool,
) -> ArithOutcome
    decreases fuel, 0nat,
{
    if fuel == 0 {
        None
    } else if 0 <= pos < t.len() && unary_kind(t[pos]) != 0 {
        match ev_unary(t, pos + 1, (fuel - 1) as nat, env, ro, live) {
            Some((v, p1, f1, e1)) => Some((spec_unary(unary_kind(t[pos]), v), p1, f1, e1)),
            None => None,
        }
    } else {
        ev_primary(t, pos, (fuel - 1) as nat, env, ro, live)
    }
}

/// A unary operator applies to the value of the operand after it: `-`
/// negates (wrapping around), `+` keeps it, `!` gives 1 for 0 and 0
/// otherwise, `~` flips every bit.
pub proof fn law_unary_operator(
    t: Seq<ATok>,
    pos: int,
    fuel: nat,
    env: spec_fn(Seq<char>) -> i64,
    ro: spec_fn(Seq<char>) -> bool,
    live: bool,
    op: ArithToken,
)
    requires
        0 <= pos < t.len(),
        t[pos] == ATok::Op(op),
        op is Minus || op is Plus || op is Not || op is BitNot,
        fuel > 0,
    ensures
        match ev_unary(t, pos + 1, (fuel - 1) as nat, env, ro, live) {
            None => ev_unary(t, pos, fuel, env, ro, live) is None,
            Some((v, p1, f1, e1)) => ev_unary(t, pos, fuel, env, ro, live) == Some(
                (
                    if op is Minus {
                        0i64.wrapping_sub(v)
                    } else if op is Plus {
                        v
                    } else if op is Not {
                        if v == 0 {
                            1i64
                        } else {
                            0i64
                        }
                    } else {
                        !v
                    },
                    p1,
                    f1,
                    e1,
                ),
            ),
        },
{
}

/// primary := NUMBER | NAME | ( expr )
pub open spec fn ev_primary(
    t: Seq<ATok>,
    pos: int,
    fuel: nat,
    env: spec_fn(Seq<char>) -> i64,
    ro: spec_fn(Seq<char>) -> bool,
    live: bool,
) -> ArithOutcome
    decreases fuel, 0nat,
{
    if fuel == 0 || !(0 <= pos < t.len()) {
        None
    } else {
        match t[pos] {
            ATok::Num(n) => Some((n, pos + 1, (fuel - 1) as nat, env)),
            ATok::Var(name) => Some((env(name), pos + 1, (fuel - 1) as nat, env)),
            ATok::Op(ArithToken::LParen) => match ev_expr(t, pos + 1, (fuel - 1) as nat, env, ro, live) {
                Some((v, p1, f1, e1)) => if 0 <= p1 < t.len() && t[p1] == ATok::Op(ArithToken::RParen) {
                    Some((v, p1 + 1, f1, e1))
                } else {
                    None
                },
                None => None,
            },
            _ => None,
        }
    }
}

/// The outcome, if any, leaves the variables' values `env` as they were.
pub open spec fn no_effect(o: ArithOutcome, env: spec_fn(Seq<char>) -> i64) -> bool {
    o matches Some((_, _, _, e)) ==> e == env
}

/// An expression evaluated without effect (the side of `&&`, `||` or `?:`
/// not taken) assigns nothing.
pub proof fn law_parse_only_expr(
    t: Seq<ATok>,
    pos: int,
    fuel: nat,
    env: spec_fn(Seq<char>) -> i64,
    ro: spec_fn(Seq<char>) -> bool,
)
    ensures
        no_effect(ev_expr(t, pos, fuel, env, ro, false), env),
    decreases fuel, 3nat,
{
    if fuel > 0 {
        lemma_parse_only_assignment(t, pos, (fuel - 1) as nat, env, ro);
    }
}

proof fn lemma_parse_only_assignment(
    t: Seq<ATok>,
    pos: int,
    fuel: nat,
    env: spec_fn(Seq<char>) -> i64,
    ro: spec_fn(Seq<char>) -> bool,
)
    ensures
        no_effect(ev_assignment(t, pos, fuel, env, ro, false), env),
    decreases fuel, 2nat,
{
    if 0 <= pos && pos + 1 < t.len() && t[pos] is Var && spec_assign_op(t[pos + 1]) is Some {
        if fuel > 0 {
            lemma_parse_only_assignment(t, pos + 2, (fuel - 1) as nat, env, ro);
        }
    } else {
        lemma_parse_only_ternary(t, pos, fuel, env, ro);
    }
}

proof fn lemma_parse_only_ternary(
    t: Seq<ATok>,
    pos: int,
    fuel: nat,
    env: spec_fn(Seq<char>) -> i64,
    ro: spec_fn(Seq<char>) -> bool,
)
    ensures
        no_effect(ev_ternary(t, pos, fuel, env, ro, false), env),
    decreases fuel, 1nat,
{
    if fuel > 0 {
        lemma_parse_only_binary(t, pos, (fuel - 1) as nat, env, ro, 0);
        if let Some((cond, p1, f1, e1)) = ev_binary(t, pos, (fuel - 1) as nat, env, ro, 0, false) {
            if f1 < fuel {
                law_parse_only_expr(t, p1 + 1, f1, e1, ro);
                if let Some((then_v, p2, f2, e2)) = ev_expr(t, p1 + 1, f1, e1, ro, false) {
                    if f2 < fuel {
                        law_parse_only_expr(t, p2 + 1, f2, e2, ro);
                    }
                }
            }
        }
    }
}

proof fn lemma_parse_only_binary(
    t: Seq<ATok>,
    pos: int,
    fuel: nat,
    env: spec_fn(Seq<char>) -> i64,
    ro: spec_fn(Seq<char>) -> bool,
    level: u8,
)
    ensures
        no_effect(ev_binary(t, pos, fuel, env, ro, level, false), env),
    decreases fuel, 0nat,
{
    if fuel > 0 {
        if level >= 10 {
            lemma_parse_only_unary(t, pos, (fuel - 1) as nat, env, ro);
        } else {
            lemma_parse_only_binary(t, pos, (fuel - 1) as nat, env, ro, (level + 1) as u8);
            if let Some((left, p1, f1, e1)) = ev_binary(t, pos, (fuel - 1) as nat, env, ro, (level + 1) as u8, false) {
                if f1 < fuel {
                    lemma_parse_only_rest(t, p1, f1, e1, ro, level, left);
                }
            }
        }
    }
}

proof fn lemma_parse_only_rest(
    t: Seq<ATok>,
    pos: int,
    fuel: nat,
    env: spec_fn(Seq<char>) -> i64,
    ro: spec_fn(Seq<char>) -> bool,
    level: u8,
    left: i64,
)
    ensures
        no_effect(ev_binary_rest(t, pos, fuel, env, ro, level, left, false), env),
    decreases fuel, 0nat,
{
    if 0 <= pos < t.len() && spec_binary_op(t[pos], level) is Some && fuel > 0 {
        lemma_parse_only_binary(t, pos + 1, (fuel - 1) as nat, env, ro, (level + 1) as u8);
        if let Some((right, p2, f2, e2)) = ev_binary(t, pos + 1, (fuel - 1) as nat, env, ro, (level + 1) as u8, false) {
            if f2 < fuel {
                lemma_parse_only_rest(t, p2, f2, e2, ro, level, left);
            }
        }
    }
}

proof fn lemma_parse_only_unary(
    t: Seq<ATok>,
    pos: int,
    fuel: nat,
    env: spec_fn(Seq<char>) -> i64,
    ro: spec_fn(Seq<char>) -> bool,
)
    ensures
        no_effect(ev_unary(t, pos, fuel, env, ro, false), env),
    decreases fuel, 0nat,
{
    if fuel > 0 {
        if 0 <= pos < t.len() && unary_kind(t[pos]) != 0 {
            lemma_parse_only_unary(t, pos + 1, (fuel - 1) as nat, env, ro);
        } else {
            lemma_parse_only_primary(t, pos, (fuel - 1) as nat, env, ro);
        }
    }
}

proof fn lemma_parse_only_primary(
    t: Seq<ATok>,
    pos: int,
    fuel: nat,
    env: spec_fn(Seq<char>) -> i64,
    ro: spec_fn(Seq<char>) -> bool,
)
    ensures
        no_effect(ev_primary(t, pos, fuel, env, ro, false), env),
    decreases fuel, 0nat,
{
    if fuel > 0 && 0 <= pos < t.len() && t[pos] == ATok::Op(ArithToken::LParen) {
        law_parse_only_expr(t, pos + 1, (fuel - 1) as nat, env, ro);
    }
}

/// The steps an evaluation may take.
pub const ARITH_FUEL: u64 = 1_000_000;

/// The value of an arithmetic expression over `vars`, and the variables'
/// values afterwards: the whole token sequence must be one expression.
pub open spec fn spec_eval_arith(expr: Seq<char>, vars: Variables) -> Option<(i64, spec_fn(Seq<char>) -> i64)> {
    match spec_tokenize(expr, 0) {
        Some(t) => match ev_expr(t, 0, ARITH_FUEL as nat, arith_env(vars), readonly_names(vars), true) {
            Some((v, p, f, e)) => if p == t.len() {
                Some((v, e))
            } else {
                None
            },
            None => None,
        },
        None => None,
    }
}

/// True if every name token is a variable name.
pub open spec fn names_are_idents(t: Seq<ATok>) -> bool {
    forall|k: int| 0 <= k < t.len() ==> (#[trigger] t[k] matches ATok::Var(n) ==> is_ident(n))
}

/// The recursive-descent evaluator over a token list.
pub struct ArithParser {
    pub tokens: Vec<ArithToken>,
    pub pos: usize,
    pub exit_status: ExitStatus,
    pub shell_pid: u32,
    /// Steps left before evaluation gives up.
    pub fuel: u64,
}

/// What an evaluation step promises of the parser and the variables: the
/// outcome `o` of its specification, with the readonly names unchanged.
pub open spec fn arith_step(
    o: ArithOutcome,
    r: Result<i64, String>,
    p: ArithParser,
    vars_before: Variables,
    vars_after: Variables,
) -> bool {
    &&& forall|n: Seq<char>| #[trigger] vars_after.readonly(n) == vars_before.readonly(n)
    &&& match o {
        Some((v, pos, fuel, env)) => {
            &&& r matches Ok(x) && x == v
            &&& p.pos == pos
            &&& p.fuel == fuel
            &&& arith_env(vars_after) == env
        },
        None => r is Err,
    }
}

impl ArithParser {
    /// The parser invariant: the position is within the tokens, and every
    /// name token is a variable name.
    pub open spec fn wf(&self) -> bool {
        &&& self.pos <= self.tokens@.len()
        &&& names_are_idents(self.toks())
    }

    /// The token values.
    pub open spec fn toks(&self) -> Seq<ATok> {
        toks_view(self.tokens@)
    }

    /// What evaluation keeps: the tokens, the position's bound, less fuel.
    pub open spec fn keeps(&self, old: &ArithParser) -> bool {
        &&& self.wf()
        &&& self.tokens@ == old.tokens@
        &&& self.fuel <= old.fuel
    }

    fn tick(&mut self) -> (r: Result<(), String>)
        requires
            old(self).wf(),
        ensures
            final(self).tokens@ == old(self).tokens@,
            final(self).pos == old(self).pos,
            r is Ok <==> old(self).fuel > 0,
            r is Ok ==> final(self).fuel == old(self).fuel - 1,
            r is Err ==> final(self).fuel == old(self).fuel,
    {
        if self.fuel == 0 {
            return Err("expression too complex".to_owned());
        }
        self.fuel = self.fuel - 1;
        Ok(())
    }

    /// The value of a variable as arithmetic reads it.
    fn get_var(&self, vars: &Variables, name: &str) -> (r: i64)
        requires
            is_ident(name@),
        ensures
            r == arith_var(*vars, name@),
    {
        let v = vars.get_special(name, self.exit_status, self.shell_pid, "", None);
        proof {
            let n = name@;
            assert(n[0] != '?' && n[0] != '$' && n[0] != '#' && n[0] != '0' && n[0] != '-' && n[0] != '!'
                && n[0] != '@' && n[0] != '*');
            assert(n != seq!['?'] && n != seq!['$'] && n != seq!['#'] && n != seq!['0'] && n != seq!['-']
                && n != seq!['!'] && n != seq!['@'] && n != seq!['*']);
            assert(!crate::text::is_digit(n[0]));
            assert(!crate::text::all_digits(n));
        }
        match v {
            Some(s) => match parse_i64(s.as_str()) {
                Some(n) => n,
                None => 0,
            },
            None => 0,
        }
    }

    /// Assign a variable in decimal; a readonly variable keeps its value.
    fn set_var(&self, vars: &mut Variables, name: &str, value: i64)
        requires
            old(vars).wf(),
        ensures
            final(vars).wf(),
            forall|n: Seq<char>| #[trigger] final(vars).readonly(n) == old(vars).readonly(n),
            arith_env(*final(vars)) == env_set(
                arith_env(*old(vars)),
                readonly_names(*old(vars)),
                name@,
                value,
            ),
    {
        let ghost before = *vars;
        let _ = vars.set_string(name, int_to_string(value));
        proof {
            crate::text::lemma_parse_int_decimal(value);
            assert forall|n: Seq<char>| #[trigger] vars.readonly(n) == before.readonly(n) by {
                if n != name@ {
                    assert(vars.lookup(n) == before.lookup(n));
                }
            }
            if !before.readonly(name@) {
                assert forall|n: Seq<char>| #[trigger] arith_var(*vars, n) == (if n == name@ {
                    value
                } else {
                    arith_var(before, n)
                }) by {
                    if n != name@ {
                        assert(vars.lookup(n) == before.lookup(n));
                    }
                }
            }
            assert(arith_env(*vars) =~= env_set(arith_env(before), readonly_names(before), name@, value));
        }
    }
}

/// Readonly status, unchanged, gives the same readonly names.
proof fn lemma_same_readonly(a: Variables, b: Variables)
    requires
        forall|n: Seq<char>| #[trigger] a.readonly(n) == b.readonly(n),
    ensures
        readonly_names(a) == readonly_names(b),
{
    assert(readonly_names(a) =~= readonly_names(b));
}

impl ArithParser {
    fn at_question(&self) -> (r: bool)
        ensures
            r <==> (self.pos < self.tokens@.len() && self.toks()[self.pos as int] == ATok::Op(
                ArithToken::Question,
            )),
            self.tokens@.len() <= usize::MAX,
    {
        if self.pos < self.tokens.len() {
            proof {
                assert(self.toks()[self.pos as int] == tv(self.tokens@[self.pos as int]));
            }
            match &self.tokens[self.pos] {
                ArithToken::Question => true,
                _ => false,
            }
        } else {
            let _ = self.tokens.len();
            false
        }
    }

    fn at_colon(&self) -> (r: bool)
        ensures
            r <==> (self.pos < self.tokens@.len() && self.toks()[self.pos as int] == ATok::Op(
                ArithToken::Colon,
            )),
            self.tokens@.len() <= usize::MAX,
    {
        if self.pos < self.tokens.len() {
            proof {
                assert(self.toks()[self.pos as int] == tv(self.tokens@[self.pos as int]));
            }
            match &self.tokens[self.pos] {
                ArithToken::Colon => true,
                _ => false,
            }
        } else {
            let _ = self.tokens.len();
            false
        }
    }

    fn at_rparen(&self) -> (r: bool)
        ensures
            r <==> (self.pos < self.tokens@.len() && self.toks()[self.pos as int] == ATok::Op(
                ArithToken::RParen,
            )),
            self.tokens@.len() <= usize::MAX,
    {
        if self.pos < self.tokens.len() {
            proof {
                assert(self.toks()[self.pos as int] == tv(self.tokens@[self.pos as int]));
            }
            match &self.tokens[self.pos] {
                ArithToken::RParen => true,
                _ => false,
            }
        } else {
            let _ = self.tokens.len();
            false
        }
    }

    /// An error naming the token at the position, or the end.
    fn unexpected(&self, prefix: &str) -> (r: String)
        ensures
            r@ == prefix@ + (if self.pos < self.tokens@.len() {
                spec_token_text(self.tokens@[self.pos as int])
            } else {
                "end of expression"@
            }),
    {
        let mut m = prefix.to_owned();
        if self.pos < self.tokens.len() {
            m.append(token_text(&self.tokens[self.pos]).as_str());
        } else {
            m.append("end of expression");
        }
        m
    }

    /// expr := assignment
    pub fn parse_expr(&mut self, vars: &mut Variables, live: bool) -> (r: Result<i64, String>)
        requires
            old(self).wf(),
            old(vars).wf(),
        ensures
            final(self).keeps(&*old(self)),
            final(vars).wf(),
            arith_step(
                ev_expr(
                    old(self).toks(),
                    old(self).pos as int,
                    old(self).fuel as nat,
                    arith_env(*old(vars)),
                    readonly_names(*old(vars)),
                    live,
                ),
                r,
                *final(self),
                *old(vars),
                *final(vars),
            ),
        decreases old(self).fuel, 3nat,
    {
        self.tick()?;
        self.parse_assignment(vars, live)
    }

    /// assignment := NAME op= assignment | ternary
    fn parse_assignment(&mut self, vars: &mut Variables, live: bool) -> (r: Result<i64, String>)
        requires
            old(self).wf(),
            old(vars).wf(),
        ensures
            final(self).keeps(&*old(self)),
            final(vars).wf(),
            arith_step(
                ev_assignment(
                    old(self).toks(),
                    old(self).pos as int,
                    old(self).fuel as nat,
                    arith_env(*old(vars)),
                    readonly_names(*old(vars)),
                    live,
                ),
                r,
                *final(self),
                *old(vars),
                *final(vars),
            ),
        decreases old(self).fuel, 2nat,
    {
        let ghost t = self.toks();
        let ghost v0 = *vars;
        if self.tokens.len() - self.pos > 1 {
            proof {
                assert(t[self.pos as int] == tv(self.tokens@[self.pos as int]));
                assert(t[self.pos + 1] == tv(self.tokens@[self.pos + 1]));
            }
            let name_opt = match &self.tokens[self.pos] {
                ArithToken::Var(n) => Some(n.clone()),
                _ => None,
            };
            if let Some(name) = name_opt {
                if let Some((level, op)) = assign_op(&self.tokens[self.pos + 1]) {
                    proof {
                        assert(t[self.pos as int] matches ATok::Var(n) && n == name@);
                        assert(is_ident(name@));
                    }
                    self.tick()?;
                    self.pos = self.pos + 2;
                    let right = self.parse_assignment(vars, live)?;
                    let ghost v1 = *vars;
                    proof {
                        lemma_same_readonly(v1, v0);
                    }
                    if !live {
                        return Ok(right);
                    }
                    let val = if level == 255 {
                        right
                    } else {
                        let cur = self.get_var(vars, name.as_str());
                        apply_binary(level, op, cur, right)?
                    };
                    self.set_var(vars, name.as_str(), val);
                    proof {
                        assert forall|n: Seq<char>| #[trigger] vars.readonly(n) == v0.readonly(n) by {
                            assert(vars.readonly(n) == v1.readonly(n));
                        }
                    }
                    return Ok(val);
                }
            }
        }
        self.parse_ternary(vars, live)
    }

    /// ternary := binary(0) [ ? expr : expr ]
    fn parse_ternary(&mut self, vars: &mut Variables, live: bool) -> (r: Result<i64, String>)
        requires
            old(self).wf(),
            old(vars).wf(),
        ensures
            final(self).keeps(&*old(self)),
            final(vars).wf(),
            arith_step(
                ev_ternary(
                    old(self).toks(),
                    old(self).pos as int,
                    old(self).fuel as nat,
                    arith_env(*old(vars)),
                    readonly_names(*old(vars)),
                    live,
                ),
                r,
                *final(self),
                *old(vars),
                *final(vars),
            ),
        decreases old(self).fuel, 1nat,
    {
        let ghost v0 = *vars;
        self.tick()?;
        let cond = self.parse_binary(vars, 0, live)?;
        let ghost v1 = *vars;
        if self.at_question() {
            self.pos = self.pos + 1;
            proof {
                lemma_same_readonly(v1, v0);
            }
            let then_val = self.parse_expr(vars, live && cond != 0)?;
            let ghost v2 = *vars;
            proof {
                lemma_same_readonly(v2, v1);
            }
            if !self.at_colon() {
                return Err(self.unexpected("expected :, got "));
            }
            self.pos = self.pos + 1;
            let else_val = self.parse_expr(vars, live && cond == 0)?;
            proof {
                assert forall|n: Seq<char>| #[trigger] vars.readonly(n) == v0.readonly(n) by {
                    assert(vars.readonly(n) == v2.readonly(n));
                    assert(v2.readonly(n) == v1.readonly(n));
                }
            }
            Ok(
                if cond != 0 {
                    then_val
                } else {
                    else_val
                },
            )
        } else {
            Ok(cond)
        }
    }

    /// binary(level) := binary(level + 1) { op(level) binary(level + 1) },
    /// and binary(10) := unary.
    fn parse_binary(&mut self, vars: &mut Variables, level: u8, live: bool) -> (r: Result<i64, String>)
        requires
            old(self).wf(),
            old(vars).wf(),
            level <= 10,
        ensures
            final(self).keeps(&*old(self)),
            final(vars).wf(),
            arith_step(
                ev_binary(
                    old(self).toks(),
                    old(self).pos as int,
                    old(self).fuel as nat,
                    arith_env(*old(vars)),
                    readonly_names(*old(vars)),
                    level,
                    live,
                ),
                r,
                *final(self),
                *old(vars),
                *final(vars),
            ),
        decreases old(self).fuel, 0nat,
    {
        let ghost v0 = *vars;
        let ghost t = self.toks();
        let ghost ro = readonly_names(*vars);
        self.tick()?;
        if level == 10 {
            return self.parse_unary(vars, live);
        }
        let mut left = self.parse_binary(vars, level + 1, live)?;
        proof {
            lemma_same_readonly(*vars, v0);
        }
        loop
            invariant
                self.wf(),
                self.tokens@ == old(self).tokens@,
                t == self.toks(),
                self.fuel < old(self).fuel,
                vars.wf(),
                level < 10,
                ro == readonly_names(v0),
                v0 == *old(vars),
                forall|n: Seq<char>| #[trigger] vars.readonly(n) == v0.readonly(n),
                ev_binary(t, old(self).pos as int, old(self).fuel as nat, arith_env(v0), ro, level, live)
                    == ev_binary_rest(t, self.pos as int, self.fuel as nat, arith_env(*vars), ro, level, left, live),
            decreases self.fuel,
        {
            if self.pos >= self.tokens.len() {
                return Ok(left);
            }
            proof {
                assert(t[self.pos as int] == tv(self.tokens@[self.pos as int]));
            }
            let op = match binary_op(&self.tokens[self.pos], level) {
                Some(o) => o,
                None => {
                    return Ok(left);
                },
            };
            let ghost vi = *vars;
            self.tick()?;
            self.pos = self.pos + 1;
            proof {
                lemma_same_readonly(vi, v0);
            }
            let rlive = if level == 0 {
                live && left == 0
            } else if level == 1 {
                live && left != 0
            } else {
                live
            };
            let right = self.parse_binary(vars, level + 1, rlive)?;
            proof {
                assert forall|n: Seq<char>| #[trigger] vars.readonly(n) == v0.readonly(n) by {
                    assert(vars.readonly(n) == vi.readonly(n));
                }
            }
            if live {
                left = apply_binary(level, op, left, right)?;
            }
        }
    }

    /// unary := + unary | - unary | ! unary | ~ unary | primary
    fn parse_unary(&mut self, vars: &mut Variables, live: bool) -> (r: Result<i64, String>)
        requires
            old(self).wf(),
            old(vars).wf(),
        ensures
            final(self).keeps(&*old(self)),
            final(vars).wf(),
            arith_step(
                ev_unary(
                    old(self).toks(),
                    old(self).pos as int,
                    old(self).fuel as nat,
                    arith_env(*old(vars)),
                    readonly_names(*old(vars)),
                    live,
                ),
                r,
                *final(self),
                *old(vars),
                *final(vars),
            ),
        decreases old(self).fuel, 0nat,
    {
        let ghost t = self.toks();
        self.tick()?;
        if self.pos < self.tokens.len() {
            proof {
                assert(t[self.pos as int] == tv(self.tokens@[self.pos as int]));
            }
            let kind: u8 = match &self.tokens[self.pos] {
                ArithToken::Plus => 1,
                ArithToken::Minus => 2,
                ArithToken::Not => 3,
                ArithToken::BitNot => 4,
                _ => 0,
            };
            if kind != 0 {
                self.pos = self.pos + 1;
                let v = self.parse_unary(vars, live)?;
                return Ok(
                    if kind == 1 {
                        v
                    } else if kind == 2 {
                        0i64.wrapping_sub(v)
                    } else if kind == 3 {
                        flag(v == 0)
                    } else {
                        !v
                    },
                );
            }
        }
        self.parse_primary(vars, live)
    }

    /// primary := NUMBER | NAME | ( expr )
    fn parse_primary(&mut self, vars: &mut Variables, live: bool) -> (r: Result<i64, String>)
        requires
            old(self).wf(),
            old(vars).wf(),
        ensures
            final(self).keeps(&*old(self)),
            final(vars).wf(),
            arith_step(
                ev_primary(
                    old(self).toks(),
                    old(self).pos as int,
                    old(self).fuel as nat,
                    arith_env(*old(vars)),
                    readonly_names(*old(vars)),
                    live,
                ),
                r,
                *final(self),
                *old(vars),
                *final(vars),
            ),
        decreases old(self).fuel, 0nat,
    {
        let ghost t = self.toks();
        self.tick()?;
        if self.pos >= self.tokens.len() {
            return Err("unexpected end of expression".to_owned());
        }
        let p = self.pos;
        proof {
            assert(t[p as int] == tv(self.tokens@[p as int]));
        }
        self.pos = self.pos + 1;
        match &self.tokens[p] {
            ArithToken::Num(n) => Ok(*n),
            ArithToken::Var(name) => {
                proof {
                    assert(t[p as int] matches ATok::Var(n) ==> is_ident(n));
                }
                let v = self.get_var(vars, name.as_str());
                Ok(v)
            },
            ArithToken::LParen => {
                let v = self.parse_expr(vars, live)?;
                if self.at_rparen() {
                    self.pos = self.pos + 1;
                    return Ok(v);
                }
                Err(self.unexpected("expected ), got "))
            },
            _ => {
                let mut m = "unexpected token: ".to_owned();
                m.append(token_text(&self.tokens[p]).as_str());
                Err(m)
            },
        }
    }
}

/// Evaluate an arithmetic expression (see `spec_eval_arith`). Variables are
/// read as integers (0 when unset or not numeric) and assigned in decimal.
pub fn eval_arith(expr: &str, vars: &mut Variables, exit_status: ExitStatus, shell_pid: u32) -> (r:
    Result<i64, String>)
    requires
        old(vars).wf(),
    ensures
        final(vars).wf(),
        match spec_eval_arith(expr@, *old(vars)) {
            Some((v, env)) => r matches Ok(x) && x == v && arith_env(*final(vars)) == env,
            None => r is Err,
        },
{
    let tokens = tokenize(expr)?;
    let mut parser = ArithParser { tokens, pos: 0, exit_status, shell_pid, fuel: ARITH_FUEL };
    let result = parser.parse_expr(vars, true)?;
    if parser.pos < parser.tokens.len() {
        return Err(parser.unexpected("unexpected token: "));
    }
    Ok(result)
}

} // verus!
