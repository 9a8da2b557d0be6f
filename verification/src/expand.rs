//! Word expansion: tilde, parameter, command substitution and arithmetic
//! expansion, field splitting, pathname expansion and quote removal.
//!
//! Expansion works on text in "pattern form": a backslash escapes the next
//! character. Quoted text has its backslashes and glob characters escaped,
//! so that field splitting, pathname expansion and pattern matching treat
//! it literally; quote removal drops the escapes at the end.

use vstd::prelude::*;

use crate::ast::{ParamExpr, ParamOp, Word, WordPart};
use crate::error::{ExitStatus, ShellError, Span};
use crate::eval::Shell;
use crate::glob::{has_glob_chars, spec_fnmatch};
use crate::text::{chars_of, int_to_string, push_char, str_eq, string_of, usize_to_string};
use crate::var::Variables;

verus! {

/// An expanded word fragment with metadata for field splitting.
#[derive(Debug)]
pub struct ExpandedWord {
    /// The text, in pattern form.
    pub value: String,
    /// True if this fragment came from an unquoted expansion ($var, $(cmd))
    /// and is subject to field splitting.
    pub split_fields: bool,
    /// True if this fragment starts a new field (for "$@" expansion).
    pub word_break: bool,
}

/// True if `c` is a glob character or a backslash.
pub open spec fn is_pattern_special(c: char) -> bool {
    c == '\\' || c == '*' || c == '?' || c == '['
}

/// Quoted text in pattern form: every backslash and glob character escaped.
pub open spec fn spec_escape_all(s: Seq<char>) -> Seq<char>
    decreases s.len(),
{
    if s.len() == 0 {
        Seq::empty()
    } else {
        let rest = spec_escape_all(s.drop_last());
        if is_pattern_special(s.last()) {
            rest + seq!['\\', s.last()]
        } else {
            rest.push(s.last())
        }
    }
}

/// Quote removal: each backslash is dropped and the character after it kept.
pub open spec fn spec_remove_escapes(s: Seq<char>) -> Seq<char>
    decreases s.len(),
{
    if s.len() == 0 {
        Seq::empty()
    } else if s[0] == '\\' && s.len() >= 2 {
        seq![s[1]] + spec_remove_escapes(s.subrange(2, s.len() as int))
    } else {
        seq![s[0]] + spec_remove_escapes(s.drop_first())
    }
}

/// Escape every backslash and glob character of `s` (quoted text).
pub fn escape_all(s: &str) -> (r: String)
    ensures
        r@ == spec_escape_all(s@),
{
    let cs = chars_of(s);
    let mut out: Vec<char> = Vec::new();
    let mut i: usize = 0;
    while i < cs.len()
        invariant
            i <= cs@.len(),
            cs@ == s@,
            out@ == spec_escape_all(cs@.take(i as int)),
        decreases cs.len() - i,
    {
        let c = cs[i];
        assert(cs@.take(i + 1).drop_last() =~= cs@.take(i as int));
        if c == '\\' || c == '*' || c == '?' || c == '[' {
            out.push('\\');
        }
        out.push(c);
        proof {
            assert(out@ =~= spec_escape_all(cs@.take(i + 1)));
        }
        i += 1;
    }
    assert(cs@.take(cs@.len() as int) =~= cs@);
    string_of(&out)
}

/// Each backslash of `s` doubled.
pub open spec fn spec_escape_backslashes(s: Seq<char>) -> Seq<char>
    decreases s.len(),
{
    if s.len() == 0 {
        Seq::empty()
    } else {
        let rest = spec_escape_backslashes(s.drop_last());
        if s.last() == '\\' {
            rest + seq!['\\', '\\']
        } else {
            rest.push(s.last())
        }
    }
}

/// Escape the backslashes of `s` (an unquoted expansion's value: its glob
/// characters stay active, its backslashes are plain characters).
pub fn escape_backslashes(s: &str) -> (r: String)
    ensures
        r@ == spec_escape_backslashes(s@),
{
    let cs = chars_of(s);
    let mut out: Vec<char> = Vec::new();
    let mut i: usize = 0;
    while i < cs.len()
        invariant
            i <= cs@.len(),
            cs@ == s@,
            out@ == spec_escape_backslashes(cs@.take(i as int)),
        decreases cs.len() - i,
    {
        assert(cs@.take(i + 1).drop_last() =~= cs@.take(i as int));
        if cs[i] == '\\' {
            out.push('\\');
        }
        out.push(cs[i]);
        proof {
            if cs@[i as int] == '\\' {
                assert(out@ =~= spec_escape_backslashes(cs@.take(i as int)) + seq!['\\', '\\']);
            }
        }
        i += 1;
    }
    assert(cs@.take(cs@.len() as int) =~= cs@);
    string_of(&out)
}

/// Quote removal: drop each escaping backslash.
pub fn remove_escapes(s: &str) -> (r: String)
    ensures
        r@ == spec_remove_escapes(s@),
{
    let cs = chars_of(s);
    let mut out: Vec<char> = Vec::new();
    let mut i: usize = 0;
    assert(cs@.subrange(0, cs@.len() as int) =~= cs@);
    while i < cs.len()
        invariant
            i <= cs@.len(),
            cs@ == s@,
            out@ + spec_remove_escapes(cs@.subrange(i as int, cs@.len() as int)) == spec_remove_escapes(cs@),
        decreases cs.len() - i,
    {
        let ghost rest = cs@.subrange(i as int, cs@.len() as int);
        if cs[i] == '\\' && cs.len() - i >= 2 {
            out.push(cs[i + 1]);
            assert(rest.subrange(2, rest.len() as int) =~= cs@.subrange(i + 2, cs@.len() as int));
            assert(out@ + spec_remove_escapes(cs@.subrange(i + 2, cs@.len() as int)) =~= spec_remove_escapes(cs@));
            i += 2;
        } else {
            out.push(cs[i]);
            assert(rest.drop_first() =~= cs@.subrange(i + 1, cs@.len() as int));
            assert(out@ + spec_remove_escapes(cs@.subrange(i + 1, cs@.len() as int)) =~= spec_remove_escapes(cs@));
            i += 1;
        }
    }
    assert(cs@.subrange(cs@.len() as int, cs@.len() as int) =~= Seq::<char>::empty());
    assert(out@ + Seq::<char>::empty() =~= out@);
    string_of(&out)
}

/// Quote removal undoes the escaping of quoted text.
pub proof fn law_remove_escapes_undoes_escape_all(s: Seq<char>)
    ensures
        spec_remove_escapes(spec_escape_all(s)) == s,
    decreases s.len(),
{
    if s.len() > 0 {
        law_remove_escapes_undoes_escape_all(s.drop_last());
        lemma_escape_all_units(s.drop_last());
        let e = spec_escape_all(s.drop_last());
        let c = s.last();
        assert(spec_remove_escapes(Seq::<char>::empty()) =~= Seq::<char>::empty());
        if is_pattern_special(c) {
            lemma_remove_escapes_append(e, seq!['\\', c]);
            let two = seq!['\\', c];
            assert(two.subrange(2, 2) =~= Seq::<char>::empty());
            assert(spec_remove_escapes(two) == seq![two[1]] + spec_remove_escapes(two.subrange(2, 2)));
            assert(spec_remove_escapes(two) =~= seq![c]);
            assert(spec_escape_all(s) == e + two);
        } else {
            lemma_remove_escapes_append(e, seq![c]);
            let one = seq![c];
            assert(one.drop_first() =~= Seq::<char>::empty());
            assert(spec_remove_escapes(one) == seq![one[0]] + spec_remove_escapes(one.drop_first()));
            assert(spec_remove_escapes(one) =~= seq![c]);
            assert(spec_escape_all(s) == e.push(c));
            assert(e.push(c) =~= e + one);
        }
        assert(s.drop_last().push(c) =~= s);
    }
}

/// Quote removal gives back an unquoted expansion's value: the backslashes
/// that `escape_backslashes` doubled become single again.
pub proof fn law_remove_escapes_undoes_escape_backslashes(s: Seq<char>)
    ensures
        spec_remove_escapes(spec_escape_backslashes(s)) == s,
    decreases s.len(),
{
    if s.len() > 0 {
        law_remove_escapes_undoes_escape_backslashes(s.drop_last());
        lemma_escape_backslashes_units(s.drop_last());
        let e = spec_escape_backslashes(s.drop_last());
        let c = s.last();
        assert(escaped_units(Seq::<char>::empty()));
        if c == '\\' {
            lemma_remove_escapes_append(e, seq!['\\', c]);
            let two = seq!['\\', c];
            assert(two.subrange(2, 2) =~= Seq::<char>::empty());
            assert(spec_remove_escapes(two) == seq![two[1]] + spec_remove_escapes(two.subrange(2, 2)));
            assert(spec_remove_escapes(two) =~= seq![c]);
        } else {
            lemma_remove_escapes_append(e, seq![c]);
            let one = seq![c];
            assert(one.drop_first() =~= Seq::<char>::empty());
            assert(spec_remove_escapes(one) == seq![one[0]] + spec_remove_escapes(one.drop_first()));
            assert(spec_remove_escapes(one) =~= seq![c]);
            assert(e.push(c) =~= e + one);
        }
        assert(s.drop_last().push(c) =~= s);
    }
}

proof fn lemma_escape_backslashes_units(s: Seq<char>)
    ensures
        escaped_units(spec_escape_backslashes(s)),
    decreases s.len(),
{
    if s.len() > 0 {
        lemma_escape_backslashes_units(s.drop_last());
        let e = spec_escape_backslashes(s.drop_last());
        let c = s.last();
        assert(escaped_units(Seq::<char>::empty()));
        if c == '\\' {
            let two = seq!['\\', c];
            assert(two.subrange(2, 2) =~= Seq::<char>::empty());
            assert(escaped_units(two));
            lemma_units_append(e, two);
        } else {
            let one = seq![c];
            assert(one.drop_first() =~= Seq::<char>::empty());
            assert(escaped_units(one));
            lemma_units_append(e, one);
            assert(e.push(c) =~= e + one);
        }
    }
}

/// An escaped text is a sequence of whole units: quote removal of it
/// followed by more text is the two removals joined.
proof fn lemma_remove_escapes_append(a: Seq<char>, b: Seq<char>)
    requires
        escaped_units(a),
    ensures
        spec_remove_escapes(a + b) == spec_remove_escapes(a) + spec_remove_escapes(b),
    decreases a.len(),
{
    if a.len() == 0 {
        assert(a + b =~= b);
    } else if a[0] == '\\' {
        assert((a + b)[0] == '\\');
        assert((a + b).subrange(2, (a + b).len() as int) =~= a.subrange(2, a.len() as int) + b);
        lemma_remove_escapes_append(a.subrange(2, a.len() as int), b);
        assert(seq![a[1]] + (spec_remove_escapes(a.subrange(2, a.len() as int)) + spec_remove_escapes(b))
            =~= (seq![a[1]] + spec_remove_escapes(a.subrange(2, a.len() as int))) + spec_remove_escapes(b));
    } else {
        assert((a + b).drop_first() =~= a.drop_first() + b);
        lemma_remove_escapes_append(a.drop_first(), b);
        assert(seq![a[0]] + (spec_remove_escapes(a.drop_first()) + spec_remove_escapes(b)) =~= (seq![a[0]]
            + spec_remove_escapes(a.drop_first())) + spec_remove_escapes(b));
    }
}

/// True if every backslash of `s` is followed by the character it escapes.
pub open spec fn escaped_units(s: Seq<char>) -> bool
    decreases s.len(),
{
    if s.len() == 0 {
        true
    } else if s[0] == '\\' {
        s.len() >= 2 && escaped_units(s.subrange(2, s.len() as int))
    } else {
        escaped_units(s.drop_first())
    }
}

proof fn lemma_escape_all_units(s: Seq<char>)
    ensures
        escaped_units(spec_escape_all(s)),
    decreases s.len(),
{
    if s.len() > 0 {
        lemma_escape_all_units(s.drop_last());
        let e = spec_escape_all(s.drop_last());
        let c = s.last();
        assert(escaped_units(Seq::<char>::empty()));
        if is_pattern_special(c) {
            let two = seq!['\\', c];
            assert(two.subrange(2, 2) =~= Seq::<char>::empty());
            assert(escaped_units(two));
            lemma_units_append(e, two);
        } else {
            let one = seq![c];
            assert(one.drop_first() =~= Seq::<char>::empty());
            assert(escaped_units(one));
            lemma_units_append(e, one);
            assert(e.push(c) =~= e + one);
        }
    }
}

proof fn lemma_units_append(a: Seq<char>, b: Seq<char>)
    requires
        escaped_units(a),
        escaped_units(b),
    ensures
        escaped_units(a + b),
    decreases a.len(),
{
    if a.len() == 0 {
        assert(a + b =~= b);
    } else if a[0] == '\\' {
        assert((a + b).subrange(2, (a + b).len() as int) =~= a.subrange(2, a.len() as int) + b);
        lemma_units_append(a.subrange(2, a.len() as int), b);
    } else {
        assert((a + b).drop_first() =~= a.drop_first() + b);
        lemma_units_append(a.drop_first(), b);
    }
}

/// True if some suffix `value[i..]`, for `i` below `k`, matches the pattern.
pub open spec fn suffix_matches(p: Seq<char>, v: Seq<char>, i: int) -> bool {
    spec_fnmatch(p, 0, v.subrange(i, v.len() as int), 0)
}

/// True if the prefix `value[..i]` matches the pattern.
pub open spec fn prefix_matches(p: Seq<char>, v: Seq<char>, i: int) -> bool {
    spec_fnmatch(p, 0, v.subrange(0, i), 0)
}

/// `r` is `value` without its suffix from `k`: the first (when `greedy`)
/// or last start index below the length whose suffix matches `pattern`, or
/// the length when none matches.
pub open spec fn trimmed_suffix_at(v: Seq<char>, p: Seq<char>, greedy: bool, r: Seq<char>, k: int) -> bool {
    &&& 0 <= k <= v.len()
    &&& r == v.subrange(0, k)
    &&& k < v.len() ==> suffix_matches(p, v, k)
    &&& greedy ==> forall|j: int| 0 <= j < k ==> !#[trigger] suffix_matches(p, v, j)
    &&& !greedy ==> forall|j: int| k < j < v.len() ==> !#[trigger] suffix_matches(p, v, j)
    &&& k == v.len() ==> forall|j: int| 0 <= j < v.len() ==> !#[trigger] suffix_matches(p, v, j)
}

/// `r` is `value` without its prefix up to `k`: the last (when `greedy`)
/// or first end index above zero whose prefix matches `pattern`, or zero
/// when none matches.
pub open spec fn trimmed_prefix_at(v: Seq<char>, p: Seq<char>, greedy: bool, r: Seq<char>, k: int) -> bool {
    &&& 0 <= k <= v.len()
    &&& r == v.subrange(k, v.len() as int)
    &&& k > 0 ==> prefix_matches(p, v, k)
    &&& greedy ==> forall|j: int| k < j <= v.len() ==> !#[trigger] prefix_matches(p, v, j)
    &&& !greedy ==> forall|j: int| 0 < j < k ==> !#[trigger] prefix_matches(p, v, j)
    &&& k == 0 ==> forall|j: int| 0 < j <= v.len() ==> !#[trigger] prefix_matches(p, v, j)
}

/// Remove the smallest (or, when `greedy`, the largest) non-empty suffix of
/// `value` that matches `pattern`; `value` itself when none does.
pub fn trim_suffix(value: &str, pattern: &str, greedy: bool) -> (r: String)
    ensures
        exists|k: int| trimmed_suffix_at(value@, pattern@, greedy, r@, k),
{
    let cs = chars_of(value);
    let n = cs.len();
    if greedy {
        let mut i: usize = 0;
        while i < n
            invariant
                i <= n == cs@.len(),
                cs@ == value@,
                greedy,
                forall|j: int| 0 <= j < i ==> !#[trigger] suffix_matches(pattern@, value@, j),
            decreases n - i,
        {
            let suffix = string_of(&crate::lexer::slice_chars(&cs, i, n));
            if crate::glob::fnmatch(pattern, suffix.as_str()) {
                let r = string_of(&crate::lexer::slice_chars(&cs, 0, i));
                assert(suffix@ == value@.subrange(i as int, value@.len() as int));
                assert(suffix_matches(pattern@, value@, i as int));
                assert(r@ == value@.subrange(0, i as int));
                assert(trimmed_suffix_at(value@, pattern@, greedy, r@, i as int));
                return r;
            }
            i += 1;
        }
        assert(value@.subrange(0, n as int) =~= value@);
        let r = value.to_owned();
        assert(trimmed_suffix_at(value@, pattern@, greedy, r@, n as int));
        r
    } else {
        let mut i: usize = n;
        while i > 0
            invariant
                i <= n == cs@.len(),
                cs@ == value@,
                !greedy,
                forall|j: int| i <= j < n ==> !#[trigger] suffix_matches(pattern@, value@, j),
            decreases i,
        {
            let suffix = string_of(&crate::lexer::slice_chars(&cs, i - 1, n));
            if crate::glob::fnmatch(pattern, suffix.as_str()) {
                let r = string_of(&crate::lexer::slice_chars(&cs, 0, i - 1));
                assert(suffix@ == value@.subrange(i - 1, value@.len() as int));
                assert(suffix_matches(pattern@, value@, i - 1));
                assert(r@ == value@.subrange(0, i - 1));
                assert(trimmed_suffix_at(value@, pattern@, greedy, r@, i - 1));
                return r;
            }
            i -= 1;
        }
        assert(value@.subrange(0, n as int) =~= value@);
        let r = value.to_owned();
        assert(trimmed_suffix_at(value@, pattern@, greedy, r@, n as int));
        r
    }
}

/// Remove the smallest (or, when `greedy`, the largest) non-empty prefix of
/// `value` that matches `pattern`; `value` itself when none does.
pub fn trim_prefix(value: &str, pattern: &str, greedy: bool) -> (r: String)
    ensures
        exists|k: int| trimmed_prefix_at(value@, pattern@, greedy, r@, k),
{
    let cs = chars_of(value);
    let n = cs.len();
    if greedy {
        let mut i: usize = n;
        while i > 0
            invariant
                i <= n == cs@.len(),
                cs@ == value@,
                greedy,
                forall|j: int| i < j <= n ==> !#[trigger] prefix_matches(pattern@, value@, j),
            decreases i,
        {
            let prefix = string_of(&crate::lexer::slice_chars(&cs, 0, i));
            if crate::glob::fnmatch(pattern, prefix.as_str()) {
                let r = string_of(&crate::lexer::slice_chars(&cs, i, n));
                assert(prefix@ == value@.subrange(0, i as int));
                assert(prefix_matches(pattern@, value@, i as int));
                assert(r@ == value@.subrange(i as int, value@.len() as int));
                assert(trimmed_prefix_at(value@, pattern@, greedy, r@, i as int));
                return r;
            }
            i -= 1;
        }
        assert(value@.subrange(0, n as int) =~= value@);
        let r = value.to_owned();
        assert(trimmed_prefix_at(value@, pattern@, greedy, r@, 0));
        r
    } else {
        let mut i: usize = 1;
        while i <= n
            invariant
                1 <= i,
                i <= n + 1,
                n > 0 ==> i <= n,
                n == cs@.len(),
                cs@ == value@,
                !greedy,
                forall|j: int| 0 < j < i ==> !#[trigger] prefix_matches(pattern@, value@, j),
            decreases n + 1 - i,
        {
            let prefix = string_of(&crate::lexer::slice_chars(&cs, 0, i));
            if crate::glob::fnmatch(pattern, prefix.as_str()) {
                let r = string_of(&crate::lexer::slice_chars(&cs, i, n));
                assert(prefix@ == value@.subrange(0, i as int));
                assert(prefix_matches(pattern@, value@, i as int));
                assert(r@ == value@.subrange(i as int, value@.len() as int));
                assert(trimmed_prefix_at(value@, pattern@, greedy, r@, i as int));
                return r;
            }
            if i == n {
                assert(value@.subrange(0, n as int) =~= value@);
                let r = value.to_owned();
                assert(trimmed_prefix_at(value@, pattern@, greedy, r@, 0));
                return r;
            }
            i += 1;
        }
        assert(n == 0);
        assert(value@.subrange(0, n as int) =~= value@);
        let r = value.to_owned();
        assert(trimmed_prefix_at(value@, pattern@, greedy, r@, 0));
        r
    }
}

/// True if `c` is white space for field splitting.
pub open spec fn is_ifs_white(c: char) -> bool {
    c == ' ' || c == '\t' || c == '\n' || c == '\r' || c == '\x0b' || c == '\x0c'
}

fn is_white(c: char) -> (r: bool)
    ensures
        r == is_ifs_white(c),
{
    c == ' ' || c == '\t' || c == '\n' || c == '\r' || c == '\x0b' || c == '\x0c'
}

fn contains_char(cs: &Vec<char>, c: char) -> (r: bool)
    ensures
        r == cs@.contains(c),
{
    let mut i: usize = 0;
    while i < cs.len()
        invariant
            i <= cs@.len(),
            forall|k: int| 0 <= k < i ==> cs@[k] != c,
        decreases cs.len() - i,
    {
        if cs[i] == c {
            assert(cs@[i as int] == c);
            return true;
        }
        i += 1;
    }
    false
}

/// A white-space IFS character.
pub open spec fn ifs_white(ifs: Seq<char>, c: char) -> bool {
    ifs.contains(c) && is_ifs_white(c)
}

/// An IFS character that is not white space.
pub open spec fn ifs_other(ifs: Seq<char>, c: char) -> bool {
    ifs.contains(c) && !is_ifs_white(c)
}

/// The state of field splitting: the fields so far, the field being built,
/// and whether that field has begun.
pub type SplitState = (Seq<Seq<char>>, Seq<char>, bool);

/// End the field being built.
pub open spec fn end_field(st: SplitState) -> SplitState {
    (st.0.push(st.1), Seq::empty(), false)
}

/// Split the characters `cs[i..]` of a fragment subject to splitting: an
/// escaped character joins the field; a run of white-space IFS characters
/// ends a begun field, together with one other IFS character after it and
/// the white space after that; any other IFS character ends the field, even
/// an empty one, with the white space after it.
pub open spec fn split_chars(cs: Seq<char>, i: int, ifs: Seq<char>, st: SplitState) -> SplitState
    decreases cs.len() - i,
{
    if i < 0 || i >= cs.len() {
        st
    } else if cs[i] == '\\' && i + 1 < cs.len() {
        split_chars(cs, i + 2, ifs, (st.0, st.1 + seq![cs[i], cs[i + 1]], true))
    } else if ifs_white(ifs, cs[i]) {
        let st1 = if st.2 {
            end_field(st)
        } else {
            st
        };
        let j = crate::arith::run_end(cs, i + 1, |c: char| ifs_white(ifs, c));
        proof {
            crate::arith::lemma_run_end_bounds(cs, i + 1, |c: char| ifs_white(ifs, c));
        }
        let k = if j < cs.len() && ifs_other(ifs, cs[j]) {
            proof {
                crate::arith::lemma_run_end_bounds(cs, j + 1, |c: char| ifs_white(ifs, c));
            }
            crate::arith::run_end(cs, j + 1, |c: char| ifs_white(ifs, c))
        } else {
            j
        };
        if k > i {
            split_chars(cs, k, ifs, st1)
        } else {
            st1
        }
    } else if ifs_other(ifs, cs[i]) {
        let j = crate::arith::run_end(cs, i + 1, |c: char| ifs_white(ifs, c));
        proof {
            crate::arith::lemma_run_end_bounds(cs, i + 1, |c: char| ifs_white(ifs, c));
        }
        if j > i {
            split_chars(cs, j, ifs, end_field(st))
        } else {
            end_field(st)
        }
    } else {
        split_chars(cs, i + 1, ifs, (st.0, st.1.push(cs[i]), true))
    }
}

/// Split the fragments from `f` on: a fragment that starts a new field ends
/// a begun one; fragments not subject to splitting (or an empty IFS) join
/// the field whole.
pub open spec fn split_frags(frags: Seq<ExpandedWord>, f: int, ifs: Seq<char>, st: SplitState) -> SplitState
    decreases frags.len() - f,
{
    if f < 0 || f >= frags.len() {
        st
    } else {
        let fr = frags[f];
        let st1 = if fr.word_break && st.2 {
            end_field(st)
        } else {
            st
        };
        let st2 = if !fr.split_fields || ifs.len() == 0 {
            (st1.0, st1.1 + fr.value@, true)
        } else {
            split_chars(fr.value@, 0, ifs, st1)
        };
        split_frags(frags, f + 1, ifs, st2)
    }
}

/// The fields of `frags` split on `ifs`; a begun last field counts.
pub open spec fn spec_field_split(frags: Seq<ExpandedWord>, ifs: Seq<char>) -> Seq<Seq<char>> {
    if frags.len() == 0 {
        Seq::empty()
    } else {
        let st = split_frags(frags, 0, ifs, (Seq::empty(), Seq::empty(), false));
        if st.2 {
            st.0.push(st.1)
        } else {
            st.0
        }
    }
}

/// Characters that are neither IFS characters nor backslashes.
pub open spec fn unsplit_text(s: Seq<char>, ifs: Seq<char>) -> bool {
    forall|k: int| 0 <= k < s.len() ==> #[trigger] s[k] != '\\' && !ifs.contains(s[k])
}

/// A run of characters that split nothing joins the field being built.
proof fn lemma_split_plain(cs: Seq<char>, i: int, j: int, ifs: Seq<char>, st: SplitState)
    requires
        0 <= i <= j <= cs.len(),
        forall|k: int| i <= k < j ==> #[trigger] cs[k] != '\\' && !ifs.contains(cs[k]),
    ensures
        split_chars(cs, i, ifs, st) == split_chars(cs, j, ifs, (st.0, st.1 + cs.subrange(i, j), st.2 || j > i)),
    decreases j - i,
{
    if i < j {
        assert(!ifs_white(ifs, cs[i]) && !ifs_other(ifs, cs[i]));
        let st2 = (st.0, st.1.push(cs[i]), true);
        lemma_split_plain(cs, i + 1, j, ifs, st2);
        assert(st.1.push(cs[i]) + cs.subrange(i + 1, j) =~= st.1 + cs.subrange(i, j));
    } else {
        assert(st.1 + cs.subrange(i, j) =~= st.1);
    }
}

/// Field splitting of one splittable fragment: text with no IFS character
/// stays one field, and two such words with one white-space IFS character
/// between them become two fields.
pub proof fn law_field_split_words(frags: Seq<ExpandedWord>, ifs: Seq<char>, a: Seq<char>, sep: char, b: Seq<char>)
    requires
        frags.len() == 1,
        frags[0].split_fields,
        a.len() > 0,
        unsplit_text(a, ifs),
        unsplit_text(b, ifs),
        ifs.len() > 0,
    ensures
        frags[0].value@ == a ==> spec_field_split(frags, ifs) == seq![a],
        frags[0].value@ == a + seq![sep] + b && ifs.contains(sep) && is_ifs_white(sep) && b.len() > 0
            ==> spec_field_split(frags, ifs) == seq![a, b],
{
    let init: SplitState = (Seq::empty(), Seq::empty(), false);
    let fr = frags[0];
    let cs = fr.value@;
    let st1 = if fr.word_break && init.2 {
        end_field(init)
    } else {
        init
    };
    assert(st1 == init);
    assert(split_frags(frags, 1, ifs, split_chars(cs, 0, ifs, init)) == split_chars(cs, 0, ifs, init));
    if cs == a {
        lemma_split_plain(cs, 0, a.len() as int, ifs, init);
        assert(Seq::<char>::empty() + cs.subrange(0, a.len() as int) =~= a);
        assert(seq![a] =~= Seq::<Seq<char>>::empty().push(a));
    }
    if cs == a + seq![sep] + b && ifs.contains(sep) && is_ifs_white(sep) && b.len() > 0 {
        let n = a.len() as int;
        assert forall|k: int| 0 <= k < n implies #[trigger] cs[k] != '\\' && !ifs.contains(cs[k]) by {
            assert(cs[k] == a[k]);
        }
        assert forall|k: int| n + 1 <= k < cs.len() implies #[trigger] cs[k] != '\\' && !ifs.contains(cs[k]) by {
            assert(cs[k] == b[k - n - 1]);
        }
        lemma_split_plain(cs, 0, n, ifs, init);
        assert(cs.subrange(0, n) =~= a);
        assert(Seq::<char>::empty() + a =~= a);
        let sa: SplitState = (Seq::empty(), a, true);
        assert(cs[n] == sep);
        assert(cs[n + 1] == b[0]);
        assert(!ifs_white(ifs, cs[n + 1]) && !ifs_other(ifs, cs[n + 1]));
        crate::arith::lemma_run_end_at(cs, n + 1, n + 1, |c: char| ifs_white(ifs, c));
        let se: SplitState = (seq![a], Seq::empty(), false);
        assert(end_field(sa) == se) by {
            assert(Seq::<Seq<char>>::empty().push(a) =~= seq![a]);
        }
        assert(split_chars(cs, n, ifs, sa) == split_chars(cs, n + 1, ifs, se));
        lemma_split_plain(cs, n + 1, cs.len() as int, ifs, se);
        assert(cs.subrange(n + 1, cs.len() as int) =~= b);
        assert(Seq::<char>::empty() + b =~= b);
        assert(seq![a].push(b) =~= seq![a, b]);
    }
}

/// Fragments `frags[f..]` not subject to splitting, each starting a new
/// field, give one field each after the field being built.
proof fn lemma_split_fields_each(frags: Seq<ExpandedWord>, f: int, ifs: Seq<char>, d: Seq<Seq<char>>, c: Seq<char>)
    requires
        0 <= f <= frags.len(),
        forall|k: int| f <= k < frags.len() ==> !(#[trigger] frags[k]).split_fields && frags[k].word_break,
    ensures
        ({
            let l = d.push(c) + Seq::new((frags.len() - f) as nat, |k: int| frags[f + k].value@);
            split_frags(frags, f, ifs, (d, c, true)) == (l.drop_last(), l.last(), true)
        }),
    decreases frags.len() - f,
{
    let l = d.push(c) + Seq::new((frags.len() - f) as nat, |k: int| frags[f + k].value@);
    if f == frags.len() {
        assert(l =~= d.push(c));
        assert(l.drop_last() =~= d);
    } else {
        let fr = frags[f];
        assert(Seq::<char>::empty() + fr.value@ =~= fr.value@);
        lemma_split_fields_each(frags, f + 1, ifs, d.push(c), fr.value@);
        let l2 = d.push(c).push(fr.value@) + Seq::new(
            (frags.len() - (f + 1)) as nat,
            |k: int| frags[f + 1 + k].value@,
        );
        assert(l2 =~= l);
    }
}

/// Fragments `frags[f..]` neither split nor starting a field all join the
/// field being built.
proof fn lemma_split_fields_join(frags: Seq<ExpandedWord>, f: int, ifs: Seq<char>, d: Seq<Seq<char>>)
    requires
        0 <= f <= frags.len(),
        forall|k: int| 0 <= k < frags.len() ==> !(#[trigger] frags[k]).split_fields && !frags[k].word_break,
    ensures
        split_frags(frags, f, ifs, (d, joined_values(frags, f), true)) == (d, joined_values(
            frags,
            frags.len() as int,
        ), true),
    decreases frags.len() - f,
{
    if f < frags.len() {
        lemma_split_fields_join(frags, f + 1, ifs, d);
    }
}

/// Quoted text has no active glob character.
proof fn lemma_escape_all_inert(s: Seq<char>)
    ensures
        !crate::glob::glob_chars_from(spec_escape_all(s), 0),
    decreases s.len(),
{
    if s.len() > 0 {
        let t = s.drop_first();
        lemma_escape_all_inert(t);
        lemma_escape_all_concat(seq![s[0]], t);
        assert(seq![s[0]] + t =~= s);
        assert(seq![s[0]].drop_last() =~= Seq::<char>::empty());
        assert(spec_escape_all(Seq::<char>::empty()) =~= Seq::<char>::empty());
        assert(seq![s[0]].last() == s[0]);
        let x = spec_escape_all(seq![s[0]]);
        assert(x == spec_escape_all(seq![s[0]].drop_last()) + (if is_pattern_special(s[0]) {
            seq!['\\', s[0]]
        } else {
            seq![s[0]]
        }));
        lemma_glob_chars_shift(x, spec_escape_all(t), 0);
        if is_pattern_special(s[0]) {
            assert(x =~= seq!['\\', s[0]]);
        } else {
            assert(x =~= seq![s[0]]);
        }
    }
}

proof fn lemma_escape_all_concat(a: Seq<char>, b: Seq<char>)
    ensures
        spec_escape_all(a + b) == spec_escape_all(a) + spec_escape_all(b),
    decreases b.len(),
{
    if b.len() == 0 {
        assert(a + b =~= a);
        assert(spec_escape_all(a) + spec_escape_all(b) =~= spec_escape_all(a));
    } else {
        lemma_escape_all_concat(a, b.drop_last());
        assert((a + b).drop_last() =~= a + b.drop_last());
        assert((a + b).last() == b.last());
        let ea = spec_escape_all(a);
        let eb = spec_escape_all(b.drop_last());
        if is_pattern_special(b.last()) {
            assert(ea + eb + seq!['\\', b.last()] =~= ea + (eb + seq!['\\', b.last()]));
        } else {
            assert((ea + eb).push(b.last()) =~= ea + eb.push(b.last()));
        }
    }
}

proof fn lemma_glob_chars_shift(x: Seq<char>, y: Seq<char>, i: int)
    requires
        0 <= i,
    ensures
        crate::glob::glob_chars_from(x + y, x.len() + i) == crate::glob::glob_chars_from(y, i),
    decreases y.len() + 2 - i,
{
    if i < y.len() {
        assert((x + y)[x.len() + i] == y[i]);
        if y[i] == '\\' {
            lemma_glob_chars_shift(x, y, i + 2);
        } else if !(y[i] == '*' || y[i] == '?' || y[i] == '[') {
            lemma_glob_chars_shift(x, y, i + 1);
        }
    }
}

/// The fields as strings.
pub open spec fn field_views(v: Seq<String>) -> Seq<Seq<char>> {
    v.map_values(|s: String| s@)
}

/// True if `c` is a white-space character of `ifs`.
fn in_white(ifs: &Vec<char>, c: char) -> (r: bool)
    ensures
        r == ifs_white(ifs@, c),
{
    contains_char(ifs, c) && is_white(c)
}

/// True if `c` is a character of `ifs` that is not white space.
fn in_other(ifs: &Vec<char>, c: char) -> (r: bool)
    ensures
        r == ifs_other(ifs@, c),
{
    contains_char(ifs, c) && !is_white(c)
}

/// Skip white-space IFS characters from `i`.
fn skip_white(chars: &Vec<char>, i: usize, ifs: &Vec<char>) -> (r: usize)
    requires
        i <= chars@.len(),
    ensures
        r == crate::arith::run_end(chars@, i as int, |c: char| ifs_white(ifs@, c)),
        i <= r <= chars@.len(),
{
    let mut j = i;
    while j < chars.len() && in_white(ifs, chars[j])
        invariant
            i <= j <= chars@.len(),
            forall|k: int| i <= k < j ==> ifs_white(ifs@, #[trigger] chars@[k]),
        decreases chars.len() - j,
    {
        j += 1;
    }
    proof {
        crate::arith::lemma_run_end_at(chars@, i as int, j as int, |c: char| ifs_white(ifs@, c));
    }
    j
}

/// Split fragments into fields on the characters of `ifs` (see
/// `spec_field_split`): white-space IFS characters separate fields and
/// collapse; any other IFS character ends a field (an empty one too). Only
/// fragments marked `split_fields` are split; an escaped character (a
/// backslash and the next one) never splits.
pub fn field_split(fragments: &[ExpandedWord], ifs: &str) -> (r: Vec<String>)
    ensures
        field_views(r@) == spec_field_split(fragments@, ifs@),
{
    let mut fields: Vec<String> = Vec::new();
    if fragments.len() == 0 {
        assert(field_views(fields@) =~= Seq::<Seq<char>>::empty());
        return fields;
    }
    let ifs_chars = chars_of(ifs);
    let ghost g = ifs@;
    let ghost frags = fragments@;
    let ghost init: SplitState = (Seq::empty(), Seq::empty(), false);
    let mut current: Vec<char> = Vec::new();
    let mut have_field = false;
    let mut f: usize = 0;
    assert(field_views(fields@) =~= Seq::<Seq<char>>::empty());
    while f < fragments.len()
        invariant
            f <= frags.len(),
            frags == fragments@,
            frags.len() > 0,
            ifs_chars@ == g,
            g == ifs@,
            split_frags(frags, 0, g, init) == split_frags(
                frags,
                f as int,
                g,
                (field_views(fields@), current@, have_field),
            ),
        decreases fragments.len() - f,
    {
        let frag = &fragments[f];
        let ghost st0: SplitState = (field_views(fields@), current@, have_field);
        if frag.word_break && have_field {
            let done_field = string_of(&current);
            proof {
                assert(field_views(fields@.push(done_field)) =~= field_views(fields@).push(current@));
            }
            fields.push(done_field);
            current = Vec::new();
            have_field = false;
        }
        let ghost st1: SplitState = (field_views(fields@), current@, have_field);
        assert(st1 == (if frag.word_break && st0.2 { end_field(st0) } else { st0 }));
        let chars = chars_of(frag.value.as_str());
        if !frag.split_fields || ifs_chars.len() == 0 {
            crate::lexer::append_chars(&mut current, &chars);
            have_field = true;
        } else {
            let mut i: usize = 0;
            while i < chars.len()
                invariant
                    i <= chars@.len(),
                    chars@ == frag.value@,
                    ifs_chars@ == g,
                    split_chars(chars@, 0, g, st1) == split_chars(
                        chars@,
                        i as int,
                        g,
                        (field_views(fields@), current@, have_field),
                    ),
                decreases chars.len() - i,
            {
                let ch = chars[i];
                let ghost cur = (field_views(fields@), current@, have_field);
                if ch == '\\' && i + 1 < chars.len() {
                    current.push(ch);
                    current.push(chars[i + 1]);
                    proof {
                        assert(current@ =~= cur.1 + seq![ch, chars@[i + 1]]);
                    }
                    have_field = true;
                    i += 2;
                } else if in_white(&ifs_chars, ch) {
                    if have_field {
                        let done_field = string_of(&current);
                        proof {
                            assert(field_views(fields@.push(done_field)) =~= field_views(fields@).push(current@));
                        }
                        fields.push(done_field);
                        current = Vec::new();
                        have_field = false;
                    }
                    let j = skip_white(&chars, i + 1, &ifs_chars);
                    if j < chars.len() && in_other(&ifs_chars, chars[j]) {
                        i = skip_white(&chars, j + 1, &ifs_chars);
                    } else {
                        i = j;
                    }
                } else if in_other(&ifs_chars, ch) {
                    let done_field = string_of(&current);
                    proof {
                        assert(field_views(fields@.push(done_field)) =~= field_views(fields@).push(current@));
                    }
                    fields.push(done_field);
                    current = Vec::new();
                    have_field = false;
                    i = skip_white(&chars, i + 1, &ifs_chars);
                } else {
                    current.push(ch);
                    have_field = true;
                    i += 1;
                }
            }
        }
        f += 1;
    }
    if have_field {
        let done_field = string_of(&current);
        proof {
            assert(field_views(fields@.push(done_field)) =~= field_views(fields@).push(current@));
        }
        fields.push(done_field);
    }
    fields
}

/// True if `name` is `@` or `*`.
fn is_at_or_star(name: &String, c: char) -> (r: bool)
    ensures
        r == (name@ == seq![c]),
{
    let cs = chars_of(name.as_str());
    if cs.len() == 1 {
        assert(cs@ =~= seq![cs@[0]]);
    }
    cs.len() == 1 && cs[0] == c
}

/// True if `p` is a plain `$@`.
fn is_plain_at(p: &WordPart) -> (r: bool)
    ensures
        r == plain_at(*p),
{
    match p {
        WordPart::Param(pe) => match pe.op {
            ParamOp::Normal => is_at_or_star(&pe.name, '@'),
            _ => false,
        },
        _ => false,
    }
}

fn frag(value: String, split_fields: bool, word_break: bool) -> (r: ExpandedWord)
    ensures
        r.value == value,
        r.split_fields == split_fields,
        r.word_break == word_break,
{
    ExpandedWord { value, split_fields, word_break }
}

/// A fragment as a value: its text, whether it is split, whether it
/// starts a field.
pub open spec fn frag_view(f: ExpandedWord) -> (Seq<char>, bool, bool) {
    (f.value@, f.split_fields, f.word_break)
}

/// The values of fragments.
pub open spec fn frag_views(s: Seq<ExpandedWord>) -> Seq<(Seq<char>, bool, bool)> {
    s.map_values(|f: ExpandedWord| frag_view(f))
}

/// A parameter's value as a fragment: escaped as quoted text inside
/// quotes; outside them only its backslashes escaped, and split.
pub open spec fn value_view(t: Seq<char>, quoted: bool) -> (Seq<char>, bool, bool) {
    if quoted {
        (spec_escape_all(t), false, false)
    } else {
        (spec_escape_backslashes(t), true, false)
    }
}

/// Appending a fragment appends its value.
pub proof fn lemma_frag_views_push(s: Seq<ExpandedWord>, f: ExpandedWord)
    ensures
        frag_views(s.push(f)) == frag_views(s).push(frag_view(f)),
{
    assert(frag_views(s.push(f)) =~= frag_views(s).push(frag_view(f)));
}

/// The raw value of parameter `name` in a shell: a special parameter, or a
/// variable's value.
pub open spec fn param_text(sh: Shell, name: Seq<char>) -> Option<Seq<char>> {
    if crate::eval::spec_is_special_param(name) {
        sh.vars.special_value(name, sh.exit_status@, sh.pid, crate::eval::spec_flags(sh.opts), sh.last_bg_pid)
    } else {
        sh.vars.value_of(name)
    }
}

/// True if the word of `${name<op>word}` is used for value `v`: the
/// parameter is unset, or empty when the operator has a colon.
pub open spec fn uses_word(v: Option<Seq<char>>, colon: bool) -> bool {
    match v {
        Some(t) => colon && t.len() == 0,
        None => true,
    }
}

/// What expanding `pe` with evaluation budget `fuel` promises: `$name` and
/// `${#name}` give the value (an error for an unset variable under
/// `nounset`); `- = ? +` with the value in use give it, and `+` nothing;
/// `- = +` with a static word in use give that word's fragments; `?` with its
/// word in use fails; a trim with a static pattern gives the trimmed value;
/// a bad substitution fails.
pub open spec fn param_outcome(
    sh: Shell,
    fuel: int,
    pe: ParamExpr,
    quoted: bool,
    before: Seq<ExpandedWord>,
    after: Seq<ExpandedWord>,
    r: Result<(), ShellError>,
) -> bool {
    let v = param_text(sh, pe.name@);
    let unset_fails = v is None && sh.opts.nounset && !crate::eval::spec_is_special_param(pe.name@);
    let text = match v {
        Some(t) => t,
        None => Seq::empty(),
    };
    &&& pe.op is BadSubst ==> r is Err
    &&& fuel > 0 ==> match pe.op {
        ParamOp::Normal => if unset_fails {
            r is Err
        } else {
            r is Ok && frag_views(after) == frag_views(before).push(value_view(text, quoted))
        },
        ParamOp::Length => if unset_fails {
            r is Err
        } else {
            r is Ok && frag_views(after) == frag_views(before).push(
                value_view(crate::text::decimal(text.len()), quoted),
            )
        },
        ParamOp::Default { colon, word } => if uses_word(v, colon) {
            word_outcome(fuel, word, quoted, before, after, r)
        } else {
            r is Ok && frag_views(after) == frag_views(before).push(value_view(text, quoted))
        },
        ParamOp::Assign { colon, word } => if uses_word(v, colon) {
            word_outcome(fuel, word, quoted, before, after, r)
        } else {
            r is Ok && frag_views(after) == frag_views(before).push(value_view(text, quoted))
        },
        ParamOp::Error { colon, word } => if uses_word(v, colon) {
            r is Err
        } else {
            r is Ok && frag_views(after) == frag_views(before).push(value_view(text, quoted))
        },
        ParamOp::Alternative { colon, word } => if uses_word(v, colon) {
            r is Ok && frag_views(after) == frag_views(before)
        } else {
            word_outcome(fuel, word, quoted, before, after, r)
        },
        ParamOp::TrimSuffixSmall(p) => trim_outcome(fuel, p, unset_fails, text, quoted, before, after, r, false, false),
        ParamOp::TrimSuffixLarge(p) => trim_outcome(fuel, p, unset_fails, text, quoted, before, after, r, false, true),
        ParamOp::TrimPrefixSmall(p) => trim_outcome(fuel, p, unset_fails, text, quoted, before, after, r, true, false),
        ParamOp::TrimPrefixLarge(p) => trim_outcome(fuel, p, unset_fails, text, quoted, before, after, r, true, true),
        ParamOp::BadSubst => r is Err,
    }
}

/// What `${name=word}` does to the variables when its word is in use and
/// static, with evaluation budget `fuel`: `name` takes the word's text
/// (unless it is readonly).
pub open spec fn assign_effect(sh: Shell, fuel: int, pe: ParamExpr, quoted: bool, after: Variables) -> bool {
    match pe.op {
        ParamOp::Assign { colon, word } => (fuel > word@.len() + 1 && uses_word(param_text(sh, pe.name@), colon)
            && !sh.vars.readonly(pe.name@)) ==> (static_views(word@, quoted, word@.len() as int) matches Some(fs)
            ==> after.value_of(pe.name@) == Some(spec_remove_escapes(texts_concat(fs)))),
        _ => true,
    }
}

/// The parameter expansion that makes up a whole word, if the word is one
/// (other than an unquoted `$@` or a `$*`).
pub open spec fn single_param(parts: Seq<WordPart>, quoted: bool) -> Option<ParamExpr> {
    if parts.len() == 1 {
        match parts[0] {
            WordPart::Param(pe) => if !is_positional_list(pe, quoted) {
                Some(pe)
            } else {
                None
            },
            _ => None,
        }
    } else {
        None
    }
}

/// No field holds a pattern character, so none is expanded as a path.
pub open spec fn unglobbed_fields(fields: Seq<Seq<char>>) -> bool {
    forall|k: int| 0 <= k < fields.len() ==> !crate::glob::glob_chars_from(#[trigger] fields[k], 0)
}

/// The field separators a variable store sets: `$IFS`, or space, tab and
/// newline when it is unset.
pub open spec fn ifs_of(vars: Variables) -> Seq<char> {
    match vars.value_of(seq!['I', 'F', 'S']) {
        Some(v) => v,
        None => seq![' ', '\t', '\n'],
    }
}

/// The word of `${x-word}`, `${x=word}` or `${x+word}` expanded in its
/// place: when the word is static, its fragments follow `before`.
pub open spec fn word_outcome(
    fuel: int,
    word: Vec<WordPart>,
    quoted: bool,
    before: Seq<ExpandedWord>,
    after: Seq<ExpandedWord>,
    r: Result<(), ShellError>,
) -> bool {
    fuel > word@.len() + 1 ==> (static_views(word@, quoted, word@.len() as int) matches Some(fs) ==> r is Ok
        && frag_views(after) == frag_views(before) + fs)
}

/// `res` is `text` with its smallest (or, when `greedy`, largest) matching
/// prefix (when `prefix`) or suffix removed.
pub open spec fn trimmed_text(text: Seq<char>, pattern: Seq<char>, prefix: bool, greedy: bool, res: Seq<char>) -> bool {
    if prefix {
        exists|k: int| trimmed_prefix_at(text, pattern, greedy, res, k)
    } else {
        exists|k: int| trimmed_suffix_at(text, pattern, greedy, res, k)
    }
}

/// The outcome of a trim `${x%p}`, `${x%%p}`, `${x#p}` or `${x##p}`: an
/// error for an unset variable under `set -u`; otherwise, when the pattern
/// is static, the value with the matching part removed.
pub open spec fn trim_outcome(
    fuel: int,
    p: Vec<WordPart>,
    unset_fails: bool,
    text: Seq<char>,
    quoted: bool,
    before: Seq<ExpandedWord>,
    after: Seq<ExpandedWord>,
    r: Result<(), ShellError>,
    prefix: bool,
    greedy: bool,
) -> bool {
    if unset_fails {
        r is Err
    } else {
        fuel > p@.len() + 1 ==> (static_views(p@, false, p@.len() as int) matches Some(fs) ==> r is Ok
            && exists|res: Seq<char>|
            #![trigger value_view(res, quoted)]
            trimmed_text(text, texts_concat(fs), prefix, greedy, res) && frag_views(after) == frag_views(
                before,
            ).push(value_view(res, quoted)))
    }
}

/// The text a tilde prefix stands for: `$HOME` (or `~` when HOME is
/// unset) for a bare `~`, otherwise the prefix as written.
pub open spec fn tilde_text(vars: Variables, user: Seq<char>) -> Seq<char> {
    if user.len() == 0 {
        match vars.value_of(seq!['H', 'O', 'M', 'E']) {
            Some(h) => h,
            None => seq!['~'],
        }
    } else {
        seq!['~'] + user
    }
}

/// The positional parameters as separate fields, each starting a field.
pub open spec fn positional_frags(params: Seq<String>) -> Seq<(Seq<char>, bool, bool)> {
    params.map_values(|p: String| (spec_escape_backslashes(p@), true, true))
}

/// The value of IFS (space, tab, newline when unset).
pub open spec fn ifs_value(vars: Variables) -> Seq<char> {
    match vars.value_of(seq!['I', 'F', 'S']) {
        Some(v) => v,
        None => seq![' ', '\t', '\n'],
    }
}

/// `"$*"`: the positional parameters joined by the first IFS character.
pub open spec fn star_text(vars: Variables) -> Seq<char> {
    let ifs = ifs_value(vars);
    crate::text::spec_join(
        vars.params().map_values(|s: String| s@),
        if ifs.len() > 0 {
            seq![ifs[0]]
        } else {
            Seq::empty()
        },
    )
}

/// `$@` outside quotes, or `$*` in either form.
pub open spec fn is_positional_list(pe: ParamExpr, quoted: bool) -> bool {
    pe.op is Normal && ((pe.name@ == seq!['@'] && !quoted) || pe.name@ == seq!['*'])
}

/// The fragment of a literal or single-quoted part; `None` for any other.
pub open spec fn static_view(p: WordPart, quoted: bool) -> Option<(Seq<char>, bool, bool)> {
    match p {
        WordPart::Literal(s) => Some(
            (
                if quoted {
                    spec_escape_all(s@)
                } else {
                    s@
                },
                false,
                false,
            ),
        ),
        WordPart::SingleQuoted(s) => Some((spec_escape_all(s@), false, false)),
        _ => None,
    }
}

/// The fragments of `parts[..n]` when all of them are literal or single
/// quoted.
pub open spec fn static_views(parts: Seq<WordPart>, quoted: bool, n: int) -> Option<Seq<(Seq<char>, bool, bool)>>
    decreases n,
{
    if n <= 0 || n > parts.len() {
        Some(Seq::empty())
    } else {
        match (static_views(parts, quoted, n - 1), static_view(parts[n - 1], quoted)) {
            (Some(fs), Some(f)) => Some(fs.push(f)),
            _ => None,
        }
    }
}

/// All parts of a static word are static, and so is each prefix.
proof fn lemma_static_prefix(parts: Seq<WordPart>, quoted: bool, k: int, n: int)
    requires
        0 <= k <= n <= parts.len(),
        static_views(parts, quoted, n) is Some,
    ensures
        static_views(parts, quoted, k) is Some,
        k < n ==> static_view(parts[k], quoted) is Some,
    decreases n - k,
{
    if k < n {
        lemma_static_prefix(parts, quoted, k + 1, n);
    }
}

/// True if `p` is a plain `$@`.
pub open spec fn plain_at(p: WordPart) -> bool {
    p matches WordPart::Param(pe) && pe.op is Normal && pe.name@ == seq!['@']
}

/// `parts[a]` is a plain `$@` and every other part is literal or single
/// quoted.
pub open spec fn at_form(parts: Seq<WordPart>, a: int) -> bool {
    &&& 0 <= a < parts.len()
    &&& plain_at(parts[a])
    &&& forall|j: int| 0 <= j < parts.len() && j != a ==> static_view(#[trigger] parts[j], true) is Some
}

/// The word `"$@"`: one double-quoted region holding only `$@`.
pub open spec fn is_quoted_at(parts: Seq<WordPart>) -> bool {
    &&& parts.len() == 1
    &&& parts[0] matches WordPart::DoubleQuoted(inner) && inner@.len() == 1 && plain_at(inner@[0])
}

/// `"pre$@post"`: one field per positional parameter, escaped as quoted
/// text, the text before `$@` joined to the first and the text after it to
/// the last; each but the first starts a new field. No field when there
/// are no parameters.
pub open spec fn quoted_at_fields(params: Seq<String>, pre: Seq<char>, post: Seq<char>) -> Seq<(Seq<char>, bool, bool)> {
    Seq::new(
        params.len(),
        |k: int|
            (
                (if k == 0 {
                    pre
                } else {
                    Seq::empty()
                }) + spec_escape_all(params[k]@) + (if k + 1 == params.len() {
                    post
                } else {
                    Seq::empty()
                }),
                false,
                k > 0,
            ),
    )
}

/// When every part of `parts[..n]` is literal or single quoted, so is the
/// whole prefix.
proof fn lemma_all_static(parts: Seq<WordPart>, quoted: bool, n: int)
    requires
        0 <= n <= parts.len(),
        forall|j: int| 0 <= j < n ==> static_view(#[trigger] parts[j], quoted) is Some,
    ensures
        static_views(parts, quoted, n) is Some,
    decreases n,
{
    if n > 0 {
        lemma_all_static(parts, quoted, n - 1);
    }
}

/// The fragments of literal and single-quoted parts are neither split nor
/// start a field.
proof fn lemma_static_view_flags(parts: Seq<WordPart>, quoted: bool, n: int, k: int)
    requires
        0 <= k < n <= parts.len(),
        static_views(parts, quoted, n) is Some,
    ensures
        static_views(parts, quoted, n).unwrap().len() == n,
        !static_views(parts, quoted, n).unwrap()[k].1,
        !static_views(parts, quoted, n).unwrap()[k].2,
    decreases n,
{
    lemma_static_prefix(parts, quoted, n - 1, n);
    if k < n - 1 {
        lemma_static_view_flags(parts, quoted, n - 1, k);
    } else if n - 1 > 0 {
        lemma_static_view_flags(parts, quoted, n - 1, 0);
    }
}

/// The concatenated values of fragments `frags[..n]`.
pub open spec fn joined_values(frags: Seq<ExpandedWord>, n: int) -> Seq<char>
    decreases n,
{
    if n <= 0 || n > frags.len() {
        Seq::empty()
    } else {
        joined_values(frags, n - 1) + frags[n - 1].value@
    }
}

/// The concatenated values of fragments.
pub fn join_values(frags: &Vec<ExpandedWord>) -> (r: String)
    ensures
        r@ == joined_values(frags@, frags@.len() as int),
{
    let mut s = String::new();
    let mut i: usize = 0;
    while i < frags.len()
        invariant
            i <= frags@.len(),
            s@ == joined_values(frags@, i as int),
        decreases frags.len() - i,
    {
        s.append(frags[i].value.as_str());
        i += 1;
    }
    s
}

/// The texts of fragment values, concatenated.
pub open spec fn texts_concat(fs: Seq<(Seq<char>, bool, bool)>) -> Seq<char>
    decreases fs.len(),
{
    if fs.len() == 0 {
        Seq::empty()
    } else {
        texts_concat(fs.drop_last()) + fs.last().0
    }
}

proof fn lemma_joined_values(frags: Seq<ExpandedWord>, n: int)
    requires
        0 <= n <= frags.len(),
    ensures
        joined_values(frags, n) == texts_concat(frag_views(frags).take(n)),
    decreases n,
{
    if n > 0 {
        lemma_joined_values(frags, n - 1);
        assert(frag_views(frags).take(n).drop_last() =~= frag_views(frags).take(n - 1));
    } else {
        assert(frag_views(frags).take(0) =~= Seq::<(Seq<char>, bool, bool)>::empty());
    }
}

/// The text of `$((expr))`: the value in decimal, or `0` when the
/// expression is malformed or fails.
pub open spec fn arith_text(expr: Seq<char>, vars: Variables) -> Seq<char> {
    match crate::arith::spec_eval_arith(expr, vars) {
        Some((v, _)) => crate::text::int_decimal(v as int),
        None => seq!['0'],
    }
}

/// A value as a fragment: escaped as quoted text inside quotes, with only
/// its backslashes escaped (and subject to splitting) outside.
fn value_frag(value: &str, quoted: bool) -> (r: ExpandedWord)
    ensures
        frag_view(r) == value_view(value@, quoted),
{
    if quoted {
        frag(escape_all(value), false, false)
    } else {
        frag(escape_backslashes(value), true, false)
    }
}

impl Shell {
    /// Expand a word to a list of fields (with field splitting and
    /// pathname expansion).
    pub fn expand_fields(&mut self, word: &Word) -> (r: Result<Vec<String>, ShellError>)
        requires
            old(self).wf(),
        ensures
            final(self).steps_from(&*old(self)),
            old(self).fuel > 5 && is_quoted_at(word.parts@) ==> (r matches Ok(v) && field_views(v@)
                == field_views(old(self).vars.params())),
            old(self).fuel > word.parts@.len() + 1 ==> (static_views(
                word.parts@,
                false,
                word.parts@.len() as int,
            ) matches Some(fs) ==> (fs.len() > 0 && !crate::glob::glob_chars_from(texts_concat(fs), 0) ==> (
            r matches Ok(v) && field_views(v@) == seq![spec_remove_escapes(texts_concat(fs))] && final(self).fuel
                == old(self).fuel - 2 - word.parts@.len() && final(self).same_settings(&*old(self))))),
            single_param(word.parts@, false) matches Some(pe) ==> assign_effect(
                *old(self),
                old(self).fuel - 3,
                pe,
                false,
                final(self).vars,
            ) && exists|frags: Seq<ExpandedWord>, pr: Result<(), ShellError>|
                #![trigger param_outcome(*old(self), old(self).fuel - 3, pe, false, Seq::<ExpandedWord>::empty(), frags, pr)]
                param_outcome(*old(self), old(self).fuel - 3, pe, false, Seq::<ExpandedWord>::empty(), frags, pr) && (
                pr is Err <==> r is Err) && (r matches Ok(v) ==> unglobbed_fields(
                spec_field_split(frags, ifs_of(final(self).vars)),
            ) ==> field_views(v@) == spec_field_split(frags, ifs_of(final(self).vars)).map_values(
                |t: Seq<char>| spec_remove_escapes(t),
            )),
        decreases old(self).fuel,
    {
        proof {
            if let Some(pe) = single_param(word.parts@, false) {
                if old(self).fuel == 0 {
                    assert(param_outcome(
                        *old(self),
                        old(self).fuel - 3,
                        pe,
                        false,
                        Seq::<ExpandedWord>::empty(),
                        Seq::<ExpandedWord>::empty(),
                        Err::<(), ShellError>(ShellError::Cancelled),
                    ));
                }
            }
        }
        self.tick()?;
        let mut frags: Vec<ExpandedWord> = Vec::new();
        let ghost params = old(self).vars.params();
        let ghost qa = old(self).fuel > 5 && is_quoted_at(word.parts@);
        let ghost st = old(self).fuel > word.parts@.len() + 1 && (static_views(
            word.parts@,
            false,
            word.parts@.len() as int,
        ) matches Some(fs) && fs.len() > 0 && !crate::glob::glob_chars_from(texts_concat(fs), 0));
        let pr = self.expand_parts(&word.parts, false, &mut frags);
        proof {
            if let Some(pe) = single_param(word.parts@, false) {
                assert(param_outcome(*old(self), old(self).fuel - 3, pe, false, Seq::<ExpandedWord>::empty(), frags@, pr));
            }
        }
        match pr {
            Err(e) => {
                return Err(e);
            },
            Ok(()) => {},
        }
        let ifs = self.vars.ifs();
        let split = field_split(frags.as_slice(), ifs.as_str());
        let ghost vars1 = self.vars;
        let ghost fuel1 = self.fuel;
        let ghost ng = unglobbed_fields(field_views(split@));
        assert(ifs@ == ifs_of(self.vars));
        let ghost expected: Seq<Seq<char>> = if qa {
            Seq::new(params.len(), |k: int| spec_escape_all(params[k]@))
        } else if st {
            seq![texts_concat(static_views(word.parts@, false, word.parts@.len() as int).unwrap())]
        } else {
            Seq::empty()
        };
        proof {
            assert(frag_views(Seq::<ExpandedWord>::empty()) =~= Seq::<(Seq<char>, bool, bool)>::empty());
            let fv = frag_views(frags@);
            assert(fv.len() == frags@.len());
            assert forall|k: int| 0 <= k < frags@.len() implies #[trigger] fv[k] == frag_view(frags@[k]) by {}
            if qa {
                let qf = quoted_at_fields(params, Seq::empty(), Seq::empty());
                assert(Seq::<(Seq<char>, bool, bool)>::empty() + qf =~= qf);
                assert(frags@.len() == params.len());
                assert forall|k: int| 0 <= k < frags@.len() implies (#[trigger] frags@[k]).value@ == spec_escape_all(
                    params[k]@,
                ) && !frags@[k].split_fields && frags@[k].word_break == (k > 0) by {
                    assert(fv[k] == qf[k]);
                    assert(Seq::<char>::empty() + spec_escape_all(params[k]@) + Seq::<char>::empty()
                        =~= spec_escape_all(params[k]@));
                }
                if frags@.len() > 0 {
                    let v0 = frags@[0].value@;
                    assert(Seq::<char>::empty() + v0 =~= v0);
                    lemma_split_fields_each(frags@, 1, ifs@, Seq::empty(), v0);
                    let l = Seq::<Seq<char>>::empty().push(v0) + Seq::new(
                        (frags@.len() - 1) as nat,
                        |k: int| frags@[1 + k].value@,
                    );
                    assert(l.drop_last().push(l.last()) =~= l);
                    assert(l =~= expected);
                } else {
                    assert(expected =~= Seq::<Seq<char>>::empty());
                }
            } else if st {
                let fs = static_views(word.parts@, false, word.parts@.len() as int).unwrap();
                assert(Seq::<(Seq<char>, bool, bool)>::empty() + fs =~= fs);
                assert(fv == fs);
                if word.parts@.len() > 0 {
                    lemma_static_view_flags(word.parts@, false, word.parts@.len() as int, 0);
                }
                assert forall|k: int| 0 <= k < frags@.len() implies !(#[trigger] frags@[k]).split_fields
                    && !frags@[k].word_break by {
                    lemma_static_view_flags(word.parts@, false, word.parts@.len() as int, k);
                    assert(fv[k] == fs[k]);
                }
                let v0 = frags@[0].value@;
                assert(joined_values(frags@, 0) =~= Seq::<char>::empty());
                assert(Seq::<char>::empty() + v0 =~= v0);
                assert(joined_values(frags@, 1) == v0);
                lemma_split_fields_join(frags@, 1, ifs@, Seq::empty());
                lemma_joined_values(frags@, frags@.len() as int);
                assert(fv.take(frags@.len() as int) =~= fv);
                assert(Seq::<Seq<char>>::empty().push(joined_values(frags@, frags@.len() as int)) =~= expected);
            }
        }
        let mut result: Vec<String> = Vec::new();
        let mut i: usize = 0;
        while i < split.len()
            invariant
                self.wf(),
                self.fuel < old(self).fuel,
                i <= split@.len(),
                (qa || st) ==> field_views(split@) == expected,
                (qa || st) ==> field_views(result@) == expected.take(i as int).map_values(
                    |t: Seq<char>| spec_remove_escapes(t),
                ),
                qa ==> expected == Seq::new(params.len(), |k: int| spec_escape_all(params[k]@)),
                !qa && st ==> expected.len() == 1 && !crate::glob::glob_chars_from(expected[0], 0),
                self.vars == vars1,
                st ==> self.fuel == fuel1 && self.same_settings(&*old(self)),
                ng == unglobbed_fields(field_views(split@)),
                ng ==> field_views(result@) == field_views(split@).take(i as int).map_values(
                    |t: Seq<char>| spec_remove_escapes(t),
                ),
            decreases split.len() - i,
        {
            let field = &split[i];
            proof {
                if qa || st {
                    assert(field_views(split@)[i as int] == field@);
                }
                if qa {
                    lemma_escape_all_inert(params[i as int]@);
                }
            }
            if has_glob_chars(field.as_str()) {
                proof {
                    if ng {
                        assert(field_views(split@)[i as int] == field@);
                    }
                }
                let cwd = self.cwd.clone();
                let matches = crate::glob::glob(&mut self.host, field.as_str(), cwd.as_str());
                if matches.len() == 0 {
                    result.push(remove_escapes(field.as_str()));
                } else {
                    crate::eval::append_strings(&mut result, &matches);
                }
            } else {
                let ghost before = result@;
                result.push(remove_escapes(field.as_str()));
                proof {
                    if qa || st {
                        assert(field_views(result@) =~= field_views(before).push(spec_remove_escapes(field@)));
                        assert(expected.take(i + 1) =~= expected.take(i as int).push(expected[i as int]));
                    }
                    if ng {
                        assert(field_views(split@)[i as int] == field@);
                        assert(field_views(result@) =~= field_views(before).push(spec_remove_escapes(field@)));
                        assert(field_views(split@).take(i + 1) =~= field_views(split@).take(i as int).push(field@));
                        assert(field_views(split@).take(i + 1).map_values(|t: Seq<char>| spec_remove_escapes(t))
                            =~= field_views(split@).take(i as int).map_values(|t: Seq<char>| spec_remove_escapes(t)).push(
                            spec_remove_escapes(field@),
                        ));
                    }
                }
            }
            i += 1;
        }
        proof {
            if qa || st {
                assert(expected.take(split@.len() as int) =~= expected);
            }
            if ng {
                assert(field_views(split@).take(split@.len() as int) =~= field_views(split@));
            }
            if qa {
                assert forall|k: int| 0 <= k < params.len() implies spec_remove_escapes(spec_escape_all(params[k]@))
                    == params[k]@ by {
                    law_remove_escapes_undoes_escape_all(params[k]@);
                }
                assert(expected.map_values(|t: Seq<char>| spec_remove_escapes(t)) =~= field_views(params));
            }
        }
        Ok(result)
    }

    /// Expand a word to a single string (no field splitting or pathname
    /// expansion).
    pub fn expand_string(&mut self, word: &Word) -> (r: Result<String, ShellError>)
        requires
            old(self).wf(),
        ensures
            final(self).steps_from(&*old(self)),
            old(self).fuel > word.parts@.len() + 1 ==> (static_views(
                word.parts@,
                false,
                word.parts@.len() as int,
            ) matches Some(fs) ==> r matches Ok(t) && t@ == spec_remove_escapes(texts_concat(fs))
                && final(self).keeps_io(&*old(self)) && final(self).fuel == old(self).fuel - 2
                - word.parts@.len() && final(self).same_settings(&*old(self))),
            single_param(word.parts@, false) matches Some(pe) ==> assign_effect(
                *old(self),
                old(self).fuel - 3,
                pe,
                false,
                final(self).vars,
            ) && exists|frags: Seq<ExpandedWord>, pr: Result<(), ShellError>|
                #![trigger param_outcome(*old(self), old(self).fuel - 3, pe, false, Seq::<ExpandedWord>::empty(), frags, pr)]
                param_outcome(*old(self), old(self).fuel - 3, pe, false, Seq::<ExpandedWord>::empty(), frags, pr) && (
                pr is Err <==> r is Err) && (r matches Ok(t) ==> t@ == spec_remove_escapes(
                texts_concat(frag_views(frags)),
            )),
        decreases old(self).fuel,
    {
        proof {
            if let Some(pe) = single_param(word.parts@, false) {
                if old(self).fuel == 0 {
                    assert(param_outcome(
                        *old(self),
                        old(self).fuel - 3,
                        pe,
                        false,
                        Seq::<ExpandedWord>::empty(),
                        Seq::<ExpandedWord>::empty(),
                        Err::<(), ShellError>(ShellError::Cancelled),
                    ));
                }
            }
        }
        self.tick()?;
        let mut frags: Vec<ExpandedWord> = Vec::new();
        let pr = self.expand_parts(&word.parts, false, &mut frags);
        let ghost fr = frags@;
        proof {
            if let Some(pe) = single_param(word.parts@, false) {
                assert(param_outcome(*old(self), old(self).fuel - 3, pe, false, Seq::<ExpandedWord>::empty(), fr, pr));
            }
        }
        match pr {
            Err(e) => {
                return Err(e);
            },
            Ok(()) => {},
        }
        let joined = join_values(&frags);
        proof {
            lemma_joined_values(frags@, frags@.len() as int);
            assert(frag_views(frags@).take(frags@.len() as int) =~= frag_views(frags@));
            assert(frag_views(Seq::<ExpandedWord>::empty()) =~= Seq::<(Seq<char>, bool, bool)>::empty());
            if let Some(fs) = static_views(word.parts@, false, word.parts@.len() as int) {
                assert(Seq::<(Seq<char>, bool, bool)>::empty() + fs =~= fs);
            }
        }
        Ok(remove_escapes(joined.as_str()))
    }

    /// Expand the parts of a here-document body: its text is taken
    /// literally, only expansions apply.
    pub fn expand_heredoc(&mut self, parts: &Vec<WordPart>) -> (r: Result<String, ShellError>)
        requires
            old(self).wf(),
        ensures
            final(self).steps_from(&*old(self)),
            old(self).fuel > parts@.len() + 1 ==> (static_views(parts@, true, parts@.len() as int) matches Some(
                fs,
            ) ==> r matches Ok(t) && t@ == spec_remove_escapes(texts_concat(fs)) && final(self).keeps_io(
                &*old(self),
            ) && final(self).fuel == old(self).fuel - 2 - parts@.len()),
        decreases old(self).fuel,
    {
        self.tick()?;
        let mut frags: Vec<ExpandedWord> = Vec::new();
        self.expand_parts(parts, true, &mut frags)?;
        let joined = join_values(&frags);
        proof {
            lemma_joined_values(frags@, frags@.len() as int);
            assert(frag_views(frags@).take(frags@.len() as int) =~= frag_views(frags@));
            assert(frag_views(Seq::<ExpandedWord>::empty()) =~= Seq::<(Seq<char>, bool, bool)>::empty());
            if let Some(fs) = static_views(parts@, true, parts@.len() as int) {
                assert(Seq::<(Seq<char>, bool, bool)>::empty() + fs =~= fs);
            }
        }
        Ok(remove_escapes(joined.as_str()))
    }

    /// Expand a word to a pattern for `case` and the trim operators: quoted
    /// glob characters come out escaped.
    pub fn expand_pattern(&mut self, word: &Word) -> (r: Result<String, ShellError>)
        requires
            old(self).wf(),
        ensures
            final(self).steps_from(&*old(self)),
            old(self).fuel > word.parts@.len() + 1 ==> (static_views(
                word.parts@,
                false,
                word.parts@.len() as int,
            ) matches Some(fs) ==> r matches Ok(t) && t@ == texts_concat(fs) && final(self).keeps_io(
                &*old(self),
            ) && final(self).fuel == old(self).fuel - 2 - word.parts@.len() && final(self).same_settings(
                &*old(self),
            )),
        decreases old(self).fuel,
    {
        self.tick()?;
        let mut frags: Vec<ExpandedWord> = Vec::new();
        self.expand_parts(&word.parts, false, &mut frags)?;
        proof {
            lemma_joined_values(frags@, frags@.len() as int);
            assert(frag_views(frags@).take(frags@.len() as int) =~= frag_views(frags@));
            assert(frag_views(Seq::<ExpandedWord>::empty()) =~= Seq::<(Seq<char>, bool, bool)>::empty());
            if let Some(fs) = static_views(word.parts@, false, word.parts@.len() as int) {
                assert(Seq::<(Seq<char>, bool, bool)>::empty() + fs =~= fs);
            }
        }
        Ok(join_values(&frags))
    }

    /// Expand word parts (inside double quotes when `quoted`) into fragments.
    pub fn expand_parts(&mut self, parts: &Vec<WordPart>, quoted: bool, out: &mut Vec<ExpandedWord>) -> (r: Result<
        (),
        ShellError,
    >)
        requires
            old(self).wf(),
        ensures
            final(self).steps_from(&*old(self)),
            old(self).fuel > parts@.len() ==> (static_views(parts@, quoted, parts@.len() as int) matches Some(
                fs,
            ) ==> r is Ok && frag_views(final(out)@) == frag_views(old(out)@) + fs && final(self).keeps_io(
                &*old(self),
            ) && final(self).fuel == old(self).fuel - 1 - parts@.len() && final(self).vars == old(self).vars
                && final(self).same_settings(&*old(self))),
            old(self).fuel > 4 && is_quoted_at(parts@) ==> r is Ok && frag_views(final(out)@) == frag_views(
                old(out)@,
            ) + quoted_at_fields(old(self).vars.params(), Seq::empty(), Seq::empty()),
            single_param(parts@, quoted) matches Some(pe) ==> param_outcome(
                *old(self),
                old(self).fuel - 2,
                pe,
                quoted,
                old(out)@,
                final(out)@,
                r,
            ) && assign_effect(*old(self), old(self).fuel - 2, pe, quoted, final(self).vars),
        decreases old(self).fuel,
    {
        self.tick()?;
        let ghost out0 = out@;
        let ghost s1 = *self;
        let ghost qa = old(self).fuel > 4 && is_quoted_at(parts@);
        let mut i: usize = 0;
        assert(frag_views(out0) + Seq::<(Seq<char>, bool, bool)>::empty() =~= frag_views(out0));
        while i < parts.len()
            invariant
                self.wf(),
                self.fuel < old(self).fuel,
                i <= parts@.len(),
                qa == (old(self).fuel > 4 && is_quoted_at(parts@)),
                qa && i == 0 ==> out@ == out0 && self.vars == old(self).vars && self.fuel == old(self).fuel - 1,
                qa && i == 1 ==> frag_views(out@) == frag_views(out0) + quoted_at_fields(
                    old(self).vars.params(),
                    Seq::empty(),
                    Seq::empty(),
                ),
                static_views(parts@, quoted, i as int) matches Some(fs) ==> (self.fuel == old(self).fuel - 1 - i
                    && frag_views(out@) == frag_views(out0) + fs && self.keeps_io(&*old(self)) && self.vars
                    == old(self).vars && self.same_settings(&*old(self))),
                i == 0 ==> *self == s1 && out@ == out0,
                s1.fuel == old(self).fuel - 1 && s1.vars == old(self).vars && s1.exit_status == old(self).exit_status
                    && s1.pid == old(self).pid && s1.opts == old(self).opts && s1.last_bg_pid == old(self).last_bg_pid,
                i == 1 ==> (single_param(parts@, quoted) matches Some(pe) ==> param_outcome(
                    *old(self),
                    old(self).fuel - 2,
                    pe,
                    quoted,
                    out0,
                    out@,
                    Ok(()),
                ) && assign_effect(*old(self), old(self).fuel - 2, pe, quoted, self.vars)),
            decreases parts.len() - i,
        {
            let ghost out1 = out@;
            let ghost fuel1 = self.fuel;
            proof {
                if static_views(parts@, quoted, parts@.len() as int) is Some {
                    lemma_static_prefix(parts@, quoted, i as int, parts@.len() as int);
                }
                if static_views(parts@, quoted, i + 1) is Some {
                    lemma_static_prefix(parts@, quoted, i as int, i + 1);
                }
                if qa {
                    if let WordPart::DoubleQuoted(inner) = parts@[0] {
                        assert(at_form(inner@, 0));
                        assert(static_views(inner@, true, 0) == Some(Seq::<(Seq<char>, bool, bool)>::empty()));
                        assert(inner@.skip(1).len() == 0);
                        assert(static_views(inner@.skip(1), true, 0) == Some(Seq::<(Seq<char>, bool, bool)>::empty()));
                        assert(texts_concat(Seq::<(Seq<char>, bool, bool)>::empty()) == Seq::<char>::empty());
                    }
                }
            }
            self.expand_part(&parts[i], quoted, out)?;
            proof {
                if let Some(fs) = static_views(parts@, quoted, i + 1) {
                    let f = static_view(parts@[i as int], quoted).unwrap();
                    assert(fs == static_views(parts@, quoted, i as int).unwrap().push(f));
                    assert(frag_views(out0) + fs =~= (frag_views(out0) + static_views(parts@, quoted, i as int).unwrap()).push(f));
                }
            }
            i += 1;
        }
        Ok(())
    }

    /// Expand one word part.
    fn expand_part(&mut self, part: &WordPart, quoted: bool, out: &mut Vec<ExpandedWord>) -> (r: Result<
        (),
        ShellError,
    >)
        requires
            old(self).wf(),
        ensures
            final(self).steps_from(&*old(self)),
            r is Ok ==> old(self).fuel > 0,
            old(self).fuel > 0 ==> (static_view(*part, quoted) matches Some(f) ==> r is Ok && final(self).fuel
                == old(self).fuel - 1 && frag_views(final(out)@) == frag_views(old(out)@).push(f)
                && final(self).keeps_io(&*old(self)) && final(self).vars == old(self).vars
                && final(self).same_settings(&*old(self))),
            old(self).fuel > 0 ==> match *part {
                WordPart::Tilde(user) => r is Ok && frag_views(final(out)@) == frag_views(old(out)@).push(
                    (spec_escape_all(tilde_text(old(self).vars, user@)), false, false),
                ),
                WordPart::DoubleQuoted(inner) => old(self).fuel > inner@.len() + 2 ==> (static_views(
                    inner@,
                    true,
                    inner@.len() as int,
                ) matches Some(fs) ==> r is Ok && frag_views(final(out)@) == frag_views(old(out)@).push(
                    (texts_concat(fs), false, false),
                ) && final(self).keeps_io(&*old(self)) && final(self).vars == old(self).vars) && forall|a: int|
                    #![trigger at_form(inner@, a)]
                    old(self).fuel > inner@.len() + 2 && at_form(inner@, a) ==> r is Ok && frag_views(
                        final(out)@,
                    ) == frag_views(old(out)@) + quoted_at_fields(
                        old(self).vars.params(),
                        texts_concat(static_views(inner@, true, a).unwrap()),
                        texts_concat(static_views(inner@.skip(a + 1), true, inner@.len() - a - 1).unwrap()),
                    ),
                WordPart::Arith(inner) => old(self).fuel > inner@.len() + 1 ==> (static_views(
                    inner@,
                    true,
                    inner@.len() as int,
                ) matches Some(fs) ==> {
                    let e = spec_remove_escapes(texts_concat(fs));
                    &&& r is Ok
                    &&& frag_views(final(out)@) == frag_views(old(out)@).push(
                        value_view(arith_text(e, old(self).vars), quoted),
                    )
                    &&& crate::arith::spec_eval_arith(e, old(self).vars) matches Some((v, env))
                        ==> crate::arith::arith_env(final(self).vars) == env
                }),
                WordPart::Param(pe) => {
                    &&& pe.op is Normal && pe.name@ == seq!['@'] && !quoted ==> r is Ok && frag_views(final(out)@)
                        == frag_views(old(out)@) + positional_frags(old(self).vars.params())
                    &&& pe.op is Normal && pe.name@ == seq!['*'] ==> r is Ok && frag_views(final(out)@) == (if quoted {
                        frag_views(old(out)@).push((spec_escape_all(star_text(old(self).vars)), false, false))
                    } else {
                        frag_views(old(out)@) + positional_frags(old(self).vars.params())
                    })
                },
                _ => true,
            },
            match *part {
                WordPart::Param(pe) => !is_positional_list(pe, quoted) ==> param_outcome(
                    *old(self),
                    old(self).fuel - 1,
                    pe,
                    quoted,
                    old(out)@,
                    final(out)@,
                    r,
                ),
                _ => true,
            },
            match *part {
                WordPart::Param(pe) => !is_positional_list(pe, quoted) ==> assign_effect(
                    *old(self),
                    old(self).fuel - 1,
                    pe,
                    quoted,
                    final(self).vars,
                ),
                _ => true,
            },
        decreases old(self).fuel,
    {
        self.tick()?;
        let ghost out0 = out@;
        match part {
            WordPart::Literal(s) => {
                let pushed = if quoted {
                    frag(escape_all(s.as_str()), false, false)
                } else {
                    frag(s.clone(), false, false)
                };
                proof {
                    lemma_frag_views_push(out@, pushed);
                }
                out.push(pushed);
            },
            WordPart::SingleQuoted(s) => {
                let pushed = frag(escape_all(s.as_str()), false, false);
                proof {
                    lemma_frag_views_push(out@, pushed);
                }
                out.push(pushed);
            },
            WordPart::DoubleQuoted(inner) => {
                self.expand_double_quoted(inner, out)?;
            },
            WordPart::Param(pe) => {
                let plain = match pe.op {
                    ParamOp::Normal => true,
                    _ => false,
                };
                if plain && is_at_or_star(&pe.name, '@') && !quoted {
                    let params = self.vars.params_vec().clone();
                    let mut k: usize = 0;
                    assert(frag_views(out0) + positional_frags(params@.take(0)) =~= frag_views(out0));
                    while k < params.len()
                        invariant
                            k <= params@.len(),
                            frag_views(out@) == frag_views(out0) + positional_frags(params@.take(k as int)),
                        decreases params.len() - k,
                    {
                        let pushed = frag(escape_backslashes(params[k].as_str()), true, true);
                        proof {
                            lemma_frag_views_push(out@, pushed);
                            assert(positional_frags(params@.take(k + 1)) =~= positional_frags(params@.take(k as int)).push(
                                frag_view(pushed),
                            ));
                        }
                        out.push(pushed);
                        k += 1;
                    }
                    assert(params@.take(params@.len() as int) =~= params@);
                } else if plain && is_at_or_star(&pe.name, '*') && quoted {
                    let ifs = chars_of(self.vars.ifs().as_str());
                    let sep = if ifs.len() > 0 {
                        let mut v: Vec<char> = Vec::new();
                        v.push(ifs[0]);
                        string_of(&v)
                    } else {
                        String::new()
                    };
                    proof {
                        if ifs@.len() > 0 {
                            assert(sep@ =~= seq![ifs@[0]]);
                        }
                    }
                    let joined = self.vars.positional_join_shell(sep.as_str());
                    let pushed = frag(escape_all(joined.as_str()), false, false);
                    proof {
                        lemma_frag_views_push(out@, pushed);
                    }
                    out.push(pushed);
                } else if plain && is_at_or_star(&pe.name, '*') && !quoted {
                    let params = self.vars.params_vec().clone();
                    let mut k: usize = 0;
                    assert(frag_views(out0) + positional_frags(params@.take(0)) =~= frag_views(out0));
                    while k < params.len()
                        invariant
                            k <= params@.len(),
                            frag_views(out@) == frag_views(out0) + positional_frags(params@.take(k as int)),
                        decreases params.len() - k,
                    {
                        let pushed = frag(escape_backslashes(params[k].as_str()), true, true);
                        proof {
                            lemma_frag_views_push(out@, pushed);
                            assert(positional_frags(params@.take(k + 1)) =~= positional_frags(params@.take(k as int)).push(
                                frag_view(pushed),
                            ));
                        }
                        out.push(pushed);
                        k += 1;
                    }
                    assert(params@.take(params@.len() as int) =~= params@);
                } else {
                    self.expand_param(pe, quoted, out)?;
                }
            },
            WordPart::Tilde(user) => {
                proof {
                    reveal_strlit("HOME");
                    reveal_strlit("~");
                    assert("HOME"@ =~= seq!['H', 'O', 'M', 'E']);
                    assert("~"@ =~= seq!['~']);
                }
                let value = if user.as_str().is_empty() {
                    match self.vars.get("HOME") {
                        Some(h) => h.to_owned(),
                        None => "~".to_owned(),
                    }
                } else {
                    let mut t = "~".to_owned();
                    t.append(user.as_str());
                    t
                };
                let pushed = frag(escape_all(value.as_str()), false, false);
                proof {
                    lemma_frag_views_push(out@, pushed);
                }
                out.push(pushed);
            },
            WordPart::CmdSubst(cmd) | WordPart::Backtick(cmd) => {
                let value = self.command_subst(cmd)?;
                out.push(value_frag(value.as_str(), quoted));
            },
            WordPart::Arith(inner) => {
                let mut frags: Vec<ExpandedWord> = Vec::new();
                self.expand_parts(inner, true, &mut frags)?;
                let joined = join_values(&frags);
                proof {
                    lemma_joined_values(frags@, frags@.len() as int);
                    assert(frag_views(frags@).take(frags@.len() as int) =~= frag_views(frags@));
                    assert(frag_views(Seq::<ExpandedWord>::empty()) =~= Seq::<(Seq<char>, bool, bool)>::empty());
                    if let Some(fs) = static_views(inner@, true, inner@.len() as int) {
                        assert(Seq::<(Seq<char>, bool, bool)>::empty() + fs =~= fs);
                    }
                    reveal_strlit("0");
                    assert("0"@ =~= seq!['0']);
                }
                let text = remove_escapes(joined.as_str());
                let status = self.exit_status;
                let pid = self.pid;
                let value = match crate::arith::eval_arith(text.as_str(), &mut self.vars, status, pid) {
                    Ok(n) => int_to_string(n),
                    Err(e) => {
                        let mut m = "arithmetic error: ".to_owned();
                        m.append(e.as_str());
                        self.err_msg(m.as_str());
                        "0".to_owned()
                    },
                };
                let pushed = value_frag(value.as_str(), quoted);
                proof {
                    lemma_frag_views_push(out@, pushed);
                }
                out.push(pushed);
            },
        }
        Ok(())
    }

    /// A double-quoted region: one field, except for `"$@"`, which gives one
    /// field per positional parameter (none when there are none), the text
    /// before it joined to the first and the text after it to the last.
    fn expand_double_quoted(&mut self, inner: &Vec<WordPart>, out: &mut Vec<ExpandedWord>) -> (r: Result<
        (),
        ShellError,
    >)
        requires
            old(self).wf(),
        ensures
            final(self).steps_from(&*old(self)),
            old(self).fuel > inner@.len() + 1 ==> (static_views(inner@, true, inner@.len() as int) matches Some(
                fs,
            ) ==> r is Ok && frag_views(final(out)@) == frag_views(old(out)@).push(
                (texts_concat(fs), false, false),
            ) && final(self).keeps_io(&*old(self)) && final(self).vars == old(self).vars),
            forall|a: int|
                #![trigger at_form(inner@, a)]
                old(self).fuel > inner@.len() + 1 && at_form(inner@, a) ==> r is Ok && frag_views(final(out)@)
                    == frag_views(old(out)@) + quoted_at_fields(
                    old(self).vars.params(),
                    texts_concat(static_views(inner@, true, a).unwrap()),
                    texts_concat(static_views(inner@.skip(a + 1), true, inner@.len() - a - 1).unwrap()),
                ),
        decreases old(self).fuel,
    {
        self.tick()?;
        let mut at: usize = inner.len();
        let mut k: usize = 0;
        proof {
            if static_views(inner@, true, inner@.len() as int) is Some {
                assert forall|j: int| 0 <= j < inner@.len() implies static_view(#[trigger] inner@[j], true) is Some by {
                    lemma_static_prefix(inner@, true, j, inner@.len() as int);
                }
            }
        }
        while k < inner.len()
            invariant
                k <= inner@.len(),
                at <= inner@.len(),
                static_views(inner@, true, inner@.len() as int) is Some ==> at == inner@.len(),
                static_views(inner@, true, inner@.len() as int) is Some ==> forall|j: int|
                    0 <= j < inner@.len() ==> static_view(#[trigger] inner@[j], true) is Some,
                forall|a: int|
                    #![trigger at_form(inner@, a)]
                    at_form(inner@, a) ==> if k <= a {
                        at == inner@.len()
                    } else {
                        at == a
                    },
            decreases inner.len() - k,
        {
            if at == inner.len() && is_plain_at(&inner[k]) {
                at = k;
            }
            k += 1;
        }
        if at == inner.len() {
            proof {
                assert forall|a: int| #![trigger at_form(inner@, a)] !at_form(inner@, a) by {
                    if at_form(inner@, a) {
                        assert(at == a);
                    }
                }
            }
            let mut frags: Vec<ExpandedWord> = Vec::new();
            self.expand_parts(inner, true, &mut frags)?;
            let pushed = frag(join_values(&frags), false, false);
            proof {
                lemma_joined_values(frags@, frags@.len() as int);
                assert(frag_views(frags@).take(frags@.len() as int) =~= frag_views(frags@));
                assert(frag_views(Seq::<ExpandedWord>::empty()) =~= Seq::<(Seq<char>, bool, bool)>::empty());
                if let Some(fs) = static_views(inner@, true, inner@.len() as int) {
                    assert(Seq::<(Seq<char>, bool, bool)>::empty() + fs =~= fs);
                }
                lemma_frag_views_push(out@, pushed);
            }
            out.push(pushed);
            return Ok(());
        }
        assert(static_views(inner@, true, inner@.len() as int) is None);
        assert forall|a: int| #![trigger at_form(inner@, a)] at_form(inner@, a) implies a == at by {}
        let ghost form = old(self).fuel > inner@.len() + 1 && at_form(inner@, at as int);
        proof {
            if form {
                lemma_all_static(inner@, true, at as int);
                lemma_all_static(inner@.skip(at + 1), true, inner@.len() - at - 1);
            }
        }
        let ghost out0 = out@;
        let mut prefix = String::new();
        let mut p: usize = 0;
        while p < at
            invariant
                self.wf(),
                self.fuel < old(self).fuel,
                at < inner@.len(),
                p <= at,
                static_views(inner@, true, inner@.len() as int) is None,
                out@ == out0,
                form == (old(self).fuel > inner@.len() + 1 && at_form(inner@, at as int)),
                forall|a: int| #![trigger at_form(inner@, a)] at_form(inner@, a) ==> a == at,
                form ==> static_views(inner@, true, at as int) is Some,
                form ==> self.fuel == old(self).fuel - 1 - p && self.vars == old(self).vars
                    && static_views(inner@, true, p as int) is Some && prefix@ == texts_concat(
                    static_views(inner@, true, p as int).unwrap(),
                ),
            decreases at - p,
        {
            let mut frags: Vec<ExpandedWord> = Vec::new();
            let ghost pre = prefix@;
            proof {
                if form {
                    lemma_static_prefix(inner@, true, p as int, at as int);
                }
            }
            self.expand_part(&inner[p], true, &mut frags)?;
            let piece = join_values(&frags);
            proof {
                if form {
                    let f = static_view(inner@[p as int], true).unwrap();
                    assert(frag_views(Seq::<ExpandedWord>::empty()) =~= Seq::<(Seq<char>, bool, bool)>::empty());
                    assert(frag_views(frags@) == seq![f]);
                    assert(frag_views(frags@).len() == frags@.len());
                    assert(frag_views(frags@)[0] == frag_view(frags@[0]));
                    assert(joined_values(frags@, 0) =~= Seq::<char>::empty());
                    assert(piece@ =~= f.0);
                    let fs = static_views(inner@, true, p as int).unwrap();
                    assert(static_views(inner@, true, p + 1) == Some(fs.push(f)));
                    assert(fs.push(f).drop_last() =~= fs);
                }
            }
            prefix.append(piece.as_str());
            p += 1;
        }
        let mut suffix = String::new();
        let mut q: usize = at + 1;
        let ghost rest = inner@.skip(at + 1);
        while q < inner.len()
            invariant
                self.wf(),
                self.fuel < old(self).fuel,
                at < inner@.len(),
                at + 1 <= q <= inner@.len(),
                rest == inner@.skip(at + 1),
                static_views(inner@, true, inner@.len() as int) is None,
                out@ == out0,
                form == (old(self).fuel > inner@.len() + 1 && at_form(inner@, at as int)),
                forall|a: int| #![trigger at_form(inner@, a)] at_form(inner@, a) ==> a == at,
                form ==> static_views(inner@, true, at as int) is Some,
                form ==> static_views(rest, true, inner@.len() - at - 1) is Some,
                form ==> self.fuel == old(self).fuel - 1 - at - (q - at - 1) && self.vars == old(self).vars
                    && prefix@ == texts_concat(static_views(inner@, true, at as int).unwrap())
                    && static_views(rest, true, q - at - 1) is Some && suffix@ == texts_concat(
                    static_views(rest, true, q - at - 1).unwrap(),
                ),
            decreases inner.len() - q,
        {
            let mut frags: Vec<ExpandedWord> = Vec::new();
            proof {
                if form {
                    lemma_static_prefix(rest, true, q - at - 1, inner@.len() - at - 1);
                    assert(rest[q - at - 1] == inner@[q as int]);
                }
            }
            self.expand_part(&inner[q], true, &mut frags)?;
            let piece = join_values(&frags);
            proof {
                if form {
                    let f = static_view(inner@[q as int], true).unwrap();
                    assert(frag_views(Seq::<ExpandedWord>::empty()) =~= Seq::<(Seq<char>, bool, bool)>::empty());
                    assert(frag_views(frags@) == seq![f]);
                    assert(frag_views(frags@).len() == frags@.len());
                    assert(frag_views(frags@)[0] == frag_view(frags@[0]));
                    assert(joined_values(frags@, 0) =~= Seq::<char>::empty());
                    assert(piece@ =~= f.0);
                    let fs = static_views(rest, true, q - at - 1).unwrap();
                    assert(static_views(rest, true, q - at) == Some(fs.push(f)));
                    assert(fs.push(f).drop_last() =~= fs);
                }
            }
            suffix.append(piece.as_str());
            q += 1;
        }
        let params = self.vars.params_vec().clone();
        let n = params.len();
        let mut k: usize = 0;
        let ghost fields = quoted_at_fields(params@, prefix@, suffix@);
        assert(frag_views(out0) + fields.take(0) =~= frag_views(out0));
        while k < n
            invariant
                k <= n == params@.len(),
                fields == quoted_at_fields(params@, prefix@, suffix@),
                frag_views(out@) == frag_views(out0) + fields.take(k as int),
            decreases n - k,
        {
            let mut v = String::new();
            if k == 0 {
                v.append(prefix.as_str());
            }
            v.append(escape_all(params[k].as_str()).as_str());
            if k + 1 == n {
                v.append(suffix.as_str());
            }
            let pushed = frag(v, false, k > 0);
            proof {
                lemma_frag_views_push(out@, pushed);
                assert(frag_view(pushed) == fields[k as int]);
                assert(fields.take(k + 1) =~= fields.take(k as int).push(fields[k as int]));
            }
            out.push(pushed);
            k += 1;
        }
        assert(fields.take(n as int) =~= fields);
        Ok(())
    }

    /// The raw value of a parameter: a special parameter or a variable.
    fn param_value(&self, name: &String) -> (r: Option<String>)
        ensures
            r matches Some(t) ==> param_text(*self, name@) == Some(t@),
            r is None ==> param_text(*self, name@) is None,
    {
        if crate::eval::is_special_param(name.as_str()) {
            let flags = self.opts.flags_string();
            self.vars.get_special(name.as_str(), self.exit_status, self.pid, flags.as_str(), self.last_bg_pid)
        } else {
            match self.vars.get(name.as_str()) {
                Some(v) => Some(v.to_owned()),
                None => None,
            }
        }
    }

    /// Expand a parameter expression into fragments.
    fn expand_param(&mut self, pe: &ParamExpr, quoted: bool, out: &mut Vec<ExpandedWord>) -> (r: Result<
        (),
        ShellError,
    >)
        requires
            old(self).wf(),
        ensures
            final(self).steps_from(&*old(self)),
            param_outcome(*old(self), old(self).fuel as int, *pe, quoted, old(out)@, final(out)@, r),
            assign_effect(*old(self), old(self).fuel as int, *pe, quoted, final(self).vars),
        decreases old(self).fuel,
    {
        self.tick()?;
        let ghost before = out@;
        let name = &pe.name;
        let raw = self.param_value(name);
        let unset_error = {
            let mut m = name.clone();
            m.append(": parameter not set");
            m
        };
        match &pe.op {
            ParamOp::BadSubst => {
                let mut m = name.clone();
                m.append(": bad substitution");
                Err(ShellError::Runtime { msg: m, span: pe.span })
            },
            ParamOp::Normal => {
                match raw {
                    Some(v) => {
                        let pushed = value_frag(v.as_str(), quoted);
                        proof {
                            lemma_frag_views_push(out@, pushed);
                        }
                        out.push(pushed);
                        Ok(())
                    },
                    None => {
                        if self.opts.nounset && !crate::eval::is_special_param(name.as_str()) {
                            return Err(ShellError::Runtime { msg: unset_error, span: pe.span });
                        }
                        proof {
                            reveal_strlit("");
                        }
                        let pushed = value_frag("", quoted);
                        proof {
                            lemma_frag_views_push(out@, pushed);
                        }
                        out.push(pushed);
                        Ok(())
                    },
                }
            },
            ParamOp::Length => {
                match raw {
                    Some(v) => {
                        let n = chars_of(v.as_str()).len();
                        let pushed = value_frag(usize_to_string(n).as_str(), quoted);
                        proof {
                            lemma_frag_views_push(out@, pushed);
                        }
                        out.push(pushed);
                        Ok(())
                    },
                    None => {
                        if self.opts.nounset && !crate::eval::is_special_param(name.as_str()) {
                            return Err(ShellError::Runtime { msg: unset_error, span: pe.span });
                        }
                        proof {
                            reveal_strlit("0");
                            assert("0"@ =~= crate::text::decimal(0));
                        }
                        let pushed = value_frag("0", quoted);
                        proof {
                            lemma_frag_views_push(out@, pushed);
                        }
                        out.push(pushed);
                        Ok(())
                    },
                }
            },
            ParamOp::Default { colon, word } | ParamOp::Assign { colon, word } => {
                let is_assign = match &pe.op {
                    ParamOp::Assign { .. } => true,
                    _ => false,
                };
                let is_unset = match &raw {
                    Some(v) => *colon && v.as_str().is_empty(),
                    None => true,
                };
                if is_unset {
                    let mut frags: Vec<ExpandedWord> = Vec::new();
                    self.expand_parts(word, quoted, &mut frags)?;
                    if is_assign {
                        let joined = join_values(&frags);
                        proof {
                            lemma_joined_values(frags@, frags@.len() as int);
                            assert(frag_views(frags@).take(frags@.len() as int) =~= frag_views(frags@));
                            assert(frag_views(Seq::<ExpandedWord>::empty()) =~= Seq::<(Seq<char>, bool, bool)>::empty());
                            if let Some(fs) = static_views(word@, quoted, word@.len() as int) {
                                assert(Seq::<(Seq<char>, bool, bool)>::empty() + fs =~= fs);
                            }
                        }
                        let val = remove_escapes(joined.as_str());
                        let _ = self.vars.set(name.as_str(), val.as_str());
                    }
                    let mut k: usize = 0;
                    proof {
                        assert(frag_views(frags@).take(0) =~= Seq::<(Seq<char>, bool, bool)>::empty());
                        assert(frag_views(out@) + frag_views(frags@).take(0) =~= frag_views(out@));
                    }
                    while k < frags.len()
                        invariant
                            k <= frags@.len(),
                            frag_views(out@) == frag_views(before) + frag_views(frags@).take(k as int),
                        decreases frags.len() - k,
                    {
                        let f = &frags[k];
                        let pushed = frag(f.value.clone(), f.split_fields, f.word_break);
                        proof {
                            lemma_frag_views_push(out@, pushed);
                            assert(frag_view(pushed) == frag_views(frags@)[k as int]);
                            assert(frag_views(frags@).take(k + 1) =~= frag_views(frags@).take(k as int).push(
                                frag_views(frags@)[k as int],
                            ));
                            assert(frag_views(before) + frag_views(frags@).take(k + 1) =~= (frag_views(before)
                                + frag_views(frags@).take(k as int)).push(frag_views(frags@)[k as int]));
                        }
                        out.push(pushed);
                        k += 1;
                    }
                    proof {
                        assert(frag_views(frags@).take(frags@.len() as int) =~= frag_views(frags@));
                        assert(frag_views(Seq::<ExpandedWord>::empty()) =~= Seq::<(Seq<char>, bool, bool)>::empty());
                        if let Some(fs) = static_views(word@, quoted, word@.len() as int) {
                            assert(Seq::<(Seq<char>, bool, bool)>::empty() + fs =~= fs);
                        }
                    }
                } else {
                    match raw {
                        Some(v) => {
                        let pushed = value_frag(v.as_str(), quoted);
                        proof {
                            lemma_frag_views_push(out@, pushed);
                        }
                        out.push(pushed);
                    },
                        None => {},
                    }
                }
                Ok(())
            },
            ParamOp::Error { colon, word } => {
                let is_unset = match &raw {
                    Some(v) => *colon && v.as_str().is_empty(),
                    None => true,
                };
                if is_unset {
                    let mut frags: Vec<ExpandedWord> = Vec::new();
                    self.expand_parts(word, true, &mut frags)?;
                    let msg = remove_escapes(join_values(&frags).as_str());
                    let mut m = name.clone();
                    if msg.as_str().is_empty() {
                        m.append(": parameter not set");
                    } else {
                        m.append(": ");
                        m.append(msg.as_str());
                    }
                    return Err(ShellError::Runtime { msg: m, span: pe.span });
                }
                match raw {
                    Some(v) => {
                        let pushed = value_frag(v.as_str(), quoted);
                        proof {
                            lemma_frag_views_push(out@, pushed);
                        }
                        out.push(pushed);
                    },
                    None => {},
                }
                Ok(())
            },
            ParamOp::Alternative { colon, word } => {
                let is_unset = match &raw {
                    Some(v) => *colon && v.as_str().is_empty(),
                    None => true,
                };
                if !is_unset {
                    self.expand_parts(word, quoted, out)?;
                }
                Ok(())
            },
            ParamOp::TrimSuffixSmall(p) | ParamOp::TrimSuffixLarge(p) | ParamOp::TrimPrefixSmall(p)
            | ParamOp::TrimPrefixLarge(p) => {
                let kind: u8 = match &pe.op {
                    ParamOp::TrimSuffixSmall(_) => 0,
                    ParamOp::TrimSuffixLarge(_) => 1,
                    ParamOp::TrimPrefixSmall(_) => 2,
                    _ => 3,
                };
                let val = match raw {
                    Some(v) => v,
                    None => {
                        if self.opts.nounset && !crate::eval::is_special_param(name.as_str()) {
                            return Err(ShellError::Runtime { msg: unset_error, span: pe.span });
                        }
                        String::new()
                    },
                };
                let mut frags: Vec<ExpandedWord> = Vec::new();
                self.expand_parts(p, false, &mut frags)?;
                let pat = join_values(&frags);
                proof {
                    lemma_joined_values(frags@, frags@.len() as int);
                    assert(frag_views(frags@).take(frags@.len() as int) =~= frag_views(frags@));
                    assert(frag_views(Seq::<ExpandedWord>::empty()) =~= Seq::<(Seq<char>, bool, bool)>::empty());
                    if let Some(fs) = static_views(p@, false, p@.len() as int) {
                        assert(Seq::<(Seq<char>, bool, bool)>::empty() + fs =~= fs);
                    }
                }
                let res = if kind == 0 {
                    trim_suffix(val.as_str(), pat.as_str(), false)
                } else if kind == 1 {
                    trim_suffix(val.as_str(), pat.as_str(), true)
                } else if kind == 2 {
                    trim_prefix(val.as_str(), pat.as_str(), false)
                } else {
                    trim_prefix(val.as_str(), pat.as_str(), true)
                };
                let pushed = value_frag(res.as_str(), quoted);
                proof {
                    lemma_frag_views_push(out@, pushed);
                }
                out.push(pushed);
                proof {
                    assert(trimmed_text(val@, pat@, kind >= 2, kind == 1 || kind == 3, res@));
                }
                Ok(())
            },
        }
    }
}

/// The evaluation budget of the shell that runs command substitutions: a
/// fresh shell's when there is none.
pub open spec fn subst_fuel(sh: Option<&mut Shell>) -> int {
    match sh {
        Some(s) => s.fuel as int,
        None => u64::MAX as int,
    }
}

/// The options, `$!` and budget of the shell that expands a word: those
/// of `cmd_subst`'s shell, or of a fresh one (no options set).
pub open spec fn expanding_shell(sh: Shell, cmd_subst: Option<&mut Shell>) -> bool {
    &&& sh.fuel == subst_fuel(cmd_subst)
    &&& match cmd_subst {
        Some(c) => sh.opts == c.opts && sh.last_bg_pid == c.last_bg_pid,
        None => !sh.opts.errexit && !sh.opts.nounset && !sh.opts.xtrace && !sh.opts.pipefail && !sh.opts.interactive
            && sh.last_bg_pid is None,
    }
}

/// Expand with `vars` standing in for the shell's variables.
/// What expanding a word made of the single parameter expansion `pe` in
/// shell `sh` gives (`r`, and `after` for the variables): the fragments of
/// `pe` (see `param_outcome`), split into fields (when `fields`; a field
/// with a pattern character is matched against file names, the others lose
/// their escapes) or joined into one string; nothing when it fails.
pub open spec fn param_word_outcome(
    sh: Shell,
    pe: ParamExpr,
    fields: bool,
    r: Seq<Seq<char>>,
    after: Variables,
) -> bool {
    &&& assign_effect(sh, sh.fuel - 3, pe, false, after)
    &&& exists|frags: Seq<ExpandedWord>, pr: Result<(), ShellError>|
        #![trigger param_outcome(sh, sh.fuel - 3, pe, false, Seq::<ExpandedWord>::empty(), frags, pr)]
        param_outcome(sh, sh.fuel - 3, pe, false, Seq::<ExpandedWord>::empty(), frags, pr) && (pr is Err ==> r.len()
            == 0) && (pr is Ok && fields ==> (unglobbed_fields(spec_field_split(frags, ifs_of(after)))
            ==> r == spec_field_split(frags, ifs_of(after)).map_values(|t: Seq<char>| spec_remove_escapes(t))))
            && (pr is Ok && !fields ==> r == seq![spec_remove_escapes(texts_concat(frag_views(frags)))])
}

/// What expanding a word made of the single parameter expansion `pe` to
/// one string gives: the joined fragments of `pe` without their escapes,
/// or the empty string when it fails.
pub open spec fn param_string_outcome(sh: Shell, pe: ParamExpr, t: Seq<char>, after: Variables) -> bool {
    &&& assign_effect(sh, sh.fuel - 3, pe, false, after)
    &&& exists|frags: Seq<ExpandedWord>, pr: Result<(), ShellError>|
        #![trigger param_outcome(sh, sh.fuel - 3, pe, false, Seq::<ExpandedWord>::empty(), frags, pr)]
        param_outcome(sh, sh.fuel - 3, pe, false, Seq::<ExpandedWord>::empty(), frags, pr) && (pr is Err ==> t.len()
            == 0) && (pr is Ok ==> t == spec_remove_escapes(texts_concat(frag_views(frags))))
}

/// The shell state a parameter expansion reads: variables, `$?`, `$$`,
/// options, `$!` and the evaluation budget.
pub open spec fn reads_like(sh: Shell, vars: Variables, exit_status: i32, pid: u32, other: Shell) -> bool {
    &&& sh.vars == vars
    &&& sh.exit_status@ == crate::error::status_of(exit_status as int)
    &&& sh.pid == pid
    &&& sh.opts == other.opts
    &&& sh.last_bg_pid == other.last_bg_pid
    &&& sh.fuel == other.fuel
}

fn expand_in(shell: &mut Shell, word: &Word, vars: &mut Variables, exit_status: i32, shell_pid: u32, fields: bool) -> (r:
    Vec<String>)
    requires
        old(shell).wf(),
        old(vars).wf(),
    ensures
        final(vars).wf(),
        final(shell).wf(),
        fields && old(shell).fuel > 5 && is_quoted_at(word.parts@) ==> field_views(r@) == field_views(
            old(vars).params(),
        ),
        old(shell).fuel > word.parts@.len() + 2 ==> (static_views(word.parts@, false, word.parts@.len() as int) matches Some(
            fs,
        ) ==> (fields ==> (fs.len() > 0 && !crate::glob::glob_chars_from(texts_concat(fs), 0) ==> field_views(r@)
            == seq![spec_remove_escapes(texts_concat(fs))])) && (!fields ==> field_views(r@) == seq![
            spec_remove_escapes(texts_concat(fs)),
        ])),
        single_param(word.parts@, false) matches Some(pe) ==> exists|sh: Shell|
            #![trigger param_word_outcome(sh, pe, fields, field_views(r@), *final(vars))]
            reads_like(sh, *old(vars), exit_status, shell_pid, *old(shell)) && param_word_outcome(
                sh,
                pe,
                fields,
                field_views(r@),
                *final(vars),
            ),
        !fields ==> r@.len() <= 1,
{
    std::mem::swap(&mut shell.vars, vars);
    let saved_status = shell.exit_status;
    let saved_pid = shell.pid;
    shell.exit_status = crate::error::status_from(exit_status);
    shell.pid = shell_pid;
    let ghost sh1 = *shell;
    let result = if fields {
        match shell.expand_fields(word) {
            Ok(v) => v,
            Err(_) => Vec::new(),
        }
    } else {
        match shell.expand_string(word) {
            Ok(s) => {
                let mut v: Vec<String> = Vec::new();
                v.push(s);
                proof {
                    assert(field_views(v@) =~= seq![s@]);
                }
                v
            },
            Err(_) => Vec::new(),
        }
    };
    std::mem::swap(&mut shell.vars, vars);
    shell.exit_status = saved_status;
    shell.pid = saved_pid;
    proof {
        if let Some(pe) = single_param(word.parts@, false) {
            assert(reads_like(sh1, *old(vars), exit_status, shell_pid, *old(shell)));
            assert(param_word_outcome(sh1, pe, fields, field_views(result@), *vars));
        }
    }
    result
}

/// Expand a word into a list of strings (after field splitting and
/// pathname expansion). Command substitutions run in `cmd_subst`'s shell;
/// without one they expand to nothing and no file names are matched.
pub fn expand_word_to_fields(
    word: &Word,
    vars: &mut Variables,
    exit_status: i32,
    shell_pid: u32,
    cmd_subst: &mut Option<&mut Shell>,
) -> (r: Vec<String>)
    requires
        old(vars).wf(),
        old(cmd_subst).is_some() ==> old(cmd_subst).unwrap().wf(),
    ensures
        final(vars).wf(),
        subst_fuel(*old(cmd_subst)) > 5 && is_quoted_at(word.parts@)
            ==> field_views(r@) == field_views(old(vars).params()),
        subst_fuel(*old(cmd_subst)) > word.parts@.len() + 2 ==> (static_views(
            word.parts@,
            false,
            word.parts@.len() as int,
        ) matches Some(fs) ==> (fs.len() > 0 && !crate::glob::glob_chars_from(texts_concat(fs), 0) ==> field_views(r@)
            == seq![spec_remove_escapes(texts_concat(fs))])),
        single_param(word.parts@, false) matches Some(pe) ==> exists|sh: Shell|
            #![trigger param_word_outcome(sh, pe, true, field_views(r@), *final(vars))]
            sh.vars == *old(vars) && sh.exit_status@ == crate::error::status_of(exit_status as int) && sh.pid
                == shell_pid && expanding_shell(sh, *old(cmd_subst)) && param_word_outcome(
                sh,
                pe,
                true,
                field_views(r@),
                *final(vars),
            ),
{
    match cmd_subst {
        Some(sh) => expand_in(sh, word, vars, exit_status, shell_pid, true),
        None => {
            let mut tmp = Shell::new();
            tmp.subst_enabled = false;
            expand_in(&mut tmp, word, vars, exit_status, shell_pid, true)
        },
    }
}

/// Expand a word to a single string (no field splitting or pathname
/// expansion); for here-document bodies, assignment values, case words.
pub fn expand_word_to_string(
    word: &Word,
    vars: &mut Variables,
    exit_status: i32,
    shell_pid: u32,
    cmd_subst: &mut Option<&mut Shell>,
) -> (r: String)
    requires
        old(vars).wf(),
        old(cmd_subst).is_some() ==> old(cmd_subst).unwrap().wf(),
    ensures
        final(vars).wf(),
        subst_fuel(*old(cmd_subst)) > word.parts@.len() + 2 ==> (static_views(
            word.parts@,
            false,
            word.parts@.len() as int,
        ) matches Some(fs) ==> r@ == spec_remove_escapes(texts_concat(fs))),
        single_param(word.parts@, false) matches Some(pe) ==> exists|sh: Shell|
            #![trigger param_string_outcome(sh, pe, r@, *final(vars))]
            sh.vars == *old(vars) && sh.exit_status@ == crate::error::status_of(exit_status as int) && sh.pid
                == shell_pid && expanding_shell(sh, *old(cmd_subst)) && param_string_outcome(
                sh,
                pe,
                r@,
                *final(vars),
            ),
{
    let v = match cmd_subst {
        Some(sh) => expand_in(sh, word, vars, exit_status, shell_pid, false),
        None => {
            let mut tmp = Shell::new();
            tmp.subst_enabled = false;
            expand_in(&mut tmp, word, vars, exit_status, shell_pid, false)
        },
    };
    proof {
        assert(field_views(v@).len() == v@.len());
        if v@.len() > 0 {
            assert(field_views(v@)[0] == v@[0]@);
        }
    }
    let r = if v.len() > 0 {
        v[0].clone()
    } else {
        String::new()
    };
    proof {
        if let Some(pe) = single_param(word.parts@, false) {
            let sh = choose|sh: Shell|
                sh.vars == *old(vars) && sh.exit_status@ == crate::error::status_of(exit_status as int) && sh.pid
                    == shell_pid && expanding_shell(sh, *old(cmd_subst)) && #[trigger] param_word_outcome(
                    sh,
                    pe,
                    false,
                    field_views(v@),
                    *vars,
                );
            let (frags, pr) = choose|frags: Seq<ExpandedWord>, pr: Result<(), ShellError>|
                #[trigger] param_outcome(sh, sh.fuel - 3, pe, false, Seq::<ExpandedWord>::empty(), frags, pr) && (
                pr is Err ==> field_views(v@).len() == 0) && (pr is Ok ==> field_views(v@) == seq![
                spec_remove_escapes(texts_concat(frag_views(frags))),
            ]);
            assert(param_string_outcome(sh, pe, r@, *vars));
        }
    }
    r
}

} // verus!
