use vstd::prelude::*;

use crate::host::{FileKind, Host};
use crate::text::{chars_of, string_of};

verus! {

/// True if `c` escapes the next pattern character.
pub open spec fn is_escape(c: char) -> bool {
    c == '\\'
}

/// The index of the first character at or after `i` that is not a `*`.
pub open spec fn skip_stars(p: Seq<char>, i: int) -> int
    recommends
        0 <= i <= p.len(),
    decreases p.len() - i,
{
    if i < p.len() && p[i] == '*' {
        skip_stars(p, i + 1)
    } else {
        i
    }
}

/// One character of a bracket expression starting at `i` (an escaped
/// character or a plain one) and the index after it.
pub open spec fn bracket_char(p: Seq<char>, i: int) -> (char, int) {
    if is_escape(p[i]) && i + 1 < p.len() {
        (p[i + 1], i + 2)
    } else {
        (p[i], i + 1)
    }
}

/// Scan the bracket expression from `i` to its closing `]` (or the end of
/// the pattern): whether `c` is one of its characters or ranges (or
/// `matched` already), and the index of the `]` or of the end.
pub open spec fn bracket_scan(p: Seq<char>, i: int, start: int, c: char, matched: bool) -> (bool, int)
    recommends
        0 <= start <= i <= p.len(),
    decreases p.len() - i,
{
    if i < 0 || i >= p.len() {
        (matched, i)
    } else if p[i] == ']' && i != start {
        (matched, i)
    } else {
        let (c1, i1) = bracket_char(p, i);
        if i1 + 1 < p.len() && p[i1] == '-' && p[i1 + 1] != ']' {
            let (c2, i2) = bracket_char(p, i1 + 1);
            bracket_scan(p, i2, start, c, matched || (c1 <= c && c <= c2))
        } else {
            bracket_scan(p, i1, start, c, matched || c == c1)
        }
    }
}

/// Whether `s[si..]` matches the pattern `p[pi..]`: `?` matches one
/// character, `*` any string, `[...]` one character of a set (`!` first
/// negates it, `a-z` is a range, `]` first is literal), `\c` the character
/// `c`, and any other character itself.
pub open spec fn spec_fnmatch(p: Seq<char>, pi: int, s: Seq<char>, si: int) -> bool
    recommends
        0 <= pi <= p.len(),
        0 <= si <= s.len(),
    decreases p.len() - pi, s.len() - si,
{
    if pi < 0 || si < 0 || pi > p.len() || si > s.len() {
        false
    } else if pi == p.len() {
        si == s.len()
    } else if p[pi] == '?' {
        si < s.len() && spec_fnmatch(p, pi + 1, s, si + 1)
    } else if p[pi] == '*' {
        let pj = skip_stars(p, pi);
        proof {
            lemma_skip_stars(p, pi);
        }
        if pj >= p.len() {
            true
        } else {
            star_any(p, pj, s, si)
        }
    } else if p[pi] == '[' {
        if si >= s.len() {
            false
        } else {
            let negate = pi + 1 < p.len() && p[pi + 1] == '!';
            let start = if negate { pi + 2 } else { pi + 1 };
            let (matched, end) = bracket_scan(p, start, start, s[si], false);
            proof {
                lemma_bracket_scan(p, start, start, s[si], false);
            }
            let next = if end < p.len() { end + 1 } else { end };
            matched != negate && spec_fnmatch(p, next, s, si + 1)
        }
    } else if is_escape(p[pi]) {
        pi + 1 < p.len() && si < s.len() && s[si] == p[pi + 1] && spec_fnmatch(p, pi + 2, s, si + 1)
    } else {
        si < s.len() && s[si] == p[pi] && spec_fnmatch(p, pi + 1, s, si + 1)
    }
}

/// Whether `s[k..]`, or `s[k'..]` for some later `k'`, matches `p[pj..]`:
/// the choices a `*` has for how much it swallows.
pub open spec fn star_any(p: Seq<char>, pj: int, s: Seq<char>, k: int) -> bool
    decreases p.len() - pj, s.len() + 1 - k,
{
    if k < 0 || k > s.len() || pj < 0 || pj > p.len() {
        false
    } else {
        spec_fnmatch(p, pj, s, k) || star_any(p, pj, s, k + 1)
    }
}

pub proof fn lemma_skip_stars(p: Seq<char>, i: int)
    requires
        0 <= i <= p.len(),
    ensures
        i <= skip_stars(p, i) <= p.len(),
        skip_stars(p, i) < p.len() ==> p[skip_stars(p, i)] != '*',
        forall|k: int| i <= k < skip_stars(p, i) ==> p[k] == '*',
    decreases p.len() - i,
{
    if i < p.len() && p[i] == '*' {
        lemma_skip_stars(p, i + 1);
    }
}

pub proof fn lemma_bracket_scan(p: Seq<char>, i: int, start: int, c: char, matched: bool)
    requires
        0 <= start <= i <= p.len(),
    ensures
        i <= bracket_scan(p, i, start, c, matched).1 <= p.len(),
        bracket_scan(p, i, start, c, matched).1 < p.len() ==> p[bracket_scan(p, i, start, c, matched).1] == ']',
    decreases p.len() - i,
{
    if i < p.len() && !(p[i] == ']' && i != start) {
        let (c1, i1) = bracket_char(p, i);
        if i1 + 1 < p.len() && p[i1] == '-' && p[i1 + 1] != ']' {
            let (c2, i2) = bracket_char(p, i1 + 1);
            lemma_bracket_scan(p, i2, start, c, matched || (c1 <= c && c <= c2));
        } else {
            lemma_bracket_scan(p, i1, start, c, matched || c == c1);
        }
    }
}

/// One bracket character, read as `bracket_char` says.
fn read_bracket_char(pat: &Vec<char>, pi: usize) -> (r: (char, usize))
    requires
        pi < pat@.len(),
    ensures
        r.0 == bracket_char(pat@, pi as int).0,
        r.1 as int == bracket_char(pat@, pi as int).1,
{
    let n = pat.len();
    if pat[pi] == '\\' && pi + 1 < pat.len() {
        (pat[pi + 1], pi + 2)
    } else {
        (pat[pi], pi + 1)
    }
}

/// Scan a bracket expression, as `bracket_scan` says.
fn scan_bracket(pat: &Vec<char>, start: usize, c: char) -> (r: (bool, usize))
    requires
        start <= pat@.len(),
    ensures
        r.0 == bracket_scan(pat@, start as int, start as int, c, false).0,
        r.1 as int == bracket_scan(pat@, start as int, start as int, c, false).1,
{
    let mut pi = start;
    let mut matched = false;
    while pi < pat.len()
        invariant
            start <= pi <= pat@.len(),
            bracket_scan(pat@, pi as int, start as int, c, matched) == bracket_scan(
                pat@,
                start as int,
                start as int,
                c,
                false,
            ),
        decreases pat.len() - pi,
    {
        if pat[pi] == ']' && pi != start {
            return (matched, pi);
        }
        let (c1, p1) = read_bracket_char(pat, pi);
        let n = pat.len();
        if p1 < n && p1 + 1 < n && pat[p1] == '-' && pat[p1 + 1] != ']' {
            let (c2, p2) = read_bracket_char(pat, p1 + 1);
            if c1 <= c && c <= c2 {
                matched = true;
            }
            pi = p2;
        } else {
            if c == c1 {
                matched = true;
            }
            pi = p1;
        }
    }
    (matched, pi)
}

/// Match `s[si..]` against `pat[pi..]`, as `spec_fnmatch` says.
fn fnmatch_inner(pat: &Vec<char>, pi: usize, s: &Vec<char>, si: usize) -> (r: bool)
    requires
        pi <= pat@.len(),
        si <= s@.len(),
    ensures
        r == spec_fnmatch(pat@, pi as int, s@, si as int),
    decreases pat@.len() - pi, s@.len() - si,
{
    let mut i = pi;
    let mut j = si;
    while i < pat.len()
        invariant
            i <= pat@.len(),
            j <= s@.len(),
            pi <= i,
            spec_fnmatch(pat@, i as int, s@, j as int) == spec_fnmatch(pat@, pi as int, s@, si as int),
        decreases pat@.len() - i,
    {
        let c = pat[i];
        if c == '?' {
            if j >= s.len() {
                return false;
            }
            i += 1;
            j += 1;
        } else if c == '*' {
            proof {
                lemma_skip_stars(pat@, i as int);
            }
            let ghost star = i as int;
            assert(spec_fnmatch(pat@, star, s@, j as int) == spec_fnmatch(pat@, pi as int, s@, si as int));
            while i < pat.len() && pat[i] == '*'
                invariant
                    pi <= star <= i <= pat@.len(),
                    star < pat@.len(),
                    pat@[star] == '*',
                    j <= s@.len(),
                    spec_fnmatch(pat@, star, s@, j as int) == spec_fnmatch(pat@, pi as int, s@, si as int),
                    skip_stars(pat@, i as int) == skip_stars(pat@, star),
                decreases pat@.len() - i,
            {
                i += 1;
            }
            assert(skip_stars(pat@, i as int) == i);
            if i >= pat.len() {
                return true;
            }
            let mut k = j;
            loop
                invariant
                    j <= k <= s@.len(),
                    i < pat@.len(),
                    pi <= star < i,
                    pat@[star] == '*',
                    spec_fnmatch(pat@, star, s@, j as int) == spec_fnmatch(pat@, pi as int, s@, si as int),
                    skip_stars(pat@, star) == i,
                    spec_fnmatch(pat@, star, s@, j as int) == star_any(pat@, i as int, s@, k as int),
                decreases s@.len() - k,
            {
                if fnmatch_inner(pat, i, s, k) {
                    return true;
                }
                if k == s.len() {
                    assert(!star_any(pat@, i as int, s@, k + 1));
                    return false;
                }
                k += 1;
            }
        } else if c == '[' {
            if j >= s.len() {
                return false;
            }
            let negate = i + 1 < pat.len() && pat[i + 1] == '!';
            let start = if negate { i + 2 } else { i + 1 };
            let (matched, end) = scan_bracket(pat, start, s[j]);
            proof {
                lemma_bracket_scan(pat@, start as int, start as int, s@[j as int], false);
            }
            let next = if end < pat.len() { end + 1 } else { end };
            if matched == negate {
                return false;
            }
            i = next;
            j += 1;
        } else if c == '\\' {
            if i + 1 >= pat.len() {
                return false;
            }
            if j >= s.len() || s[j] != pat[i + 1] {
                return false;
            }
            i += 2;
            j += 1;
        } else {
            if j >= s.len() || s[j] != c {
                return false;
            }
            i += 1;
            j += 1;
        }
    }
    j >= s.len()
}

/// POSIX fnmatch-style pattern matching: `*` (any string), `?` (any
/// character), `[...]` (character class), `\` (escape).
pub fn fnmatch(pattern: &str, string: &str) -> (r: bool)
    ensures
        r == spec_fnmatch(pattern@, 0, string@, 0),
{
    let pat = chars_of(pattern);
    let s = chars_of(string);
    fnmatch_inner(&pat, 0, &s, 0)
}

/// True if `p` has no character with a special meaning in a pattern.
pub open spec fn is_plain_pattern(p: Seq<char>) -> bool {
    forall|i: int| 0 <= i < p.len() ==> !(#[trigger] p[i] == '*' || p[i] == '?' || p[i] == '[' || p[i] == '\\')
}

/// A pattern without special characters matches exactly itself.
pub proof fn law_plain_pattern_matches_itself_only(p: Seq<char>, s: Seq<char>)
    requires
        is_plain_pattern(p),
    ensures
        spec_fnmatch(p, 0, s, 0) <==> p == s,
{
    lemma_plain_tail(p, 0, s, 0);
    assert(p.subrange(0, p.len() as int) =~= p);
    assert(s.subrange(0, s.len() as int) =~= s);
}

/// A pattern made of a single `*` matches every string.
pub proof fn law_star_matches_everything(s: Seq<char>)
    ensures
        spec_fnmatch(seq!['*'], 0, s, 0),
{
    assert(skip_stars(seq!['*'], 1) == 1);
    assert(skip_stars(seq!['*'], 0) == 1);
}

/// The choices of a `*`: some start from `k` on at which the rest matches.
proof fn lemma_star_any(p: Seq<char>, pj: int, s: Seq<char>, k: int)
    requires
        0 <= pj <= p.len(),
        0 <= k <= s.len(),
    ensures
        star_any(p, pj, s, k) <==> exists|m: int| k <= m <= s.len() && #[trigger] spec_fnmatch(p, pj, s, m),
    decreases s.len() + 1 - k,
{
    if k < s.len() {
        lemma_star_any(p, pj, s, k + 1);
    } else {
        assert(star_any(p, pj, s, k + 1) == false);
    }
    if star_any(p, pj, s, k) {
        if spec_fnmatch(p, pj, s, k) {
            assert(k <= k <= s.len() && spec_fnmatch(p, pj, s, k));
        }
    }
    if exists|m: int| k <= m <= s.len() && #[trigger] spec_fnmatch(p, pj, s, m) {
        let m = choose|m: int| k <= m <= s.len() && #[trigger] spec_fnmatch(p, pj, s, m);
        if m > k {
            assert(k + 1 <= m <= s.len() && spec_fnmatch(p, pj, s, m));
        }
    }
}

/// A plain text followed by `*` matches from `si` on exactly when the text
/// comes first there.
proof fn lemma_plain_then_star(q: Seq<char>, pi: int, s: Seq<char>, si: int)
    requires
        is_plain_pattern(q),
        0 <= pi <= q.len(),
        0 <= si <= s.len(),
    ensures
        spec_fnmatch(q + seq!['*'], pi, s, si) <==> (si + (q.len() - pi) <= s.len() && s.subrange(
            si,
            si + (q.len() - pi),
        ) == q.subrange(pi, q.len() as int)),
    decreases q.len() - pi,
{
    let p = q + seq!['*'];
    let n = q.len() - pi;
    if pi == q.len() {
        assert(p[pi] == '*');
        assert(skip_stars(p, pi + 1) == pi + 1);
        assert(skip_stars(p, pi) == pi + 1);
        assert(s.subrange(si, si) =~= q.subrange(pi, q.len() as int));
    } else {
        assert(p[pi] == q[pi]);
        assert(!(q[pi] == '*' || q[pi] == '?' || q[pi] == '[' || q[pi] == '\\'));
        if si < s.len() {
            lemma_plain_then_star(q, pi + 1, s, si + 1);
            if si + n <= s.len() {
                let a = s.subrange(si, si + n);
                let b = q.subrange(pi, q.len() as int);
                assert(s.subrange(si + 1, si + n) =~= a.drop_first());
                assert(q.subrange(pi + 1, q.len() as int) =~= b.drop_first());
                if a == b {
                    assert(a[0] == b[0]);
                }
                if s[si] == q[pi] && a.drop_first() == b.drop_first() {
                    assert(a =~= b) by {
                        assert forall|k: int| 0 <= k < a.len() implies a[k] == b[k] by {
                            if k > 0 {
                                assert(a[k] == a.drop_first()[k - 1]);
                                assert(b[k] == b.drop_first()[k - 1]);
                            }
                        }
                    }
                }
            }
        }
    }
}

/// A plain text after `*` matches from `si` on exactly the strings from
/// `si` that are that text.
proof fn lemma_plain_tail(p: Seq<char>, pi: int, s: Seq<char>, si: int)
    requires
        forall|i: int| pi <= i < p.len() ==> !(#[trigger] p[i] == '*' || p[i] == '?' || p[i] == '[' || p[i] == '\\'),
        0 <= pi <= p.len(),
        0 <= si <= s.len(),
    ensures
        spec_fnmatch(p, pi, s, si) <==> p.subrange(pi, p.len() as int) == s.subrange(si, s.len() as int),
    decreases p.len() - pi,
{
    let ps = p.subrange(pi, p.len() as int);
    let ss = s.subrange(si, s.len() as int);
    if pi == p.len() {
        if si < s.len() {
            assert(ss.len() > 0);
            assert(ps.len() == 0);
        } else {
            assert(ps =~= ss);
        }
    } else {
        assert(!(p[pi] == '*' || p[pi] == '?' || p[pi] == '[' || p[pi] == '\\'));
        lemma_plain_tail(p, pi + 1, s, if si < s.len() { si + 1 } else { si });
        if si < s.len() {
            assert(p.subrange(pi + 1, p.len() as int) =~= ps.drop_first());
            assert(s.subrange(si + 1, s.len() as int) =~= ss.drop_first());
            if ps == ss {
                assert(ps[0] == ss[0]);
            }
            if s[si] == p[pi] && ps.drop_first() == ss.drop_first() {
                assert(ps =~= ss) by {
                    assert forall|k: int| 0 <= k < ps.len() implies ps[k] == ss[k] by {
                        if k > 0 {
                            assert(ps[k] == ps.drop_first()[k - 1]);
                            assert(ss[k] == ss.drop_first()[k - 1]);
                        }
                    }
                }
            }
        } else {
            assert(ss.len() == 0);
            assert(ps.len() > 0);
        }
    }
}

/// `text*` matches exactly the strings that begin with `text`, and `*text`
/// exactly those that end with it (for a `text` without special
/// characters).
pub proof fn law_star_prefix_suffix(q: Seq<char>, s: Seq<char>)
    requires
        is_plain_pattern(q),
    ensures
        spec_fnmatch(q + seq!['*'], 0, s, 0) <==> (q.len() <= s.len() && s.subrange(0, q.len() as int) == q),
        spec_fnmatch(seq!['*'] + q, 0, s, 0) <==> (q.len() <= s.len() && s.subrange(
            s.len() - q.len(),
            s.len() as int,
        ) == q),
{
    lemma_plain_then_star(q, 0, s, 0);
    assert(q.subrange(0, q.len() as int) =~= q);
    let p = seq!['*'] + q;
    let k = s.len() - q.len();
    if q.len() == 0 {
        assert(skip_stars(p, 1) == 1);
        assert(skip_stars(p, 0) == 1);
        assert(s.subrange(s.len() as int, s.len() as int) =~= q);
    } else {
        assert(p[1] == q[0]);
        assert(!(q[0] == '*' || q[0] == '?' || q[0] == '[' || q[0] == '\\'));
        assert(skip_stars(p, 1) == 1);
        assert(skip_stars(p, 0) == 1);
        assert forall|i: int| 1 <= i < p.len() implies !(#[trigger] p[i] == '*' || p[i] == '?' || p[i] == '['
            || p[i] == '\\') by {
            assert(p[i] == q[i - 1]);
        }
        assert(p.subrange(1, p.len() as int) =~= q);
        lemma_star_any(p, 1, s, 0);
        if q.len() <= s.len() && s.subrange(k, s.len() as int) == q {
            lemma_plain_tail(p, 1, s, k);
            assert(0 <= k <= s.len() && spec_fnmatch(p, 1, s, k));
        }
        if spec_fnmatch(p, 0, s, 0) {
            let m = choose|m: int| 0 <= m <= s.len() && #[trigger] spec_fnmatch(p, 1, s, m);
            lemma_plain_tail(p, 1, s, m);
            assert(s.subrange(m, s.len() as int).len() == q.len());
        }
    }
}

/// A `?` matches exactly the strings of one character.
pub proof fn law_question_matches_one_char(s: Seq<char>)
    ensures
        spec_fnmatch(seq!['?'], 0, s, 0) <==> s.len() == 1,
{
    reveal_with_fuel(spec_fnmatch, 2);
}

/// A bracket range `[lo-hi]` matches exactly the one-character strings
/// whose character lies between `lo` and `hi`, both ends included; with `!`
/// first it matches exactly the other one-character strings.
pub proof fn law_bracket_range(lo: char, hi: char, s: Seq<char>)
    requires
        lo != '!' && lo != '\\',
        hi != ']' && hi != '\\',
    ensures
        spec_fnmatch(seq!['[', lo, '-', hi, ']'], 0, s, 0) <==> (s.len() == 1 && lo <= s[0] && s[0] <= hi),
        spec_fnmatch(seq!['[', '!', lo, '-', hi, ']'], 0, s, 0) <==> (s.len() == 1 && !(lo <= s[0] && s[0]
            <= hi)),
{
    let p = seq!['[', lo, '-', hi, ']'];
    let q = seq!['[', '!', lo, '-', hi, ']'];
    reveal_with_fuel(spec_fnmatch, 2);
    if s.len() > 0 {
        let c = s[0];
        assert(bracket_char(p, 1) == (lo, 2int));
        assert(bracket_char(p, 3) == (hi, 4int));
        assert(bracket_scan(p, 4, 1, c, lo <= c && c <= hi) == (lo <= c && c <= hi, 4int));
        assert(bracket_scan(p, 1, 1, c, false) == (lo <= c && c <= hi, 4int));
        assert(bracket_char(q, 2) == (lo, 3int));
        assert(bracket_char(q, 4) == (hi, 5int));
        assert(bracket_scan(q, 5, 2, c, lo <= c && c <= hi) == (lo <= c && c <= hi, 5int));
        assert(bracket_scan(q, 2, 2, c, false) == (lo <= c && c <= hi, 5int));
    }
}

/// A bracket with two characters `[xy]` matches exactly the strings of one
/// of them; with `!` first it matches exactly the other one-character
/// strings.
pub proof fn law_bracket_set(x: char, y: char, s: Seq<char>)
    requires
        x != '!' && x != '\\' && x != ']',
        y != '-' && y != '\\' && y != ']',
    ensures
        spec_fnmatch(seq!['[', x, y, ']'], 0, s, 0) <==> (s.len() == 1 && (s[0] == x || s[0] == y)),
        spec_fnmatch(seq!['[', '!', x, y, ']'], 0, s, 0) <==> (s.len() == 1 && s[0] != x && s[0] != y),
{
    let p = seq!['[', x, y, ']'];
    let q = seq!['[', '!', x, y, ']'];
    reveal_with_fuel(spec_fnmatch, 2);
    if s.len() > 0 {
        let c = s[0];
        assert(bracket_char(p, 1) == (x, 2int));
        assert(bracket_char(p, 2) == (y, 3int));
        assert(bracket_scan(p, 3, 1, c, c == x || c == y) == (c == x || c == y, 3int));
        assert(bracket_scan(p, 2, 1, c, c == x) == (c == x || c == y, 3int));
        assert(bracket_scan(p, 1, 1, c, false) == (c == x || c == y, 3int));
        assert(bracket_char(q, 2) == (x, 3int));
        assert(bracket_char(q, 3) == (y, 4int));
        assert(bracket_scan(q, 4, 2, c, c == x || c == y) == (c == x || c == y, 4int));
        assert(bracket_scan(q, 3, 2, c, c == x) == (c == x || c == y, 4int));
        assert(bracket_scan(q, 2, 2, c, false) == (c == x || c == y, 4int));
    }
}

/// Whether `s[i..]` holds `*`, `?` or `[` that no backslash escapes.
pub open spec fn glob_chars_from(s: Seq<char>, i: int) -> bool
    decreases s.len() + 2 - i,
{
    if i < 0 || i >= s.len() {
        false
    } else if s[i] == '*' || s[i] == '?' || s[i] == '[' {
        true
    } else if s[i] == '\\' {
        glob_chars_from(s, i + 2)
    } else {
        glob_chars_from(s, i + 1)
    }
}

/// Check if a string contains glob metacharacters; a backslash-preceded
/// character is escaped (not glob-active).
pub fn has_glob_chars(s: &str) -> (r: bool)
    ensures
        r == glob_chars_from(s@, 0),
{
    let cs = chars_of(s);
    let mut i: usize = 0;
    while i < cs.len()
        invariant
            cs@ == s@,
            glob_chars_from(cs@, i as int) == glob_chars_from(cs@, 0),
        decreases cs.len() + 2 - i,
    {
        let c = cs[i];
        if c == '*' || c == '?' || c == '[' {
            return true;
        } else if c == '\\' {
            if cs.len() - i < 2 {
                assert(!glob_chars_from(cs@, i as int + 2));
                return false;
            }
            i += 2;
        } else {
            i += 1;
        }
    }
    false
}


/// True if `a` comes before or equals `b` in code point order.
pub open spec fn lex_le(a: Seq<char>, b: Seq<char>) -> bool
    decreases a.len(),
{
    if a.len() == 0 {
        true
    } else if b.len() == 0 {
        false
    } else if a[0] != b[0] {
        a[0] < b[0]
    } else {
        lex_le(a.drop_first(), b.drop_first())
    }
}

proof fn lemma_lex_total(a: Seq<char>, b: Seq<char>)
    ensures
        lex_le(a, b) || lex_le(b, a),
    decreases a.len(),
{
    if a.len() > 0 && b.len() > 0 && a[0] == b[0] {
        lemma_lex_total(a.drop_first(), b.drop_first());
    }
}

proof fn lemma_lex_trans(a: Seq<char>, b: Seq<char>, c: Seq<char>)
    requires
        lex_le(a, b),
        lex_le(b, c),
    ensures
        lex_le(a, c),
    decreases a.len(),
{
    if a.len() > 0 && b.len() > 0 && c.len() > 0 && a[0] == b[0] && b[0] == c[0] {
        lemma_lex_trans(a.drop_first(), b.drop_first(), c.drop_first());
    }
}

/// Compare two character slices in code point order.
fn chars_le(a: &Vec<char>, b: &Vec<char>) -> (r: bool)
    ensures
        r == lex_le(a@, b@),
{
    let mut i: usize = 0;
    assert(a@.skip(0) =~= a@);
    assert(b@.skip(0) =~= b@);
    while i < a.len() && i < b.len()
        invariant
            i <= a@.len(),
            i <= b@.len(),
            a@.take(i as int) == b@.take(i as int),
            lex_le(a@, b@) == lex_le(a@.skip(i as int), b@.skip(i as int)),
        decreases a.len() - i,
    {
        if a[i] != b[i] {
            assert(a@.skip(i as int)[0] == a@[i as int]);
            assert(b@.skip(i as int)[0] == b@[i as int]);
            return a[i] < b[i];
        }
        assert(a@.skip(i as int).drop_first() =~= a@.skip(i + 1));
        assert(b@.skip(i as int).drop_first() =~= b@.skip(i + 1));
        assert(a@.take(i + 1) =~= a@.take(i as int).push(a@[i as int]));
        assert(b@.take(i + 1) =~= b@.take(i as int).push(b@[i as int]));
        i += 1;
    }
    i == a.len()
}

/// Compare two character sequences in code point order.
pub fn chars_le_pub(a: &Vec<char>, b: &Vec<char>) -> (r: bool)
    ensures
        r == lex_le(a@, b@),
{
    chars_le(a, b)
}

/// True if the strings are in nondecreasing code point order.
pub open spec fn sorted_strings(v: Seq<String>) -> bool {
    forall|i: int, j: int| 0 <= i < j < v.len() ==> lex_le(#[trigger] v[i]@, #[trigger] v[j]@)
}

/// Sort strings into code point order (insertion sort).
pub fn sort_strings(v: Vec<String>) -> (r: Vec<String>)
    ensures
        sorted_strings(r@),
        r@.len() == v@.len(),
        forall|i: int| 0 <= i < r@.len() ==> v@.contains(#[trigger] r@[i]),
        r@.to_multiset() == v@.to_multiset(),
{
    let mut out: Vec<String> = Vec::new();
    let mut keys: Vec<Vec<char>> = Vec::new();
    let mut n: usize = 0;
    assert(v@.subrange(0, 0) =~= out@);
    while n < v.len()
        invariant
            n <= v@.len(),
            out@.len() == n,
            keys@.len() == n,
            forall|i: int| 0 <= i < n ==> (#[trigger] keys@[i])@ == out@[i]@,
            sorted_strings(out@),
            forall|i: int| 0 <= i < out@.len() ==> v@.contains(#[trigger] out@[i]),
            out@.to_multiset() == v@.subrange(0, n as int).to_multiset(),
        decreases v.len() - n,
    {
        let item = v[n].clone();
        let key = chars_of(item.as_str());
        let mut pos: usize = out.len();
        while pos > 0 && !chars_le(&keys[pos - 1], &key)
            invariant
                pos <= out@.len(),
                keys@.len() == out@.len(),
                forall|i: int| 0 <= i < out@.len() ==> (#[trigger] keys@[i])@ == out@[i]@,
                forall|i: int| pos <= i < out@.len() ==> !lex_le(#[trigger] out@[i]@, key@),
                sorted_strings(out@),
            decreases pos,
        {
            pos -= 1;
        }
        let ghost old_out = out@;
        proof {
            assert forall|i: int| pos <= i < old_out.len() implies lex_le(key@, #[trigger] old_out[i]@) by {
                lemma_lex_total(old_out[i]@, key@);
            }
            if pos > 0 {
                assert(lex_le(old_out[pos - 1]@, key@));
                assert forall|i: int| 0 <= i < pos implies lex_le(#[trigger] old_out[i]@, key@) by {
                    if i < pos - 1 {
                        lemma_lex_trans(old_out[i]@, old_out[pos - 1]@, key@);
                    }
                }
            }
        }
        out.insert(pos, item);
        keys.insert(pos, key);
        proof {
            assert(v@[n as int] == out@[pos as int]);
            assert forall|i: int, j: int| 0 <= i < j < out@.len() implies lex_le(#[trigger] out@[i]@, #[trigger] out@[j]@) by {
                if i < pos && j < pos {
                    assert(out@[i] == old_out[i] && out@[j] == old_out[j]);
                } else if i < pos && j == pos {
                } else if i < pos {
                    assert(out@[i] == old_out[i] && out@[j] == old_out[j - 1]);
                    lemma_lex_trans(old_out[i]@, key@, old_out[j - 1]@);
                } else if i == pos {
                    assert(out@[j] == old_out[j - 1]);
                } else {
                    assert(out@[i] == old_out[i - 1] && out@[j] == old_out[j - 1]);
                }
            }
            assert forall|i: int| 0 <= i < out@.len() implies v@.contains(#[trigger] out@[i]) by {
                if i < pos {
                    assert(out@[i] == old_out[i]);
                } else if i > pos {
                    assert(out@[i] == old_out[i - 1]);
                }
            }
            assert forall|i: int| 0 <= i < out@.len() implies (#[trigger] keys@[i])@ == out@[i]@ by {
                if i < pos {
                    assert(out@[i] == old_out[i]);
                } else if i > pos {
                    assert(out@[i] == old_out[i - 1]);
                }
            }
            broadcast use vstd::seq_lib::group_to_multiset_ensures;
            assert(out@.remove(pos as int) =~= old_out);
            assert(v@.subrange(0, n + 1) =~= v@.subrange(0, n as int).push(v@[n as int]));
            assert(out@.to_multiset() =~= old_out.to_multiset().insert(v@[n as int]));
        }
        n += 1;
    }
    assert(v@.subrange(0, v@.len() as int) =~= v@);
    out
}

/// The path `dir/name` (`name` alone when `dir` is empty).
pub open spec fn spec_join_path(dir: Seq<char>, name: Seq<char>) -> Seq<char> {
    if dir.len() == 0 {
        name
    } else if dir.last() == '/' {
        dir + name
    } else {
        dir + seq!['/'] + name
    }
}

/// Join a directory and a name the way `Path::join` does for a relative name.
pub fn join_path(dir: &str, name: &str) -> (r: String)
    ensures
        r@ == spec_join_path(dir@, name@),
{
    let d = chars_of(dir);
    if d.len() == 0 {
        return name.to_owned();
    }
    let mut r = dir.to_owned();
    if d[d.len() - 1] != '/' {
        crate::text::push_char(&mut r, '/');
    }
    r.append(name);
    r
}

/// The field `cur` being built, if not empty, as a list.
pub open spec fn nonempty_part(cur: Seq<char>) -> Seq<Seq<char>> {
    if cur.len() > 0 {
        seq![cur]
    } else {
        Seq::empty()
    }
}

/// The non-empty `/`-separated components of `p[i..]`, the first one
/// continuing `cur`.
pub open spec fn components_from(p: Seq<char>, i: int, cur: Seq<char>) -> Seq<Seq<char>>
    decreases p.len() - i,
{
    if i < 0 || i >= p.len() {
        nonempty_part(cur)
    } else if p[i] == '/' {
        nonempty_part(cur) + components_from(p, i + 1, Seq::empty())
    } else {
        components_from(p, i + 1, cur.push(p[i]))
    }
}

/// The non-empty `/`-separated components of a pattern.
pub fn split_components(pattern: &Vec<char>) -> (r: Vec<String>)
    ensures
        forall|i: int| 0 <= i < r@.len() ==> (#[trigger] r@[i])@.len() > 0
            && !r@[i]@.contains('/'),
        r@.map_values(|s: String| s@) == components_from(pattern@, 0, Seq::empty()),
{
    let mut out: Vec<String> = Vec::new();
    let mut cur: Vec<char> = Vec::new();
    let mut i: usize = 0;
    assert(out@.map_values(|s: String| s@) + components_from(pattern@, 0, cur@) =~= components_from(pattern@, 0, Seq::empty()));
    while i < pattern.len()
        invariant
            i <= pattern@.len(),
            !cur@.contains('/'),
            forall|k: int| 0 <= k < out@.len() ==> (#[trigger] out@[k])@.len() > 0
                && !out@[k]@.contains('/'),
            out@.map_values(|s: String| s@) + components_from(pattern@, i as int, cur@) == components_from(
                pattern@,
                0,
                Seq::empty(),
            ),
        decreases pattern.len() - i,
    {
        let c = pattern[i];
        let ghost ov = out@.map_values(|s: String| s@);
        if c == '/' {
            if cur.len() > 0 {
                let piece = string_of(&cur);
                out.push(piece);
                proof {
                    assert(out@.map_values(|s: String| s@) =~= ov.push(cur@));
                    assert(ov + (seq![cur@] + components_from(pattern@, i + 1, Seq::empty())) =~= ov.push(cur@)
                        + components_from(pattern@, i + 1, Seq::empty()));
                }
                cur = Vec::new();
                assert(!cur@.contains('/'));
                assert(cur@ =~= Seq::<char>::empty());
            } else {
                assert(cur@ =~= Seq::<char>::empty());
                assert(nonempty_part(cur@) + components_from(pattern@, i + 1, Seq::empty()) =~= components_from(
                    pattern@,
                    i + 1,
                    Seq::empty(),
                ));
            }
        } else {
            cur.push(c);
            assert forall|k: int| 0 <= k < cur@.len() implies cur@[k] != '/' by {
                if k < cur@.len() - 1 {
                    assert(cur@[k] == cur@.drop_last()[k]);
                }
            }
        }
        i += 1;
    }
    let ghost ov = out@.map_values(|s: String| s@);
    if cur.len() > 0 {
        out.push(string_of(&cur));
        assert(out@.map_values(|s: String| s@) =~= ov + seq![cur@]);
    } else {
        assert(ov + nonempty_part(cur@) =~= ov);
    }
    out
}

/// True if a file exists (without following a final symbolic link).
fn exists_nofollow(host: &mut Box<dyn Host>, path: &String) -> bool {
    match host.stat(path, false) {
        Some(_) => true,
        None => false,
    }
}

/// True if a path is a directory (following symbolic links).
fn is_directory(host: &mut Box<dyn Host>, path: &String) -> bool {
    match host.stat(path, true) {
        Some(st) => match st.kind {
            FileKind::Directory => true,
            _ => false,
        },
        None => false,
    }
}

/// A directory entry that a glob component matches: the component matches
/// the name, and a hidden name (one that starts with `.`) only when the
/// component starts with `.` too.
pub open spec fn entry_matches(pattern: Seq<char>, name: Seq<char>) -> bool {
    &&& !(name.len() > 0 && name[0] == '.' && !(pattern.len() > 0 && pattern[0] == '.'))
    &&& spec_fnmatch(pattern, 0, name, 0)
}

/// The names among the first `n` entries of a listing that `pattern`
/// matches, in listing order.
pub open spec fn matching_names(entries: Seq<String>, pattern: Seq<char>, n: int) -> Seq<Seq<char>>
    decreases n,
{
    if n <= 0 || n > entries.len() {
        Seq::empty()
    } else if entry_matches(pattern, entries[n - 1]@) {
        matching_names(entries, pattern, n - 1).push(entries[n - 1]@)
    } else {
        matching_names(entries, pattern, n - 1)
    }
}

/// The names a glob component picks from a listing: each is an entry of
/// the listing that the component matches, and never a hidden one (a name
/// starting with `.`) unless the component starts with `.`; and every
/// entry that is not hidden and that the component matches is picked.
pub proof fn law_matching_names(entries: Seq<String>, pattern: Seq<char>, n: int)
    requires
        0 <= n <= entries.len(),
    ensures
        forall|k: int|
            0 <= k < matching_names(entries, pattern, n).len() ==> ({
                let x = #[trigger] matching_names(entries, pattern, n)[k];
                &&& exists|i: int| 0 <= i < n && entries[i]@ == x
                &&& spec_fnmatch(pattern, 0, x, 0)
                &&& x.len() > 0 && x[0] == '.' ==> pattern.len() > 0 && pattern[0] == '.'
            }),
        forall|i: int|
            0 <= i < n && !(entries[i]@.len() > 0 && entries[i]@[0] == '.') && spec_fnmatch(
                pattern,
                0,
                #[trigger] entries[i]@,
                0,
            ) ==> matching_names(entries, pattern, n).contains(entries[i]@),
    decreases n,
{
    if n > 0 {
        law_matching_names(entries, pattern, n - 1);
        let prev = matching_names(entries, pattern, n - 1);
        let cur = matching_names(entries, pattern, n);
        assert forall|k: int| 0 <= k < cur.len() implies ({
            let x = #[trigger] cur[k];
            &&& exists|i: int| 0 <= i < n && entries[i]@ == x
            &&& spec_fnmatch(pattern, 0, x, 0)
            &&& x.len() > 0 && x[0] == '.' ==> pattern.len() > 0 && pattern[0] == '.'
        }) by {
            if k < prev.len() {
                assert(cur[k] == prev[k]);
                let i = choose|i: int| 0 <= i < n - 1 && entries[i]@ == prev[k];
                assert(0 <= i < n && entries[i]@ == cur[k]);
            } else {
                assert(cur[k] == entries[n - 1]@);
                assert(0 <= n - 1 < n && entries[n - 1]@ == cur[k]);
            }
        }
        assert forall|i: int|
            0 <= i < n && !(entries[i]@.len() > 0 && entries[i]@[0] == '.') && spec_fnmatch(
                pattern,
                0,
                #[trigger] entries[i]@,
                0,
            ) implies cur.contains(entries[i]@) by {
            if i < n - 1 {
                let k = choose|k: int| 0 <= k < prev.len() && prev[k] == entries[i]@;
                if entry_matches(pattern, entries[n - 1]@) {
                    assert(cur[k] == prev[k]);
                }
                assert(cur[k] == entries[i]@);
            } else {
                assert(cur[cur.len() - 1] == entries[i]@);
            }
        }
    }
}

/// The entries of a directory listing that a glob component matches, in
/// listing order.
pub fn matching_entries(entries: &Vec<String>, pattern: &str) -> (r: Vec<String>)
    ensures
        r@.map_values(|s: String| s@) == matching_names(entries@, pattern@, entries@.len() as int),
{
    let pchars = chars_of(pattern);
    let pattern_dot = pchars.len() > 0 && pchars[0] == '.';
    let mut out: Vec<String> = Vec::new();
    let mut k: usize = 0;
    while k < entries.len()
        invariant
            k <= entries@.len(),
            pchars@ == pattern@,
            pattern_dot == (pattern@.len() > 0 && pattern@[0] == '.'),
            out@.map_values(|s: String| s@) == matching_names(entries@, pattern@, k as int),
        decreases entries.len() - k,
    {
        let name = &entries[k];
        let nchars = chars_of(name.as_str());
        let hidden = nchars.len() > 0 && nchars[0] == '.';
        if !(hidden && !pattern_dot) && fnmatch(pattern, name.as_str()) {
            let ghost prev = out@;
            out.push(name.clone());
            proof {
                assert(out@.map_values(|s: String| s@) =~= prev.map_values(|s: String| s@).push(entries@[k as int]@));
            }
        }
        k += 1;
    }
    out
}

/// Walk the components from `idx` on, below `fs_dir` (read from the host)
/// and `display_dir` (the prefix of the reported paths).
fn glob_recursive(
    host: &mut Box<dyn Host>,
    fs_dir: &String,
    display_dir: &String,
    components: &Vec<String>,
    idx: usize,
    results: &mut Vec<String>,
)
    requires
        idx <= components@.len(),
    ensures
        final(results)@.len() >= old(results)@.len(),
        final(results)@.subrange(0, old(results)@.len() as int) == old(results)@,
    decreases components@.len() - idx,
{
    if idx >= components.len() {
        return;
    }
    let pattern = &components[idx];
    let next: usize = idx + 1;
    let last = next == components.len();
    if !has_glob_chars(pattern.as_str()) {
        let fs_candidate = join_path(fs_dir.as_str(), pattern.as_str());
        let display_candidate = join_path(display_dir.as_str(), pattern.as_str());
        if last {
            if exists_nofollow(host, &fs_candidate) {
                results.push(display_candidate);
            }
        } else if is_directory(host, &fs_candidate) {
            glob_recursive(host, &fs_candidate, &display_candidate, components, next, results);
        }
        return;
    }
    let entries = match host.read_dir(fs_dir) {
        Some(e) => e,
        None => {
            return;
        },
    };
    let matches = matching_entries(&entries, pattern.as_str());
    let mut k: usize = 0;
    while k < matches.len()
        invariant
            idx < components@.len(),
            next == idx + 1,
            last == (next == components@.len()),
            results@.len() >= old(results)@.len(),
            results@.subrange(0, old(results)@.len() as int) == old(results)@,
        decreases matches.len() - k,
    {
        let name = &matches[k];
        let fs_full = join_path(fs_dir.as_str(), name.as_str());
        let display_full = join_path(display_dir.as_str(), name.as_str());
        if last {
            results.push(display_full);
        } else if is_directory(host, &fs_full) {
            glob_recursive(host, &fs_full, &display_full, components, next, results);
        }
        k += 1;
    }
}

/// Expand a glob pattern into the matching file names, sorted; none when
/// nothing matches. Relative patterns are resolved against `cwd`; the
/// directories are read through `host`.
pub fn glob(host: &mut Box<dyn Host>, pattern: &str, cwd: &str) -> (r: Vec<String>)
    ensures
        pattern@.len() == 0 ==> r@.len() == 0,
        sorted_strings(r@),
        pattern@.len() > 0 && components_from(pattern@, 0, Seq::empty()).len() == 0 && pattern@[0] == '/' ==> r@.len()
            == 1 && r@[0]@ == seq!['/'],
        pattern@.len() > 0 && components_from(pattern@, 0, Seq::empty()).len() == 0 && pattern@[0] != '/'
            ==> r@.len() == 0,
{
    let pchars = chars_of(pattern);
    if pchars.len() == 0 {
        return Vec::new();
    }
    let absolute = pchars[0] == '/';
    let components = split_components(&pchars);
    if absolute && components.len() == 0 {
        let mut v: Vec<String> = Vec::new();
        v.push("/".to_owned());
        proof {
            reveal_strlit("/");
        }
        return v;
    }
    if components.len() == 0 {
        return Vec::new();
    }
    let mut results: Vec<String> = Vec::new();
    if absolute {
        let root = "/".to_owned();
        glob_recursive(host, &root, &root, &components, 0, &mut results);
    } else {
        let cwd_s = cwd.to_owned();
        let empty = String::new();
        glob_recursive(host, &cwd_s, &empty, &components, 0, &mut results);
    }
    sort_strings(results)
}

} // verus!
