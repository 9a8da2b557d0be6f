use vstd::prelude::*;

verus! {

/// The characters of a string slice, in order.
pub fn chars_of(s: &str) -> (r: Vec<char>)
    ensures
        r@ == s@,
{
    let mut r: Vec<char> = Vec::new();
    for c in it: s.chars()
        invariant
            r@ == it.seq().take(it.index() as int),
    {
        r.push(c);
    }
    assert(r@ =~= s@);
    r
}

/// Appends one character to a string (std's `String::push`).
#[verifier::external_body]
pub fn push_char(s: &mut String, c: char)
    ensures
        final(s)@ == old(s)@.push(c),
{
    s.push(c);
}

/// Builds a string from a sequence of characters.
pub fn string_of(cs: &Vec<char>) -> (r: String)
    ensures
        r@ == cs@,
{
    let mut r = String::new();
    let mut i: usize = 0;
    while i < cs.len()
        invariant
            i <= cs.len(),
            r@ == cs@.take(i as int),
        decreases cs.len() - i,
    {
        push_char(&mut r, cs[i]);
        assert(cs@.take(i + 1) =~= cs@.take(i as int).push(cs@[i as int]));
        i += 1;
    }
    assert(cs@.take(cs.len() as int) =~= cs@);
    r
}

/// Equality of two string slices, character by character.
pub fn str_eq(a: &str, b: &str) -> (r: bool)
    ensures
        r == (a@ == b@),
{
    let ca = chars_of(a);
    let cb = chars_of(b);
    if ca.len() != cb.len() {
        return false;
    }
    let mut i: usize = 0;
    while i < ca.len()
        invariant
            i <= ca@.len() == cb@.len(),
            ca@ == a@,
            cb@ == b@,
            forall|k: int| 0 <= k < i ==> ca@[k] == cb@[k],
        decreases ca.len() - i,
    {
        if ca[i] != cb[i] {
            return false;
        }
        i += 1;
    }
    assert(ca@ =~= cb@);
    true
}


/// The decimal digit character for `d` (0-9).
pub open spec fn digit_char(d: int) -> char {
    ((48 + d) as u32) as char
}

/// The decimal representation of a natural number, most significant digit first.
pub open spec fn decimal(n: nat) -> Seq<char>
    decreases n,
{
    if n < 10 {
        seq![digit_char(n as int)]
    } else {
        decimal(n / 10).push(digit_char((n % 10) as int))
    }
}

/// The decimal representation of an integer, with a leading '-' when negative.
pub open spec fn int_decimal(n: int) -> Seq<char> {
    if n < 0 {
        seq!['-'] + decimal((-n) as nat)
    } else {
        decimal(n as nat)
    }
}

fn digit_of(d: u64) -> (c: char)
    requires
        d < 10,
    ensures
        c == digit_char(d as int),
{
    let v: u8 = 48u8 + d as u8;
    v as char
}

/// The decimal digits of `n`, most significant first.
pub fn nat_digits(n: u64) -> (r: Vec<char>)
    ensures
        r@ == decimal(n as nat),
    decreases n,
{
    if n < 10 {
        let mut v: Vec<char> = Vec::new();
        v.push(digit_of(n));
        v
    } else {
        let mut v = nat_digits(n / 10);
        v.push(digit_of(n % 10));
        v
    }
}

/// The decimal representation of an `i64`, as Rust's `to_string` prints it.
pub fn int_to_string(n: i64) -> (r: String)
    ensures
        r@ == int_decimal(n as int),
{
    if n < 0 {
        let m: u64 = (0i128 - n as i128) as u64;
        let mut cs: Vec<char> = Vec::new();
        cs.push('-');
        let d = nat_digits(m);
        let mut i: usize = 0;
        while i < d.len()
            invariant
                i <= d.len(),
                cs@ == seq!['-'] + d@.take(i as int),
            decreases d.len() - i,
        {
            cs.push(d[i]);
            assert(d@.take(i + 1) =~= d@.take(i as int).push(d@[i as int]));
            i += 1;
        }
        assert(d@.take(d.len() as int) =~= d@);
        string_of(&cs)
    } else {
        string_of(&nat_digits(n as u64))
    }
}

/// The decimal representation of a `usize`.
pub fn usize_to_string(n: usize) -> (r: String)
    ensures
        r@ == decimal(n as nat),
{
    string_of(&nat_digits(n as u64))
}

/// True if `c` is an ASCII decimal digit.
pub open spec fn is_digit(c: char) -> bool {
    '0' <= c && c <= '9'
}

/// The value of an ASCII digit character.
pub open spec fn digit_value(c: char) -> int {
    (c as int) - 48
}

/// The value of a sequence of decimal digits (most significant first).
pub open spec fn digits_value(s: Seq<char>) -> int
    decreases s.len(),
{
    if s.len() == 0 {
        0
    } else {
        digits_value(s.drop_last()) * 10 + digit_value(s.last())
    }
}

/// True if every character of `s` is a decimal digit.
pub open spec fn all_digits(s: Seq<char>) -> bool {
    forall|i: int| 0 <= i < s.len() ==> is_digit(#[trigger] s[i])
}

/// The integer that Rust's `str::parse::<i64>` reads from `s`, before the
/// range check: an optional '+' or '-', then one or more decimal digits.
pub open spec fn spec_parse_int(s: Seq<char>) -> Option<int> {
    if s.len() > 0 && (s[0] == '+' || s[0] == '-') {
        let rest = s.drop_first();
        if rest.len() > 0 && all_digits(rest) {
            if s[0] == '-' {
                Some(-digits_value(rest))
            } else {
                Some(digits_value(rest))
            }
        } else {
            None
        }
    } else if s.len() > 0 && all_digits(s) {
        Some(digits_value(s))
    } else {
        None
    }
}

/// What `str::parse::<i64>` returns for `s`: the value when `s` is a signed
/// decimal number that fits in an `i64`, `None` otherwise.
pub open spec fn spec_parse_i64(s: Seq<char>) -> Option<i64> {
    match spec_parse_int(s) {
        Some(v) => if i64::MIN <= v <= i64::MAX {
            Some(v as i64)
        } else {
            None
        },
        None => None,
    }
}

proof fn lemma_digits_value_nonneg(s: Seq<char>)
    requires
        all_digits(s),
    ensures
        digits_value(s) >= 0,
    decreases s.len(),
{
    if s.len() > 0 {
        assert(is_digit(s[s.len() - 1]));
        lemma_digits_value_nonneg(s.drop_last());
    }
}

/// The decimal digits of `n` are digits, and read back as `n`.
pub proof fn lemma_decimal_digits(n: nat)
    ensures
        decimal(n).len() > 0,
        all_digits(decimal(n)),
        digits_value(decimal(n)) == n,
    decreases n,
{
    let d = digit_char((n % 10) as int);
    assert(digit_value(d) == n % 10 && is_digit(d)) by {
        let x: u32 = (48 + n % 10) as u32;
        assert(x as int == 48 + n % 10);
    }
    if n < 10 {
        assert(n % 10 == n);
        assert(decimal(n).drop_last() =~= Seq::<char>::empty());
        assert(decimal(n).last() == d);
        assert(digits_value(decimal(n)) == digits_value(Seq::<char>::empty()) * 10 + digit_value(d));
    } else {
        lemma_decimal_digits(n / 10);
        assert(decimal(n).drop_last() =~= decimal(n / 10));
        assert(decimal(n).last() == d);
        assert(digits_value(decimal(n)) == digits_value(decimal(n / 10)) * 10 + digit_value(d));
        assert((n / 10) * 10 + n % 10 == n);
    }
}

/// Reading the decimal form of an `i64` gives the number back.
pub proof fn lemma_parse_int_decimal(v: i64)
    ensures
        spec_parse_i64(int_decimal(v as int)) == Some(v),
{
    if v < 0 {
        let m = (-v) as nat;
        lemma_decimal_digits(m);
        let s = int_decimal(v as int);
        assert(s.drop_first() =~= decimal(m));
    } else {
        lemma_decimal_digits(v as nat);
        assert(is_digit(decimal(v as nat)[0]));
    }
}

/// Parses a signed decimal number as `str::parse::<i64>` does.
pub fn parse_i64_chars(s: &[char]) -> (r: Option<i64>)
    ensures
        r == spec_parse_i64(s@),
{
    let n = s.len();
    if n == 0 {
        return None;
    }
    let neg = s[0] == '-';
    let start: usize = if s[0] == '+' || s[0] == '-' { 1 } else { 0 };
    if start == n {
        return None;
    }
    let ghost rest = s@.subrange(start as int, n as int);
    proof {
        if start == 1 {
            assert(rest =~= s@.drop_first());
        } else {
            assert(rest =~= s@);
        }
    }
    // Accumulate the magnitude as a negative number so that i64::MIN fits.
    let mut acc: i128 = 0;
    let mut i: usize = start;
    while i < n
        invariant
            start <= i <= n,
            start == 0 || start == 1,
            n == s.len(),
            rest == s@.subrange(start as int, n as int),
            all_digits(s@.subrange(start as int, i as int)),
            acc == digits_value(s@.subrange(start as int, i as int)),
            0 <= acc <= i64::MAX as int + 1,
            start == 1 ==> rest == s@.drop_first() && (s@[0] == '+' || s@[0] == '-'),
            start == 0 ==> rest == s@ && !(s@[0] == '+' || s@[0] == '-'),
            neg == (s@[0] == '-'),
        decreases n - i,
    {
        let c = s[i];
        if !('0' <= c && c <= '9') {
            proof {
                assert(rest[i - start] == s@[i as int]);
                assert(!is_digit(rest[i - start]));
                assert(!all_digits(rest));
                if start == 0 {
                    assert(!all_digits(s@));
                }

            }
            return None;
        }
        let d = (c as u32 - 48) as i128;
        let ghost prev = s@.subrange(start as int, i as int);
        let ghost next = s@.subrange(start as int, i + 1);
        assert(next.drop_last() =~= prev);
        assert(next.last() == c);
        proof {
            lemma_digits_value_nonneg(prev);
        }
        let nacc = acc * 10 + d;
        if nacc > i64::MAX as i128 + 1 {
            proof {
                assert(all_digits(next));
                // every longer digit string has at least this value
                assert(rest.take((i + 1 - start) as int) =~= next);
                assert(digits_value(next) == acc * 10 + d);
                lemma_digits_prefix_bound(rest, (i + 1 - start) as int);
                assert(all_digits(rest) ==> digits_value(rest) > i64::MAX + 1);
                if start == 0 {
                    assert(all_digits(s@) ==> digits_value(s@) > i64::MAX + 1);
                }
            }
            return None;
        }
        acc = nacc;
        i += 1;
    }
    if neg {
        Some((0i128 - acc) as i64)
    } else {
        if acc > i64::MAX as i128 {
            None
        } else {
            Some(acc as i64)
        }
    }
}

proof fn lemma_digits_prefix_bound(s: Seq<char>, k: int)
    requires
        0 <= k <= s.len(),
        all_digits(s.take(k)),
    ensures
        all_digits(s) ==> digits_value(s) >= digits_value(s.take(k)),
    decreases s.len() - k,
{
    if k < s.len() && all_digits(s) {
        assert(all_digits(s.take(k + 1)));
        assert(s.take(k + 1).drop_last() =~= s.take(k));
        assert(is_digit(s.take(k + 1).last()));
        lemma_digits_value_nonneg(s.take(k));
        lemma_digits_prefix_bound(s, k + 1);
    }
    if k == s.len() {
        assert(s.take(k) =~= s);
    }
}

/// Parses a decimal number from a string as `str::parse::<i64>` does.
pub fn parse_i64(s: &str) -> (r: Option<i64>)
    ensures
        r == spec_parse_i64(s@),
{
    let cs = chars_of(s);
    parse_i64_chars(cs.as_slice())
}


/// The strings of `list` joined with `sep` between consecutive ones.
pub open spec fn spec_join(list: Seq<Seq<char>>, sep: Seq<char>) -> Seq<char>
    decreases list.len(),
{
    if list.len() == 0 {
        Seq::empty()
    } else if list.len() == 1 {
        list[0]
    } else {
        spec_join(list.drop_last(), sep) + sep + list.last()
    }
}

/// Join strings with a separator.
pub fn join_strings(list: &Vec<String>, sep: &str) -> (r: String)
    ensures
        r@ == spec_join(list@.map_values(|s: String| s@), sep@),
{
    let mut r = String::new();
    let ghost views = list@.map_values(|s: String| s@);
    let mut i: usize = 0;
    while i < list.len()
        invariant
            i <= list.len(),
            views == list@.map_values(|s: String| s@),
            r@ == spec_join(views.take(i as int), sep@),
        decreases list.len() - i,
    {
        assert(views.take(i + 1).drop_last() =~= views.take(i as int));
        if i > 0 {
            r.append(sep);
        } else {
            assert(views.take(0) =~= Seq::<Seq<char>>::empty());
        }
        r.append(list[i].as_str());
        i += 1;
    }
    assert(views.take(list.len() as int) =~= views);
    r
}

/// Concatenation of two string slices.
pub fn concat(a: &str, b: &str) -> (r: String)
    ensures
        r@ == a@ + b@,
{
    let mut s = a.to_owned();
    s.append(b);
    s
}

} // verus!
