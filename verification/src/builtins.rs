//! The shell's builtin commands.

use vstd::prelude::*;

use crate::encoding::{bytes_to_str, spec_str_to_bytes};
use crate::error::{ExitStatus, ShellError, Span};
use crate::eval::{Shell, ShellOpts};
use crate::host::FileKind;
use crate::signals::{name_to_signal, signal_text};
use crate::var::Variables;
use crate::text::{chars_of, int_to_string, parse_i64, push_char, str_eq, string_of, usize_to_string};

verus! {

/// True if `s` is the literal `lit`.
fn is_lit(s: &String, lit: &str) -> (r: bool)
    ensures
        r == (s@ == lit@),
{
    str_eq(s.as_str(), lit)
}

/// The names of the builtins, as `is_builtin` recognizes them.
pub open spec fn spec_is_builtin(name: Seq<char>) -> bool {
    name == ":"@ || name == "true"@ || name == "false"@ || name == "echo"@ || name == "printf"@ || name == "cd"@
        || name == "pwd"@ || name == "exit"@ || name == "return"@ || name == "break"@ || name == "continue"@ || name
        == "export"@ || name == "readonly"@ || name == "unset"@ || name == "set"@ || name == "shift"@ || name
        == "eval"@ || name == "."@ || name == "source"@ || name == "test"@ || name == "["@ || name == "read"@
        || name == "local"@ || name == "exec"@ || name == "command"@ || name == "type"@ || name == "wait"@ || name
        == "trap"@ || name == "kill"@ || name == "umask"@ || name == "getopts"@
}

/// The status code that `exit` and `return` give: their argument modulo
/// 256 when it is a number that fits in an `i32`, else the last status.
pub open spec fn exit_code(args: Seq<String>, last: i32) -> i32 {
    if args.len() > 1 {
        match crate::text::spec_parse_i64(args[1]@) {
            Some(n) => if -2147483648 <= n <= 2147483647 {
                crate::error::status_of(n as int)
            } else {
                last
            },
            None => last,
        }
    } else {
        last
    }
}

/// The operands of `test`: the arguments after the command name, without
/// the closing `]` of the `[` form.
pub open spec fn test_operands(args: Seq<String>) -> Seq<String> {
    if args[0]@ == "["@ {
        args.subrange(1, args.len() - 1)
    } else {
        args.subrange(1, args.len() as int)
    }
}

/// The options after `set` turns the option letter `c` on or off.
pub open spec fn with_letter(o: ShellOpts, c: char, enable: bool) -> ShellOpts {
    ShellOpts {
        errexit: if c == 'e' {
            enable
        } else {
            o.errexit
        },
        nounset: if c == 'u' {
            enable
        } else {
            o.nounset
        },
        xtrace: if c == 'x' {
            enable
        } else {
            o.xtrace
        },
        pipefail: o.pipefail,
        interactive: o.interactive,
    }
}

/// The options after the letters `cs[k..]`, and whether all of them are
/// known; the letters before an unknown one take effect.
pub open spec fn with_letters(o: ShellOpts, cs: Seq<char>, k: int, enable: bool) -> (ShellOpts, bool)
    decreases cs.len() - k,
{
    if k < 0 || k >= cs.len() {
        (o, true)
    } else if cs[k] == 'e' || cs[k] == 'u' || cs[k] == 'x' {
        with_letters(with_letter(o, cs[k], enable), cs, k + 1, enable)
    } else {
        (o, false)
    }
}

/// The options after `set -o name` (or `+o`), if `name` is known.
pub open spec fn with_named(o: ShellOpts, name: Seq<char>, enable: bool) -> Option<ShellOpts> {
    if name == "pipefail"@ {
        Some(ShellOpts { pipefail: enable, ..o })
    } else if name == "errexit"@ {
        Some(ShellOpts { errexit: enable, ..o })
    } else if name == "nounset"@ {
        Some(ShellOpts { nounset: enable, ..o })
    } else if name == "xtrace"@ {
        Some(ShellOpts { xtrace: enable, ..o })
    } else {
        None
    }
}

/// What `set` does with `args[i..]` from the options `o`: the options
/// after it, where the new positional parameters start in `args` (`None`
/// when it sets none) and its status (1 on an unknown option).
pub open spec fn set_outcome(o: ShellOpts, args: Seq<String>, i: int) -> (ShellOpts, Option<int>, i32)
    decreases args.len() - i,
{
    if i < 1 || i >= args.len() {
        (o, None, 0)
    } else {
        let a = args[i]@;
        if a == "--"@ {
            (o, Some(i + 1), 0)
        } else if a == "-"@ {
            set_outcome(ShellOpts { xtrace: false, ..o }, args, i + 1)
        } else if (a == "-o"@ || a == "+o"@) && i + 1 < args.len() {
            match with_named(o, args[i + 1]@, a == "-o"@) {
                Some(o2) => set_outcome(o2, args, i + 2),
                None => (o, None, 1),
            }
        } else if a.len() > 0 && (a[0] == '-' || a[0] == '+') {
            let (o2, ok) = with_letters(o, a, 1, a[0] == '-');
            if ok {
                set_outcome(o2, args, i + 1)
            } else {
                (o2, None, 1)
            }
        } else {
            (o, Some(i), 0)
        }
    }
}

/// Where the options of `read` (the arguments from `i` on that start
/// with `-`) end.
pub open spec fn read_opts_end(args: Seq<String>, i: int) -> int
    decreases args.len() - i,
{
    if i < 1 || i >= args.len() {
        i
    } else if args[i]@.len() == 0 || args[i]@[0] != '-' {
        i
    } else {
        read_opts_end(args, i + 1)
    }
}

/// The variables that `read` fills: the operands after its options, or
/// `REPLY` when there are none.
pub open spec fn read_names(args: Seq<String>) -> Seq<Seq<char>> {
    let i = read_opts_end(args, 1);
    if i >= args.len() {
        seq!["REPLY"@]
    } else {
        args.subrange(i, args.len() as int).map_values(|a: String| a@)
    }
}

/// Check if a command name is a shell builtin.
pub fn is_builtin(name: &str) -> (r: bool)
    ensures
        r == spec_is_builtin(name@),
{
    str_eq(name, ":") || str_eq(name, "true") || str_eq(name, "false") || str_eq(name, "echo") || str_eq(
        name,
        "printf",
    ) || str_eq(name, "cd") || str_eq(name, "pwd") || str_eq(name, "exit") || str_eq(name, "return") || str_eq(
        name,
        "break",
    ) || str_eq(name, "continue") || str_eq(name, "export") || str_eq(name, "readonly") || str_eq(name, "unset")
        || str_eq(name, "set") || str_eq(name, "shift") || str_eq(name, "eval") || str_eq(name, ".") || str_eq(
        name,
        "source",
    ) || str_eq(name, "test") || str_eq(name, "[") || str_eq(name, "read") || str_eq(name, "local") || str_eq(
        name,
        "exec",
    ) || str_eq(name, "command") || str_eq(name, "type") || str_eq(name, "wait") || str_eq(name, "trap") || str_eq(
        name,
        "kill",
    ) || str_eq(name, "umask") || str_eq(name, "getopts")
}

/// The index of the first `=` in `s`.
fn find_eq(cs: &Vec<char>) -> (r: Option<usize>)
    ensures
        r matches Some(i) ==> i < cs@.len() && cs@[i as int] == '=' && forall|k: int| 0 <= k < i ==> cs@[k] != '=',
        r is None ==> forall|k: int| 0 <= k < cs@.len() ==> cs@[k] != '=',
{
    let mut i: usize = 0;
    while i < cs.len()
        invariant
            i <= cs@.len(),
            forall|k: int| 0 <= k < i ==> cs@[k] != '=',
        decreases cs.len() - i,
    {
        if cs[i] == '=' {
            return Some(i);
        }
        i += 1;
    }
    None
}

/// Split `name=value` at its first `=`.
pub fn split_assignment(s: &str) -> (r: Option<(String, String)>)
    ensures
        r matches Some(p) ==> s@ == p.0@ + seq!['='] + p.1@ && !p.0@.contains('='),
        r is None ==> !s@.contains('='),
{
    let cs = chars_of(s);
    match find_eq(&cs) {
        Some(i) => {
            let a = crate::lexer::slice_chars(&cs, 0, i);
            let b = crate::lexer::slice_chars(&cs, i + 1, cs.len());
            proof {
                assert(cs@ =~= a@ + seq!['='] + b@);
            }
            Some((string_of(&a), string_of(&b)))
        },
        None => None,
    }
}

/// The ASCII upper case of a character.
pub open spec fn upper_char(c: char) -> char {
    if 'a' <= c && c <= 'z' {
        ((c as u8) - 32) as char
    } else {
        c
    }
}

/// ASCII upper case of `s`.
pub fn to_upper(s: &str) -> (r: String)
    ensures
        r@ == s@.map_values(|c: char| upper_char(c)),
{
    let cs = chars_of(s);
    let mut out: Vec<char> = Vec::new();
    let mut i: usize = 0;
    while i < cs.len()
        invariant
            i <= cs@.len(),
            out@ == cs@.take(i as int).map_values(|c: char| upper_char(c)),
        decreases cs.len() - i,
    {
        let c = cs[i];
        let u = if 'a' <= c && c <= 'z' {
            ((c as u8) - 32) as char
        } else {
            c
        };
        out.push(u);
        assert(cs@.take(i + 1).map_values(|c: char| upper_char(c)) =~= cs@.take(i as int).map_values(
            |c: char| upper_char(c),
        ).push(upper_char(c)));
        i += 1;
    }
    assert(cs@.take(cs@.len() as int) =~= cs@);
    string_of(&out)
}

/// The character an `echo -e` escape `\d` stands for, or the escape as
/// written when it names none.
pub open spec fn echo_escape(d: char) -> Seq<char> {
    if d == 'n' {
        seq!['\n']
    } else if d == 't' {
        seq!['\t']
    } else if d == '\\' {
        seq!['\\']
    } else if d == 'a' {
        seq!['\x07']
    } else if d == 'b' {
        seq!['\x08']
    } else if d == 'f' {
        seq!['\x0c']
    } else if d == 'r' {
        seq!['\r']
    } else if d == 'v' {
        seq!['\x0b']
    } else {
        seq!['\\', d]
    }
}

/// The text of `cs[i..]` with its backslash escapes replaced; a final lone
/// backslash stays.
pub open spec fn unescape_from(cs: Seq<char>, i: int) -> Seq<char>
    decreases cs.len() - i,
{
    if i < 0 || i >= cs.len() {
        Seq::empty()
    } else if cs[i] == '\\' {
        if i + 1 < cs.len() {
            echo_escape(cs[i + 1]) + unescape_from(cs, i + 2)
        } else {
            seq!['\\']
        }
    } else {
        seq![cs[i]] + unescape_from(cs, i + 1)
    }
}

/// Text with no backslash comes through unescaping as it is.
proof fn lemma_unescape_plain(cs: Seq<char>, i: int, j: int)
    requires
        0 <= i <= j <= cs.len(),
        forall|k: int| i <= k < j ==> #[trigger] cs[k] != '\\',
    ensures
        unescape_from(cs, i) == cs.subrange(i, j) + unescape_from(cs, j),
    decreases j - i,
{
    if i < j {
        lemma_unescape_plain(cs, i + 1, j);
        assert(cs.subrange(i, j) =~= seq![cs[i]] + cs.subrange(i + 1, j));
        assert(seq![cs[i]] + (cs.subrange(i + 1, j) + unescape_from(cs, j)) =~= cs.subrange(i, j) + unescape_from(
            cs,
            j,
        ));
    } else {
        assert(cs.subrange(i, j) =~= Seq::<char>::empty());
        assert(Seq::<char>::empty() + unescape_from(cs, j) =~= unescape_from(cs, j));
    }
}

/// Under `echo -e`, text without backslashes is kept and a named escape
/// gives the character its letter names: `\n` newline, `\t` tab, `\\`
/// backslash, `\a` bell, `\b` backspace, `\f` form feed, `\r` carriage
/// return, `\v` vertical tab; any other escape stays as written.
pub proof fn law_echo_named_escape(pre: Seq<char>, d: char, post: Seq<char>)
    requires
        forall|k: int| 0 <= k < pre.len() ==> #[trigger] pre[k] != '\\',
        forall|k: int| 0 <= k < post.len() ==> #[trigger] post[k] != '\\',
    ensures
        ({
            let out = unescape_from(pre + seq!['\\', d] + post, 0);
            &&& d == 'n' ==> out == pre + seq!['\n'] + post
            &&& d == 't' ==> out == pre + seq!['\t'] + post
            &&& d == '\\' ==> out == pre + seq!['\\'] + post
            &&& d == 'a' ==> out == pre + seq!['\x07'] + post
            &&& d == 'b' ==> out == pre + seq!['\x08'] + post
            &&& d == 'f' ==> out == pre + seq!['\x0c'] + post
            &&& d == 'r' ==> out == pre + seq!['\r'] + post
            &&& d == 'v' ==> out == pre + seq!['\x0b'] + post
            &&& !(d == 'n' || d == 't' || d == '\\' || d == 'a' || d == 'b' || d == 'f' || d == 'r' || d == 'v')
                ==> out == pre + seq!['\\', d] + post
        }),
{
    let cs = pre + seq!['\\', d] + post;
    let n = pre.len() as int;
    assert forall|k: int| 0 <= k < n implies #[trigger] cs[k] != '\\' by {
        assert(cs[k] == pre[k]);
    }
    assert forall|k: int| n + 2 <= k < cs.len() implies #[trigger] cs[k] != '\\' by {
        assert(cs[k] == post[k - n - 2]);
    }
    lemma_unescape_plain(cs, 0, n);
    lemma_unescape_plain(cs, n + 2, cs.len() as int);
    assert(cs.subrange(0, n) =~= pre);
    assert(cs.subrange(n + 2, cs.len() as int) =~= post);
    assert(unescape_from(cs, cs.len() as int) == Seq::<char>::empty());
    assert(post + Seq::<char>::empty() =~= post);
    assert(cs[n] == '\\' && cs[n + 1] == d);
    assert(unescape_from(cs, n) == echo_escape(d) + post);
    assert(pre + (echo_escape(d) + post) =~= pre + echo_escape(d) + post);
}

/// The text of `echo -e`: backslash escapes replaced by the characters they
/// name (`\n \t \\ \a \b \f \r \v`); any other escape kept as written.
pub fn unescape_echo(s: &str) -> (r: String)
    ensures
        r@ == unescape_from(s@, 0),
{
    let cs = chars_of(s);
    let mut out: Vec<char> = Vec::new();
    let mut i: usize = 0;
    while i < cs.len()
        invariant
            i <= cs@.len(),
            cs@ == s@,
            out@ + unescape_from(cs@, i as int) == unescape_from(cs@, 0),
        decreases cs.len() - i,
    {
        let ghost before = out@;
        let ghost i0 = i as int;
        let c = cs[i];
        i += 1;
        if c == '\\' {
            if i < cs.len() {
                let d = cs[i];
                i += 1;
                if d == 'n' {
                    out.push('\n');
                } else if d == 't' {
                    out.push('\t');
                } else if d == '\\' {
                    out.push('\\');
                } else if d == 'a' {
                    out.push('\x07');
                } else if d == 'b' {
                    out.push('\x08');
                } else if d == 'f' {
                    out.push('\x0c');
                } else if d == 'r' {
                    out.push('\r');
                } else if d == 'v' {
                    out.push('\x0b');
                } else {
                    out.push('\\');
                    out.push(d);
                }
                proof {
                    assert(out@ =~= before + echo_escape(d));
                    assert(before + (echo_escape(d) + unescape_from(cs@, i as int)) =~= out@ + unescape_from(
                        cs@,
                        i as int,
                    ));
                }
            } else {
                out.push('\\');
                proof {
                    assert(unescape_from(cs@, i as int) =~= Seq::<char>::empty());
                    assert(out@ + unescape_from(cs@, i as int) =~= before + seq!['\\']);
                }
            }
        } else {
            out.push(c);
            proof {
                assert(before + (seq![c] + unescape_from(cs@, i as int)) =~= out@ + unescape_from(cs@, i as int));
            }
        }
    }
    proof {
        assert(out@ + unescape_from(cs@, i as int) =~= out@);
    }
    string_of(&out)
}

/// The digit character for `d` (below 16), upper or lower case.
pub open spec fn radix_digit_char(d: nat, upper: bool) -> char {
    if d < 10 {
        ((d + 48) as u8) as char
    } else if upper {
        ((d + 55) as u8) as char
    } else {
        ((d + 87) as u8) as char
    }
}

/// The digits of `n` in base `radix` (8 or 16), most significant first.
pub open spec fn radix_text(n: nat, radix: nat, upper: bool) -> Seq<char>
    decreases n,
{
    if radix < 2 {
        Seq::empty()
    } else {
        let rest = if n >= radix {
            proof {
                assert(n / radix < n) by (nonlinear_arith)
                    requires
                        n >= radix,
                        radix >= 2,
                ;
            }
            radix_text(n / radix, radix, upper)
        } else {
            Seq::empty()
        };
        rest.push(radix_digit_char(n % radix, upper))
    }
}

/// The digits of `n` in base 8 or 16 (upper or lower case), most
/// significant first.
pub fn radix_digits(n: u64, radix: u64, upper: bool) -> (r: Vec<char>)
    requires
        radix == 8 || radix == 16,
    ensures
        r@ == radix_text(n as nat, radix as nat, upper),
    decreases n,
{
    let d = n % radix;
    let c: char = if d < 10 {
        ((d as u8) + 48) as char
    } else if upper {
        ((d as u8) + 55) as char
    } else {
        ((d as u8) + 87) as char
    };
    let mut v = if n >= radix {
        radix_digits(n / radix, radix, upper)
    } else {
        Vec::new()
    };
    v.push(c);
    v
}

/// The two's complement bit pattern of `n`, as Rust's `{:o}` and `{:x}`
/// print a negative `i64`.
fn as_unsigned(n: i64) -> (r: u64)
    ensures
        n >= 0 ==> r == n,
        n < 0 ==> r == n + 18446744073709551616,
{
    if n >= 0 {
        n as u64
    } else {
        let m = (n + 1) as i128;
        let r = (18446744073709551615i128 + m) as u64;
        r
    }
}

/// `s` padded to `width` characters with `fill`: on the right when
/// `left_align`, else on the left; unchanged when already that wide.
pub open spec fn spec_pad(s: Seq<char>, width: nat, left_align: bool, fill: char) -> Seq<char> {
    if s.len() >= width {
        s
    } else if left_align {
        s + Seq::new((width - s.len()) as nat, |_k: int| fill)
    } else {
        Seq::new((width - s.len()) as nat, |_k: int| fill) + s
    }
}

/// Padding makes a text exactly `width` characters long when it is
/// shorter (and leaves it alone otherwise), keeps the text whole at the
/// left edge when `left_align` and at the right edge otherwise, and fills
/// the rest with `fill`.
pub proof fn law_pad(s: Seq<char>, width: nat, left_align: bool, fill: char)
    ensures
        ({
            let r = spec_pad(s, width, left_align, fill);
            let extra = r.len() - s.len();
            &&& r.len() == if s.len() >= width { s.len() as int } else { width as int }
            &&& left_align ==> r.subrange(0, s.len() as int) == s && forall|k: int|
                s.len() <= k < r.len() ==> #[trigger] r[k] == fill
            &&& !left_align ==> r.subrange(extra, r.len() as int) == s && forall|k: int|
                0 <= k < extra ==> #[trigger] r[k] == fill
        }),
{
    let r = spec_pad(s, width, left_align, fill);
    if s.len() < width {
        let f = Seq::new((width - s.len()) as nat, |_k: int| fill);
        if left_align {
            assert(r == s + f);
            assert(r.subrange(0, s.len() as int) =~= s);
        } else {
            assert(r == f + s);
            assert(r.subrange(f.len() as int, r.len() as int) =~= s);
        }
    } else {
        assert(r.subrange(0, s.len() as int) =~= s);
        assert(r.subrange(0, r.len() as int) =~= s);
    }
}

/// `s` padded to `width` characters with `fill`, on the right when
/// `left_align`, else on the left.
pub fn pad(s: &str, width: usize, left_align: bool, fill: char) -> (r: String)
    ensures
        r@ == spec_pad(s@, width as nat, left_align, fill),
{
    let cs = chars_of(s);
    if cs.len() >= width {
        return s.to_owned();
    }
    let mut padding: Vec<char> = Vec::new();
    let mut k: usize = cs.len();
    while k < width
        invariant
            cs@.len() <= k <= width,
            padding@ =~= Seq::new((k - cs@.len()) as nat, |_k: int| fill),
        decreases width - k,
    {
        padding.push(fill);
        k += 1;
    }
    let mut out = String::new();
    if left_align {
        out.append(s);
        out.append(string_of(&padding).as_str());
    } else {
        out.append(string_of(&padding).as_str());
        out.append(s);
    }
    proof {
        assert(padding@ =~= Seq::new((width - s@.len()) as nat, |_k: int| fill));
    }
    out
}

/// The first `n` characters of `s` (all of it if shorter).
fn take_chars(s: &str, n: usize) -> (r: String)
    ensures
        r@ == (if n >= s@.len() { s@ } else { s@.take(n as int) }),
{
    let cs = chars_of(s);
    if n >= cs.len() {
        s.to_owned()
    } else {
        let t = crate::lexer::slice_chars(&cs, 0, n);
        assert(t@ =~= s@.take(n as int));
        string_of(&t)
    }
}

/// Where the names of `unset` start and whether they name functions: the
/// options `-v` and `-f` from `args[i]` on, the last one winning.
pub open spec fn unset_options(args: Seq<String>, i: int, funcs: bool) -> (int, bool)
    decreases args.len() - i,
{
    if 1 <= i < args.len() && args[i]@ == "-v"@ {
        unset_options(args, i + 1, false)
    } else if 1 <= i < args.len() && args[i]@ == "-f"@ {
        unset_options(args, i + 1, true)
    } else {
        (i, funcs)
    }
}

/// `n` is one of `args[from..to]`.
pub open spec fn names_in(args: Seq<String>, from: int, to: int, n: Seq<char>) -> bool {
    exists|j: int| from <= j < to && #[trigger] args[j]@ == n
}

/// The line `trap` prints for a (signal, action) pair.
pub open spec fn trap_line(p: (Seq<char>, Seq<char>)) -> Seq<char> {
    "trap -- '"@ + p.1 + "' "@ + p.0 + seq!['\n']
}

/// The lines of the first `n` pairs.
pub open spec fn trap_listing(pairs: Seq<(Seq<char>, Seq<char>)>, n: int) -> Seq<char>
    decreases n,
{
    if n <= 0 || n > pairs.len() {
        Seq::empty()
    } else {
        trap_listing(pairs, n - 1) + trap_line(pairs[n - 1])
    }
}

/// The options of `echo` from `args[i]` on: `-n` (no newline), `-e` and
/// `-E` (escapes on and off); where the text starts, and the two settings.
pub open spec fn echo_options(args: Seq<String>, i: int, newline: bool, escape: bool) -> (int, bool, bool)
    decreases args.len() - i,
{
    if 1 <= i < args.len() && args[i]@ == "-n"@ {
        echo_options(args, i + 1, false, escape)
    } else if 1 <= i < args.len() && args[i]@ == "-e"@ {
        echo_options(args, i + 1, newline, true)
    } else if 1 <= i < args.len() && args[i]@ == "-E"@ {
        echo_options(args, i + 1, newline, false)
    } else {
        (i, newline, escape)
    }
}

/// What `echo` prints: the words after the options joined by spaces,
/// escapes interpreted under `-e`, then a newline unless `-n`.
pub open spec fn echo_output(args: Seq<String>) -> Seq<char> {
    let (k, newline, escape) = echo_options(args, 1, true, false);
    let words = if k <= args.len() {
        args.subrange(k, args.len() as int)
    } else {
        Seq::empty()
    };
    let joined = crate::text::spec_join(words.map_values(|s: String| s@), seq![' ']);
    let text = if escape {
        unescape_from(joined, 0)
    } else {
        joined
    };
    if newline {
        text.push('\n')
    } else {
        text
    }
}

/// `echo a b` writes the two words with a space between them and a
/// newline after; with `-n` first it writes no newline; with `-e` first
/// it interprets escapes in them.
pub proof fn law_echo_words(args: Seq<String>)
    requires
        args.len() >= 3,
    ensures
        args.len() == 3 && args[1]@ != "-n"@ && args[1]@ != "-e"@ && args[1]@ != "-E"@ ==> echo_output(args)
            == args[1]@ + seq![' '] + args[2]@ + seq!['\n'],
        args.len() == 4 && args[1]@ == "-n"@ && args[2]@ != "-n"@ && args[2]@ != "-e"@ && args[2]@ != "-E"@
            ==> echo_output(args) == args[2]@ + seq![' '] + args[3]@,
        args.len() == 3 && args[1]@ == "-e"@ && args[2]@ != "-n"@ && args[2]@ != "-e"@ && args[2]@ != "-E"@
            ==> echo_output(args) == unescape_from(args[2]@, 0) + seq!['\n'],
{
    if args.len() == 3 && args[1]@ != "-n"@ && args[1]@ != "-e"@ && args[1]@ != "-E"@ {
        assert(echo_options(args, 1, true, false) == (1int, true, false));
        let words = args.subrange(1, 3).map_values(|s: String| s@);
        assert(words.len() == 2 && words[0] == args[1]@ && words[1] == args[2]@);
        assert(words.drop_last() =~= seq![args[1]@]);
        assert(crate::text::spec_join(words.drop_last(), seq![' ']) == args[1]@);
        assert(crate::text::spec_join(words, seq![' ']) == args[1]@ + seq![' '] + args[2]@);
    }
    if args.len() == 4 && args[1]@ == "-n"@ && args[2]@ != "-n"@ && args[2]@ != "-e"@ && args[2]@ != "-E"@ {
        assert(echo_options(args, 2, false, false) == (2int, false, false));
        assert(echo_options(args, 1, true, false) == (2int, false, false));
        let words = args.subrange(2, 4).map_values(|s: String| s@);
        assert(words.len() == 2 && words[0] == args[2]@ && words[1] == args[3]@);
        assert(words.drop_last() =~= seq![args[2]@]);
        assert(crate::text::spec_join(words.drop_last(), seq![' ']) == args[2]@);
        assert(crate::text::spec_join(words, seq![' ']) == args[2]@ + seq![' '] + args[3]@);
    }
    if args.len() == 3 && args[1]@ == "-e"@ && args[2]@ != "-n"@ && args[2]@ != "-e"@ && args[2]@ != "-E"@ {
        reveal_strlit("-n");
        reveal_strlit("-e");
        assert(args[1]@ != "-n"@) by {
            assert("-e"@[1] != "-n"@[1]);
        }
        assert(echo_options(args, 2, true, true) == (2int, true, true));
        assert(echo_options(args, 1, true, false) == (2int, true, true));
        let words = args.subrange(2, 3).map_values(|s: String| s@);
        assert(crate::text::spec_join(words, seq![' ']) == args[2]@);
    }
}

/// Where the first `=` of an argument is (its length when there is none).
pub open spec fn eq_index(a: Seq<char>) -> int {
    crate::arith::run_end(a, 0, |c: char| c != '=')
}

/// The name an argument `name[=value]` of `export` or `readonly` names.
pub open spec fn arg_name(a: Seq<char>) -> Seq<char> {
    a.take(eq_index(a))
}

/// The value an argument `name=value` gives; `None` without `=`.
pub open spec fn arg_value(a: Seq<char>) -> Option<Seq<char>> {
    if eq_index(a) < a.len() {
        Some(a.skip(eq_index(a) + 1))
    } else {
        None
    }
}

/// Some argument of `args[from..to]` names `n`.
pub open spec fn names_in_args(args: Seq<String>, from: int, to: int, n: Seq<char>) -> bool {
    exists|j: int| from <= j < to && arg_name(#[trigger] args[j]@) == n
}

/// The value the last of `args[1..m]` that assigns `n` gives it.
pub open spec fn last_value(args: Seq<String>, m: int, n: Seq<char>) -> Option<Seq<char>>
    decreases m,
{
    if m <= 1 || m > args.len() {
        None
    } else if arg_name(args[m - 1]@) == n && arg_value(args[m - 1]@) is Some {
        arg_value(args[m - 1]@)
    } else {
        last_value(args, m - 1, n)
    }
}

/// The value of `n` after `export` of `args[1..m]` from `before`: a
/// readonly variable keeps its value; another takes the value of the last
/// argument that assigns it, if any.
pub open spec fn export_value(before: Variables, args: Seq<String>, m: int, n: Seq<char>) -> Option<Seq<char>> {
    if before.readonly(n) {
        before.value_of(n)
    } else {
        match last_value(args, m, n) {
            Some(v) => Some(v),
            None => before.value_of(n),
        }
    }
}

/// `after` is `before` after `export` of `args[1..m]`: every named
/// variable exported and given its value, readonly status unchanged, every
/// other variable as it was.
pub open spec fn exported_args(before: Variables, after: Variables, args: Seq<String>, m: int) -> bool {
    &&& forall|j: int| 1 <= j < m ==> after.exported(arg_name(#[trigger] args[j]@))
    &&& forall|k: Seq<char>| #[trigger] after.readonly(k) == before.readonly(k)
    &&& forall|k: Seq<char>| !#[trigger] names_in_args(args, 1, m, k) ==> after.lookup(k) == before.lookup(k)
    &&& forall|k: Seq<char>| #[trigger] after.value_of(k) == export_value(before, args, m, k)
    &&& after.params() == before.params()
}

/// The first of `args[1..m]` that names `n`: `Some` of the value it
/// assigns (`None` inside for a bare name), or `None` when none names it.
pub open spec fn first_occurrence(args: Seq<String>, m: int, n: Seq<char>) -> Option<Option<Seq<char>>>
    decreases m,
{
    if m <= 1 || m > args.len() {
        None
    } else {
        match first_occurrence(args, m - 1, n) {
            Some(x) => Some(x),
            None => if arg_name(args[m - 1]@) == n {
                Some(arg_value(args[m - 1]@))
            } else {
                None
            },
        }
    }
}

/// The value of `n` after `readonly` of `args[1..m]` from `before`: once
/// readonly, a variable keeps its value, so only the first argument that
/// names a variable not yet readonly can assign it.
pub open spec fn readonly_value(before: Variables, args: Seq<String>, m: int, n: Seq<char>) -> Option<Seq<char>> {
    if before.readonly(n) {
        before.value_of(n)
    } else {
        match first_occurrence(args, m, n) {
            Some(Some(v)) => Some(v),
            _ => before.value_of(n),
        }
    }
}

/// `after` is `before` after `readonly` of `args[1..m]`: every named
/// variable readonly and given its value, export status unchanged, every
/// other variable as it was.
pub open spec fn readonly_args(before: Variables, after: Variables, args: Seq<String>, m: int) -> bool {
    &&& forall|k: Seq<char>| #[trigger] after.readonly(k) == (before.readonly(k) || first_occurrence(args, m, k) is Some)
    &&& forall|k: Seq<char>| #[trigger] after.exported(k) == before.exported(k)
    &&& forall|k: Seq<char>| first_occurrence(args, m, k) is None ==> #[trigger] after.lookup(k) == before.lookup(k)
    &&& forall|k: Seq<char>| #[trigger] after.value_of(k) == readonly_value(before, args, m, k)
    &&& after.params() == before.params()
}

/// `after` is `before` after `local` of `args[1..m]`: each assignment sets
/// its variable (a readonly one keeps its value), flags unchanged, every
/// variable that no argument assigns as it was, in the same scope.
pub open spec fn local_args(before: Variables, after: Variables, args: Seq<String>, m: int) -> bool {
    &&& forall|k: Seq<char>| #[trigger] after.readonly(k) == before.readonly(k)
    &&& forall|k: Seq<char>| #[trigger] after.exported(k) == before.exported(k)
    &&& forall|k: Seq<char>| last_value(args, m, k) is None ==> #[trigger] after.lookup(k) == before.lookup(k)
    &&& forall|k: Seq<char>| #[trigger] after.value_of(k) == export_value(before, args, m, k)
    &&& after.params() == before.params()
    &&& after.depth() == before.depth()
}

/// ASCII upper case of a text.
pub open spec fn upper_text(s: Seq<char>) -> Seq<char> {
    s.map_values(|c: char| upper_char(c))
}

/// Where the operands of `trap` start: after a leading `--`.
pub open spec fn trap_offset(args: Seq<String>) -> int {
    if args.len() > 1 && args[1]@ == "--"@ {
        2
    } else {
        1
    }
}

/// Some signal operand among `args[from..to]` names `k` in upper case.
pub open spec fn names_signal(args: Seq<String>, from: int, to: int, k: Seq<char>) -> bool {
    exists|j: int| from <= j < to && upper_text(#[trigger] args[j]@) == k
}

/// The action for signal `k` after `trap` with `args`: a lone operand
/// other than `-` resets its signal; an action before signals sets each of
/// them, or resets them when it is `-`; every other signal keeps its trap.
pub open spec fn trap_after(before: crate::eval::Traps, args: Seq<String>, k: Seq<char>) -> Option<Seq<char>> {
    let o = trap_offset(args);
    if args.len() <= o {
        before.lookup(k)
    } else if args.len() == o + 1 {
        if args[o]@ == "-"@ || upper_text(args[o]@) != k {
            before.lookup(k)
        } else {
            None
        }
    } else if names_signal(args, o + 1, args.len() as int, k) {
        if args[o]@ == "-"@ {
            None
        } else {
            Some(args[o]@)
        }
    } else {
        before.lookup(k)
    }
}

proof fn lemma_names_in_args_step(args: Seq<String>, i: int)
    requires
        1 <= i < args.len(),
    ensures
        forall|k: Seq<char>| #[trigger] names_in_args(args, 1, i + 1, k) == (names_in_args(args, 1, i, k) || k
            == arg_name(args[i]@)),
{
    assert forall|k: Seq<char>| #[trigger] names_in_args(args, 1, i + 1, k) == (names_in_args(args, 1, i, k) || k
        == arg_name(args[i]@)) by {
        if k == arg_name(args[i]@) {
            assert(arg_name(args[i]@) == k);
        }
        if names_in_args(args, 1, i + 1, k) && k != arg_name(args[i]@) {
            let j = choose|j: int| 1 <= j < i + 1 && arg_name(#[trigger] args[j]@) == k;
            assert(j < i);
        }
    }
}

/// An argument split at its first `=` names the part before it.
proof fn lemma_arg_split(a: Seq<char>, n: Seq<char>, v: Seq<char>)
    requires
        a == n + seq!['='] + v,
        !n.contains('='),
    ensures
        arg_name(a) == n,
        arg_value(a) == Some(v),
{
    assert forall|k: int| 0 <= k < n.len() implies #[trigger] a[k] != '=' by {
        assert(a[k] == n[k]);
    }
    assert(a[n.len() as int] == '=');
    crate::arith::lemma_run_end_at(a, 0, n.len() as int, |c: char| c != '=');
    assert(a.take(n.len() as int) =~= n);
    assert(a.skip(n.len() as int + 1) =~= v);
}

/// An argument without `=` names itself.
proof fn lemma_arg_plain(a: Seq<char>)
    requires
        !a.contains('='),
    ensures
        arg_name(a) == a,
        arg_value(a) is None,
{
    assert forall|k: int| 0 <= k < a.len() implies #[trigger] a[k] != '=' by {
        if a[k] == '=' {
            assert(a.contains('='));
        }
    }
    crate::arith::lemma_run_end_at(a, 0, a.len() as int, |c: char| c != '=');
    assert(a.take(a.len() as int) =~= a);
}

/// How many parameters `shift` drops: its count argument, or one when it
/// has none or a bad one.
pub open spec fn shift_count(args: Seq<String>) -> int {
    if args.len() > 1 {
        match spec_count(args[1]@) {
            Some(n) => n as int,
            None => 1,
        }
    } else {
        1
    }
}

/// A count written in decimal: a number from 0 to `usize::MAX`.
pub open spec fn spec_count(s: Seq<char>) -> Option<usize> {
    match crate::text::spec_parse_i64(s) {
        Some(n) => if 0 <= n <= usize::MAX {
            Some(n as usize)
        } else {
            None
        },
        None => None,
    }
}

/// A non-negative decimal number that fits in a `usize`.
fn parse_count(s: &str) -> (r: Option<usize>)
    ensures
        r == spec_count(s@),
{
    match parse_i64(s) {
        Some(n) => if n >= 0 && (n as u64) <= (usize::MAX as u64) {
            Some(n as usize)
        } else {
            None
        },
        None => None,
    }
}

/// A digit string's value, 0 when it is empty or too large.
pub open spec fn count_or_zero(cs: Seq<char>) -> usize {
    match spec_count(cs) {
        Some(n) => n,
        None => 0,
    }
}

fn digits_or_zero(cs: &Vec<char>) -> (r: usize)
    ensures
        r == count_or_zero(cs@),
{
    let s = string_of(cs);
    match parse_count(s.as_str()) {
        Some(n) => n,
        None => 0,
    }
}

/// The arguments as strings.
pub open spec fn arg_texts(args: Seq<String>) -> Seq<Seq<char>> {
    args.map_values(|s: String| s@)
}

/// The end of the octal digits of a `\0` escape that start at `k`, after
/// `cnt` of them: at most three.
pub open spec fn octal_escape_end(fmt: Seq<char>, k: int, cnt: int) -> int
    decreases fmt.len() - k,
{
    if 0 <= k < fmt.len() && cnt < 3 && '0' <= fmt[k] <= '7' {
        octal_escape_end(fmt, k + 1, cnt + 1)
    } else {
        k
    }
}

pub proof fn lemma_octal_escape_end(fmt: Seq<char>, k: int, cnt: int)
    requires
        0 <= k <= fmt.len(),
        0 <= cnt <= 3,
    ensures
        k <= octal_escape_end(fmt, k, cnt) <= fmt.len(),
        octal_escape_end(fmt, k, cnt) - k <= 3 - cnt,
        forall|j: int| k <= j < octal_escape_end(fmt, k, cnt) ==> '0' <= #[trigger] fmt[j] <= '7',
    decreases fmt.len() - k,
{
    if k < fmt.len() && cnt < 3 && '0' <= fmt[k] <= '7' {
        lemma_octal_escape_end(fmt, k + 1, cnt + 1);
    }
}

/// The text a `printf` escape stands for: `\0` and up to three octal digits
/// give that byte (0 past 255); `\n \t \r \\ \" \a \b \f \v`; any other
/// escape as written; a final lone backslash stays.
pub open spec fn printf_escape_char(d: char) -> Seq<char> {
    if d == 'n' {
        seq!['\n']
    } else if d == 't' {
        seq!['\t']
    } else if d == 'r' {
        seq!['\r']
    } else if d == '\\' {
        seq!['\\']
    } else if d == '"' {
        seq!['"']
    } else if d == 'a' {
        seq!['\x07']
    } else if d == 'b' {
        seq!['\x08']
    } else if d == 'f' {
        seq!['\x0c']
    } else if d == 'v' {
        seq!['\x0b']
    } else {
        seq!['\\', d]
    }
}

/// The escape at `i` (a backslash): its text and the index after it.
pub open spec fn printf_escape(fmt: Seq<char>, i: int) -> (Seq<char>, int) {
    if i + 1 >= fmt.len() {
        (seq!['\\'], i + 1)
    } else if fmt[i + 1] == '0' {
        let j = octal_escape_end(fmt, i + 2, 0);
        let v = crate::arith::radix_value(fmt.subrange(i + 2, j), 8);
        let byte: int = if v > 255 {
            0
        } else {
            v
        };
        (seq![(byte as u8) as char], j)
    } else {
        (printf_escape_char(fmt[i + 1]), i + 2)
    }
}

/// The flag characters of a conversion.
pub open spec fn is_printf_flag(c: char) -> bool {
    c == '-' || c == '+' || c == ' ' || c == '0' || c == '#'
}

/// The digits of an `i64` as `{:o}` and `{:x}` print it: the two's
/// complement bit pattern of a negative number.
pub open spec fn unsigned_of(n: i64) -> nat {
    if n >= 0 {
        n as nat
    } else {
        (n + 18446744073709551616) as nat
    }
}

/// The next argument index after one is used.
pub open spec fn next_arg(idx: int) -> int {
    if idx < usize::MAX {
        idx + 1
    } else {
        idx
    }
}

/// The conversion `conv` applied to argument `idx` (empty when missing):
/// its text and the argument index after it.
pub open spec fn printf_convert(
    conv: char,
    args: Seq<Seq<char>>,
    idx: int,
    width: nat,
    precision: Option<usize>,
    left_align: bool,
    zero_flag: bool,
) -> (Seq<char>, int) {
    let arg = if 0 <= idx < args.len() {
        args[idx]
    } else {
        Seq::empty()
    };
    let int_arg = match crate::text::spec_parse_i64(arg) {
        Some(n) => n,
        None => 0,
    };
    if conv == 's' {
        let val = match precision {
            Some(p) => if p >= arg.len() {
                arg
            } else {
                arg.take(p as int)
            },
            None => arg,
        };
        (spec_pad(val, width, left_align, ' '), next_arg(idx))
    } else if conv == 'd' || conv == 'i' {
        let text = crate::text::int_decimal(int_arg as int);
        (
            if zero_flag && !left_align {
                spec_pad(text, width, false, '0')
            } else {
                spec_pad(text, width, left_align, ' ')
            },
            next_arg(idx),
        )
    } else if conv == 'o' || conv == 'x' || conv == 'X' {
        (radix_text(unsigned_of(int_arg), if conv == 'o' { 8 } else { 16 }, conv == 'X'), next_arg(idx))
    } else if conv == 'c' {
        (if arg.len() > 0 && arg[0] != '\0' { seq![arg[0]] } else { Seq::empty() }, next_arg(idx))
    } else if conv == '%' {
        (seq!['%'], idx)
    } else if conv == 'b' {
        (unescape_from(arg, 0), next_arg(idx))
    } else {
        (seq!['%', conv], idx)
    }
}

/// The conversion at `i` (a `%`): its text, the index after it, the
/// argument index after it, and whether the format ends there.
pub open spec fn printf_directive(fmt: Seq<char>, args: Seq<Seq<char>>, i: int, idx: int) -> (
    Seq<char>,
    int,
    int,
    bool,
) {
    if i + 1 >= fmt.len() {
        (seq!['%'], i + 1, idx, true)
    } else {
        let fe = crate::arith::run_end(fmt, i + 1, |c: char| is_printf_flag(c));
        let flags = fmt.subrange(i + 1, fe);
        let we = crate::arith::run_end(fmt, fe, |c: char| crate::arith::is_dec(c));
        let width = count_or_zero(fmt.subrange(fe, we));
        let has_precision = we < fmt.len() && fmt[we] == '.';
        let pe = if has_precision {
            crate::arith::run_end(fmt, we + 1, |c: char| crate::arith::is_dec(c))
        } else {
            we
        };
        let precision: Option<usize> = if has_precision {
            Some(count_or_zero(fmt.subrange(we + 1, pe)))
        } else {
            None
        };
        if pe >= fmt.len() {
            (Seq::empty(), pe, idx, true)
        } else {
            let (text, idx2) = printf_convert(
                fmt[pe],
                args,
                idx,
                width as nat,
                precision,
                flags.contains('-'),
                flags.contains('0'),
            );
            (text, pe + 1, idx2, false)
        }
    }
}

/// One pass of the format from `i`: the text and the argument index after it.
pub open spec fn printf_pass(fmt: Seq<char>, args: Seq<Seq<char>>, i: int, idx: int) -> (Seq<char>, int)
    decreases fmt.len() - i,
{
    if i < 0 || i >= fmt.len() {
        (Seq::empty(), idx)
    } else if fmt[i] == '\\' {
        let (text, j) = printf_escape(fmt, i);
        proof {
            if i + 2 <= fmt.len() {
                lemma_octal_escape_end(fmt, i + 2, 0);
            }
        }
        if j > i {
            let (rest, idx2) = printf_pass(fmt, args, j, idx);
            (text + rest, idx2)
        } else {
            (text, idx)
        }
    } else if fmt[i] == '%' {
        let (text, j, idx1, stop) = printf_directive(fmt, args, i, idx);
        if stop || j <= i {
            (text, idx1)
        } else {
            let (rest, idx2) = printf_pass(fmt, args, j, idx1);
            (text + rest, idx2)
        }
    } else {
        let (rest, idx2) = printf_pass(fmt, args, i + 1, idx);
        (seq![fmt[i]] + rest, idx2)
    }
}

/// The format applied again while each pass uses arguments and some are
/// left (at most one pass per argument).
pub open spec fn printf_rounds(fmt: Seq<char>, args: Seq<Seq<char>>, idx: int, rounds: int) -> Seq<char>
    decreases args.len() + 1 - rounds,
{
    let (text, idx2) = printf_pass(fmt, args, 0, idx);
    if idx2 == idx || idx2 >= args.len() || rounds >= args.len() || rounds < 0 {
        text
    } else {
        text + printf_rounds(fmt, args, idx2, rounds + 1)
    }
}

/// What `printf FORMAT ARGS...` writes: `args[1]` is the format, the
/// arguments start at `args[2]`.
pub open spec fn spec_printf(args: Seq<String>) -> Seq<char> {
    printf_rounds(args[1]@, arg_texts(args), 2, 0)
}

/// A one-conversion format `%c` makes one pass: the conversion's text with
/// no width, flags or precision.
proof fn lemma_printf_single(fmt: Seq<char>, a: Seq<Seq<char>>, idx: int)
    requires
        fmt.len() == 2,
        fmt[0] == '%',
        !is_printf_flag(fmt[1]),
        !crate::arith::is_dec(fmt[1]),
        fmt[1] != '.',
    ensures
        printf_pass(fmt, a, 0, idx) == printf_convert(fmt[1], a, idx, 0, None, false, false),
{
    crate::arith::lemma_run_end_at(fmt, 1, 1, |c: char| is_printf_flag(c));
    crate::arith::lemma_run_end_at(fmt, 1, 1, |c: char| crate::arith::is_dec(c));
    assert(fmt.subrange(1, 1) =~= Seq::<char>::empty());
    assert(crate::text::spec_parse_int(Seq::<char>::empty()) is None);
    assert(count_or_zero(fmt.subrange(1, 1)) == 0);
    assert(!fmt.subrange(1, 1).contains('-'));
    assert(!fmt.subrange(1, 1).contains('0'));
    let (text, idx2) = printf_convert(fmt[1], a, idx, 0, None, false, false);
    assert(printf_directive(fmt, a, 0, idx) == (text, 2int, idx2, false));
    assert(printf_pass(fmt, a, 2, idx2) == (Seq::<char>::empty(), idx2));
    assert(text + Seq::<char>::empty() =~= text);
}

/// `printf %s` writes its argument, and with more arguments the format is
/// used again for each; `printf %d` writes its integer argument in
/// decimal; `printf %%` writes one `%`.
pub proof fn law_printf_conversion(args: Seq<String>)
    requires
        args.len() >= 2,
    ensures
        args.len() == 3 && args[1]@ == seq!['%', 's'] ==> spec_printf(args) == args[2]@,
        args.len() == 4 && args[1]@ == seq!['%', 's'] ==> spec_printf(args) == args[2]@ + args[3]@,
        args.len() == 3 && args[1]@ == seq!['%', 'd'] ==> (crate::text::spec_parse_i64(args[2]@) matches Some(n)
            ==> spec_printf(args) == crate::text::int_decimal(n as int)),
        args.len() == 2 && args[1]@ == seq!['%', '%'] ==> spec_printf(args) == seq!['%'],
{
    let fmt = args[1]@;
    let a = arg_texts(args);
    if fmt.len() == 2 && fmt[0] == '%' && (fmt[1] == 's' || fmt[1] == 'd' || fmt[1] == '%') {
        lemma_printf_single(fmt, a, 2);
        if args.len() == 4 {
            lemma_printf_single(fmt, a, 3);
        }
        if (fmt[1] == 's' || fmt[1] == 'd') && args.len() >= 3 {
            assert(a[2] == args[2]@);
            if args.len() == 4 && fmt[1] == 's' {
                assert(a[3] == args[3]@);
                assert(printf_pass(fmt, a, 0, 2) == (args[2]@, 3int));
                assert(printf_pass(fmt, a, 0, 3) == (args[3]@, 4int));
                assert(printf_rounds(fmt, a, 3, 1) == args[3]@);
                assert(printf_rounds(fmt, a, 2, 0) == args[2]@ + args[3]@);
            }
        }
    }
}

/// Text with no `%` and no backslash: `printf` copies it as it is.
pub open spec fn printf_plain(s: Seq<char>) -> bool {
    forall|k: int| 0 <= k < s.len() ==> #[trigger] s[k] != '%' && s[k] != '\\'
}

/// A pass over plain text copies that text.
proof fn lemma_printf_plain_pass(fmt: Seq<char>, args: Seq<Seq<char>>, i: int, j: int, idx: int)
    requires
        0 <= i <= j <= fmt.len(),
        forall|k: int| i <= k < j ==> #[trigger] fmt[k] != '%' && fmt[k] != '\\',
    ensures
        printf_pass(fmt, args, i, idx) == (fmt.subrange(i, j) + printf_pass(fmt, args, j, idx).0, printf_pass(
            fmt,
            args,
            j,
            idx,
        ).1),
    decreases j - i,
{
    if i < j {
        lemma_printf_plain_pass(fmt, args, i + 1, j, idx);
        assert(fmt.subrange(i, j) =~= seq![fmt[i]] + fmt.subrange(i + 1, j));
    } else {
        assert(fmt.subrange(i, j) =~= Seq::<char>::empty());
    }
}

/// In a `printf` format, plain text is copied and a named escape gives the
/// character its letter names: `\n` newline, `\t` tab, `\r` carriage
/// return, `\\` backslash, `\"` double quote, `\a` bell, `\b` backspace,
/// `\f` form feed, `\v` vertical tab.
pub proof fn law_printf_named_escape(args: Seq<String>, pre: Seq<char>, d: char, post: Seq<char>)
    requires
        args.len() >= 2,
        args[1]@ == pre + seq!['\\', d] + post,
        printf_plain(pre),
        printf_plain(post),
    ensures
        d == 'n' ==> spec_printf(args) == pre + seq!['\n'] + post,
        d == 't' ==> spec_printf(args) == pre + seq!['\t'] + post,
        d == 'r' ==> spec_printf(args) == pre + seq!['\r'] + post,
        d == '\\' ==> spec_printf(args) == pre + seq!['\\'] + post,
        d == '"' ==> spec_printf(args) == pre + seq!['"'] + post,
        d == 'a' ==> spec_printf(args) == pre + seq!['\x07'] + post,
        d == 'b' ==> spec_printf(args) == pre + seq!['\x08'] + post,
        d == 'f' ==> spec_printf(args) == pre + seq!['\x0c'] + post,
        d == 'v' ==> spec_printf(args) == pre + seq!['\x0b'] + post,
{
    let fmt = args[1]@;
    let a = arg_texts(args);
    let n = pre.len() as int;
    assert forall|k: int| 0 <= k < n implies #[trigger] fmt[k] != '%' && fmt[k] != '\\' by {
        assert(fmt[k] == pre[k]);
    }
    assert forall|k: int| n + 2 <= k < fmt.len() implies #[trigger] fmt[k] != '%' && fmt[k] != '\\' by {
        assert(fmt[k] == post[k - n - 2]);
    }
    lemma_printf_plain_pass(fmt, a, 0, n, 2);
    lemma_printf_plain_pass(fmt, a, n + 2, fmt.len() as int, 2);
    assert(fmt.subrange(0, n) =~= pre);
    assert(fmt.subrange(n + 2, fmt.len() as int) =~= post);
    assert(fmt[n] == '\\' && fmt[n + 1] == d);
    if d == 'n' || d == 't' || d == 'r' || d == '\\' || d == '"' || d == 'a' || d == 'b' || d == 'f' || d == 'v' {
        assert(printf_escape(fmt, n) == (printf_escape_char(d), n + 2));
        let rest = printf_pass(fmt, a, n + 2, 2);
        assert(rest == (post + Seq::<char>::empty(), 2int));
        assert(printf_pass(fmt, a, n, 2) == (printf_escape_char(d) + rest.0, 2int));
        assert(printf_pass(fmt, a, 0, 2) == (pre + (printf_escape_char(d) + post), 2int)) by {
            assert(post + Seq::<char>::empty() =~= post);
        }
        assert(spec_printf(args) == pre + (printf_escape_char(d) + post));
        assert(pre + (printf_escape_char(d) + post) =~= pre + printf_escape_char(d) + post);
    }
}

/// Append the escape at `i` (a backslash) to `out`.
fn printf_escape_into(fmt: &Vec<char>, i: usize, out: &mut String) -> (next: usize)
    requires
        i < fmt@.len(),
        fmt@[i as int] == '\\',
    ensures
        final(out)@ == old(out)@ + printf_escape(fmt@, i as int).0,
        next == printf_escape(fmt@, i as int).1,
        i < next <= fmt@.len(),
{
    let n = fmt.len();
    let mut i = i + 1;
    if i >= fmt.len() {
        push_char(out, '\\');
        return i;
    }
    let d = fmt[i];
    if d == '0' {
        i += 1;
        let start = i;
        let mut v: u32 = 0;
        let mut cnt: usize = 0;
        proof {
            lemma_octal_escape_end(fmt@, start as int, 0);
        }
        while cnt < 3 && i < fmt.len() && '0' <= fmt[i] && fmt[i] <= '7'
            invariant
                start <= i <= fmt@.len(),
                cnt == i - start,
                cnt <= 3,
                v == crate::arith::radix_value(fmt@.subrange(start as int, i as int), 8),
                v < (if cnt == 0 { 1int } else if cnt == 1 { 8int } else if cnt == 2 { 64int } else { 512int }),
                octal_escape_end(fmt@, start as int, 0) == octal_escape_end(fmt@, i as int, cnt as int),
            decreases fmt.len() - i,
        {
            let c = fmt[i];
            assert(fmt@.subrange(start as int, i + 1).drop_last() =~= fmt@.subrange(start as int, i as int));
            assert(crate::arith::hex_value(c) == Some(c as int - 48));
            v = v * 8 + ((c as u32) - 48);
            i += 1;
            cnt += 1;
        }
        let byte: u32 = if v > 255 {
            0
        } else {
            v
        };
        push_char(out, (byte as u8) as char);
        return i;
    }
    let t: &str = if d == 'n' {
        "\n"
    } else if d == 't' {
        "\t"
    } else if d == 'r' {
        "\r"
    } else if d == '\\' {
        "\\"
    } else if d == '"' {
        "\""
    } else if d == 'a' {
        "\x07"
    } else if d == 'b' {
        "\x08"
    } else if d == 'f' {
        "\x0c"
    } else if d == 'v' {
        "\x0b"
    } else {
        ""
    };
    if d == 'n' || d == 't' || d == 'r' || d == '\\' || d == '"' || d == 'a' || d == 'b' || d == 'f' || d
        == 'v' {
        proof {
            reveal_strlit("\n");
            reveal_strlit("\t");
            reveal_strlit("\r");
            reveal_strlit("\\");
            reveal_strlit("\"");
            reveal_strlit("\x07");
            reveal_strlit("\x08");
            reveal_strlit("\x0c");
            reveal_strlit("\x0b");
            assert(t@ =~= printf_escape_char(d));
        }
        out.append(t);
    } else {
        push_char(out, '\\');
        push_char(out, d);
        assert(out@ =~= old(out)@ + printf_escape_char(d));
    }
    i + 1
}

/// Append the conversion at `i` (a `%`) to `out`; returns the index after
/// it, the argument index after it, and whether the format ends there.
fn printf_directive_into(fmt: &Vec<char>, args: &Vec<String>, i: usize, arg_idx: usize, out: &mut String) -> (r: (
    usize,
    usize,
    bool,
))
    requires
        i < fmt@.len(),
        fmt@[i as int] == '%',
    ensures
        ({
            let (text, j, idx2, stop) = printf_directive(fmt@, arg_texts(args@), i as int, arg_idx as int);
            &&& final(out)@ == old(out)@ + text
            &&& r.0 == j
            &&& r.1 == idx2
            &&& r.2 == stop
        }),
        i < r.0 <= fmt@.len(),
{
    let n = fmt.len();
    let ghost a = arg_texts(args@);
    let mut i = i + 1;
    if i >= fmt.len() {
        push_char(out, '%');
        return (i, arg_idx, true);
    }
    let fs = i;
    let mut left_align = false;
    let mut zero_flag = false;
    while i < fmt.len() && (fmt[i] == '-' || fmt[i] == '+' || fmt[i] == ' ' || fmt[i] == '0' || fmt[i] == '#')
        invariant
            fs <= i <= fmt@.len(),
            forall|k: int| fs <= k < i ==> is_printf_flag(#[trigger] fmt@[k]),
            left_align == fmt@.subrange(fs as int, i as int).contains('-'),
            zero_flag == fmt@.subrange(fs as int, i as int).contains('0'),
        decreases fmt.len() - i,
    {
        let ghost old_sub = fmt@.subrange(fs as int, i as int);
        assert(fmt@.subrange(fs as int, i + 1) =~= old_sub.push(fmt@[i as int]));
        if fmt[i] == '-' {
            left_align = true;
        }
        if fmt[i] == '0' {
            zero_flag = true;
        }
        proof {
            let ns = old_sub.push(fmt@[i as int]);
            assert(ns.contains('-') == (old_sub.contains('-') || fmt@[i as int] == '-')) by {
                if old_sub.contains('-') {
                    let k = choose|k: int| 0 <= k < old_sub.len() && old_sub[k] == '-';
                    assert(ns[k] == '-');
                }
                if ns.contains('-') {
                    let k = choose|k: int| 0 <= k < ns.len() && ns[k] == '-';
                    if k < old_sub.len() {
                        assert(old_sub[k] == '-');
                    }
                }
                if fmt@[i as int] == '-' {
                    assert(ns[old_sub.len() as int] == '-');
                }
            }
            assert(ns.contains('0') == (old_sub.contains('0') || fmt@[i as int] == '0')) by {
                if old_sub.contains('0') {
                    let k = choose|k: int| 0 <= k < old_sub.len() && old_sub[k] == '0';
                    assert(ns[k] == '0');
                }
                if ns.contains('0') {
                    let k = choose|k: int| 0 <= k < ns.len() && ns[k] == '0';
                    if k < old_sub.len() {
                        assert(old_sub[k] == '0');
                    }
                }
                if fmt@[i as int] == '0' {
                    assert(ns[old_sub.len() as int] == '0');
                }
            }
        }
        i += 1;
    }
    proof {
        crate::arith::lemma_run_end_at(fmt@, fs as int, i as int, |c: char| is_printf_flag(c));
    }
    let ws = i;
    while i < fmt.len() && '0' <= fmt[i] && fmt[i] <= '9'
        invariant
            ws <= i <= fmt@.len(),
            forall|k: int| ws <= k < i ==> crate::arith::is_dec(#[trigger] fmt@[k]),
        decreases fmt.len() - i,
    {
        i += 1;
    }
    proof {
        crate::arith::lemma_run_end_at(fmt@, ws as int, i as int, |c: char| crate::arith::is_dec(c));
    }
    let width = digits_or_zero(&crate::lexer::slice_chars(fmt, ws, i));
    let mut precision: Option<usize> = None;
    if i < fmt.len() && fmt[i] == '.' {
        i += 1;
        let ps = i;
        while i < fmt.len() && '0' <= fmt[i] && fmt[i] <= '9'
            invariant
                ps <= i <= fmt@.len(),
                forall|k: int| ps <= k < i ==> crate::arith::is_dec(#[trigger] fmt@[k]),
            decreases fmt.len() - i,
        {
            i += 1;
        }
        proof {
            crate::arith::lemma_run_end_at(fmt@, ps as int, i as int, |c: char| crate::arith::is_dec(c));
        }
        precision = Some(digits_or_zero(&crate::lexer::slice_chars(fmt, ps, i)));
    }
    if i >= fmt.len() {
        return (i, arg_idx, true);
    }
    let conv = fmt[i];
    i += 1;
    let zero_pad = zero_flag && !left_align;
    let arg = if arg_idx < args.len() {
        args[arg_idx].clone()
    } else {
        String::new()
    };
    proof {
        if arg_idx < args@.len() {
            assert(a[arg_idx as int] == args@[arg_idx as int]@);
        }
    }
    let int_arg = match parse_i64(arg.as_str()) {
        Some(n) => n,
        None => 0,
    };
    let next = if arg_idx < usize::MAX {
        arg_idx + 1
    } else {
        arg_idx
    };
    if conv == 's' {
        let val = match precision {
            Some(p) => take_chars(arg.as_str(), p),
            None => arg,
        };
        out.append(pad(val.as_str(), width, left_align, ' ').as_str());
        (i, next, false)
    } else if conv == 'd' || conv == 'i' {
        let text = int_to_string(int_arg);
        if zero_pad {
            out.append(pad(text.as_str(), width, false, '0').as_str());
        } else {
            out.append(pad(text.as_str(), width, left_align, ' ').as_str());
        }
        (i, next, false)
    } else if conv == 'o' || conv == 'x' || conv == 'X' {
        let radix: u64 = if conv == 'o' {
            8
        } else {
            16
        };
        let digits = radix_digits(as_unsigned(int_arg), radix, conv == 'X');
        out.append(string_of(&digits).as_str());
        (i, next, false)
    } else if conv == 'c' {
        let cs = chars_of(arg.as_str());
        if cs.len() > 0 && cs[0] != '\0' {
            push_char(out, cs[0]);
        } else {
            assert(out@ =~= old(out)@ + Seq::<char>::empty());
        }
        (i, next, false)
    } else if conv == '%' {
        push_char(out, '%');
        (i, arg_idx, false)
    } else if conv == 'b' {
        out.append(unescape_echo(arg.as_str()).as_str());
        (i, next, false)
    } else {
        push_char(out, '%');
        push_char(out, conv);
        assert(out@ =~= old(out)@ + seq!['%', conv]);
        (i, arg_idx, false)
    }
}

/// Format `printf` output (see `spec_printf`): the format is reused while
/// arguments remain.
pub fn format_printf(args: &Vec<String>) -> (r: String)
    requires
        args@.len() >= 2,
    ensures
        r@ == spec_printf(args@),
{
    let fmt = chars_of(args[1].as_str());
    let ghost a = arg_texts(args@);
    let mut arg_idx: usize = 2;
    let mut out = String::new();
    let mut rounds: usize = 0;
    assert(out@ + printf_rounds(fmt@, a, 2, 0) =~= printf_rounds(fmt@, a, 2, 0));
    loop
        invariant
            2 <= arg_idx,
            args@.len() >= 2,
            fmt@ == args@[1]@,
            a == arg_texts(args@),
            rounds <= args@.len(),
            out@ + printf_rounds(fmt@, a, arg_idx as int, rounds as int) == spec_printf(args@),
        decreases args@.len() + 1 - rounds,
    {
        let arg_start = arg_idx;
        let ghost out_start = out@;
        let mut i: usize = 0;
        let mut stopped = false;
        assert(out@ =~= out_start + Seq::<char>::empty());
        while i < fmt.len() && !stopped
            invariant
                i <= fmt@.len(),
                2 <= arg_idx,
                a == arg_texts(args@),
                stopped ==> (out@ =~= out_start + printf_pass(fmt@, a, 0, arg_start as int).0
                    && arg_idx == printf_pass(fmt@, a, 0, arg_start as int).1),
                !stopped ==> ({
                    let (rest, idx2) = printf_pass(fmt@, a, i as int, arg_idx as int);
                    &&& out@ + rest == out_start + printf_pass(fmt@, a, 0, arg_start as int).0
                    &&& idx2 == printf_pass(fmt@, a, 0, arg_start as int).1
                }),
            decreases fmt.len() - i,
        {
            let ghost before = out@;
            let ghost i0 = i as int;
            let ghost idx0 = arg_idx as int;
            let c = fmt[i];
            if c == '\\' {
                let j = printf_escape_into(&fmt, i, &mut out);
                proof {
                    let (text, jj) = printf_escape(fmt@, i0);
                    let (rest, idx2) = printf_pass(fmt@, a, j as int, idx0);
                    assert(before + (text + rest) =~= out@ + rest);
                }
                i = j;
            } else if c == '%' {
                let (j, idx2, stop) = printf_directive_into(&fmt, args, i, arg_idx, &mut out);
                proof {
                    let (text, jj, idx1, st) = printf_directive(fmt@, a, i0, idx0);
                    if !stop {
                        let (rest, idx3) = printf_pass(fmt@, a, j as int, idx1);
                        assert(before + (text + rest) =~= out@ + rest);
                    }
                }
                i = j;
                arg_idx = idx2;
                if stop {
                    stopped = true;
                }
            } else {
                push_char(&mut out, c);
                proof {
                    let (rest, idx2) = printf_pass(fmt@, a, i0 + 1, idx0);
                    assert(before + (seq![c] + rest) =~= out@ + rest);
                }
                i += 1;
            }
        }
        proof {
            if !stopped {
                assert(printf_pass(fmt@, a, i as int, arg_idx as int).0 =~= Seq::<char>::empty());
                assert(out@ + Seq::<char>::empty() =~= out@);
            }
            let (text, idx2) = printf_pass(fmt@, a, 0, arg_start as int);
            assert(out@ =~= out_start + text);
            assert(arg_idx == idx2);
        }
        if arg_idx == arg_start || arg_idx >= args.len() || rounds >= args.len() {
            proof {
                assert(out_start + printf_rounds(fmt@, a, arg_start as int, rounds as int) =~= out@);
            }
            return out;
        }
        proof {
            let (text, idx2) = printf_pass(fmt@, a, 0, arg_start as int);
            assert(out_start + (text + printf_rounds(fmt@, a, arg_idx as int, rounds + 1)) =~= out@
                + printf_rounds(fmt@, a, arg_idx as int, rounds + 1));
        }
        rounds += 1;
    }
}

impl Shell {
    /// Run builtin `name`; `None` if there is no such builtin.
    pub fn try_builtin(&mut self, name: &str, args: &Vec<String>, span: Span) -> (r: Result<Option<ExitStatus>, ShellError>)
        requires
            old(self).wf(),
            args@.len() >= 1,
        ensures
            final(self).steps_from(&*old(self)),
            r == Ok::<Option<ExitStatus>, ShellError>(None) <==> old(self).fuel > 0 && !spec_is_builtin(name@),
            old(self).fuel > 0 && (name@ == ":"@ || name@ == "true"@) ==> (r matches Ok(Some(s)) && s@ == 0),
            old(self).fuel > 0 && name@ == "false"@ ==> (r matches Ok(Some(s)) && s@ == 1),
            old(self).fuel > 0 && (name@ == ":"@ || name@ == "true"@ || name@ == "false"@) ==> final(self).fuel
                == old(self).fuel - 1 && final(self).same_settings(&*old(self)) && final(self).fds@ == old(
                self,
            ).fds@,
            old(self).fuel > 0 && name@ == "exit"@ ==> (r matches Err(ShellError::Exit(s)) && s@ == exit_code(
                args@,
                old(self).exit_status@,
            )),
            old(self).fuel > 0 && name@ == "return"@ ==> (r matches Err(ShellError::Return(s)) && s@ == exit_code(
                args@,
                old(self).exit_status@,
            )),
        decreases old(self).fuel,
    {
        self.tick()?;
        proof {
            reveal_strlit(":");
            reveal_strlit("true");
            reveal_strlit("false");
            reveal_strlit("echo");
            reveal_strlit("cd");
            reveal_strlit("pwd");
            reveal_strlit("exit");
            reveal_strlit("return");
            assert("exit"@[1] != "echo"@[1]);
            assert(":"@.len() == 1 && "true"@.len() == 4 && "false"@.len() == 5 && "cd"@.len() == 2 && "pwd"@.len() == 3);
            assert("exit"@.len() == 4 && "return"@.len() == 6 && "echo"@.len() == 4);
            assert("true"@[0] != "exit"@[0]);
            assert(name@ == "false"@ ==> name@ != ":"@ && name@ != "true"@);
            assert(name@ == "exit"@ || name@ == "return"@ ==> name@ != ":"@ && name@ != "true"@ && name@ != "false"@
                && name@ != "echo"@ && name@ != "cd"@ && name@ != "pwd"@);
            assert("exit"@ != "return"@);
        }
        if str_eq(name, ":") || str_eq(name, "true") {
            Ok(Some(ExitStatus::new(0)))
        } else if str_eq(name, "false") {
            Ok(Some(ExitStatus::new(1)))
        } else if str_eq(name, "echo") {
            Ok(Some(self.builtin_echo(args)))
        } else if str_eq(name, "cd") {
            Ok(Some(self.builtin_cd(args)))
        } else if str_eq(name, "pwd") {
            let mut t = self.cwd.clone();
            push_char(&mut t, '\n');
            self.write_out(t.as_str());
            Ok(Some(ExitStatus::new(0)))
        } else if str_eq(name, "exit") || str_eq(name, "return") {
            let code = if args.len() > 1 {
                match parse_i64(args[1].as_str()) {
                    Some(n) => if -2147483648 <= n && n <= 2147483647 {
                        crate::error::status_from(n as i32)
                    } else {
                        self.exit_status
                    },
                    None => self.exit_status,
                }
            } else {
                self.exit_status
            };
            if str_eq(name, "exit") {
                Err(ShellError::Exit(code))
            } else {
                Err(ShellError::Return(code))
            }
        } else if str_eq(name, "break") || str_eq(name, "continue") {
            let is_break = str_eq(name, "break");
            let n: usize = if args.len() > 1 {
                match parse_count(args[1].as_str()) {
                    Some(n) if n > 0 => n,
                    _ => {
                        let mut m = name.to_owned();
                        m.append(": Illegal number: ");
                        m.append(args[1].as_str());
                        self.err_msg(m.as_str());
                        return Err(ShellError::Exit(ExitStatus::new(1)));
                    },
                }
            } else {
                1
            };
            if self.loop_depth == 0 {
                return Ok(Some(ExitStatus::new(0)));
            }
            let n = if n < self.loop_depth {
                n
            } else {
                self.loop_depth
            };
            if is_break {
                Err(ShellError::Break(n))
            } else {
                Err(ShellError::Continue(n))
            }
        } else if str_eq(name, "export") {
            Ok(Some(self.builtin_export(args)))
        } else if str_eq(name, "readonly") {
            Ok(Some(self.builtin_readonly(args)))
        } else if str_eq(name, "unset") {
            Ok(Some(self.builtin_unset(args)))
        } else if str_eq(name, "set") {
            Ok(Some(self.builtin_set(args)))
        } else if str_eq(name, "shift") {
            Ok(Some(self.builtin_shift(args)))
        } else if str_eq(name, "eval") {
            if args.len() <= 1 {
                return Ok(Some(ExitStatus::new(0)));
            }
            let mut rest: Vec<String> = Vec::new();
            let mut i: usize = 1;
            while i < args.len()
                invariant
                    1 <= i,
                decreases args.len() - i,
            {
                rest.push(args[i].clone());
                i += 1;
            }
            let source = crate::text::join_strings(&rest, " ");
            let r = self.run_inline(source.as_str())?;
            Ok(Some(r))
        } else if str_eq(name, ".") || str_eq(name, "source") {
            if args.len() <= 1 {
                self.err_msg(".: filename argument required");
                return Err(ShellError::Exit(ExitStatus::new(2)));
            }
            let path = self.resolve_path(args[1].as_str());
            let content = match self.host.read_file(&path) {
                Some(bytes) => bytes_to_str(bytes.as_slice()),
                None => {
                    let mut m = ".: ".to_owned();
                    m.append(args[1].as_str());
                    m.append(": not found");
                    self.err_msg(m.as_str());
                    return Err(ShellError::Exit(ExitStatus::new(127)));
                },
            };
            match self.run_inline(content.as_str()) {
                Err(ShellError::Return(n)) => Ok(Some(n)),
                Err(e) => Err(e),
                Ok(s) => Ok(Some(s)),
            }
        } else if str_eq(name, "test") || str_eq(name, "[") {
            Ok(Some(self.builtin_test(args)))
        } else if str_eq(name, "read") {
            Ok(Some(self.builtin_read(args)))
        } else if str_eq(name, "local") {
            Ok(Some(self.builtin_local(args)))
        } else if str_eq(name, "exec") {
            if args.len() <= 1 {
                return Ok(Some(ExitStatus::new(0)));
            }
            let mut rest: Vec<String> = Vec::new();
            let mut i: usize = 1;
            while i < args.len()
                invariant
                    1 <= i <= args@.len(),
                    rest@.len() == i - 1,
                decreases args.len() - i,
            {
                rest.push(args[i].clone());
                i += 1;
            }
            let no_assigns: Vec<crate::ast::Assignment> = Vec::new();
            assert(rest@.len() >= 1);
            let status = self.eval_external(&rest, &no_assigns)?;
            if status.code() == 127 {
                return Ok(Some(ExitStatus::new(126)));
            }
            Err(ShellError::Exit(status))
        } else if str_eq(name, "command") {
            let r = self.builtin_command(args, span)?;
            Ok(Some(r))
        } else if str_eq(name, "type") {
            Ok(Some(self.builtin_type(args)))
        } else if str_eq(name, "wait") {
            Ok(Some(ExitStatus::new(0)))
        } else if str_eq(name, "trap") {
            Ok(Some(self.builtin_trap(args)))
        } else if str_eq(name, "kill") {
            Ok(Some(self.builtin_kill(args)))
        } else if str_eq(name, "umask") {
            Ok(Some(self.builtin_umask(args)))
        } else if str_eq(name, "getopts") {
            Ok(Some(self.builtin_getopts(args)))
        } else if str_eq(name, "printf") {
            if args.len() < 2 {
                self.err_msg("printf: usage: printf format [arguments]");
                return Ok(Some(ExitStatus::new(1)));
            }
            let out = format_printf(args);
            self.write_out(out.as_str());
            Ok(Some(ExitStatus::new(0)))
        } else {
            Ok(None)
        }
    }

    /// `echo [-n] [-e] [-E] args...`
    fn builtin_echo(&mut self, args: &Vec<String>) -> (r: ExitStatus)
        requires
            old(self).wf(),
        ensures
            final(self).wf(),
            final(self).fuel == old(self).fuel,
            final(self).vars == old(self).vars,
            r@ == 0,
            Shell::wrote(*final(self), *old(self), 1, spec_str_to_bytes(echo_output(args@))),
    {
        let mut i: usize = 1;
        let mut newline = true;
        let mut escape = false;
        proof {
            reveal_strlit(" ");
            assert(" "@ =~= seq![' ']);
        }
        while i < args.len()
            invariant
                1 <= i,
                i <= args@.len() || i == 1,
                echo_options(args@, i as int, newline, escape) == echo_options(args@, 1, true, false),
            ensures
                1 <= i,
                i <= args@.len() || i == 1,
                echo_options(args@, 1, true, false) == (i as int, newline, escape),
            decreases args.len() - i,
        {
            if is_lit(&args[i], "-n") {
                newline = false;
            } else if is_lit(&args[i], "-e") {
                escape = true;
            } else if is_lit(&args[i], "-E") {
                escape = false;
            } else {
                break;
            }
            i += 1;
        }
        let mut rest: Vec<String> = Vec::new();
        let ghost k = i as int;
        proof {
            if k <= args@.len() {
                assert(rest@ =~= args@.subrange(k, k));
            }
        }
        while i < args.len()
            invariant
                1 <= k <= i,
                k <= args@.len() ==> i <= args@.len() && rest@ == args@.subrange(k, i as int),
                k > args@.len() ==> rest@.len() == 0,
            decreases args.len() - i,
        {
            rest.push(args[i].clone());
            assert(rest@ =~= args@.subrange(k, i + 1));
            i += 1;
        }
        let ghost words = if k <= args@.len() {
            args@.subrange(k, args@.len() as int)
        } else {
            Seq::<String>::empty()
        };
        assert(rest@ =~= words);
        let mut text = crate::text::join_strings(&rest, " ");
        if escape {
            text = unescape_echo(text.as_str());
        }
        if newline {
            push_char(&mut text, '\n');
        }
        self.write_out(text.as_str());
        ExitStatus::new(0)
    }

    /// `cd [dir]`: to `dir`, or to $HOME.
    fn builtin_cd(&mut self, args: &Vec<String>) -> (r: ExitStatus)
        requires
            old(self).wf(),
        ensures
            final(self).wf(),
            final(self).fuel == old(self).fuel,
            r@ == 0 || r@ == 1,
            r@ == 1 ==> final(self).cwd@ == old(self).cwd@ && final(self).vars == old(self).vars,
            args@.len() <= 1 && old(self).vars.value_of("HOME"@) is None ==> r@ == 1,
            r@ == 0 && !old(self).vars.readonly("PWD"@) ==> final(self).vars.value_of("PWD"@) == Some(final(self).cwd@),
    {
        let dir = if args.len() > 1 {
            args[1].clone()
        } else {
            match self.vars.get("HOME") {
                Some(h) => h.to_owned(),
                None => {
                    self.err_msg("cd: HOME not set");
                    return ExitStatus::new(1);
                },
            }
        };
        let target = self.resolve_path(dir.as_str());
        match self.host.canonicalize(&target) {
            Some(c) => {
                let is_dir = match self.host.stat(&c, true) {
                    Some(st) => match st.kind {
                        FileKind::Directory => true,
                        _ => false,
                    },
                    None => false,
                };
                if is_dir {
                    self.cwd = c.clone();
                    let _ = self.vars.set("PWD", c.as_str());
                    ExitStatus::new(0)
                } else {
                    let mut m = "cd: ".to_owned();
                    m.append(dir.as_str());
                    m.append(": Not a directory");
                    self.err_msg(m.as_str());
                    ExitStatus::new(1)
                }
            },
            None => {
                let mut m = "cd: ".to_owned();
                m.append(dir.as_str());
                m.append(": No such file or directory");
                self.err_msg(m.as_str());
                ExitStatus::new(1)
            },
        }
    }

    /// `export [name[=value]...]`; without names, list the exported
    /// variables.
    fn builtin_export(&mut self, args: &Vec<String>) -> (r: ExitStatus)
        requires
            old(self).wf(),
        ensures
            final(self).wf(),
            final(self).fuel == old(self).fuel,
            r@ == 0,
            args@.len() <= 1 ==> final(self).vars == old(self).vars,
            args@.len() > 1 ==> exported_args(old(self).vars, final(self).vars, args@, args@.len() as int),
    {
        if args.len() <= 1 {
            let pairs = self.vars.exported_env();
            let mut i: usize = 0;
            while i < pairs.len()
                invariant
                    self.wf(),
                    self.fuel == old(self).fuel,
                    self.vars == old(self).vars,
                decreases pairs.len() - i,
            {
                let mut line = "export ".to_owned();
                line.append(pairs[i].0.as_str());
                line.append("=\"");
                line.append(pairs[i].1.as_str());
                line.append("\"\n");
                self.write_out(line.as_str());
                i += 1;
            }
            return ExitStatus::new(0);
        }
        let mut i: usize = 1;
        proof {
            assert forall|n: Seq<char>| !#[trigger] names_in_args(args@, 1, 1, n) by {}
        }
        while i < args.len()
            invariant
                self.wf(),
                self.fuel == old(self).fuel,
                1 <= i <= args@.len(),
                exported_args(old(self).vars, self.vars, args@, i as int),
            decreases args.len() - i,
        {
            let ghost cur = self.vars;
            let ghost a = args@[i as int]@;
            let ghost m = arg_name(a);
            match split_assignment(args[i].as_str()) {
                Some((n, v)) => {
                    proof {
                        lemma_arg_split(a, n@, v@);
                    }
                    let _ = self.vars.set(n.as_str(), v.as_str());
                    self.vars.export(n.as_str());
                },
                None => {
                    proof {
                        lemma_arg_plain(a);
                    }
                    self.vars.export(args[i].as_str());
                },
            }
            proof {
                lemma_names_in_args_step(args@, i as int);
                assert forall|j: int| 1 <= j < i + 1 implies self.vars.exported(
                    arg_name(#[trigger] args@[j]@),
                ) by {
                    if j < i && arg_name(args@[j]@) != m {
                        assert(self.vars.lookup(arg_name(args@[j]@)) == cur.lookup(arg_name(args@[j]@)));
                    }
                }
                assert forall|k: Seq<char>| #[trigger] self.vars.readonly(k) == old(self).vars.readonly(k) by {
                    assert(cur.readonly(k) == old(self).vars.readonly(k));
                    if k != m {
                        assert(self.vars.lookup(k) == cur.lookup(k));
                    }
                }
                assert forall|k: Seq<char>| !#[trigger] names_in_args(args@, 1, i + 1, k) implies self.vars.lookup(k)
                    == old(self).vars.lookup(k) by {
                    assert(k != m);
                    assert(!names_in_args(args@, 1, i as int, k));
                }
                assert forall|k: Seq<char>| #[trigger] self.vars.value_of(k) == export_value(
                    old(self).vars,
                    args@,
                    i + 1,
                    k,
                ) by {
                    if k != m {
                        assert(self.vars.lookup(k) == cur.lookup(k));
                        assert(cur.value_of(k) == export_value(old(self).vars, args@, i as int, k));
                    } else {
                        assert(cur.value_of(k) == export_value(old(self).vars, args@, i as int, k));
                        assert(cur.readonly(k) == old(self).vars.readonly(k));
                    }
                }
            }
            i += 1;
        }
        ExitStatus::new(0)
    }

    /// `readonly name[=value]...`
    fn builtin_readonly(&mut self, args: &Vec<String>) -> (r: ExitStatus)
        requires
            old(self).wf(),
        ensures
            final(self).wf(),
            final(self).fuel == old(self).fuel,
            r@ == 0,
            readonly_args(old(self).vars, final(self).vars, args@, args@.len() as int),
    {
        let mut i: usize = 1;
        while i < args.len()
            invariant
                self.wf(),
                self.fuel == old(self).fuel,
                1 <= i,
                i <= args@.len() || args@.len() == 0,
                readonly_args(old(self).vars, self.vars, args@, i as int),
            decreases args.len() - i,
        {
            let ghost cur = self.vars;
            let ghost a = args@[i as int]@;
            let ghost m = arg_name(a);
            match split_assignment(args[i].as_str()) {
                Some((n, v)) => {
                    proof {
                        lemma_arg_split(a, n@, v@);
                    }
                    let _ = self.vars.set(n.as_str(), v.as_str());
                    self.vars.set_readonly(n.as_str());
                },
                None => {
                    proof {
                        lemma_arg_plain(a);
                    }
                    self.vars.set_readonly(args[i].as_str());
                },
            }
            proof {
                assert forall|k: Seq<char>| #[trigger] self.vars.readonly(k) == (old(self).vars.readonly(k)
                    || first_occurrence(args@, i + 1, k) is Some) by {
                    assert(cur.readonly(k) == (old(self).vars.readonly(k) || first_occurrence(args@, i as int, k) is Some));
                    if k != m {
                        assert(self.vars.lookup(k) == cur.lookup(k));
                    }
                }
                assert forall|k: Seq<char>| #[trigger] self.vars.exported(k) == old(self).vars.exported(k) by {
                    assert(cur.exported(k) == old(self).vars.exported(k));
                    if k != m {
                        assert(self.vars.lookup(k) == cur.lookup(k));
                    }
                }
                assert forall|k: Seq<char>| first_occurrence(args@, i + 1, k) is None implies #[trigger] self.vars.lookup(k)
                    == old(self).vars.lookup(k) by {
                    assert(k != m);
                    assert(first_occurrence(args@, i as int, k) is None);
                    assert(self.vars.lookup(k) == cur.lookup(k));
                }
                assert forall|k: Seq<char>| #[trigger] self.vars.value_of(k) == readonly_value(
                    old(self).vars,
                    args@,
                    i + 1,
                    k,
                ) by {
                    assert(cur.value_of(k) == readonly_value(old(self).vars, args@, i as int, k));
                    assert(cur.readonly(k) == (old(self).vars.readonly(k) || first_occurrence(args@, i as int, k) is Some));
                    if k != m {
                        assert(self.vars.lookup(k) == cur.lookup(k));
                    } else if first_occurrence(args@, i as int, k) is None && !old(self).vars.readonly(k) {
                        assert(old(self).vars.value_of(k) == cur.value_of(k));
                    }
                }
            }
            i += 1;
        }
        ExitStatus::new(0)
    }

    /// `unset [-v|-f] name...`
    fn builtin_unset(&mut self, args: &Vec<String>) -> (r: ExitStatus)
        requires
            old(self).wf(),
        ensures
            final(self).wf(),
            final(self).fuel == old(self).fuel,
            !unset_options(args@, 1, false).1 ==> forall|n: Seq<char>|
                #[trigger] names_in(args@, unset_options(args@, 1, false).0, args@.len() as int, n) ==> if old(
                    self,
                ).vars.readonly(n) {
                    final(self).vars.lookup(n) == old(self).vars.lookup(n)
                } else {
                    final(self).vars.lookup(n) is None
                },
            !unset_options(args@, 1, false).1 ==> forall|n: Seq<char>|
                !#[trigger] names_in(args@, unset_options(args@, 1, false).0, args@.len() as int, n)
                    ==> final(self).vars.lookup(n) == old(self).vars.lookup(n),
            !unset_options(args@, 1, false).1 ==> (r@ == 0 <==> forall|j: int|
                unset_options(args@, 1, false).0 <= j < args@.len() ==> !old(self).vars.readonly(
                    #[trigger] args@[j]@,
                )),
            unset_options(args@, 1, false).1 ==> final(self).vars == old(self).vars && r@ == 0,
            unset_options(args@, 1, false).1 ==> forall|j: int|
                unset_options(args@, 1, false).0 <= j < args@.len() ==> !final(self).functions.defined(
                    #[trigger] args@[j]@,
                ),
    {
        let mut status = ExitStatus::new(0);
        let mut funcs = false;
        let mut i: usize = 1;
        proof {
            reveal_strlit("-v");
            reveal_strlit("-f");
        }
        while i < args.len()
            invariant
                1 <= i,
                i <= args@.len() || i == 1,
                unset_options(args@, i as int, funcs) == unset_options(args@, 1, false),
            ensures
                1 <= i,
                i <= args@.len() || i == 1,
                unset_options(args@, 1, false) == (i as int, funcs),
            decreases args.len() - i,
        {
            if is_lit(&args[i], "-v") {
                funcs = false;
            } else if is_lit(&args[i], "-f") {
                funcs = true;
            } else {
                break;
            }
            i += 1;
        }
        let ghost k = i as int;
        while i < args.len()
            invariant
                self.wf(),
                self.fuel == old(self).fuel,
                k <= i,
                i <= args@.len() || i == k,
                unset_options(args@, 1, false) == (k, funcs),
                funcs ==> self.vars == old(self).vars && status@ == 0 && forall|j: int|
                    k <= j < i ==> !self.functions.defined(#[trigger] args@[j]@),
                !funcs ==> forall|n: Seq<char>|
                    #[trigger] names_in(args@, k, i as int, n) ==> if old(self).vars.readonly(n) {
                        self.vars.lookup(n) == old(self).vars.lookup(n)
                    } else {
                        self.vars.lookup(n) is None
                    },
                !funcs ==> forall|n: Seq<char>|
                    !#[trigger] names_in(args@, k, i as int, n) ==> self.vars.lookup(n) == old(
                        self,
                    ).vars.lookup(n),
                !funcs ==> (status@ == 0 <==> forall|j: int|
                    k <= j < i ==> !old(self).vars.readonly(#[trigger] args@[j]@)),
            decreases args.len() - i,
        {
            let ghost m = args@[i as int]@;
            proof {
                assert forall|n: Seq<char>| #[trigger] names_in(args@, k, i + 1, n) == (names_in(
                    args@,
                    k,
                    i as int,
                    n,
                ) || n == m) by {
                    if n == m {
                        assert(args@[i as int]@ == n);
                    }
                    if names_in(args@, k, i + 1, n) && n != m {
                        let j = choose|j: int| k <= j < i + 1 && args@[j]@ == n;
                        assert(k <= j < i);
                    }
                }
                if !funcs {
                    assert(self.vars.readonly(m) == old(self).vars.readonly(m)) by {
                        if names_in(args@, k, i as int, m) {
                        } else {
                            assert(self.vars.lookup(m) == old(self).vars.lookup(m));
                        }
                    }
                }
            }
            let ghost cur = self.vars;
            if funcs {
                self.functions.remove(args[i].as_str());
            } else if let Err(e) = self.vars.unset(args[i].as_str()) {
                let mut m = "unset: ".to_owned();
                m.append(e.as_str());
                self.err_msg(m.as_str());
                status = ExitStatus::new(1);
            }
            proof {
                if !funcs {
                    assert forall|n: Seq<char>| #[trigger] names_in(args@, k, i + 1, n) implies (if old(
                        self,
                    ).vars.readonly(n) {
                        self.vars.lookup(n) == old(self).vars.lookup(n)
                    } else {
                        self.vars.lookup(n) is None
                    }) by {
                        if n == m {
                            if old(self).vars.readonly(m) {
                                assert(self.vars == cur);
                                if !names_in(args@, k, i as int, m) {
                                    assert(cur.lookup(m) == old(self).vars.lookup(m));
                                }
                            }
                        } else {
                            assert(names_in(args@, k, i as int, n));
                            assert(self.vars.lookup(n) == cur.lookup(n));
                        }
                    }
                }
            }
            i += 1;
        }
        proof {
            if args@.len() > 0 {
                assert(i == args@.len());
            } else {
                assert forall|n: Seq<char>| !#[trigger] names_in(args@, k, args@.len() as int, n) by {}
                assert forall|n: Seq<char>| !#[trigger] names_in(args@, k, i as int, n) by {}
            }
            if !funcs {
                assert forall|n: Seq<char>| !#[trigger] names_in(args@, k, args@.len() as int, n) implies self.vars.lookup(
                    n,
                ) == old(self).vars.lookup(n) by {
                    assert(!names_in(args@, k, i as int, n));
                }
            }
        }
        status
    }

    /// Set or clear one option letter; false for an unknown letter.
    fn set_option_letter(&mut self, c: char, enable: bool) -> (r: bool)
        ensures
            final(self).vars == old(self).vars,
            final(self).fds == old(self).fds,
            final(self).fuel == old(self).fuel,
            r == (c == 'e' || c == 'u' || c == 'x'),
            final(self).opts.errexit == (if c == 'e' {
                enable
            } else {
                old(self).opts.errexit
            }),
            final(self).opts.nounset == (if c == 'u' {
                enable
            } else {
                old(self).opts.nounset
            }),
            final(self).opts.xtrace == (if c == 'x' {
                enable
            } else {
                old(self).opts.xtrace
            }),
            final(self).opts.pipefail == old(self).opts.pipefail,
            final(self).opts.interactive == old(self).opts.interactive,
    {
        if c == 'e' {
            self.opts.errexit = enable;
            true
        } else if c == 'u' {
            self.opts.nounset = enable;
            true
        } else if c == 'x' {
            self.opts.xtrace = enable;
            true
        } else {
            false
        }
    }

    /// `set [-eux] [+eux] [-o opt] [--] [args...]`
    #[verifier::rlimit(40)]
    fn builtin_set(&mut self, args: &Vec<String>) -> (r: ExitStatus)
        requires
            old(self).wf(),
        ensures
            final(self).wf(),
            final(self).fuel == old(self).fuel,
            final(self).opts == set_outcome(old(self).opts, args@, 1).0,
            r@ == set_outcome(old(self).opts, args@, 1).2,
            set_outcome(old(self).opts, args@, 1).1 matches Some(f) ==> final(self).vars.params() == args@.subrange(
                f,
                args@.len() as int,
            ),
            set_outcome(old(self).opts, args@, 1).1 is None ==> final(self).vars.params() == old(self).vars.params(),
            forall|n: Seq<char>| #[trigger] final(self).vars.lookup(n) == old(self).vars.lookup(n),
    {
        if args.len() <= 1 {
            return ExitStatus::new(0);
        }
        let mut i: usize = 1;
        while i < args.len()
            invariant
                self.wf(),
                self.fuel == old(self).fuel,
                1 <= i <= args@.len(),
                set_outcome(self.opts, args@, i as int) == set_outcome(old(self).opts, args@, 1),
                self.vars == old(self).vars,
            decreases args.len() - i,
        {
            let arg = &args[i];
            let cs = chars_of(arg.as_str());
            if is_lit(arg, "--") {
                self.set_params_from(args, i + 1);
                return ExitStatus::new(0);
            } else if is_lit(arg, "-") {
                self.opts.xtrace = false;
                i += 1;
            } else if (is_lit(arg, "-o") || is_lit(arg, "+o")) && i + 1 < args.len() {
                let enable = is_lit(arg, "-o");
                let opt = &args[i + 1];
                if is_lit(opt, "pipefail") {
                    self.opts.pipefail = enable;
                } else if is_lit(opt, "errexit") {
                    self.opts.errexit = enable;
                } else if is_lit(opt, "nounset") {
                    self.opts.nounset = enable;
                } else if is_lit(opt, "xtrace") {
                    self.opts.xtrace = enable;
                } else {
                    let mut m = "set: unknown option: ".to_owned();
                    m.append(opt.as_str());
                    self.err_msg(m.as_str());
                    return ExitStatus::new(1);
                }
                i += 2;
            } else if cs.len() > 0 && (cs[0] == '-' || cs[0] == '+') {
                let enable = cs[0] == '-';
                let mut k: usize = 1;
                let ghost o0 = self.opts;
                while k < cs.len()
                    invariant
                        self.wf(),
                        self.fuel == old(self).fuel,
                        1 <= k <= cs@.len(),
                        1 <= i < args@.len(),
                        cs@ == args@[i as int]@,
                        cs@.len() > 0 && (cs@[0] == '-' || cs@[0] == '+'),
                        cs@ != "--"@ && cs@ != "-"@ && !((cs@ == "-o"@ || cs@ == "+o"@) && i + 1 < args@.len()),
                        set_outcome(o0, args@, i as int) == set_outcome(old(self).opts, args@, 1),
                        enable == (cs@[0] == '-'),
                        with_letters(self.opts, cs@, k as int, enable) == with_letters(o0, cs@, 1, enable),
                        self.vars == old(self).vars,
                    decreases cs.len() - k,
                {
                    if !self.set_option_letter(cs[k], enable) {
                        let mut m = "set: unknown option: -".to_owned();
                        push_char(&mut m, cs[k]);
                        self.err_msg(m.as_str());
                        return ExitStatus::new(1);
                    }
                    k += 1;
                }
                i += 1;
            } else {
                self.set_params_from(args, i);
                return ExitStatus::new(0);
            }
        }
        ExitStatus::new(0)
    }

    /// Make `args[from..]` the positional parameters.
    fn set_params_from(&mut self, args: &Vec<String>, from: usize)
        requires
            old(self).wf(),
            from <= args@.len(),
        ensures
            final(self).wf(),
            final(self).fuel == old(self).fuel,
            final(self).opts == old(self).opts,
            final(self).vars.params() == args@.subrange(from as int, args@.len() as int),
            forall|n: Seq<char>| #[trigger] final(self).vars.lookup(n) == old(self).vars.lookup(n),
    {
        let mut params: Vec<String> = Vec::new();
        let mut i = from;
        while i < args.len()
            invariant
                from <= i <= args@.len(),
                params@ == args@.subrange(from as int, i as int),
            decreases args.len() - i,
        {
            params.push(args[i].clone());
            assert(params@ =~= args@.subrange(from as int, i + 1));
            i += 1;
        }
        self.vars.set_params(params);
    }

    /// `shift [n]`
    fn builtin_shift(&mut self, args: &Vec<String>) -> (r: ExitStatus)
        requires
            old(self).wf(),
        ensures
            final(self).wf(),
            final(self).fuel == old(self).fuel,
            shift_count(args@) <= old(self).vars.params().len() ==> r@ == 0 && final(self).vars.params()
                == old(self).vars.params().skip(shift_count(args@)) && forall|n: Seq<char>|
                #[trigger] final(self).vars.lookup(n) == old(self).vars.lookup(n),
            shift_count(args@) > old(self).vars.params().len() ==> r@ == 1 && final(self).vars
                == old(self).vars,
    {
        let n = if args.len() > 1 {
            match parse_count(args[1].as_str()) {
                Some(n) => n,
                None => 1,
            }
        } else {
            1
        };
        let params = self.vars.params_vec().clone();
        if n > params.len() {
            self.err_msg("shift: can't shift that many");
            return ExitStatus::new(1);
        }
        let mut rest: Vec<String> = Vec::new();
        let mut i = n;
        while i < params.len()
            invariant
                n <= i <= params@.len(),
                rest@ == params@.subrange(n as int, i as int),
            decreases params.len() - i,
        {
            rest.push(params[i].clone());
            assert(rest@ =~= params@.subrange(n as int, i + 1));
            i += 1;
        }
        assert(rest@ =~= params@.skip(n as int));
        self.vars.set_params(rest);
        ExitStatus::new(0)
    }

    /// `test expr` and `[ expr ]`.
    fn builtin_test(&mut self, args: &Vec<String>) -> (r: ExitStatus)
        requires
            old(self).wf(),
            args@.len() >= 1,
        ensures
            final(self).wf(),
            final(self).fuel == old(self).fuel,
            r@ == 0 || r@ == 1 || r@ == 2,
            args@[0]@ == "["@ && (args@.len() < 2 || args@.last()@ != "]"@) ==> r@ == 2,
            !(args@[0]@ == "["@ && (args@.len() < 2 || args@.last()@ != "]"@)) && test_operands(args@).len() == 0
                ==> r@ == 1,
            !(args@[0]@ == "["@ && (args@.len() < 2 || args@.last()@ != "]"@)) && test_operands(args@).len() > 0
                ==> (crate::test_cmd::test_value(test_operands(args@)) matches Some(b) ==> r@ == (if b {
                0i32
            } else {
                1i32
            })),
    {
        let bracket = is_lit(&args[0], "[");
        let mut end = args.len();
        if bracket {
            if !is_lit(&args[args.len() - 1], "]") || args.len() < 2 {
                self.err_msg("[: missing ]");
                return ExitStatus::new(2);
            }
            end = args.len() - 1;
        }
        let mut operands: Vec<String> = Vec::new();
        let mut i: usize = 1;
        assert(end == args@.len() || (bracket && end == args@.len() - 1));
        while i < end
            invariant
                1 <= i <= end,
                end <= args@.len(),
                operands@ == args@.subrange(1, i as int),
            decreases end - i,
        {
            operands.push(args[i].clone());
            i += 1;
            assert(operands@ =~= args@.subrange(1, i as int));
        }
        assert(operands@ == test_operands(args@));
        let cwd = self.cwd.clone();
        crate::test_cmd::test_eval(&operands, &mut self.host, cwd.as_str())
    }

    /// `local name[=value]...`
    fn builtin_local(&mut self, args: &Vec<String>) -> (r: ExitStatus)
        requires
            old(self).wf(),
        ensures
            final(self).wf(),
            final(self).fuel == old(self).fuel,
            r@ == 0,
            local_args(old(self).vars, final(self).vars, args@, args@.len() as int),
    {
        let mut i: usize = 1;
        while i < args.len()
            invariant
                self.wf(),
                self.fuel == old(self).fuel,
                1 <= i,
                i <= args@.len() || args@.len() == 0,
                local_args(old(self).vars, self.vars, args@, i as int),
            decreases args.len() - i,
        {
            let ghost cur = self.vars;
            let ghost a = args@[i as int]@;
            let ghost m = arg_name(a);
            match split_assignment(args[i].as_str()) {
                Some((n, v)) => {
                    proof {
                        lemma_arg_split(a, n@, v@);
                    }
                    self.vars.make_local(n.as_str());
                    let _ = self.vars.set(n.as_str(), v.as_str());
                },
                None => {
                    proof {
                        lemma_arg_plain(a);
                    }
                    self.vars.make_local(args[i].as_str());
                },
            }
            proof {
                assert forall|k: Seq<char>| #[trigger] self.vars.readonly(k) == old(self).vars.readonly(k) by {
                    assert(cur.readonly(k) == old(self).vars.readonly(k));
                    if k != m {
                        assert(self.vars.lookup(k) == cur.lookup(k));
                    }
                }
                assert forall|k: Seq<char>| #[trigger] self.vars.exported(k) == old(self).vars.exported(k) by {
                    assert(cur.exported(k) == old(self).vars.exported(k));
                    if k != m {
                        assert(self.vars.lookup(k) == cur.lookup(k));
                    }
                }
                assert forall|k: Seq<char>| last_value(args@, i + 1, k) is None implies #[trigger] self.vars.lookup(k)
                    == old(self).vars.lookup(k) by {
                    assert(last_value(args@, i as int, k) is None);
                    assert(cur.lookup(k) == old(self).vars.lookup(k));
                    if k != m || arg_value(a) is Some {
                        assert(self.vars.lookup(k) == cur.lookup(k));
                    }
                }
                assert forall|k: Seq<char>| #[trigger] self.vars.value_of(k) == export_value(
                    old(self).vars,
                    args@,
                    i + 1,
                    k,
                ) by {
                    assert(cur.value_of(k) == export_value(old(self).vars, args@, i as int, k));
                    assert(cur.readonly(k) == old(self).vars.readonly(k));
                    if k != m {
                        assert(self.vars.lookup(k) == cur.lookup(k));
                    }
                }
            }
            i += 1;
        }
        ExitStatus::new(0)
    }

    /// `read [-r] [name...]`: one line of input into the variables, split
    /// on IFS, the last variable taking the rest.
    fn builtin_read(&mut self, args: &Vec<String>) -> (r: ExitStatus)
        requires
            old(self).wf(),
        ensures
            final(self).wf(),
            final(self).fuel == old(self).fuel,
            r@ == 0 || r@ == 1,
            forall|k: int| 0 <= k < read_names(args@).len() && !old(self).vars.readonly(read_names(args@)[k])
                ==> #[trigger] final(self).vars.value_of(read_names(args@)[k]) is Some,
    {
        let mut i: usize = 1;
        let mut raw_mode = false;
        while i < args.len()
            invariant_except_break
                1 <= i,
                read_opts_end(args@, i as int) == read_opts_end(args@, 1),
            ensures
                1 <= i,
                i as int == read_opts_end(args@, 1),
            decreases args.len() - i,
        {
            let cs = chars_of(args[i].as_str());
            if cs.len() == 0 || cs[0] != '-' {
                break;
            }
            if is_lit(&args[i], "-r") {
                raw_mode = true;
            }
            i += 1;
        }
        let ghost i0 = i as int;
        assert(i0 == read_opts_end(args@, 1));
        let mut names: Vec<String> = Vec::new();
        while i < args.len()
            invariant
                1 <= i0 <= i,
                i0 <= args@.len() ==> i <= args@.len(),
                i0 > args@.len() ==> i == i0,
                names@.len() == i - i0,
                forall|t: int| 0 <= t < names@.len() ==> #[trigger] names@[t]@ == args@[i0 + t]@,
            decreases args.len() - i,
        {
            names.push(args[i].clone());
            i += 1;
        }
        if names.len() == 0 {
            names.push("REPLY".to_owned());
            proof {
                reveal_strlit("REPLY");
            }
        }
        let ghost nv = names@.map_values(|a: String| a@);
        assert(nv =~= read_names(args@));
        let mut line: Vec<u8> = Vec::new();
        let mut hit_eof = true;
        let mut continued = false;
        let mut budget: u64 = self.fuel;
        loop
            invariant
                self.wf(),
                self.fuel == old(self).fuel,
                self.vars == old(self).vars,
            decreases budget,
        {
            if budget == 0 {
                break;
            }
            budget = budget - 1;
            let b = match self.read_byte() {
                Some(b) => b,
                None => {
                    break;
                },
            };
            if b == 10 {
                if continued {
                    continued = false;
                    continue ;
                }
                hit_eof = false;
                break;
            }
            if b == 92 && !raw_mode {
                match self.read_byte() {
                    None => {
                        line.push(92);
                        break;
                    },
                    Some(10) => {
                        continued = true;
                        continue ;
                    },
                    Some(n) => {
                        line.push(n);
                        continued = false;
                        continue ;
                    },
                }
            }
            continued = false;
            line.push(b);
        }
        if hit_eof && line.len() == 0 {
            let mut k: usize = 0;
            while k < names.len()
                invariant
                    self.wf(),
                    self.fuel == old(self).fuel,
                    k <= names@.len(),
                    names@.map_values(|a: String| a@) == nv,
                    forall|n: Seq<char>| #[trigger] self.vars.readonly(n) ==> old(self).vars.readonly(n),
                    forall|j: int| 0 <= j < k && !old(self).vars.readonly(nv[j]) ==> #[trigger] self.vars.value_of(nv[j]) is Some,
                decreases names.len() - k,
            {
                let ghost prev = self.vars;
                let _ = self.vars.set(names[k].as_str(), "");
                proof {
                    assert(nv[k as int] == names@[k as int]@);
                    assert forall|n: Seq<char>| #[trigger] self.vars.readonly(n) implies old(self).vars.readonly(n) by {
                        assert(prev.readonly(n) ==> old(self).vars.readonly(n));
                        if n != names@[k as int]@ {
                            assert(self.vars.lookup(n) == prev.lookup(n));
                        }
                    }
                    assert forall|j: int| 0 <= j < k + 1 && !old(self).vars.readonly(nv[j]) implies #[trigger] self.vars.value_of(
                        nv[j],
                    ) is Some by {
                        assert(prev.readonly(nv[j]) ==> old(self).vars.readonly(nv[j]));
                        if j < k {
                            assert(prev.value_of(nv[j]) is Some);
                        }
                        if nv[j] != names@[k as int]@ {
                            assert(self.vars.lookup(nv[j]) == prev.lookup(nv[j]));
                        }
                    }
                }
                k += 1;
            }
            return ExitStatus::new(1);
        }
        let text = chars_of(bytes_to_str(line.as_slice()).as_str());
        let ifs = chars_of(self.vars.ifs().as_str());
        let values = split_read_line(&text, &ifs, names.len());
        let mut k: usize = 0;
        while k < names.len()
            invariant
                self.wf(),
                self.fuel == old(self).fuel,
                k <= names@.len(),
                names@.map_values(|a: String| a@) == nv,
                forall|n: Seq<char>| #[trigger] self.vars.readonly(n) ==> old(self).vars.readonly(n),
                forall|j: int| 0 <= j < k && !old(self).vars.readonly(nv[j]) ==> #[trigger] self.vars.value_of(nv[j]) is Some,
            decreases names.len() - k,
        {
            let v = if k < values.len() {
                values[k].clone()
            } else {
                String::new()
            };
            let ghost prev = self.vars;
            let _ = self.vars.set(names[k].as_str(), v.as_str());
            proof {
                assert(nv[k as int] == names@[k as int]@);
                assert forall|n: Seq<char>| #[trigger] self.vars.readonly(n) implies old(self).vars.readonly(n) by {
                    assert(prev.readonly(n) ==> old(self).vars.readonly(n));
                    if n != names@[k as int]@ {
                        assert(self.vars.lookup(n) == prev.lookup(n));
                    }
                }
                assert forall|j: int| 0 <= j < k + 1 && !old(self).vars.readonly(nv[j]) implies #[trigger] self.vars.value_of(
                    nv[j],
                ) is Some by {
                    assert(prev.readonly(nv[j]) ==> old(self).vars.readonly(nv[j]));
                    if j < k {
                        assert(prev.value_of(nv[j]) is Some);
                    }
                    if nv[j] != names@[k as int]@ {
                        assert(self.vars.lookup(nv[j]) == prev.lookup(nv[j]));
                    }
                }
            }
            k += 1;
        }
        if hit_eof {
            ExitStatus::new(1)
        } else {
            ExitStatus::new(0)
        }
    }

    /// The path of program `name` found in a directory of $PATH.
    fn which(&mut self, name: &String) -> (r: Option<String>)
        requires
            old(self).wf(),
        ensures
            final(self).wf(),
            final(self).fuel == old(self).fuel,
    {
        let path = match self.vars.get("PATH") {
            Some(p) => chars_of(p),
            None => Vec::new(),
        };
        let mut start: usize = 0;
        let mut i: usize = 0;
        loop
            invariant
                self.wf(),
                self.fuel == old(self).fuel,
                start <= i <= path@.len(),
            decreases path@.len() - i,
        {
            if i == path.len() || path[i] == ':' {
                let dir = string_of(&crate::lexer::slice_chars(&path, start, i));
                let mut candidate = dir;
                push_char(&mut candidate, '/');
                candidate.append(name.as_str());
                let is_file = match self.host.stat(&candidate, true) {
                    Some(st) => match st.kind {
                        FileKind::Regular => true,
                        _ => false,
                    },
                    None => false,
                };
                if is_file {
                    return Some(candidate);
                }
                if i < path.len() {
                    start = i + 1;
                }
            }
            if i == path.len() {
                break;
            }
            i += 1;
        }
        None
    }

    /// Describe `name` as `type` does; false if it is not found.
    fn describe(&mut self, name: &String, verbose: bool) -> (r: bool)
        requires
            old(self).wf(),
        ensures
            final(self).wf(),
            final(self).fuel == old(self).fuel,
            old(self).functions.defined(name@) ==> r && Shell::wrote(
                *final(self),
                *old(self),
                1,
                spec_str_to_bytes(
                    name@ + (if verbose {
                        " is a function"@
                    } else {
                        Seq::empty()
                    }) + seq!['\n'],
                ),
            ),
            !old(self).functions.defined(name@) && spec_is_builtin(name@) ==> r && Shell::wrote(
                *final(self),
                *old(self),
                1,
                spec_str_to_bytes(
                    name@ + (if verbose {
                        " is a shell builtin"@
                    } else {
                        Seq::empty()
                    }) + seq!['\n'],
                ),
            ),
    {
        let mut line = name.clone();
        if self.functions.contains_key(name.as_str()) {
            if verbose {
                line.append(" is a function");
            }
        } else if is_builtin(name.as_str()) {
            if verbose {
                line.append(" is a shell builtin");
            }
        } else {
            match self.which(name) {
                Some(p) => {
                    if verbose {
                        line.append(" is ");
                        line.append(p.as_str());
                    } else {
                        line = p;
                    }
                },
                None => {
                    if verbose {
                        let mut m = name.clone();
                        m.append(": not found");
                        self.err_msg(m.as_str());
                    }
                    return false;
                },
            }
        }
        push_char(&mut line, '\n');
        proof {
            if old(self).functions.defined(name@) {
                assert(line@ =~= name@ + (if verbose {
                    " is a function"@
                } else {
                    Seq::empty()
                }) + seq!['\n']);
            } else if spec_is_builtin(name@) {
                assert(line@ =~= name@ + (if verbose {
                    " is a shell builtin"@
                } else {
                    Seq::empty()
                }) + seq!['\n']);
            }
        }
        self.write_out(line.as_str());
        true
    }

    /// `type name...`
    fn builtin_type(&mut self, args: &Vec<String>) -> (r: ExitStatus)
        requires
            old(self).wf(),
        ensures
            final(self).wf(),
            final(self).fuel == old(self).fuel,
            r@ == 0 || r@ == 1,
            args@.len() <= 1 ==> r@ == 0,
    {
        let mut status = ExitStatus::new(0);
        let mut i: usize = 1;
        while i < args.len()
            invariant
                self.wf(),
                self.fuel == old(self).fuel,
                1 <= i,
                status@ == 0 || status@ == 1,
                args@.len() <= 1 ==> status@ == 0,
            decreases args.len() - i,
        {
            if !self.describe(&args[i], true) {
                status = ExitStatus::new(1);
            }
            i += 1;
        }
        status
    }

    /// `command [-v|-V|-p] [--] name [args...]`: run a builtin or program,
    /// bypassing functions, or describe commands.
    fn builtin_command(&mut self, args: &Vec<String>, span: Span) -> (r: Result<ExitStatus, ShellError>)
        requires
            old(self).wf(),
        ensures
            final(self).steps_from(&*old(self)),
            old(self).fuel > 0 && args@.len() <= 1 ==> (r matches Ok(s) && s@ == 0),
        decreases old(self).fuel,
    {
        self.tick()?;
        if args.len() <= 1 {
            return Ok(ExitStatus::new(0));
        }
        let mut mode: u8 = 0;
        let mut i: usize = 1;
        while i < args.len()
            invariant
                1 <= i,
            decreases args.len() - i,
        {
            if is_lit(&args[i], "-v") {
                mode = 1;
            } else if is_lit(&args[i], "-V") {
                mode = 2;
            } else if is_lit(&args[i], "-p") {
            } else if is_lit(&args[i], "--") {
                i += 1;
                break;
            } else {
                break;
            }
            i += 1;
        }
        if i >= args.len() {
            return Ok(ExitStatus::new(0));
        }
        if mode != 0 {
            let mut status = ExitStatus::new(0);
            while i < args.len()
                invariant
                    self.wf(),
                    self.fuel < old(self).fuel,
                decreases args.len() - i,
            {
                if !self.describe(&args[i], mode == 2) {
                    status = ExitStatus::new(1);
                }
                i += 1;
            }
            return Ok(status);
        }
        let mut rest: Vec<String> = Vec::new();
        let ghost i1 = i;
        while i < args.len()
            invariant
                i1 <= i <= args@.len(),
                i1 < args@.len(),
                rest@.len() == i - i1,
            decreases args.len() - i,
        {
            rest.push(args[i].clone());
            i += 1;
        }
        let name = rest[0].clone();
        match self.try_builtin(name.as_str(), &rest, span)? {
            Some(s) => Ok(s),
            None => {
                let no_assigns: Vec<crate::ast::Assignment> = Vec::new();
                self.eval_external(&rest, &no_assigns)
            },
        }
    }

    /// List the traps as `trap -- 'action' SIG` lines.
    fn print_traps(&mut self)
        requires
            old(self).wf(),
        ensures
            final(self).wf(),
            final(self).fuel == old(self).fuel,
            final(self).vars == old(self).vars,
            final(self).traps == old(self).traps,
            Shell::wrote(
                *final(self),
                *old(self),
                1,
                spec_str_to_bytes(
                    trap_listing(
                        crate::eval::live_traps(old(self).traps.entries@, old(self).traps.entries@.len() as int),
                        crate::eval::live_traps(old(self).traps.entries@, old(self).traps.entries@.len() as int).len() as int,
                    ),
                ),
            ),
    {
        let pairs = self.traps.iter_pairs();
        let ghost lt = crate::eval::pair_texts(pairs@);
        let mut i: usize = 0;
        proof {
            Shell::lemma_wrote_nothing(*self, 1);
            assert(trap_listing(lt, 0) =~= Seq::<char>::empty());
            assert(spec_str_to_bytes(Seq::<char>::empty()) =~= Seq::<u8>::empty());
        }
        while i < pairs.len()
            invariant
                self.wf(),
                self.fuel == old(self).fuel,
                self.vars == old(self).vars,
                self.traps == old(self).traps,
                i <= pairs@.len(),
                lt == crate::eval::pair_texts(pairs@),
                Shell::wrote(*self, *old(self), 1, spec_str_to_bytes(trap_listing(lt, i as int))),
            decreases pairs.len() - i,
        {
            let ghost before = *self;
            let mut line = "trap -- '".to_owned();
            line.append(pairs[i].1.as_str());
            line.append("' ");
            line.append(pairs[i].0.as_str());
            push_char(&mut line, '\n');
            self.write_out(line.as_str());
            proof {
                assert(lt[i as int] == (pairs@[i as int].0@, pairs@[i as int].1@));
                assert(line@ == trap_line(lt[i as int]));
                Shell::lemma_wrote_twice(
                    *old(self),
                    before,
                    *self,
                    1,
                    spec_str_to_bytes(trap_listing(lt, i as int)),
                    spec_str_to_bytes(line@),
                );
                crate::encoding::lemma_str_to_bytes_concat(trap_listing(lt, i as int), line@);
            }
            i += 1;
        }
    }

    /// `trap [action] [signal...]`
    fn builtin_trap(&mut self, args: &Vec<String>) -> (r: ExitStatus)
        requires
            old(self).wf(),
        ensures
            final(self).wf(),
            final(self).fuel == old(self).fuel,
            r@ == 0,
            forall|k: Seq<char>| #[trigger] final(self).traps.lookup(k) == trap_after(old(self).traps, args@, k),
    {
        if args.len() <= 1 {
            self.print_traps();
            return ExitStatus::new(0);
        }
        let offset: usize = if is_lit(&args[1], "--") {
            2
        } else {
            1
        };
        if args.len() <= offset {
            return ExitStatus::new(0);
        }
        if args.len() == offset + 1 {
            if is_lit(&args[offset], "-") {
                self.print_traps();
            } else {
                let normalized = to_upper(args[offset].as_str());
                let _ = self.traps.remove(normalized.as_str());
            }
            return ExitStatus::new(0);
        }
        let action = args[offset].clone();
        let mut i = offset + 1;
        while i < args.len()
            invariant
                self.wf(),
                self.fuel == old(self).fuel,
                offset == trap_offset(args@),
                offset + 1 <= i <= args@.len(),
                action@ == args@[offset as int]@,
                forall|k: Seq<char>| #[trigger] self.traps.lookup(k) == if names_signal(args@, offset + 1, i as int, k) {
                    if action@ == "-"@ {
                        None
                    } else {
                        Some(action@)
                    }
                } else {
                    old(self).traps.lookup(k)
                },
            decreases args.len() - i,
        {
            let ghost cur = self.traps;
            let normalized = to_upper(args[i].as_str());
            if is_lit(&action, "-") {
                let _ = self.traps.remove(normalized.as_str());
            } else {
                let a = action.clone();
                self.traps.insert(normalized, a);
            }
            proof {
                assert forall|k: Seq<char>| #[trigger] names_signal(args@, offset + 1, i + 1, k) == (names_signal(
                    args@,
                    offset + 1,
                    i as int,
                    k,
                ) || k == normalized@) by {
                    if k == normalized@ {
                        assert(upper_text(args@[i as int]@) == k);
                    }
                    if names_signal(args@, offset + 1, i + 1, k) && k != normalized@ {
                        let j = choose|j: int| offset + 1 <= j < i + 1 && upper_text(#[trigger] args@[j]@) == k;
                        assert(j < i);
                    }
                }
            }
            i += 1;
        }
        proof {
            assert forall|k: Seq<char>| #[trigger] self.traps.lookup(k) == trap_after(old(self).traps, args@, k) by {
            }
        }
        ExitStatus::new(0)
    }

    /// `kill [-s sig | -sig] pid...` and `kill -l [status]`.
    fn builtin_kill(&mut self, args: &Vec<String>) -> (r: ExitStatus)
        requires
            old(self).wf(),
        ensures
            final(self).wf(),
            final(self).fuel == old(self).fuel,
            args@.len() <= 1 ==> r@ == 2,
            args@.len() == 2 && args@[1]@ == "-s"@ ==> r@ == 2,
            args@.len() == 2 && (args@[1]@ == "-l"@ || args@[1]@ == "-L"@) ==> r@ == 0,
    {
        if args.len() <= 1 {
            self.err_msg("kill: usage: kill [-s signal | -signal] pid ...");
            return ExitStatus::new(2);
        }
        let mut i: usize = 1;
        let mut signum: i32 = 15;
        proof {
            reveal_strlit("-s");
            reveal_strlit("-l");
            reveal_strlit("-L");
            assert("-s"@[1] != "-l"@[1] && "-s"@[1] != "-L"@[1]);
        }
        let first = chars_of(args[1].as_str());
        if is_lit(&args[1], "-l") || is_lit(&args[1], "-L") {
            if args.len() > 2 {
                if let Some(st) = parse_i64(args[2].as_str()) {
                    if -2147483648 <= st && st <= 2147483647 {
                        let sig = if st > 128 {
                            st - 128
                        } else {
                            st
                        };
                        if let Some(name) = self.host.signal_name(sig as i32) {
                            let mut line = signal_text(name);
                            push_char(&mut line, '\n');
                            self.write_out(line.as_str());
                            return ExitStatus::new(0);
                        }
                    }
                }
                let mut m = "kill: ".to_owned();
                m.append(args[2].as_str());
                m.append(": invalid signal specification");
                self.err_msg(m.as_str());
                return ExitStatus::new(1);
            }
            let mut sig: i32 = 1;
            while sig < 32
                invariant
                    self.wf(),
                    self.fuel == old(self).fuel,
                    1 <= sig <= 32,
                decreases 32 - sig,
            {
                if let Some(name) = self.host.signal_name(sig) {
                    let mut line = int_to_string(sig as i64);
                    line.append(") SIG");
                    line.append(signal_text(name).as_str());
                    push_char(&mut line, '\n');
                    self.write_out(line.as_str());
                }
                sig += 1;
            }
            return ExitStatus::new(0);
        } else if is_lit(&args[1], "-s") {
            if args.len() <= 2 {
                self.err_msg("kill: -s requires a signal name");
                return ExitStatus::new(2);
            }
            let name = to_upper(args[2].as_str());
            let number = match name_to_signal(name.as_str()) {
                Some(sig) => self.host.signal_number(sig),
                None => None,
            };
            match number {
                Some(s) => {
                    signum = s;
                },
                None => {
                    let mut m = "kill: ".to_owned();
                    m.append(args[2].as_str());
                    m.append(": invalid signal specification");
                    self.err_msg(m.as_str());
                    return ExitStatus::new(1);
                },
            }
            i = 3;
        } else if first.len() > 1 && first[0] == '-' {
            let spec = string_of(&crate::lexer::slice_chars(&first, 1, first.len()));
            match parse_i64(spec.as_str()) {
                Some(n) if -2147483648 <= n && n <= 2147483647 => {
                    signum = n as i32;
                },
                _ => {
                    let name = to_upper(spec.as_str());
                    let number = match name_to_signal(name.as_str()) {
                        Some(sig) => self.host.signal_number(sig),
                        None => None,
                    };
                    match number {
                        Some(s) => {
                            signum = s;
                        },
                        None => {
                            let mut m = "kill: ".to_owned();
                            m.append(spec.as_str());
                            m.append(": invalid signal specification");
                            self.err_msg(m.as_str());
                            return ExitStatus::new(1);
                        },
                    }
                },
            }
            i = 2;
        }
        if i >= args.len() {
            self.err_msg("kill: usage: kill [-s signal | -signal] pid ...");
            return ExitStatus::new(2);
        }
        let mut status = ExitStatus::new(0);
        while i < args.len()
            invariant
                self.wf(),
                self.fuel == old(self).fuel,
            decreases args.len() - i,
        {
            match parse_i64(args[i].as_str()) {
                Some(pid) if -2147483648 <= pid && pid <= 2147483647 => {
                    if !self.host.kill(pid as i32, signum) {
                        let mut m = "kill: (".to_owned();
                        m.append(args[i].as_str());
                        m.append(") - No such process");
                        self.err_msg(m.as_str());
                        status = ExitStatus::new(1);
                    }
                },
                _ => {
                    let mut m = "kill: ".to_owned();
                    m.append(args[i].as_str());
                    m.append(": arguments must be process IDs");
                    self.err_msg(m.as_str());
                    status = ExitStatus::new(1);
                },
            }
            i += 1;
        }
        status
    }

    /// `umask [mask]`: show (four octal digits) or set the creation mask.
    fn builtin_umask(&mut self, args: &Vec<String>) -> (r: ExitStatus)
        requires
            old(self).wf(),
        ensures
            final(self).wf(),
            final(self).fuel == old(self).fuel,
            args@.len() <= 1 ==> r@ == 0,
            args@.len() > 1 ==> (r@ == 0 <==> spec_parse_octal(args@[1]@) is Some),
            r@ == 0 || r@ == 1,
    {
        if args.len() <= 1 {
            let mask = self.host.umask(None);
            let digits = radix_digits(mask as u64, 8, false);
            let text = pad(string_of(&digits).as_str(), 4, false, '0');
            let mut line = text;
            push_char(&mut line, '\n');
            self.write_out(line.as_str());
            return ExitStatus::new(0);
        }
        match parse_octal(args[1].as_str()) {
            Some(m) => {
                let _ = self.host.umask(Some(m));
                ExitStatus::new(0)
            },
            None => {
                let mut m = "umask: ".to_owned();
                m.append(args[1].as_str());
                m.append(": invalid mask");
                self.err_msg(m.as_str());
                ExitStatus::new(1)
            },
        }
    }

    /// Set a variable, ignoring a readonly refusal.
    fn set_quiet(&mut self, name: &str, value: &str)
        requires
            old(self).wf(),
        ensures
            final(self).wf(),
            final(self).fuel == old(self).fuel,
            old(self).vars.readonly(name@) ==> final(self).vars == old(self).vars,
            !old(self).vars.readonly(name@) ==> final(self).vars.value_of(name@) == Some(value@),
            !old(self).vars.readonly(name@) ==> !final(self).vars.readonly(name@),
            forall|n: Seq<char>| n != name@ ==> #[trigger] final(self).vars.lookup(n) == old(self).vars.lookup(n),
            final(self).vars.params() == old(self).vars.params(),
    {
        let _ = self.vars.set(name, value);
    }

    /// `getopts optstring name [args...]`: the next option into `name`,
    /// its argument into OPTARG, the next index into OPTIND.
    fn builtin_getopts(&mut self, args: &Vec<String>) -> (r: ExitStatus)
        requires
            old(self).wf(),
        ensures
            final(self).wf(),
            final(self).fuel == old(self).fuel,
            args@.len() < 3 ==> r@ == 2 && final(self).vars == old(self).vars,
            args@.len() >= 3 ==> r@ == 0 || r@ == 1,
            args@.len() >= 3 && r@ == 1 && !old(self).vars.readonly(args@[2]@) ==> final(self).vars.value_of(
                args@[2]@,
            ) == Some("?"@),
    {
        if args.len() < 3 {
            self.err_msg("getopts: usage: getopts optstring name [arg ...]");
            return ExitStatus::new(2);
        }
        let optchars = chars_of(args[1].as_str());
        let name = args[2].clone();
        let mut argv: Vec<String> = Vec::new();
        if args.len() > 3 {
            let mut i: usize = 3;
            while i < args.len()
                invariant
                    3 <= i,
                decreases args.len() - i,
            {
                argv.push(args[i].clone());
                i += 1;
            }
        } else {
            argv = self.vars.params_vec().clone();
        }
        let mut rounds: usize = 0;
        loop
            invariant
                self.wf(),
                self.fuel == old(self).fuel,
                name@ == args@[2]@,
                args@.len() >= 3,
                !old(self).vars.readonly(name@) ==> !self.vars.readonly(name@),
            decreases argv@.len() + 2 - rounds,
        {
            let optind: usize = match self.vars.get("OPTIND") {
                Some(s) => match parse_count(s) {
                    Some(n) => n,
                    None => 1,
                },
                None => 1,
            };
            if optind < 1 || optind > argv.len() || rounds >= argv.len() {
                self.set_quiet(name.as_str(), "?");
                return ExitStatus::new(1);
            }
            let arg = &argv[optind - 1];
            let arg_chars = chars_of(arg.as_str());
            if arg_chars.len() == 0 || arg_chars[0] != '-' || is_lit(arg, "-") || is_lit(arg, "--") {
                self.set_quiet(name.as_str(), "?");
                return ExitStatus::new(1);
            }
            let optpos: usize = match self.vars.get("_OPTPOS") {
                Some(s) => match parse_count(s) {
                    Some(n) => n,
                    None => 1,
                },
                None => 1,
            };
            let next_ind: usize = if optind < usize::MAX {
                optind + 1
            } else {
                optind
            };
            if optpos >= arg_chars.len() {
                self.set_quiet("OPTIND", usize_to_string(next_ind).as_str());
                self.set_quiet("_OPTPOS", "1");
                rounds += 1;
                continue ;
            }
            let opt = arg_chars[optpos];
            let mut opt_text: Vec<char> = Vec::new();
            opt_text.push(opt);
            let opt_s = string_of(&opt_text);
            let mut found: Option<usize> = None;
            let mut k: usize = 0;
            while k < optchars.len()
                invariant
                    k <= optchars@.len(),
                    found matches Some(p) ==> p < optchars@.len(),
                decreases optchars.len() - k,
            {
                if found.is_none() && optchars[k] == opt {
                    found = Some(k);
                }
                k += 1;
            }
            let last_in_arg = optpos + 1 >= arg_chars.len();
            match found {
                Some(pos) => {
                    self.set_quiet(name.as_str(), opt_s.as_str());
                    let needs_arg = pos + 1 < optchars.len() && optchars[pos + 1] == ':';
                    if needs_arg {
                        if !last_in_arg {
                            let optarg = string_of(&crate::lexer::slice_chars(&arg_chars, optpos + 1, arg_chars.len()));
                            self.set_quiet("OPTARG", optarg.as_str());
                            self.set_quiet("OPTIND", usize_to_string(next_ind).as_str());
                            self.set_quiet("_OPTPOS", "1");
                        } else if optind < argv.len() {
                            let optarg = argv[optind].clone();
                            self.set_quiet("OPTARG", optarg.as_str());
                            let next = if optind <= usize::MAX - 2 {
                                optind + 2
                            } else {
                                optind
                            };
                            self.set_quiet("OPTIND", usize_to_string(next).as_str());
                            self.set_quiet("_OPTPOS", "1");
                        } else {
                            let mut m = "getopts: option requires argument -- ".to_owned();
                            push_char(&mut m, opt);
                            self.err_msg(m.as_str());
                            self.set_quiet(name.as_str(), "?");
                            self.set_quiet("OPTIND", usize_to_string(next_ind).as_str());
                            return ExitStatus::new(0);
                        }
                    } else {
                        let _ = self.vars.unset("OPTARG");
                        if last_in_arg {
                            self.set_quiet("OPTIND", usize_to_string(next_ind).as_str());
                            self.set_quiet("_OPTPOS", "1");
                        } else {
                            self.set_quiet("_OPTPOS", usize_to_string(optpos + 1).as_str());
                        }
                    }
                    return ExitStatus::new(0);
                },
                None => {
                    if optchars.len() > 0 && optchars[0] == ':' {
                        self.set_quiet("OPTARG", opt_s.as_str());
                    } else {
                        let mut m = "getopts: illegal option -- ".to_owned();
                        push_char(&mut m, opt);
                        self.err_msg(m.as_str());
                    }
                    self.set_quiet(name.as_str(), "?");
                    if last_in_arg {
                        self.set_quiet("OPTIND", usize_to_string(next_ind).as_str());
                        self.set_quiet("_OPTPOS", "1");
                    } else {
                        self.set_quiet("_OPTPOS", usize_to_string(optpos + 1).as_str());
                    }
                    return ExitStatus::new(0);
                },
            }
        }
    }
}

/// True if every character of `s` is an octal digit.
pub open spec fn all_octal(s: Seq<char>) -> bool {
    forall|k: int| 0 <= k < s.len() ==> '0' <= #[trigger] s[k] <= '7'
}

/// The value of an octal number that fits in a `u32`.
pub open spec fn spec_parse_octal(s: Seq<char>) -> Option<u32> {
    if s.len() > 0 && all_octal(s) && crate::arith::radix_value(s, 8) <= u32::MAX {
        Some(crate::arith::radix_value(s, 8) as u32)
    } else {
        None
    }
}

/// An octal number, as `u32::from_str_radix(s, 8)` reads one that fits.
pub fn parse_octal(s: &str) -> (r: Option<u32>)
    ensures
        r == spec_parse_octal(s@),
{
    let cs = chars_of(s);
    if cs.len() == 0 {
        return None;
    }
    let mut v: u64 = 0;
    let mut i: usize = 0;
    while i < cs.len()
        invariant
            i <= cs@.len(),
            cs@ == s@,
            v <= 4294967295,
            all_octal(cs@.take(i as int)),
            v == crate::arith::radix_value(cs@.take(i as int), 8),
        decreases cs.len() - i,
    {
        let c = cs[i];
        if !('0' <= c && c <= '7') {
            return None;
        }
        assert(cs@.take(i + 1).drop_last() =~= cs@.take(i as int));
        assert(crate::arith::hex_value(c) == Some(c as int - 48));
        v = v * 8 + ((c as u32) - 48) as u64;
        if v > 4294967295 {
            proof {
                if all_octal(cs@) {
                    assert forall|j: int| 0 <= j < cs@.len() implies #[trigger] crate::arith::hex_value(cs@[j])
                        is Some by {
                        assert('0' <= cs@[j] <= '7');
                    }
                    crate::arith::lemma_radix_prefix(cs@, i + 1, 8);
                }
            }
            return None;
        }
        i += 1;
    }
    assert(cs@.take(cs@.len() as int) =~= cs@);
    Some(v as u32)
}

/// The start of the run of characters satisfying `p` that ends at `hi`,
/// not going below `lo`.
pub open spec fn back_run(text: Seq<char>, lo: int, hi: int, p: spec_fn(char) -> bool) -> int
    decreases hi - lo,
{
    if lo < hi && 0 < hi <= text.len() && p(text[hi - 1]) {
        back_run(text, lo, hi - 1, p)
    } else {
        hi
    }
}

proof fn lemma_back_run_at(text: Seq<char>, lo: int, b: int, hi: int, p: spec_fn(char) -> bool)
    requires
        0 <= lo <= b <= hi <= text.len(),
        forall|k: int| b <= k < hi ==> p(#[trigger] text[k]),
        b == lo || !p(text[b - 1]),
    ensures
        back_run(text, lo, hi, p) == b,
    decreases hi - b,
{
    if b < hi {
        lemma_back_run_at(text, lo, b, hi - 1, p);
    }
}

/// The values for variables `vi..count` from `text[pos..]`: each but the
/// last ends at an IFS character, and the IFS characters after it are
/// skipped; the last takes the rest without trailing IFS white space.
pub open spec fn read_values(text: Seq<char>, ifs: Seq<char>, pos: int, count: int, vi: int) -> Seq<Seq<char>>
    decreases count - vi,
{
    if vi >= count || pos < 0 || pos > text.len() {
        Seq::empty()
    } else if vi + 1 == count {
        let end = back_run(text, pos, text.len() as int, |c: char| ifs.contains(c) && spec_is_space(c));
        seq![text.subrange(pos, end)]
    } else {
        let e = crate::arith::run_end(text, pos, |c: char| !ifs.contains(c));
        let p2 = crate::arith::run_end(text, e, |c: char| ifs.contains(c));
        seq![text.subrange(pos, e)] + read_values(text, ifs, p2, count, vi + 1)
    }
}

/// The values `read` assigns to `count` variables from `text`: a single
/// variable takes the line without leading and trailing IFS characters;
/// otherwise leading IFS white space is skipped and `read_values` splits the
/// rest.
pub open spec fn spec_read_split(text: Seq<char>, ifs: Seq<char>, count: int) -> Seq<Seq<char>> {
    if count == 1 {
        let a = crate::arith::run_end(text, 0, |c: char| ifs.contains(c));
        let b = back_run(text, a, text.len() as int, |c: char| ifs.contains(c));
        seq![text.subrange(a, b)]
    } else {
        let pos = crate::arith::run_end(text, 0, |c: char| ifs.contains(c) && spec_is_space(c));
        read_values(text, ifs, pos, count, 0)
    }
}

/// `read` on a line of two words separated by an IFS space: two variables
/// get one word each, one variable gets the whole line, and a third
/// variable gets the empty string.
pub proof fn law_read_split_words(a: Seq<char>, sep: char, b: Seq<char>, ifs: Seq<char>)
    requires
        a.len() > 0,
        b.len() > 0,
        forall|k: int| 0 <= k < a.len() ==> !ifs.contains(#[trigger] a[k]),
        forall|k: int| 0 <= k < b.len() ==> !ifs.contains(#[trigger] b[k]),
        ifs.contains(sep),
        spec_is_space(sep),
    ensures
        spec_read_split(a + seq![sep] + b, ifs, 2) == seq![a, b],
        spec_read_split(a + seq![sep] + b, ifs, 1) == seq![a + seq![sep] + b],
        spec_read_split(a + seq![sep] + b, ifs, 3) == seq![a, b, Seq::<char>::empty()],
{
    let t = a + seq![sep] + b;
    let n = a.len() as int;
    let len = t.len() as int;
    assert forall|k: int| 0 <= k < n implies !ifs.contains(#[trigger] t[k]) by {
        assert(t[k] == a[k]);
    }
    assert forall|k: int| n + 1 <= k < len implies !ifs.contains(#[trigger] t[k]) by {
        assert(t[k] == b[k - n - 1]);
    }
    assert(t[0] == a[0] && t[n] == sep && t[n + 1] == b[0] && t[len - 1] == b[b.len() - 1]);
    let ws = |c: char| ifs.contains(c) && spec_is_space(c);
    let inside = |c: char| ifs.contains(c);
    let outside = |c: char| !ifs.contains(c);
    crate::arith::lemma_run_end_at(t, 0, 0, ws);
    crate::arith::lemma_run_end_at(t, 0, 0, inside);
    crate::arith::lemma_run_end_at(t, 0, n, outside);
    crate::arith::lemma_run_end_at(t, n, n + 1, inside);
    lemma_back_run_at(t, n + 1, len, len, ws);
    lemma_back_run_at(t, 0, len, len, inside);
    assert(t.subrange(0, n) =~= a);
    assert(t.subrange(n + 1, len) =~= b);
    assert(t.subrange(0, len) =~= t);
    assert(read_values(t, ifs, n + 1, 2, 1) == seq![b]);
    assert(read_values(t, ifs, 0, 2, 0) == seq![a] + seq![b]);
    assert(seq![a] + seq![b] =~= seq![a, b]);
    crate::arith::lemma_run_end_at(t, n + 1, len, outside);
    crate::arith::lemma_run_end_at(t, len, len, inside);
    lemma_back_run_at(t, len, len, len, ws);
    assert(t.subrange(len, len) =~= Seq::<char>::empty());
    assert(read_values(t, ifs, len, 3, 2) == seq![Seq::<char>::empty()]);
    assert(read_values(t, ifs, n + 1, 3, 1) == seq![b] + seq![Seq::<char>::empty()]);
    assert(read_values(t, ifs, 0, 3, 0) == seq![a] + (seq![b] + seq![Seq::<char>::empty()]));
    assert(seq![a] + (seq![b] + seq![Seq::<char>::empty()]) =~= seq![a, b, Seq::<char>::empty()]);
}

/// The strings as character sequences.
pub open spec fn texts_of(v: Seq<String>) -> Seq<Seq<char>> {
    v.map_values(|s: String| s@)
}

/// Split a line read by `read` into `count` values on the IFS characters
/// (see `spec_read_split`).
pub fn split_read_line(text: &Vec<char>, ifs: &Vec<char>, count: usize) -> (r: Vec<String>)
    ensures
        texts_of(r@) == spec_read_split(text@, ifs@, count as int),
{
    let mut out: Vec<String> = Vec::new();
    let n = text.len();
    if count == 1 {
        let mut a: usize = 0;
        let mut b: usize = text.len();
        while a < b && contains(ifs, text[a])
            invariant
                a <= b,
                b == text@.len(),
                forall|k: int| 0 <= k < a ==> ifs@.contains(#[trigger] text@[k]),
            decreases b - a,
        {
            a += 1;
        }
        proof {
            crate::arith::lemma_run_end_at(text@, 0, a as int, |c: char| ifs@.contains(c));
        }
        let ghost a0 = a;
        while b > a && contains(ifs, text[b - 1])
            invariant
                a <= b <= text@.len(),
                forall|k: int| b <= k < text@.len() ==> ifs@.contains(#[trigger] text@[k]),
            decreases b,
        {
            b -= 1;
        }
        proof {
            lemma_back_run_at(text@, a as int, b as int, text@.len() as int, |c: char| ifs@.contains(c));
        }
        let v = string_of(&crate::lexer::slice_chars(text, a, b));
        out.push(v);
        assert(texts_of(out@) =~= seq![text@.subrange(a as int, b as int)]);
        return out;
    }
    let mut pos: usize = 0;
    while pos < text.len() && contains(ifs, text[pos]) && is_space(text[pos])
        invariant
            pos <= text@.len(),
            forall|k: int| 0 <= k < pos ==> ifs@.contains(#[trigger] text@[k]) && spec_is_space(text@[k]),
        decreases text.len() - pos,
    {
        pos += 1;
    }
    proof {
        crate::arith::lemma_run_end_at(
            text@,
            0,
            pos as int,
            |c: char| ifs@.contains(c) && spec_is_space(c),
        );
    }
    let ghost start_pos = pos as int;
    let mut vi: usize = 0;
    assert(texts_of(out@) + read_values(text@, ifs@, start_pos, count as int, 0) =~= read_values(
        text@,
        ifs@,
        start_pos,
        count as int,
        0,
    ));
    while vi < count
        invariant
            pos <= text@.len(),
            vi <= count,
            count != 1,
            texts_of(out@) + read_values(text@, ifs@, pos as int, count as int, vi as int) == read_values(
                text@,
                ifs@,
                start_pos,
                count as int,
                0,
            ),
        decreases count - vi,
    {
        let ghost before = texts_of(out@);
        if vi + 1 == count {
            let mut end = text.len();
            while end > pos && contains(ifs, text[end - 1]) && is_space(text[end - 1])
                invariant
                    pos <= end <= text@.len(),
                    forall|k: int| end <= k < text@.len() ==> ifs@.contains(#[trigger] text@[k]) && spec_is_space(
                        text@[k],
                    ),
                decreases end,
            {
                end -= 1;
            }
            proof {
                lemma_back_run_at(
                    text@,
                    pos as int,
                    end as int,
                    text@.len() as int,
                    |c: char| ifs@.contains(c) && spec_is_space(c),
                );
            }
            let v = string_of(&crate::lexer::slice_chars(text, pos, end));
            out.push(v);
            proof {
                assert(texts_of(out@) =~= before + seq![text@.subrange(pos as int, end as int)]);
                assert(read_values(text@, ifs@, pos as int, count as int, vi + 1) =~= Seq::<Seq<char>>::empty());
                assert(texts_of(out@) + Seq::<Seq<char>>::empty() =~= texts_of(out@));
            }
        } else {
            let start = pos;
            while pos < text.len() && !contains(ifs, text[pos])
                invariant
                    start <= pos <= text@.len(),
                    forall|k: int| start <= k < pos ==> !ifs@.contains(#[trigger] text@[k]),
                decreases text.len() - pos,
            {
                pos += 1;
            }
            proof {
                crate::arith::lemma_run_end_at(text@, start as int, pos as int, |c: char| !ifs@.contains(c));
            }
            let v = string_of(&crate::lexer::slice_chars(text, start, pos));
            out.push(v);
            let e = pos;
            while pos < text.len() && contains(ifs, text[pos])
                invariant
                    e <= pos <= text@.len(),
                    forall|k: int| e <= k < pos ==> ifs@.contains(#[trigger] text@[k]),
                decreases text.len() - pos,
            {
                pos += 1;
            }
            proof {
                crate::arith::lemma_run_end_at(text@, e as int, pos as int, |c: char| ifs@.contains(c));
                assert(texts_of(out@) =~= before + seq![text@.subrange(start as int, e as int)]);
                assert(before + (seq![text@.subrange(start as int, e as int)] + read_values(
                    text@,
                    ifs@,
                    pos as int,
                    count as int,
                    vi + 1,
                )) =~= texts_of(out@) + read_values(text@, ifs@, pos as int, count as int, vi + 1));
            }
        }
        vi += 1;
    }
    proof {
        assert(read_values(text@, ifs@, pos as int, count as int, vi as int) =~= Seq::<Seq<char>>::empty());
        assert(texts_of(out@) + Seq::<Seq<char>>::empty() =~= texts_of(out@));
    }
    out
}

/// The white-space characters of `read`'s field splitting.
pub open spec fn spec_is_space(c: char) -> bool {
    c == ' ' || c == '\t' || c == '\n' || c == '\r' || c == '\x0b' || c == '\x0c'
}

fn contains(cs: &Vec<char>, c: char) -> (r: bool)
    ensures
        r == cs@.contains(c),
{
    let mut i: usize = 0;
    while i < cs.len()
        invariant
            i <= cs@.len(),
            forall|k: int| 0 <= k < i ==> cs@[k] != c,
        decreases cs.len() - i,
    {
        if cs[i] == c {
            assert(cs@[i as int] == c);
            return true;
        }
        i += 1;
    }
    false
}

fn is_space(c: char) -> (r: bool)
    ensures
        r == spec_is_space(c),
{
    c == ' ' || c == '\t' || c == '\n' || c == '\r' || c == '\x0b' || c == '\x0c'
}

} // verus!
