//! The `test` / `[` builtin: POSIX conditional expressions with `!`, `-a`,
//! `-o` and parentheses.

use vstd::prelude::*;

use crate::error::ExitStatus;
use crate::glob::{join_path, lex_le};
use crate::host::{FileKind, FileStat, Host};
use crate::text::{chars_of, parse_i64, str_eq};

verus! {

/// True if `s` is the string literal `lit`.
fn is(s: &String, lit: &str) -> (r: bool)
    ensures
        r == (s@ == lit@),
{
    str_eq(s.as_str(), lit)
}

/// A path as the host sees it: absolute paths as they are, relative ones
/// below `cwd`.
pub open spec fn spec_resolve(cwd: Seq<char>, p: Seq<char>) -> Seq<char> {
    if p.len() > 0 && p[0] == '/' {
        p
    } else {
        crate::glob::spec_join_path(cwd, p)
    }
}

/// Resolve a path against the working directory.
pub fn resolve(cwd: &str, p: &str) -> (r: String)
    ensures
        r@ == spec_resolve(cwd@, p@),
{
    let cs = chars_of(p);
    if cs.len() > 0 && cs[0] == '/' {
        p.to_owned()
    } else {
        join_path(cwd, p)
    }
}

/// The integer value of an operand of `-eq` and the like: 0 when it is not
/// a number.
pub open spec fn int_operand(s: Seq<char>) -> i64 {
    match crate::text::spec_parse_i64(s) {
        Some(n) => n,
        None => 0,
    }
}

fn int_value(s: &String) -> (r: i64)
    ensures
        r == int_operand(s@),
{
    match parse_i64(s.as_str()) {
        Some(n) => n,
        None => 0,
    }
}

/// The operand at `pos`, or "" past the end.
fn operand(args: &Vec<String>, pos: usize) -> (r: String)
    ensures
        pos < args@.len() ==> r@ == args@[pos as int]@,
        pos >= args@.len() ==> r@.len() == 0,
{
    if pos < args.len() {
        args[pos].clone()
    } else {
        String::new()
    }
}

/// Permission test on a file's mode: the owner bits when `is_owner`, the
/// others' bits otherwise; `shift` is 2 for read, 1 for write, 0 for execute.
pub open spec fn spec_permitted(mode: u32, is_owner: bool, shift: u32) -> bool {
    if is_owner {
        mode & (1u32 << (6 + shift)) != 0
    } else {
        mode & (1u32 << shift) != 0
    }
}

fn permitted(mode: u32, is_owner: bool, shift: u32) -> (r: bool)
    requires
        shift <= 2,
    ensures
        r == spec_permitted(mode, is_owner, shift),
{
    if is_owner {
        mode & (1u32 << (6 + shift)) != 0
    } else {
        mode & (1u32 << shift) != 0
    }
}

/// The arguments as strings.
pub open spec fn arg_views(a: Seq<String>) -> Seq<Seq<char>> {
    a.map_values(|s: String| s@)
}

/// `b` is a possible value for a result `v` that is known (`Some`) or
/// depends on the host (`None`).
pub open spec fn agrees(b: bool, v: Option<bool>) -> bool {
    v matches Some(x) ==> b == x
}

/// Three-valued `or`: known when either side is known true or both are known.
pub open spec fn or3(a: Option<bool>, b: Option<bool>) -> Option<bool> {
    match (a, b) {
        (Some(true), _) => Some(true),
        (Some(false), _) => b,
        (None, Some(true)) => Some(true),
        _ => None,
    }
}

/// Three-valued `and`: known when either side is known false or both are known.
pub open spec fn and3(a: Option<bool>, b: Option<bool>) -> Option<bool> {
    match (a, b) {
        (Some(false), _) => Some(false),
        (Some(true), _) => b,
        (None, Some(false)) => Some(false),
        _ => None,
    }
}

pub open spec fn not3(a: Option<bool>) -> Option<bool> {
    match a {
        Some(x) => Some(!x),
        None => None,
    }
}

/// The string comparison operators.
pub open spec fn is_str_compare(op: Seq<char>) -> bool {
    op == "="@ || op == "=="@ || op == "!="@ || op == "<"@ || op == ">"@
}

/// The integer comparison operators.
pub open spec fn is_int_compare(op: Seq<char>) -> bool {
    op == "-eq"@ || op == "-ne"@ || op == "-lt"@ || op == "-le"@ || op == "-gt"@ || op == "-ge"@
}

/// The file comparison operators.
pub open spec fn is_file_compare(op: Seq<char>) -> bool {
    op == "-nt"@ || op == "-ot"@ || op == "-ef"@
}

/// Words after a unary operator that mean the operator is a bare string.
pub open spec fn ends_operand(nx: Seq<char>) -> bool {
    nx == ")"@ || nx == "-a"@ || nx == "-o"@ || nx == "="@ || nx == "!="@ || nx == "-eq"@ || nx == "-ne"@
        || nx == "-lt"@ || nx == "-le"@ || nx == "-gt"@ || nx == "-ge"@
}

/// The unary operators whose answer comes from the host.
pub open spec fn is_host_unary(op: Seq<char>) -> bool {
    op == "-e"@ || op == "-f"@ || op == "-d"@ || op == "-L"@ || op == "-h"@ || op == "-p"@ || op == "-b"@
        || op == "-c"@ || op == "-S"@ || op == "-r"@ || op == "-w"@ || op == "-x"@ || op == "-s"@ || op
        == "-t"@ || op == "-u"@ || op == "-g"@ || op == "-k"@
}

/// The value of `left op right` for a string comparison; `<` and `>` order
/// by code points.
pub open spec fn str_compare(op: Seq<char>, left: Seq<char>, right: Seq<char>) -> bool {
    if op == "="@ || op == "=="@ {
        left == right
    } else if op == "!="@ {
        left != right
    } else if op == "<"@ {
        !lex_le(right, left)
    } else {
        !lex_le(left, right)
    }
}

/// The value of `l op r` for an integer comparison.
pub open spec fn int_compare(op: Seq<char>, l: i64, r: i64) -> bool {
    if op == "-eq"@ {
        l == r
    } else if op == "-ne"@ {
        l != r
    } else if op == "-lt"@ {
        l < r
    } else if op == "-le"@ {
        l <= r
    } else if op == "-gt"@ {
        l > r
    } else {
        l >= r
    }
}

/// The operand after a binary operator at `pos`, and the position after it.
pub open spec fn binary_rhs(a: Seq<Seq<char>>, pos: int) -> (Seq<char>, int) {
    if pos + 2 < a.len() {
        (a[pos + 2], pos + 3)
    } else {
        (Seq::empty(), a.len() as int)
    }
}

/// primary at `pos`: its value (`None` when the host decides it) and the
/// position after it.
pub open spec fn t_primary(a: Seq<Seq<char>>, pos: int) -> (Option<bool>, int)
    decreases a.len() - pos, 0nat,
{
    let n = a.len() as int;
    if pos < 0 || pos >= n {
        (Some(false), pos)
    } else if a[pos] == "("@ {
        let (v, p) = t_or(a, pos + 1);
        if 0 <= p < n && a[p] == ")"@ {
            (v, p + 1)
        } else {
            (v, p)
        }
    } else if pos + 1 < n && is_str_compare(a[pos + 1]) {
        let (right, p) = binary_rhs(a, pos);
        (Some(str_compare(a[pos + 1], a[pos], right)), p)
    } else if pos + 1 < n && is_int_compare(a[pos + 1]) {
        let (right, p) = binary_rhs(a, pos);
        let r = if pos + 2 < n {
            int_operand(right)
        } else {
            0
        };
        (Some(int_compare(a[pos + 1], int_operand(a[pos]), r)), p)
    } else if pos + 1 < n && is_file_compare(a[pos + 1]) {
        (None, binary_rhs(a, pos).1)
    } else {
        let op = a[pos];
        let has_operand = pos + 1 < n && !ends_operand(a[pos + 1]);
        if has_operand && op == "-n"@ {
            (Some(a[pos + 1].len() > 0), pos + 2)
        } else if has_operand && op == "-z"@ {
            (Some(a[pos + 1].len() == 0), pos + 2)
        } else if has_operand && is_host_unary(op) {
            (None, pos + 2)
        } else {
            (Some(op.len() > 0), pos + 1)
        }
    }
}

/// not := ! primary | primary
pub open spec fn t_not(a: Seq<Seq<char>>, pos: int) -> (Option<bool>, int)
    decreases a.len() - pos, 1nat,
{
    if 0 <= pos < a.len() && a[pos] == "!"@ {
        let (v, p) = t_primary(a, pos + 1);
        (not3(v), p)
    } else {
        t_primary(a, pos)
    }
}

/// The `-a` operands that follow an `and` operand of value `acc` ending at `pos`.
pub open spec fn t_and_rest(a: Seq<Seq<char>>, pos: int, acc: Option<bool>) -> (Option<bool>, int)
    decreases a.len() - pos, 2nat,
{
    if 0 <= pos < a.len() && a[pos] == "-a"@ {
        let (v, p) = t_not(a, pos + 1);
        if pos < p <= a.len() {
            t_and_rest(a, p, and3(acc, v))
        } else {
            (and3(acc, v), p)
        }
    } else {
        (acc, pos)
    }
}

/// and := not { -a not }
pub open spec fn t_and(a: Seq<Seq<char>>, pos: int) -> (Option<bool>, int)
    decreases a.len() - pos, 3nat,
{
    let (v, p) = t_not(a, pos);
    if pos <= p <= a.len() {
        t_and_rest(a, p, v)
    } else {
        (v, p)
    }
}

/// The `-o` operands that follow an `or` operand of value `acc` ending at `pos`.
pub open spec fn t_or_rest(a: Seq<Seq<char>>, pos: int, acc: Option<bool>) -> (Option<bool>, int)
    decreases a.len() - pos, 4nat,
{
    if 0 <= pos < a.len() && a[pos] == "-o"@ {
        let (v, p) = t_and(a, pos + 1);
        if pos < p <= a.len() {
            t_or_rest(a, p, or3(acc, v))
        } else {
            (or3(acc, v), p)
        }
    } else {
        (acc, pos)
    }
}

/// or := and { -o and }
pub open spec fn t_or(a: Seq<Seq<char>>, pos: int) -> (Option<bool>, int)
    decreases a.len() - pos, 5nat,
{
    let (v, p) = t_and(a, pos);
    if pos <= p <= a.len() {
        t_or_rest(a, p, v)
    } else {
        (v, p)
    }
}

/// The evaluator over the argument list, reading files through the host.
pub struct TestEval<'a> {
    pub args: &'a Vec<String>,
    pub cwd: &'a str,
}

/// True for the unary operators that test a file: `-e -f -d -L -h -p -b -c
/// -S -r -w -x -s -u -g -k`.
pub open spec fn is_file_op(op: Seq<char>) -> bool {
    op == "-e"@ || op == "-f"@ || op == "-d"@ || op == "-L"@ || op == "-h"@ || op == "-p"@ || op == "-b"@
        || op == "-c"@ || op == "-S"@ || op == "-r"@ || op == "-w"@ || op == "-x"@ || op == "-s"@ || op == "-u"@
        || op == "-g"@ || op == "-k"@
}

/// The file kind that a kind test asks for.
pub open spec fn op_kind(op: Seq<char>) -> Option<FileKind> {
    if op == "-f"@ {
        Some(FileKind::Regular)
    } else if op == "-d"@ {
        Some(FileKind::Directory)
    } else if op == "-L"@ || op == "-h"@ {
        Some(FileKind::Symlink)
    } else if op == "-p"@ {
        Some(FileKind::Fifo)
    } else if op == "-b"@ {
        Some(FileKind::BlockDevice)
    } else if op == "-c"@ {
        Some(FileKind::CharDevice)
    } else if op == "-S"@ {
        Some(FileKind::Socket)
    } else {
        None
    }
}

/// What a file test `op` says of a file with status `st` (`None`: no such
/// file), for a user with id `uid`: it exists; it is of the kind asked
/// for; it is readable, writable or executable by that user; it is not
/// empty; or it has the set-user-id, set-group-id or sticky bit.
pub open spec fn spec_file_test(op: Seq<char>, st: Option<FileStat>, uid: u32) -> bool {
    match st {
        None => false,
        Some(f) => if op == "-e"@ {
            true
        } else if op_kind(op) is Some {
            f.kind == op_kind(op).unwrap()
        } else if op == "-r"@ {
            spec_permitted(f.mode, f.uid == uid, 2)
        } else if op == "-w"@ {
            spec_permitted(f.mode, f.uid == uid, 1)
        } else if op == "-x"@ {
            spec_permitted(f.mode, f.uid == uid, 0)
        } else if op == "-s"@ {
            f.size > 0
        } else if op == "-u"@ {
            f.mode & 0o4000 != 0
        } else if op == "-g"@ {
            f.mode & 0o2000 != 0
        } else if op == "-k"@ {
            f.mode & 0o1000 != 0
        } else {
            false
        },
    }
}

/// True for the file test operators (see `is_file_op`).
fn file_op(op: &String) -> (r: bool)
    ensures
        r == is_file_op(op@),
{
    is(op, "-e") || is(op, "-f") || is(op, "-d") || is(op, "-L") || is(op, "-h") || is(op, "-p") || is(op, "-b")
        || is(op, "-c") || is(op, "-S") || is(op, "-r") || is(op, "-w") || is(op, "-x") || is(op, "-s") || is(
        op,
        "-u",
    ) || is(op, "-g") || is(op, "-k")
}

/// What a file comparison `left op right` says of two files with status
/// `l` and `r` (`None`: no such file): `-nt` newer (or only the left one
/// exists), `-ot` older (or only the right one exists), `-ef` the same file.
pub open spec fn spec_file_compare(op: Seq<char>, l: Option<FileStat>, r: Option<FileStat>) -> bool {
    if op == "-nt"@ {
        match (l, r) {
            (Some(a), Some(b)) => a.mtime_ns > b.mtime_ns,
            (Some(_), None) => true,
            _ => false,
        }
    } else if op == "-ot"@ {
        match (l, r) {
            (Some(a), Some(b)) => a.mtime_ns < b.mtime_ns,
            (None, Some(_)) => true,
            _ => false,
        }
    } else {
        match (l, r) {
            (Some(a), Some(b)) => a.dev == b.dev && a.ino == b.ino,
            _ => false,
        }
    }
}

/// The answer of file comparison `op` for two files with status `l` and
/// `r` (see `spec_file_compare`).
pub fn file_compare_result(op: &String, l: &Option<FileStat>, r: &Option<FileStat>) -> (res: bool)
    ensures
        res == spec_file_compare(op@, *l, *r),
{
    if is(op, "-nt") {
        match (l, r) {
            (Some(a), Some(b)) => a.mtime_ns > b.mtime_ns,
            (Some(_), None) => true,
            _ => false,
        }
    } else if is(op, "-ot") {
        match (l, r) {
            (Some(a), Some(b)) => a.mtime_ns < b.mtime_ns,
            (None, Some(_)) => true,
            _ => false,
        }
    } else {
        match (l, r) {
            (Some(a), Some(b)) => a.dev == b.dev && a.ino == b.ino,
            _ => false,
        }
    }
}

/// The kind code of a file kind, in the order of `FileKind`.
fn kind_code(k: FileKind) -> (r: u8)
    ensures
        r < 8,
        k == FileKind::Regular <==> r == 0,
        k == FileKind::Directory <==> r == 1,
        k == FileKind::Symlink <==> r == 2,
        k == FileKind::Fifo <==> r == 3,
        k == FileKind::BlockDevice <==> r == 4,
        k == FileKind::CharDevice <==> r == 5,
        k == FileKind::Socket <==> r == 6,
{
    match k {
        FileKind::Regular => 0,
        FileKind::Directory => 1,
        FileKind::Symlink => 2,
        FileKind::Fifo => 3,
        FileKind::BlockDevice => 4,
        FileKind::CharDevice => 5,
        FileKind::Socket => 6,
        FileKind::Other => 7,
    }
}

/// The answer of file test `op` for a file with status `st` and a user with
/// id `uid` (see `spec_file_test`).
pub fn file_test_result(op: &String, st: &Option<FileStat>, uid: u32) -> (r: bool)
    ensures
        r == spec_file_test(op@, *st, uid),
{
    proof {
        reveal_strlit("-e");
        reveal_strlit("-f");
        reveal_strlit("-d");
        reveal_strlit("-L");
        reveal_strlit("-h");
        reveal_strlit("-p");
        reveal_strlit("-b");
        reveal_strlit("-c");
        reveal_strlit("-S");
        reveal_strlit("-r");
        reveal_strlit("-w");
        reveal_strlit("-x");
        reveal_strlit("-s");
        reveal_strlit("-u");
        reveal_strlit("-g");
        reveal_strlit("-k");
    }
    let f = match st {
        Some(f) => f,
        None => {
            return false;
        },
    };
    let k = kind_code(f.kind);
    if is(op, "-e") {
        true
    } else if is(op, "-f") {
        k == 0
    } else if is(op, "-d") {
        k == 1
    } else if is(op, "-L") || is(op, "-h") {
        k == 2
    } else if is(op, "-p") {
        k == 3
    } else if is(op, "-b") {
        k == 4
    } else if is(op, "-c") {
        k == 5
    } else if is(op, "-S") {
        k == 6
    } else if is(op, "-r") {
        permitted(f.mode, f.uid == uid, 2)
    } else if is(op, "-w") {
        permitted(f.mode, f.uid == uid, 1)
    } else if is(op, "-x") {
        permitted(f.mode, f.uid == uid, 0)
    } else if is(op, "-s") {
        f.size > 0
    } else if is(op, "-u") {
        f.mode & 0o4000 != 0
    } else if is(op, "-g") {
        f.mode & 0o2000 != 0
    } else if is(op, "-k") {
        f.mode & 0o1000 != 0
    } else {
        false
    }
}

impl<'a> TestEval<'a> {
    /// The arguments as strings.
    pub open spec fn av(&self) -> Seq<Seq<char>> {
        arg_views(self.args@)
    }

    fn stat(&self, host: &mut Box<dyn Host>, p: &String, follow: bool) -> Option<FileStat> {
        let path = resolve(self.cwd, p.as_str());
        host.stat(&path, follow)
    }

    /// Run file test `op` on `operand`: the host's status of the file
    /// (not following a final symbolic link for `-L` and `-h`), judged by
    /// `file_test_result`.
    fn file_test(&self, host: &mut Box<dyn Host>, op: &String, operand: &String) -> bool {
        let follow = !(is(op, "-L") || is(op, "-h"));
        let uid: u32 = if is(op, "-r") || is(op, "-w") || is(op, "-x") {
            host.getuid()
        } else {
            0
        };
        let st = self.stat(host, operand, follow);
        file_test_result(op, &st, uid)
    }

    /// True if the argument at `pos` is `lit`.
    fn arg_is(&self, pos: usize, lit: &str) -> (r: bool)
        requires
            pos < self.args@.len(),
        ensures
            r == (self.av()[pos as int] == lit@),
    {
        is(&self.args[pos], lit)
    }

    /// or := and { -o and }
    pub fn test_or(&self, host: &mut Box<dyn Host>, pos: &mut usize) -> (r: bool)
        requires
            *old(pos) <= self.args@.len(),
        ensures
            *old(pos) <= *final(pos) <= self.args@.len(),
            *final(pos) == t_or(self.av(), *old(pos) as int).1,
            agrees(r, t_or(self.av(), *old(pos) as int).0),
        decreases self.args@.len() - *old(pos), 5nat,
    {
        let ghost a = self.av();
        let mut result = self.test_and(host, pos);
        let ghost mut acc = t_and(a, *old(pos) as int).0;
        while *pos < self.args.len() && self.arg_is(*pos, "-o")
            invariant
                *old(pos) <= *pos <= self.args@.len(),
                a == self.av(),
                agrees(result, acc),
                t_or(a, *old(pos) as int) == t_or_rest(a, *pos as int, acc),
            decreases self.args@.len() - *pos,
        {
            let ghost p0 = *pos as int;
            *pos = *pos + 1;
            let right = self.test_and(host, pos);
            proof {
                let rv = t_and(a, p0 + 1).0;
                assert(agrees(result || right, or3(acc, rv)));
                acc = or3(acc, rv);
            }
            result = result || right;
        }
        result
    }

    /// and := not { -a not }
    pub fn test_and(&self, host: &mut Box<dyn Host>, pos: &mut usize) -> (r: bool)
        requires
            *old(pos) <= self.args@.len(),
        ensures
            *old(pos) <= *final(pos) <= self.args@.len(),
            *final(pos) == t_and(self.av(), *old(pos) as int).1,
            agrees(r, t_and(self.av(), *old(pos) as int).0),
        decreases self.args@.len() - *old(pos), 3nat,
    {
        let ghost a = self.av();
        let mut result = self.test_not(host, pos);
        let ghost mut acc = t_not(a, *old(pos) as int).0;
        while *pos < self.args.len() && self.arg_is(*pos, "-a")
            invariant
                *old(pos) <= *pos <= self.args@.len(),
                a == self.av(),
                agrees(result, acc),
                t_and(a, *old(pos) as int) == t_and_rest(a, *pos as int, acc),
            decreases self.args@.len() - *pos,
        {
            let ghost p0 = *pos as int;
            *pos = *pos + 1;
            let right = self.test_not(host, pos);
            proof {
                let rv = t_not(a, p0 + 1).0;
                assert(agrees(result && right, and3(acc, rv)));
                acc = and3(acc, rv);
            }
            result = result && right;
        }
        result
    }

    /// not := ! primary | primary
    pub fn test_not(&self, host: &mut Box<dyn Host>, pos: &mut usize) -> (r: bool)
        requires
            *old(pos) <= self.args@.len(),
        ensures
            *old(pos) <= *final(pos) <= self.args@.len(),
            *final(pos) == t_not(self.av(), *old(pos) as int).1,
            agrees(r, t_not(self.av(), *old(pos) as int).0),
        decreases self.args@.len() - *old(pos), 1nat,
    {
        if *pos < self.args.len() && self.arg_is(*pos, "!") {
            *pos = *pos + 1;
            !self.test_primary(host, pos)
        } else {
            self.test_primary(host, pos)
        }
    }

    /// Advance past a unary operator and take its operand.
    fn unary_operand(&self, pos: &mut usize) -> (r: String)
        requires
            *old(pos) + 1 < self.args@.len(),
        ensures
            *final(pos) == *old(pos) + 2,
            r@ == self.av()[*old(pos) + 1],
    {
        let n = self.args.len();
        let r = self.args[*pos + 1].clone();
        *pos = *pos + 2;
        r
    }

    /// primary := ( or ) | a binary test | a unary test | a bare string.
    pub fn test_primary(&self, host: &mut Box<dyn Host>, pos: &mut usize) -> (r: bool)
        requires
            *old(pos) <= self.args@.len(),
        ensures
            *old(pos) <= *final(pos) <= self.args@.len(),
            *final(pos) == t_primary(self.av(), *old(pos) as int).1,
            agrees(r, t_primary(self.av(), *old(pos) as int).0),
        decreases self.args@.len() - *old(pos), 0nat,
    {
        let ghost a = self.av();
        let args = self.args;
        let n = args.len();
        if *pos >= n {
            return false;
        }
        if self.arg_is(*pos, "(") {
            *pos = *pos + 1;
            let result = self.test_or(host, pos);
            if *pos < n && self.arg_is(*pos, ")") {
                *pos = *pos + 1;
            }
            return result;
        }
        if *pos + 1 < n {
            let p = *pos;
            let op = &args[p + 1];
            let left = &args[p];
            proof {
                assert(a[p + 1] == op@);
                assert(a[p as int] == left@);
            }
            if is(op, "=") || is(op, "==") || is(op, "!=") || is(op, "<") || is(op, ">") {
                let right = operand(args, p + 2);
                *pos = if p + 2 < n { p + 3 } else { n };
                let lc = chars_of(left.as_str());
                let rc = chars_of(right.as_str());
                let eq = str_eq(left.as_str(), right.as_str());
                proof {
                    if p + 2 < n {
                        assert(a[p + 2] == right@);
                    } else {
                        assert(right@ =~= Seq::<char>::empty());
                    }
                }
                return if is(op, "=") || is(op, "==") {
                    eq
                } else if is(op, "!=") {
                    !eq
                } else if is(op, "<") {
                    !crate::glob::chars_le_pub(&rc, &lc)
                } else {
                    !crate::glob::chars_le_pub(&lc, &rc)
                };
            }
            if is(op, "-eq") || is(op, "-ne") || is(op, "-lt") || is(op, "-le") || is(op, "-gt") || is(
                op,
                "-ge",
            ) {
                let l = int_value(left);
                let r = if p + 2 < n {
                    proof {
                        assert(a[p + 2] == args@[p + 2]@);
                    }
                    int_value(&args[p + 2])
                } else {
                    0
                };
                *pos = if p + 2 < n { p + 3 } else { n };
                return if is(op, "-eq") {
                    l == r
                } else if is(op, "-ne") {
                    l != r
                } else if is(op, "-lt") {
                    l < r
                } else if is(op, "-le") {
                    l <= r
                } else if is(op, "-gt") {
                    l > r
                } else {
                    l >= r
                };
            }
            if is(op, "-nt") || is(op, "-ot") || is(op, "-ef") {
                let right = operand(args, p + 2);
                *pos = if p + 2 < n { p + 3 } else { n };
                let lm = self.stat(host, left, true);
                let rm = self.stat(host, &right, true);
                return file_compare_result(op, &lm, &rm);
            }
        }
        let op = &args[*pos];
        proof {
            assert(a[*pos as int] == op@);
        }
        let has_operand = *pos + 1 < n && {
            let nx = &args[*pos + 1];
            proof {
                assert(a[*pos + 1] == nx@);
            }
            !(is(nx, ")") || is(nx, "-a") || is(nx, "-o") || is(nx, "=") || is(nx, "!=") || is(nx, "-eq")
                || is(nx, "-ne") || is(nx, "-lt") || is(nx, "-le") || is(nx, "-gt") || is(nx, "-ge"))
        };
        if has_operand {
            if is(op, "-n") {
                let s = self.unary_operand(pos);
                return !s.as_str().is_empty();
            } else if is(op, "-z") {
                let s = self.unary_operand(pos);
                return s.as_str().is_empty();
            } else if file_op(op) {
                let s = self.unary_operand(pos);
                return self.file_test(host, op, &s);
            } else if is(op, "-t") {
                let s = self.unary_operand(pos);
                let fd: i32 = match parse_i64(s.as_str()) {
                    Some(x) => if -2147483648 <= x && x <= 2147483647 {
                        x as i32
                    } else {
                        1
                    },
                    None => 1,
                };
                return host.isatty(fd);
            }
        }
        *pos = *pos + 1;
        !op.as_str().is_empty()
    }
}

/// `test l OP r` with two integers compares them: `-eq` equal, `-ne`
/// different, `-lt` less, `-le` less or equal, `-gt` greater, `-ge` greater
/// or equal.
pub proof fn law_test_int_compare(args: Seq<String>, a: i64, b: i64)
    requires
        args.len() == 3,
        crate::text::spec_parse_i64(args[0]@) == Some(a),
        crate::text::spec_parse_i64(args[2]@) == Some(b),
    ensures
        args[1]@ == "-eq"@ ==> test_value(args) == Some(a == b),
        args[1]@ == "-ne"@ ==> test_value(args) == Some(a != b),
        args[1]@ == "-lt"@ ==> test_value(args) == Some(a < b),
        args[1]@ == "-le"@ ==> test_value(args) == Some(a <= b),
        args[1]@ == "-gt"@ ==> test_value(args) == Some(a > b),
        args[1]@ == "-ge"@ ==> test_value(args) == Some(a >= b),
{
    reveal_strlit("!");
    reveal_strlit("(");
    reveal_strlit("=");
    reveal_strlit("==");
    reveal_strlit("!=");
    reveal_strlit("<");
    reveal_strlit(">");
    reveal_strlit("-eq");
    reveal_strlit("-ne");
    reveal_strlit("-lt");
    reveal_strlit("-le");
    reveal_strlit("-gt");
    reveal_strlit("-ge");
    reveal_strlit("-a");
    reveal_strlit("-o");
    assert("-le"@[2] != "-lt"@[2] && "-le"@[1] != "-eq"@[1] && "-le"@[1] != "-ne"@[1]);
    assert("-gt"@[1] != "-lt"@[1] && "-gt"@[1] != "-le"@[1] && "-gt"@[1] != "-eq"@[1] && "-gt"@[1] != "-ne"@[1]);
    assert("-ge"@[2] != "-gt"@[2] && "-ge"@[1] != "-lt"@[1] && "-ge"@[1] != "-le"@[1]);
    assert("-ge"@[1] != "-eq"@[1] && "-ge"@[1] != "-ne"@[1] && "-lt"@[1] != "-eq"@[1] && "-lt"@[1] != "-ne"@[1]);
    assert("-eq"@[1] != "-ne"@[1]);
    let v = arg_views(args);
    assert(v[0] == args[0]@ && v[1] == args[1]@ && v[2] == args[2]@);
    assert(v[0] != "!"@ && v[0] != "("@) by {
        if v[0] == "!"@ || v[0] == "("@ {
            assert(v[0].len() == 1);
            assert(!crate::text::all_digits(v[0])) by {
                assert(!crate::text::is_digit(v[0][0]));
            }
        }
    }
    if is_int_compare(v[1]) {
        assert(!is_str_compare(v[1])) by {
            assert(v[1].len() == 3);
            assert(v[1][0] == '-');
        }
        assert(int_operand(v[0]) == a && int_operand(v[2]) == b);
        let r = t_primary(v, 0);
        assert(r == (Some(int_compare(v[1], a, b)), 3int));
        assert(t_not(v, 0) == r);
        assert(t_and_rest(v, 3, r.0) == r);
        assert(t_and(v, 0) == r);
        assert(t_or_rest(v, 3, r.0) == r);
        assert(t_or(v, 0) == r);
    }
}

/// `test l OP r` with a string comparison: `=` and `==` hold when the two
/// words are the same, `!=` when they differ (unless `l` is itself `!` or
/// `(`, which start a negation or a group).
pub proof fn law_test_string_compare(args: Seq<String>)
    requires
        args.len() == 3,
        args[0]@ != "!"@,
        args[0]@ != "("@,
    ensures
        args[1]@ == "="@ ==> test_value(args) == Some(args[0]@ == args[2]@),
        args[1]@ == "=="@ ==> test_value(args) == Some(args[0]@ == args[2]@),
        args[1]@ == "!="@ ==> test_value(args) == Some(args[0]@ != args[2]@),
{
    reveal_strlit("=");
    reveal_strlit("==");
    reveal_strlit("!=");
    reveal_strlit("-a");
    reveal_strlit("-o");
    let v = arg_views(args);
    assert(v[0] == args[0]@ && v[1] == args[1]@ && v[2] == args[2]@);
    if v[1] == "="@ || v[1] == "=="@ || v[1] == "!="@ {
        assert(is_str_compare(v[1]));
        assert(v[1] != "!="@ ==> v[1] == "="@ || v[1] == "=="@);
        let r = t_primary(v, 0);
        assert(r == (Some(str_compare(v[1], v[0], v[2])), 3int));
        assert(t_not(v, 0) == r);
        assert(t_and_rest(v, 3, r.0) == r);
        assert(t_and(v, 0) == r);
        assert(t_or_rest(v, 3, r.0) == r);
        assert(t_or(v, 0) == r);
        if v[1] == "!="@ {
            assert(v[1] != "="@ && v[1] != "=="@) by {
                assert(v[1].len() == 2 && v[1][0] == '!');
            }
        }
    }
}

/// `test -n s` holds when `s` is not empty, `test -z s` when it is (for an
/// `s` that is not itself a binary operator or a closing word).
pub proof fn law_test_string_length(args: Seq<String>)
    requires
        args.len() == 2,
        !ends_operand(args[1]@),
        !is_str_compare(args[1]@),
        !is_int_compare(args[1]@),
        !is_file_compare(args[1]@),
    ensures
        args[0]@ == "-n"@ ==> test_value(args) == Some(args[1]@.len() > 0),
        args[0]@ == "-z"@ ==> test_value(args) == Some(args[1]@.len() == 0),
{
    reveal_strlit("!");
    reveal_strlit("(");
    reveal_strlit("-n");
    reveal_strlit("-z");
    reveal_strlit("-a");
    reveal_strlit("-o");
    let v = arg_views(args);
    assert(v[0] == args[0]@ && v[1] == args[1]@);
    if v[0] == "-n"@ || v[0] == "-z"@ {
        assert(v[0] != "!"@ && v[0] != "("@) by {
            assert(v[0].len() == 2);
        }
        assert(v[0] == "-z"@ ==> v[0] != "-n"@) by {
            assert("-z"@[1] != "-n"@[1]);
        }
        let r = t_primary(v, 0);
        assert(r.1 == 2);
        assert(t_not(v, 0) == r);
        assert(t_and_rest(v, 2, r.0) == r);
        assert(t_and(v, 0) == r);
        assert(t_or_rest(v, 2, r.0) == r);
        assert(t_or(v, 0) == r);
    }
}

/// `test ! s` holds exactly when `s` is empty; `test x -a y` when both
/// words are non-empty, `test x -o y` when either is (for words that are
/// not themselves `!` or `(`).
pub proof fn law_test_connectives(args: Seq<String>)
    requires
        args.len() == 2 || args.len() == 3,
    ensures
        args.len() == 2 && args[0]@ == "!"@ && args[1]@ != "("@ ==> test_value(args) == Some(args[1]@.len() == 0),
        args.len() == 3 && args[1]@ == "-a"@ && args[0]@ != "!"@ && args[0]@ != "("@ && args[2]@ != "!"@
            && args[2]@ != "("@ ==> test_value(args) == Some(args[0]@.len() > 0 && args[2]@.len() > 0),
        args.len() == 3 && args[1]@ == "-o"@ && args[0]@ != "!"@ && args[0]@ != "("@ && args[2]@ != "!"@
            && args[2]@ != "("@ ==> test_value(args) == Some(args[0]@.len() > 0 || args[2]@.len() > 0),
{
    reveal_strlit("!");
    reveal_strlit("(");
    reveal_strlit("-a");
    reveal_strlit("-o");
    reveal_strlit("=");
    reveal_strlit("==");
    reveal_strlit("!=");
    reveal_strlit("<");
    reveal_strlit(">");
    reveal_strlit("-eq");
    reveal_strlit("-ne");
    reveal_strlit("-lt");
    reveal_strlit("-le");
    reveal_strlit("-gt");
    reveal_strlit("-ge");
    reveal_strlit("-nt");
    reveal_strlit("-ot");
    reveal_strlit("-ef");
    reveal_strlit(")");
    let v = arg_views(args);
    if args.len() == 2 && args[0]@ == "!"@ && args[1]@ != "("@ {
        assert(v[0] == args[0]@ && v[1] == args[1]@);
        let r = t_primary(v, 1);
        assert(r == (Some(v[1].len() > 0), 2int));
        assert(t_not(v, 0) == (Some(v[1].len() == 0), 2int));
        assert(t_and(v, 0) == t_not(v, 0));
        assert(t_or(v, 0) == t_not(v, 0));
    }
    if args.len() == 3 && (args[1]@ == "-a"@ || args[1]@ == "-o"@) && args[0]@ != "!"@ && args[0]@ != "("@
        && args[2]@ != "!"@ && args[2]@ != "("@ {
        assert(v[0] == args[0]@ && v[1] == args[1]@ && v[2] == args[2]@);
        assert(!is_str_compare(v[1]) && !is_int_compare(v[1]) && !is_file_compare(v[1]) && ends_operand(v[1])) by {
            assert(v[1].len() == 2 && v[1][0] == '-');
            assert("-eq"@.len() == 3);
        }
        let x = (Some(v[0].len() > 0), 1int);
        assert(t_primary(v, 0) == x);
        assert(t_not(v, 0) == x);
        let y = (Some(v[2].len() > 0), 3int);
        assert(t_primary(v, 2) == y);
        assert(t_not(v, 2) == y);
        assert(t_and_rest(v, 3, Some(v[0].len() > 0 && v[2].len() > 0)) == (Some(v[0].len() > 0 && v[2].len() > 0), 3int));
        if v[1] == "-a"@ {
            assert(t_and_rest(v, 1, x.0) == (Some(v[0].len() > 0 && v[2].len() > 0), 3int));
            assert(t_and(v, 0) == (Some(v[0].len() > 0 && v[2].len() > 0), 3int));
            assert(t_or(v, 0) == t_and(v, 0));
        } else {
            assert(v[1] != "-a"@) by {
                assert("-o"@[1] != "-a"@[1]);
            }
            assert(t_and(v, 0) == x);
            assert(t_and_rest(v, 3, y.0) == y);
            assert(t_and(v, 2) == y);
            assert(t_or_rest(v, 1, x.0) == (Some(v[0].len() > 0 || v[2].len() > 0), 3int));
        }
    }
}

/// The value of a `test` expression over `args`, when it does not depend
/// on the host.
pub open spec fn test_value(args: Seq<String>) -> Option<bool> {
    t_or(arg_views(args), 0).0
}

/// Evaluate a `test` expression: success when it holds, failure otherwise
/// (also for an empty argument list). Files are looked up through `host`,
/// relative to `cwd`.
pub fn test_eval(args: &Vec<String>, host: &mut Box<dyn Host>, cwd: &str) -> (r: ExitStatus)
    ensures
        args@.len() == 0 ==> r@ == 1,
        r@ == 0 || r@ == 1,
        args@.len() > 0 ==> (test_value(args@) matches Some(b) ==> r@ == (if b { 0i32 } else { 1i32 })),
{
    if args.len() == 0 {
        return ExitStatus::new(1);
    }
    let ev = TestEval { args, cwd };
    let mut pos: usize = 0;
    let result = ev.test_or(host, &mut pos);
    ExitStatus::from_bool(result)
}

} // verus!
