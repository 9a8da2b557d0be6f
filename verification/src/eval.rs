//! The evaluator: a POSIX shell instance and the evaluation of commands.

use vstd::prelude::*;

use crate::ast::{clone_command, clone_redirs, Assignment, CaseArm, Command, Program, Redir, Word};
use crate::encoding::{bytes_to_str, spec_bytes_to_str, spec_str_to_bytes, str_to_bytes};
use crate::shell_bytes::ShellBytes;
use crate::error::{ExitStatus, ShellError, Span};
use crate::host::{Host, NullHost};
use crate::parser::Parser;
use crate::text::{chars_of, str_eq, string_of};
use crate::var::Variables;

verus! {

/// Shell option flags (`set -e`, `set -u`, etc.).
#[derive(Debug, Clone, Copy)]
pub struct ShellOpts {
    /// -e: exit on error
    pub errexit: bool,
    /// -u: treat unset variables as an error
    pub nounset: bool,
    /// -x: print commands before execution
    pub xtrace: bool,
    /// -o pipefail: a pipeline fails with the highest nonzero status of its stages
    pub pipefail: bool,
    /// Interactive mode
    pub interactive: bool,
}

/// The `$-` flags of a set of options: `e`, `u`, `x`, `i`, in that order.
pub open spec fn spec_flags(o: ShellOpts) -> Seq<char> {
    (if o.errexit { seq!['e'] } else { Seq::empty() }) + (if o.nounset { seq!['u'] } else { Seq::empty() })
        + (if o.xtrace { seq!['x'] } else { Seq::empty() }) + (if o.interactive { seq!['i'] } else { Seq::empty() })
}

impl ShellOpts {
    /// The POSIX `$-` flags string (e.g. "eux").
    pub fn flags_string(&self) -> (r: String)
        ensures
            r@ == spec_flags(*self),
    {
        let mut cs: Vec<char> = Vec::new();
        if self.errexit {
            cs.push('e');
        }
        if self.nounset {
            cs.push('u');
        }
        if self.xtrace {
            cs.push('x');
        }
        if self.interactive {
            cs.push('i');
        }
        proof {
            assert(cs@ =~= spec_flags(*self));
        }
        string_of(&cs)
    }
}

impl Default for ShellOpts {
    fn default() -> (r: Self)
        ensures
            !r.errexit && !r.nounset && !r.xtrace && !r.pipefail && !r.interactive,
    {
        ShellOpts { errexit: false, nounset: false, xtrace: false, pipefail: false, interactive: false }
    }
}

/// The index of the last entry named `name`.
pub open spec fn last_index<V>(entries: Seq<(String, V)>, name: Seq<char>) -> Option<int>
    decreases entries.len(),
{
    if entries.len() == 0 {
        None
    } else if entries.last().0@ == name {
        Some(entries.len() - 1)
    } else {
        last_index(entries.drop_last(), name)
    }
}

proof fn lemma_last_index<V>(entries: Seq<(String, V)>, name: Seq<char>)
    ensures
        last_index(entries, name) matches Some(i) ==> 0 <= i < entries.len() && entries[i].0@ == name,
        last_index(entries, name) is None ==> forall|k: int| 0 <= k < entries.len() ==> #[trigger] entries[k].0@ != name,
    decreases entries.len(),
{
    if entries.len() > 0 {
        lemma_last_index(entries.drop_last(), name);
        if entries.last().0@ != name {
            assert forall|k: int| 0 <= k < entries.len() - 1 implies entries[k] == entries.drop_last()[k] by {}
        }
    }
}

/// The position of the last entry named `name`.
fn find_last<V>(entries: &Vec<(String, V)>, name: &str) -> (r: Option<usize>)
    ensures
        r matches Some(i) ==> last_index(entries@, name@) == Some(i as int),
        r is None ==> last_index(entries@, name@) is None,
{
    let mut i = entries.len();
    assert(entries@.take(i as int) =~= entries@);
    while i > 0
        invariant
            i <= entries@.len(),
            last_index(entries@, name@) == last_index(entries@.take(i as int), name@),
        decreases i,
    {
        assert(entries@.take(i as int).drop_last() =~= entries@.take(i - 1));
        if str_eq(entries[i - 1].0.as_str(), name) {
            return Some(i - 1);
        }
        i = i - 1;
    }
    assert(entries@.take(0) =~= Seq::<(String, V)>::empty());
    None
}

proof fn lemma_last_index_push<V>(entries: Seq<(String, V)>, e: (String, V), n: Seq<char>)
    ensures
        n == e.0@ ==> last_index(entries.push(e), n) == Some(entries.len() as int),
        n != e.0@ ==> last_index(entries.push(e), n) == last_index(entries, n),
{
    assert(entries.push(e).drop_last() =~= entries);
}

/// Trap handlers: signal name to command text. A removal is recorded as an
/// entry without an action; the newest entry of a name counts.
#[derive(Debug)]
pub struct Traps {
    pub entries: Vec<(String, Option<String>)>,
}

impl Traps {
    /// The action for `name`, if a trap is set.
    pub open spec fn lookup(&self, name: Seq<char>) -> Option<Seq<char>> {
        match last_index(self.entries@, name) {
            Some(i) => match self.entries@[i].1 {
                Some(a) => Some(a@),
                None => None,
            },
            None => None,
        }
    }

    pub fn new() -> (r: Self)
        ensures
            forall|n: Seq<char>| #[trigger] r.lookup(n) is None,
    {
        Traps { entries: Vec::new() }
    }

    /// The action set for `name`.
    pub fn get(&self, name: &str) -> (r: Option<&String>)
        ensures
            r matches Some(s) ==> self.lookup(name@) == Some(s@),
            r is None ==> self.lookup(name@) is None,
    {
        proof {
            lemma_last_index(self.entries@, name@);
        }
        match find_last(&self.entries, name) {
            Some(i) => match &self.entries[i].1 {
                Some(a) => Some(a),
                None => None,
            },
            None => None,
        }
    }

    /// True if a trap is set for `name`.
    pub fn contains_key(&self, name: &str) -> (r: bool)
        ensures
            r == self.lookup(name@) is Some,
    {
        self.get(name).is_some()
    }

    /// Set the action for `name`.
    pub fn insert(&mut self, name: String, action: String)
        ensures
            final(self).lookup(name@) == Some(action@),
            forall|n: Seq<char>| n != name@ ==> #[trigger] final(self).lookup(n) == old(self).lookup(n),
    {
        let ghost e = (name, Some(action));
        self.entries.push((name, Some(action)));
        proof {
            assert forall|n: Seq<char>| #[trigger] last_index(self.entries@, n) == if n == name@ {
                Some(old(self).entries@.len() as int)
            } else {
                last_index(old(self).entries@, n)
            } by {
                lemma_last_index_push(old(self).entries@, e, n);
                lemma_last_index(old(self).entries@, n);
            }
            assert forall|n: Seq<char>| n != name@ implies #[trigger] self.lookup(n) == old(self).lookup(n) by {
                lemma_last_index(old(self).entries@, n);
                if let Some(i) = last_index(old(self).entries@, n) {
                    assert(self.entries@[i] == old(self).entries@[i]);
                }
            }
        }
    }

    /// Remove the trap for `name`, returning its action.
    pub fn remove(&mut self, name: &str) -> (r: Option<String>)
        ensures
            final(self).lookup(name@) is None,
            r matches Some(s) ==> old(self).lookup(name@) == Some(s@),
            r is None ==> old(self).lookup(name@) is None,
            forall|n: Seq<char>| n != name@ ==> #[trigger] final(self).lookup(n) == old(self).lookup(n),
    {
        let found = match self.get(name) {
            Some(s) => Some(s.clone()),
            None => None,
        };
        let key = name.to_owned();
        assert(key@ == name@);
        self.entries.push((key, None));
        proof {
            assert forall|n: Seq<char>| #[trigger] last_index(self.entries@, n) == if n == name@ {
                Some(old(self).entries@.len() as int)
            } else {
                last_index(old(self).entries@, n)
            } by {
                lemma_last_index_push(old(self).entries@, self.entries@.last(), n);
                assert(self.entries@ == old(self).entries@.push(self.entries@.last()));
            }
            assert forall|n: Seq<char>| n != name@ implies #[trigger] self.lookup(n) == old(self).lookup(n) by {
                lemma_last_index(old(self).entries@, n);
                if let Some(i) = last_index(old(self).entries@, n) {
                    assert(self.entries@[i] == old(self).entries@[i]);
                }
            }
        }
        found
    }

    /// The traps that are set, as (signal, action) pairs, in the order they
    /// were last set.
    pub fn iter_pairs(&self) -> (r: Vec<(String, String)>)
        ensures
            pair_texts(r@) == live_traps(self.entries@, self.entries@.len() as int),
    {
        let mut out: Vec<(String, String)> = Vec::new();
        let mut i: usize = 0;
        while i < self.entries.len()
            invariant
                i <= self.entries@.len(),
                pair_texts(out@) == live_traps(self.entries@, i as int),
            decreases self.entries.len() - i,
        {
            let name = &self.entries[i].0;
            if find_last(&self.entries, name.as_str()) == Some(i) {
                match &self.entries[i].1 {
                    Some(a) => {
                        let p = (name.clone(), a.clone());
                        proof {
                            assert(pair_texts(out@.push(p)) =~= pair_texts(out@).push((p.0@, p.1@)));
                        }
                        out.push(p);
                    },
                    None => {},
                }
            }
            i += 1;
        }
        out
    }
}

/// The pairs as strings.
pub open spec fn pair_texts(v: Seq<(String, String)>) -> Seq<(Seq<char>, Seq<char>)> {
    v.map_values(|p: (String, String)| (p.0@, p.1@))
}

/// The set traps among `entries[..n]`: each name at its newest entry, when
/// that entry holds an action.
pub open spec fn live_traps(entries: Seq<(String, Option<String>)>, n: int) -> Seq<(Seq<char>, Seq<char>)>
    decreases n,
{
    if n <= 0 || n > entries.len() {
        Seq::empty()
    } else {
        let rest = live_traps(entries, n - 1);
        let e = entries[n - 1];
        if last_index(entries, e.0@) == Some(n - 1) && e.1 is Some {
            rest.push((e.0@, e.1.unwrap()@))
        } else {
            rest
        }
    }
}

/// Function definitions: name to body. A removal is recorded as an entry
/// without a body; the newest entry of a name counts.
#[derive(Debug)]
pub struct Functions {
    pub entries: Vec<(String, Option<Command>)>,
}

impl Functions {
    /// True if a function named `name` is defined.
    pub open spec fn defined(&self, name: Seq<char>) -> bool {
        match last_index(self.entries@, name) {
            Some(i) => self.entries@[i].1 is Some,
            None => false,
        }
    }

    pub fn new() -> (r: Self)
        ensures
            forall|n: Seq<char>| !#[trigger] r.defined(n),
    {
        Functions { entries: Vec::new() }
    }

    /// The body of function `name`.
    pub fn get(&self, name: &str) -> (r: Option<&Command>)
        ensures
            r is Some == self.defined(name@),
    {
        proof {
            lemma_last_index(self.entries@, name@);
        }
        match find_last(&self.entries, name) {
            Some(i) => match &self.entries[i].1 {
                Some(c) => Some(c),
                None => None,
            },
            None => None,
        }
    }

    /// True if function `name` is defined.
    pub fn contains_key(&self, name: &str) -> (r: bool)
        ensures
            r == self.defined(name@),
    {
        self.get(name).is_some()
    }

    /// Define (or redefine) function `name`.
    pub fn insert(&mut self, name: String, body: Command)
        ensures
            final(self).defined(name@),
            forall|n: Seq<char>| n != name@ ==> #[trigger] final(self).defined(n) == old(self).defined(n),
    {
        let ghost k = name@;
        self.entries.push((name, Some(body)));
        proof {
            assert forall|n: Seq<char>| #[trigger] last_index(self.entries@, n) == if n == k {
                Some(old(self).entries@.len() as int)
            } else {
                last_index(old(self).entries@, n)
            } by {
                lemma_last_index_push(old(self).entries@, self.entries@.last(), n);
                assert(self.entries@ == old(self).entries@.push(self.entries@.last()));
            }
            assert forall|n: Seq<char>| n != k implies #[trigger] self.defined(n) == old(self).defined(n) by {
                lemma_last_index(old(self).entries@, n);
                if let Some(i) = last_index(old(self).entries@, n) {
                    assert(self.entries@[i] == old(self).entries@[i]);
                }
            }
        }
    }

    /// Remove the definition of `name`.
    pub fn remove(&mut self, name: &str)
        ensures
            !final(self).defined(name@),
            forall|n: Seq<char>| n != name@ ==> #[trigger] final(self).defined(n) == old(self).defined(n),
    {
        let key = name.to_owned();
        self.entries.push((key, None));
        proof {
            assert forall|n: Seq<char>| #[trigger] last_index(self.entries@, n) == if n == name@ {
                Some(old(self).entries@.len() as int)
            } else {
                last_index(old(self).entries@, n)
            } by {
                lemma_last_index_push(old(self).entries@, self.entries@.last(), n);
                assert(self.entries@ == old(self).entries@.push(self.entries@.last()));
            }
            assert forall|n: Seq<char>| n != name@ implies #[trigger] self.defined(n) == old(self).defined(n) by {
                lemma_last_index(old(self).entries@, n);
                if let Some(i) = last_index(old(self).entries@, n) {
                    assert(self.entries@[i] == old(self).entries@[i]);
                }
            }
        }
    }

    /// A copy of the table.
    pub fn duplicate(&self) -> (r: Functions)
        ensures
            forall|n: Seq<char>| #[trigger] r.defined(n) == self.defined(n),
    {
        let mut out: Vec<(String, Option<Command>)> = Vec::new();
        let mut i: usize = 0;
        while i < self.entries.len()
            invariant
                i <= self.entries@.len(),
                out@.len() == i,
                forall|k: int| 0 <= k < i ==> (#[trigger] out@[k]).0@ == self.entries@[k].0@
                    && out@[k].1 is Some == self.entries@[k].1 is Some,
            decreases self.entries.len() - i,
        {
            let body = match &self.entries[i].1 {
                Some(c) => Some(clone_command(c)),
                None => None,
            };
            out.push((self.entries[i].0.clone(), body));
            i += 1;
        }
        proof {
            assert forall|n: Seq<char>| #[trigger] last_index(out@, n) == last_index(self.entries@, n) by {
                lemma_same_names(out@, self.entries@, n);
            }
            assert forall|n: Seq<char>| #[trigger] (Functions { entries: out }).defined(n) == self.defined(n) by {
                lemma_last_index(self.entries@, n);
            }
        }
        Functions { entries: out }
    }
}

proof fn lemma_same_names<V, W>(a: Seq<(String, V)>, b: Seq<(String, W)>, n: Seq<char>)
    requires
        a.len() == b.len(),
        forall|k: int| 0 <= k < a.len() ==> (#[trigger] a[k]).0@ == b[k].0@,
    ensures
        last_index(a, n) == last_index(b, n),
    decreases a.len(),
{
    if a.len() > 0 {
        assert forall|k: int| 0 <= k < a.drop_last().len() implies (#[trigger] a.drop_last()[k]).0@ == b.drop_last()[k].0@ by {
            assert(a.drop_last()[k] == a[k]);
            assert(b.drop_last()[k] == b[k]);
        }
        lemma_same_names(a.drop_last(), b.drop_last(), n);
    }
}

/// Where a file descriptor of the shell leads.
#[derive(Debug)]
pub enum Fd {
    /// The shell's standard output.
    Stdout,
    /// The shell's standard error.
    Stderr,
    /// A capture buffer (command substitution, pipeline stage).
    Capture(usize),
    /// A file, appended to on each write.
    File(String),
    /// An input stream of the shell's input table.
    Reader(usize),
    /// The shell's own standard input.
    HostStdin,
    /// A closed descriptor.
    Closed,
}

/// A copy of a descriptor's target.
pub fn clone_fd(f: &Fd) -> (r: Fd)
    ensures
        r == *f,
{
    match f {
        Fd::Stdout => Fd::Stdout,
        Fd::Stderr => Fd::Stderr,
        Fd::Capture(i) => Fd::Capture(*i),
        Fd::File(p) => Fd::File(p.clone()),
        Fd::Reader(i) => Fd::Reader(*i),
        Fd::HostStdin => Fd::HostStdin,
        Fd::Closed => Fd::Closed,
    }
}

/// A copy of a descriptor table.
pub fn clone_fds(fds: &Vec<Fd>) -> (r: Vec<Fd>)
    ensures
        r@ == fds@,
{
    let mut out: Vec<Fd> = Vec::new();
    let mut i: usize = 0;
    while i < fds.len()
        invariant
            i <= fds@.len(),
            out@ == fds@.take(i as int),
        decreases fds.len() - i,
    {
        out.push(clone_fd(&fds[i]));
        assert(fds@.take(i + 1) =~= fds@.take(i as int).push(fds@[i as int]));
        i += 1;
    }
    assert(fds@.take(fds@.len() as int) =~= fds@);
    out
}

/// The descriptor table of a new shell: 0 is the shell's standard input,
/// 1 its standard output, 2 its standard error, 3 to 9 closed.
pub open spec fn initial_fds_view() -> Seq<Fd> {
    seq![
        Fd::HostStdin,
        Fd::Stdout,
        Fd::Stderr,
        Fd::Closed,
        Fd::Closed,
        Fd::Closed,
        Fd::Closed,
        Fd::Closed,
        Fd::Closed,
        Fd::Closed,
    ]
}

/// The descriptor table of a new shell: 0 is the shell's standard input,
/// 1 its standard output, 2 its standard error, 3 to 9 closed.
pub fn initial_fds() -> (r: Vec<Fd>)
    ensures
        r@.len() == 10,
        r@[0] == Fd::HostStdin,
        r@[1] == Fd::Stdout,
        r@[2] == Fd::Stderr,
        forall|k: int| 3 <= k < 10 ==> r@[k] == Fd::Closed,
{
    let mut v: Vec<Fd> = Vec::new();
    v.push(Fd::HostStdin);
    v.push(Fd::Stdout);
    v.push(Fd::Stderr);
    let mut i: usize = 3;
    while i < 10
        invariant
            3 <= i <= 10,
            v@.len() == i,
            v@[0] == Fd::HostStdin,
            v@[1] == Fd::Stdout,
            v@[2] == Fd::Stderr,
            forall|k: int| 3 <= k < i ==> v@[k] == Fd::Closed,
        decreases 10 - i,
    {
        v.push(Fd::Closed);
        i += 1;
    }
    v
}

/// A POSIX shell interpreter instance.
///
/// Each `Shell` keeps its own variables, working directory, functions and
/// options. Everything it does to the system goes through its `Host`; what
/// it writes to its standard output and error collects in `stdout_buf` and
/// `stderr_buf`.
pub struct Shell {
    pub vars: Variables,
    /// Defined functions: name to body
    pub functions: Functions,
    /// Last command's exit status ($?)
    pub exit_status: ExitStatus,
    /// Shell's PID ($$)
    pub pid: u32,
    /// Working directory; relative paths resolve against it
    pub cwd: String,
    /// Number of enclosing loops (for break/continue)
    pub loop_depth: usize,
    pub opts: ShellOpts,
    /// Trap handlers: signal name to command text
    pub traps: Traps,
    /// True while evaluating a condition (if, while, && and || operands):
    /// `set -e` does not apply there.
    pub tested: bool,
    /// The system the shell runs on.
    pub host: Box<dyn Host>,
    /// PID of the last background command ($!).
    pub last_bg_pid: Option<u32>,
    /// Evaluation steps left; evaluation stops with `Cancelled` at zero.
    pub fuel: u64,
    /// Whether the host's cancel flag is consulted.
    pub watch_cancel: bool,
    /// The host-clock time (ms) after which evaluation stops with
    /// `TimedOut`.
    pub deadline_ms: Option<u64>,
    /// Descriptors 0 to 9.
    pub fds: Vec<Fd>,
    /// Open capture buffers.
    pub captures: Vec<Vec<u8>>,
    /// Input streams (here-documents, redirected files, pipeline input):
    /// the data and the position of the next byte to read.
    pub inputs: Vec<(Vec<u8>, usize)>,
    /// The input stream holding the shell's own standard input, once read.
    pub stdin_index: Option<usize>,
    /// What the shell wrote to its standard output.
    pub stdout_buf: Vec<u8>,
    /// What the shell wrote to its standard error.
    pub stderr_buf: Vec<u8>,
    /// False when command substitutions expand to nothing.
    pub subst_enabled: bool,
}

/// Parameters that name no variable: `@ * # ? - $ ! 0` and single digits.
pub open spec fn spec_is_special_param(name: Seq<char>) -> bool {
    name.len() == 1 && (name[0] == '@' || name[0] == '*' || name[0] == '#' || name[0] == '?'
        || name[0] == '-' || name[0] == '$' || name[0] == '!' || ('0' <= name[0] && name[0] <= '9'))
}

/// True if `name` is a special parameter.
pub fn is_special_param(name: &str) -> (r: bool)
    ensures
        r == spec_is_special_param(name@),
{
    let cs = chars_of(name);
    if cs.len() != 1 {
        return false;
    }
    let c = cs[0];
    c == '@' || c == '*' || c == '#' || c == '?' || c == '-' || c == '$' || c == '!' || ('0' <= c && c <= '9')
}

/// `s` without its trailing newlines.
pub fn strip_trailing_newlines(s: &str) -> (r: String)
    ensures
        r@.len() <= s@.len(),
        r@ == s@.subrange(0, r@.len() as int),
        r@.len() > 0 ==> r@.last() != '\n',
        forall|k: int| r@.len() <= k < s@.len() ==> s@[k] == '\n',
{
    let cs = chars_of(s);
    let mut n = cs.len();
    while n > 0 && cs[n - 1] == '\n'
        invariant
            n <= cs@.len(),
            cs@ == s@,
            forall|k: int| n <= k < cs@.len() ==> cs@[k] == '\n',
        decreases n,
    {
        n -= 1;
    }
    string_of(&crate::lexer::slice_chars(&cs, 0, n))
}

/// A command whose failure `set -e` acts on: a simple command, a pipeline
/// without `!`, a subshell or a background command.
pub open spec fn is_leaf_command(c: Command) -> bool {
    match c {
        Command::Simple { .. } => true,
        Command::Pipeline { bang, .. } => !bang,
        Command::Subshell { .. } => true,
        Command::Background { .. } => true,
        _ => false,
    }
}

/// A message as one line: a newline is added unless it ends with one.
pub open spec fn line_text(msg: Seq<char>) -> Seq<char> {
    if msg.len() == 0 || msg.last() != '\n' {
        msg.push('\n')
    } else {
        msg
    }
}

impl Shell {
    /// The shell invariant: a sound variable store and at least the
    /// descriptors 0 to 9.
    pub open spec fn wf(&self) -> bool {
        &&& self.vars.wf()
        &&& self.fds@.len() >= 10
    }

    /// A shell running on `host`, with no inherited environment.
    pub fn with_host(host: Box<dyn Host>) -> (r: Shell)
        ensures
            r.wf(),
            r.exit_status@ == 0,
            r.vars.depth() == 0,
            r.fuel == u64::MAX,
            r.cwd@.len() == 0,
            r.loop_depth == 0,
            !r.opts.errexit && !r.opts.nounset && !r.opts.xtrace && !r.opts.pipefail && !r.opts.interactive,
            !r.tested,
            r.last_bg_pid is None,
            r.fds@ == initial_fds_view(),
            r.captures@.len() == 0,
            r.inputs@.len() == 0,
            r.stdin_index is None,
            r.stdout_buf@.len() == 0,
            r.stderr_buf@.len() == 0,
            r.subst_enabled,
            r.vars.params().len() == 0,
            forall|n: Seq<char>| #[trigger] r.functions.defined(n) == false,
            forall|n: Seq<char>| #[trigger] r.traps.lookup(n) is None,
            r.unwatched(),
            forall|n: Seq<char>| n != seq!['I', 'F', 'S'] ==> #[trigger] r.vars.lookup(n) is None,
            forall|n: Seq<char>| !#[trigger] r.vars.readonly(n),
    {
        let mut host = host;
        let pid = host.pid();
        let mut vars = Variables::new();
        let cwd = String::new();
        Shell {
            vars,
            functions: Functions::new(),
            exit_status: ExitStatus::new(0),
            pid,
            cwd,
            loop_depth: 0,
            opts: ShellOpts::default(),
            traps: Traps::new(),
            tested: false,
            host,
            last_bg_pid: None,
            fuel: u64::MAX,
            watch_cancel: false,
            deadline_ms: None,
            fds: initial_fds(),
            captures: Vec::new(),
            inputs: Vec::new(),
            stdin_index: None,
            stdout_buf: Vec::new(),
            stderr_buf: Vec::new(),
            subst_enabled: true,
        }
    }

    /// The options, the traps, the condition flag and the stopping
    /// conditions are those of `old`.
    pub open spec fn same_settings(&self, old: &Shell) -> bool {
        &&& self.opts == old.opts
        &&& self.traps == old.traps
        &&& self.tested == old.tested
        &&& self.watch_cancel == old.watch_cancel
        &&& self.deadline_ms == old.deadline_ms
    }

    /// Neither a cancel flag nor a deadline is watched.
    pub open spec fn unwatched(&self) -> bool {
        !self.watch_cancel && self.deadline_ms is None
    }

    /// Whether evaluation must stop, given the cancel flag's value and the
    /// host clock: `Cancelled` when the flag is set, `TimedOut` when the
    /// deadline has passed.
    pub fn check_cancel(&self, cancelled: bool, now_ms: u64) -> (r: Result<(), ShellError>)
        ensures
            cancelled ==> r == Err::<(), ShellError>(ShellError::Cancelled),
            !cancelled && (self.deadline_ms matches Some(d) && now_ms >= d) ==> r == Err::<(), ShellError>(
                ShellError::TimedOut,
            ),
            !cancelled && !(self.deadline_ms matches Some(d) && now_ms >= d) ==> r is Ok,
    {
        if cancelled {
            return Err(ShellError::Cancelled);
        }
        match self.deadline_ms {
            Some(d) => if now_ms >= d {
                Err(ShellError::TimedOut)
            } else {
                Ok(())
            },
            None => Ok(()),
        }
    }

    /// Ask the host for the cancel flag (when one is watched) and the clock
    /// (when there is a deadline), and stop as `check_cancel` decides.
    pub fn poll_cancel(&mut self) -> (r: Result<(), ShellError>)
        requires
            old(self).wf(),
        ensures
            final(self).wf(),
            final(self).fuel == old(self).fuel,
            final(self).vars == old(self).vars,
            final(self).exit_status == old(self).exit_status,
            final(self).opts == old(self).opts,
            final(self).pid == old(self).pid,
            final(self).last_bg_pid == old(self).last_bg_pid,
            final(self).fds@ == old(self).fds@,
            final(self).inputs@ == old(self).inputs@,
            final(self).cwd@ == old(self).cwd@,
            final(self).functions == old(self).functions,
            final(self).tested == old(self).tested,
            final(self).traps == old(self).traps,
            final(self).subst_enabled == old(self).subst_enabled,
            final(self).watch_cancel == old(self).watch_cancel,
            final(self).deadline_ms == old(self).deadline_ms,
            final(self).loop_depth == old(self).loop_depth,
            old(self).unwatched() ==> r is Ok,
            r is Err ==> r == Err::<(), ShellError>(ShellError::Cancelled) || r == Err::<(), ShellError>(
                ShellError::TimedOut,
            ),
    {
        if self.unwatched_now() {
            return Ok(());
        }
        let cancelled = if self.watch_cancel {
            self.host.cancel_requested()
        } else {
            false
        };
        let now: u64 = if self.deadline_ms.is_some() {
            self.host.now_ms()
        } else {
            0
        };
        self.check_cancel(cancelled, now)
    }

    fn unwatched_now(&self) -> (r: bool)
        ensures
            r == self.unwatched(),
    {
        !self.watch_cancel && self.deadline_ms.is_none()
    }

    /// Watch the host's cancel flag (or stop watching it).
    pub fn set_cancel_flag(&mut self, on: bool)
        ensures
            final(self).watch_cancel == on,
            final(self).deadline_ms == old(self).deadline_ms,
            final(self).vars == old(self).vars,
            final(self).fuel == old(self).fuel,
            final(self).fds@ == old(self).fds@,
    {
        self.watch_cancel = on;
    }

    /// Stop evaluation with `TimedOut` once `ms` milliseconds of the host
    /// clock have passed from now.
    pub fn set_timeout(&mut self, ms: u64)
        requires
            old(self).wf(),
        ensures
            final(self).wf(),
            final(self).deadline_ms is Some,
            final(self).watch_cancel == old(self).watch_cancel,
            final(self).vars == old(self).vars,
            final(self).fuel == old(self).fuel,
            final(self).fds@ == old(self).fds@,
    {
        let now = self.host.now_ms();
        self.deadline_ms = Some(deadline_after(now, ms));
    }

    /// A shell with no programs, no files and no environment (see
    /// `NullHost`).
    pub fn new() -> (r: Shell)
        ensures
            r.wf(),
            r.exit_status@ == 0,
            r.vars.depth() == 0,
            r.fuel == u64::MAX,
            !r.opts.errexit && !r.opts.nounset && !r.opts.xtrace && !r.opts.pipefail && !r.opts.interactive,
            r.last_bg_pid is None,
            r.unwatched(),
    {
        Shell::with_host(Box::new(NullHost))
    }

    /// Start configuring a shell.
    pub fn builder() -> (r: ShellBuilder)
        ensures
            r.cwd is None,
            !r.errexit && !r.nounset && !r.xtrace && !r.pipefail && !r.interactive && !r.env_clear,
            r.host is None,
    {
        ShellBuilder::new()
    }

    /// Spend one evaluation step.
    pub fn tick(&mut self) -> (r: Result<(), ShellError>)
        requires
            old(self).wf(),
        ensures
            final(self).wf(),
            r is Ok ==> final(self).fuel < old(self).fuel,
            final(self).fuel <= old(self).fuel,
            final(self).vars == old(self).vars,
            final(self).exit_status == old(self).exit_status,
            final(self).opts == old(self).opts,
            final(self).pid == old(self).pid,
            final(self).last_bg_pid == old(self).last_bg_pid,
            final(self).fds@ == old(self).fds@,
            final(self).inputs@ == old(self).inputs@,
            final(self).cwd@ == old(self).cwd@,
            final(self).functions == old(self).functions,
            final(self).tested == old(self).tested,
            final(self).traps == old(self).traps,
            final(self).subst_enabled == old(self).subst_enabled,
            r is Err ==> r == Err::<(), ShellError>(ShellError::Cancelled) && *final(self) == *old(self),
            final(self).watch_cancel == old(self).watch_cancel,
            final(self).deadline_ms == old(self).deadline_ms,
            final(self).loop_depth == old(self).loop_depth,
            r is Ok <==> old(self).fuel > 0,
            r is Ok ==> final(self).fuel == old(self).fuel - 1,
    {
        if self.fuel == 0 {
            return Err(ShellError::Cancelled);
        }
        self.fuel = self.fuel - 1;
        Ok(())
    }

    pub fn vars(&self) -> (r: &Variables)
        ensures
            *r == self.vars,
    {
        &self.vars
    }

    pub fn vars_mut(&mut self) -> (r: &mut Variables)
        ensures
            *r == old(self).vars,
    {
        &mut self.vars
    }

    pub fn functions(&self) -> (r: &Functions)
        ensures
            *r == self.functions,
    {
        &self.functions
    }

    pub fn exit_status(&self) -> (r: ExitStatus)
        ensures
            r == self.exit_status,
    {
        self.exit_status
    }

    pub fn pid(&self) -> (r: u32)
        ensures
            r == self.pid,
    {
        self.pid
    }

    pub fn cwd(&self) -> (r: &str)
        ensures
            r@ == self.cwd@,
    {
        self.cwd.as_str()
    }

    pub fn opts(&self) -> (r: &ShellOpts)
        ensures
            *r == self.opts,
    {
        &self.opts
    }

    pub fn opts_mut(&mut self) -> (r: &mut ShellOpts)
        ensures
            *r == old(self).opts,
    {
        &mut self.opts
    }

    pub fn traps(&self) -> (r: &Traps)
        ensures
            *r == self.traps,
    {
        &self.traps
    }

    /// Replace the host.
    pub fn set_external_handler(&mut self, host: Box<dyn Host>)
        requires
            old(self).wf(),
        ensures
            final(self).wf(),
            final(self).vars == old(self).vars,
            final(self).functions == old(self).functions,
            final(self).fds == old(self).fds,
            final(self).cwd == old(self).cwd,
            final(self).opts == old(self).opts,
            final(self).fuel == old(self).fuel,
            final(self).exit_status == old(self).exit_status,
    {
        self.host = host;
    }

    pub fn set_cwd(&mut self, dir: String)
        ensures
            final(self).cwd@ == dir@,
            final(self).vars == old(self).vars,
            final(self).fds@.len() == old(self).fds@.len(),
            final(self).fds@ == old(self).fds@,
            final(self).functions == old(self).functions,
            final(self).opts == old(self).opts,
            final(self).traps == old(self).traps,
            final(self).exit_status == old(self).exit_status,
            final(self).fuel == old(self).fuel,
            final(self).inputs@ == old(self).inputs@,
    {
        self.cwd = dir;
    }

    /// Resolve a path against the shell's working directory: absolute paths
    /// as they are, relative ones below it.
    pub fn resolve_path(&self, p: &str) -> (r: String)
        ensures
            r@ == crate::test_cmd::spec_resolve(self.cwd@, p@),
    {
        crate::test_cmd::resolve(self.cwd.as_str(), p)
    }

    /// What the shell has written to its standard output so far; the buffer
    /// is emptied.
    pub fn take_stdout(&mut self) -> (r: Vec<u8>)
        ensures
            r@ == old(self).stdout_buf@,
            final(self).stdout_buf@.len() == 0,
            final(self).vars == old(self).vars,
            final(self).fds@.len() == old(self).fds@.len(),
    {
        let mut out: Vec<u8> = Vec::new();
        std::mem::swap(&mut out, &mut self.stdout_buf);
        out
    }

    /// What the shell has written to its standard error so far; the buffer
    /// is emptied.
    pub fn take_stderr(&mut self) -> (r: Vec<u8>)
        ensures
            r@ == old(self).stderr_buf@,
            final(self).stderr_buf@.len() == 0,
            final(self).vars == old(self).vars,
            final(self).fds@.len() == old(self).fds@.len(),
    {
        let mut out: Vec<u8> = Vec::new();
        std::mem::swap(&mut out, &mut self.stderr_buf);
        out
    }

    /// `after` is `before` with `data` written to descriptor `fd`: appended
    /// to the shell's output or error buffer or to an open capture buffer
    /// (a file's contents are the host's); nothing else of the shell changes.
    pub open spec fn wrote(after: Shell, before: Shell, fd: int, data: Seq<u8>) -> bool {
        &&& after.fds@ == before.fds@
        &&& after.inputs@ == before.inputs@
        &&& after.cwd@ == before.cwd@
        &&& match before.fds@[fd] {
            Fd::Stdout => after.stdout_buf@ == before.stdout_buf@ + data && after.stderr_buf@
                == before.stderr_buf@ && after.captures@ == before.captures@,
            Fd::Stderr => after.stderr_buf@ == before.stderr_buf@ + data && after.stdout_buf@
                == before.stdout_buf@ && after.captures@ == before.captures@,
            Fd::Capture(i) => {
                &&& after.stdout_buf@ == before.stdout_buf@
                &&& after.stderr_buf@ == before.stderr_buf@
                &&& after.captures@.len() == before.captures@.len()
                &&& i < before.captures@.len() ==> after.captures@[i as int]@ == before.captures@[i as int]@ + data
                &&& forall|k: int| 0 <= k < before.captures@.len() && k != i ==> #[trigger] after.captures@[k]
                    == before.captures@[k]
            },
            _ => after.stdout_buf@ == before.stdout_buf@ && after.stderr_buf@ == before.stderr_buf@
                && after.captures@ == before.captures@,
        }
    }

    /// Writing nothing changes nothing.
    pub proof fn lemma_wrote_nothing(a: Shell, fd: int)
        ensures
            Shell::wrote(a, a, fd, Seq::empty()),
    {
        assert(a.stdout_buf@ + Seq::<u8>::empty() =~= a.stdout_buf@);
        assert(a.stderr_buf@ + Seq::<u8>::empty() =~= a.stderr_buf@);
        if let Fd::Capture(i) = a.fds@[fd] {
            if i < a.captures@.len() {
                assert(a.captures@[i as int]@ + Seq::<u8>::empty() =~= a.captures@[i as int]@);
            }
        }
    }

    /// Two writes to one descriptor write the two texts in turn.
    pub proof fn lemma_wrote_twice(a: Shell, b: Shell, c: Shell, fd: int, x: Seq<u8>, y: Seq<u8>)
        requires
            Shell::wrote(b, a, fd, x),
            Shell::wrote(c, b, fd, y),
        ensures
            Shell::wrote(c, a, fd, x + y),
    {
        assert(a.stdout_buf@ + x + y =~= a.stdout_buf@ + (x + y));
        assert(a.stderr_buf@ + x + y =~= a.stderr_buf@ + (x + y));
        if let Fd::Capture(i) = a.fds@[fd] {
            if i < a.captures@.len() {
                assert(a.captures@[i as int]@ + x + y =~= a.captures@[i as int]@ + (x + y));
            }
        }
    }

    /// Write bytes to descriptor `fd`.
    pub fn write_fd(&mut self, fd: usize, data: &Vec<u8>)
        requires
            old(self).wf(),
            fd < old(self).fds@.len(),
        ensures
            final(self).wf(),
            final(self).vars == old(self).vars,
            final(self).fuel == old(self).fuel,
            final(self).exit_status == old(self).exit_status,
            final(self).opts == old(self).opts,
            final(self).same_settings(&*old(self)),
            final(self).traps == old(self).traps,
            Shell::wrote(*final(self), *old(self), fd as int, data@),
    {
        let target: u8 = match &self.fds[fd] {
            Fd::Stdout => 1,
            Fd::Stderr => 2,
            Fd::Capture(_) => 3,
            Fd::File(_) => 4,
            _ => 0,
        };
        if target == 1 {
            append_bytes(&mut self.stdout_buf, data);
        } else if target == 2 {
            append_bytes(&mut self.stderr_buf, data);
        } else if target == 3 {
            let idx = match &self.fds[fd] {
                Fd::Capture(i) => *i,
                _ => usize::MAX,
            };
            if idx < self.captures.len() {
                let mut buf: Vec<u8> = Vec::new();
                std::mem::swap(&mut buf, &mut self.captures[idx]);
                append_bytes(&mut buf, data);
                self.captures.set(idx, buf);
            }
        } else if target == 4 {
            let path = match &self.fds[fd] {
                Fd::File(p) => p.clone(),
                _ => String::new(),
            };
            let _ = self.host.write_file(&path, data, true);
        }
    }

    /// Write shell text to standard output (descriptor 1).
    pub fn write_out(&mut self, s: &str)
        requires
            old(self).wf(),
        ensures
            final(self).wf(),
            final(self).vars == old(self).vars,
            final(self).fuel == old(self).fuel,
            final(self).exit_status == old(self).exit_status,
            final(self).opts == old(self).opts,
            final(self).same_settings(&*old(self)),
            final(self).traps == old(self).traps,
            Shell::wrote(*final(self), *old(self), 1, spec_str_to_bytes(s@)),
    {
        let data = str_to_bytes(s);
        self.write_fd(1, &data);
    }

    /// Write shell text to standard error (descriptor 2).
    pub fn write_err(&mut self, s: &str)
        requires
            old(self).wf(),
        ensures
            final(self).wf(),
            final(self).vars == old(self).vars,
            final(self).fuel == old(self).fuel,
            final(self).exit_status == old(self).exit_status,
            final(self).opts == old(self).opts,
            final(self).same_settings(&*old(self)),
            final(self).traps == old(self).traps,
            Shell::wrote(*final(self), *old(self), 2, spec_str_to_bytes(s@)),
    {
        let data = str_to_bytes(s);
        self.write_fd(2, &data);
    }

    /// Write an error message, ending it with a newline.
    pub fn err_msg(&mut self, msg: &str)
        requires
            old(self).wf(),
        ensures
            final(self).wf(),
            final(self).vars == old(self).vars,
            final(self).fuel == old(self).fuel,
            final(self).exit_status == old(self).exit_status,
            final(self).opts == old(self).opts,
            final(self).same_settings(&*old(self)),
            final(self).traps == old(self).traps,
            Shell::wrote(*final(self), *old(self), 2, spec_str_to_bytes(line_text(msg@))),
    {
        let ghost s0 = *self;
        self.write_err(msg);
        let ghost s1 = *self;
        let cs = chars_of(msg);
        proof {
            reveal_strlit("\n");
            assert("\n"@ =~= seq!['\n']);
        }
        if cs.len() == 0 || cs[cs.len() - 1] != '\n' {
            self.write_err("\n");
            proof {
                Shell::lemma_wrote_twice(s0, s1, *self, 2, spec_str_to_bytes(msg@), spec_str_to_bytes("\n"@));
                crate::encoding::lemma_str_to_bytes_concat(msg@, seq!['\n']);
                assert(msg@.push('\n') =~= msg@ + seq!['\n']);
            }
        }
    }

    /// Write "epsh: " and an error's message to standard error.
    pub fn report_error(&mut self, e: &ShellError)
        requires
            old(self).wf(),
        ensures
            final(self).wf(),
            final(self).vars == old(self).vars,
            final(self).fuel == old(self).fuel,
            final(self).exit_status == old(self).exit_status,
            final(self).opts == old(self).opts,
            final(self).same_settings(&*old(self)),
            final(self).traps == old(self).traps,
            Shell::wrote(*final(self), *old(self), 2, spec_str_to_bytes(line_text("epsh: "@ + crate::error::spec_message(*e)))),
    {
        let mut m = "epsh: ".to_owned();
        m.append(e.message().as_str());
        self.err_msg(m.as_str());
    }

    /// Add an input stream holding `data`; returns its index.
    pub fn new_input(&mut self, data: Vec<u8>) -> (r: usize)
        requires
            old(self).wf(),
        ensures
            final(self).wf(),
            final(self).watch_cancel == old(self).watch_cancel && final(self).deadline_ms == old(self).deadline_ms,
            final(self).vars == old(self).vars,
            final(self).fuel == old(self).fuel,
            final(self).exit_status == old(self).exit_status,
            final(self).opts == old(self).opts,
            final(self).fds@ == old(self).fds@,
            final(self).cwd@ == old(self).cwd@,
            final(self).inputs@ == old(self).inputs@.push((data, 0usize)),
            r == old(self).inputs@.len(),
            r < final(self).inputs@.len(),
    {
        self.inputs.push((data, 0));
        self.inputs.len() - 1
    }

    /// The input stream that descriptor 0 reads, loading the shell's own
    /// standard input from the host the first time it is needed.
    fn input_index(&mut self) -> (r: Option<usize>)
        requires
            old(self).wf(),
        ensures
            final(self).wf(),
            final(self).vars == old(self).vars,
            final(self).fuel == old(self).fuel,
            final(self).exit_status == old(self).exit_status,
            final(self).opts == old(self).opts,
            final(self).fds@ == old(self).fds@,
            r matches Some(i) ==> i == old(self).read_source().unwrap(),
            r is None <==> old(self).read_source() is None,
            !old(self).loads_stdin() ==> final(self).inputs@ == old(self).inputs@,
            old(self).loads_stdin() ==> final(self).inputs@.len() == old(self).inputs@.len() + 1
                && final(self).inputs@.take(old(self).inputs@.len() as int) == old(self).inputs@
                && final(self).stdin_index == Some(old(self).inputs@.len() as usize),
    {
        let kind: u8 = match &self.fds[0] {
            Fd::Reader(_) => 1,
            Fd::HostStdin => 2,
            _ => 0,
        };
        if kind == 1 {
            match &self.fds[0] {
                Fd::Reader(i) => Some(*i),
                _ => None,
            }
        } else if kind == 2 {
            match self.stdin_index {
                Some(i) => Some(i),
                None => {
                    let data = self.host.read_stdin();
                    let i = self.new_input(data);
                    self.stdin_index = Some(i);
                    Some(i)
                },
            }
        } else {
            None
        }
    }

    /// Read one byte from descriptor 0; `None` at the end of the input.
    pub fn read_byte(&mut self) -> (r: Option<u8>)
        requires
            old(self).wf(),
        ensures
            final(self).wf(),
            final(self).vars == old(self).vars,
            final(self).fuel == old(self).fuel,
            final(self).exit_status == old(self).exit_status,
            final(self).opts == old(self).opts,
            final(self).fds@ == old(self).fds@,
            old(self).read_source() is None ==> r is None && final(self).inputs@ == old(self).inputs@,
            !old(self).loads_stdin() ==> match old(self).read_source() {
                Some(i) => if 0 <= i < old(self).inputs@.len() {
                let (d, p) = old(self).inputs@[i];
                &&& r == (if p < d@.len() {
                    Some(d@[p as int])
                } else {
                    None::<u8>
                })
                &&& final(self).inputs@ == old(self).inputs@.update(
                    i,
                    (d, if p < d@.len() {
                        (p + 1) as usize
                    } else {
                        p
                    }),
                )
            } else {
                r is None && final(self).inputs@ == old(self).inputs@
            },
                None => true,
            },
    {
        let idx = match self.input_index() {
            Some(i) => i,
            None => {
                return None;
            },
        };
        if idx >= self.inputs.len() {
            return None;
        }
        let mut entry: (Vec<u8>, usize) = (Vec::new(), 0);
        std::mem::swap(&mut entry, &mut self.inputs[idx]);
        let (data, pos) = entry;
        let result = if pos < data.len() {
            Some(data[pos])
        } else {
            None
        };
        let next = if pos < data.len() {
            pos + 1
        } else {
            pos
        };
        self.inputs.set(idx, (data, next));
        result
    }

    /// Everything left on descriptor 0, for a program that reads it; `None`
    /// when descriptor 0 is the shell's own standard input, not yet read.
    pub fn take_input(&mut self) -> (r: Option<Vec<u8>>)
        requires
            old(self).wf(),
        ensures
            final(self).wf(),
            final(self).vars == old(self).vars,
            final(self).fuel == old(self).fuel,
            final(self).exit_status == old(self).exit_status,
            final(self).opts == old(self).opts,
            final(self).fds@ == old(self).fds@,
            old(self).loads_stdin() ==> r is None && final(self).inputs@ == old(self).inputs@,
            old(self).read_source() is None ==> (r matches Some(v) && v@.len() == 0) && final(self).inputs@
                == old(self).inputs@,
            !old(self).loads_stdin() ==> match old(self).read_source() {
                Some(i) => if 0 <= i < old(self).inputs@.len() {
                let (d, p) = old(self).inputs@[i];
                &&& (r matches Some(v) && v@ == (if p < d@.len() {
                    d@.subrange(p as int, d@.len() as int)
                } else {
                    Seq::<u8>::empty()
                }))
                &&& final(self).inputs@ == old(self).inputs@.update(i, (d, d@.len() as usize))
            } else {
                (r matches Some(v) && v@.len() == 0) && final(self).inputs@ == old(self).inputs@
            },
                None => true,
            },
    {
        let is_host = match &self.fds[0] {
            Fd::HostStdin => true,
            _ => false,
        };
        if is_host && self.stdin_index.is_none() {
            return None;
        }
        let idx = match self.input_index() {
            Some(i) => i,
            None => {
                return Some(Vec::new());
            },
        };
        if idx >= self.inputs.len() {
            return Some(Vec::new());
        }
        let mut entry: (Vec<u8>, usize) = (Vec::new(), 0);
        std::mem::swap(&mut entry, &mut self.inputs[idx]);
        let (data, pos) = entry;
        let rest = if pos < data.len() {
            crate::encoding::slice_bytes(&data, pos, data.len())
        } else {
            Vec::new()
        };
        let n = data.len();
        self.inputs.set(idx, (data, n));
        Some(rest)
    }

    /// Open a capture buffer and point descriptor 1 at it; returns the old
    /// target of descriptor 1.
    pub fn begin_capture(&mut self) -> (r: Fd)
        requires
            old(self).wf(),
        ensures
            final(self).wf(),
            final(self).watch_cancel == old(self).watch_cancel && final(self).deadline_ms == old(self).deadline_ms,
            final(self).vars == old(self).vars,
            final(self).fuel == old(self).fuel,
            final(self).exit_status == old(self).exit_status,
            final(self).opts == old(self).opts,
            final(self).captures@.len() == old(self).captures@.len() + 1,
    {
        let idx = self.captures.len();
        self.captures.push(Vec::new());
        let mut old_fd = Fd::Capture(idx);
        std::mem::swap(&mut old_fd, &mut self.fds[1]);
        old_fd
    }

    /// Close the newest capture buffer, put `saved` back as descriptor 1,
    /// and return what was captured.
    pub fn end_capture(&mut self, saved: Fd) -> (r: Vec<u8>)
        requires
            old(self).wf(),
        ensures
            final(self).wf(),
            final(self).watch_cancel == old(self).watch_cancel && final(self).deadline_ms == old(self).deadline_ms,
            final(self).vars == old(self).vars,
            final(self).fuel == old(self).fuel,
            final(self).exit_status == old(self).exit_status,
            final(self).opts == old(self).opts,
            final(self).fds@ == old(self).fds@.update(1, saved),
            old(self).captures@.len() > 0 ==> r == old(self).captures@.last() && final(self).captures@
                == old(self).captures@.drop_last(),
            old(self).captures@.len() == 0 ==> r@.len() == 0 && final(self).captures@.len() == 0,
    {
        self.fds.set(1, saved);
        match self.captures.pop() {
            Some(b) => b,
            None => Vec::new(),
        }
    }
}

/// Append `src` to `dst`.
pub fn append_bytes(dst: &mut Vec<u8>, src: &Vec<u8>)
    ensures
        final(dst)@ == old(dst)@ + src@,
{
    let mut i: usize = 0;
    while i < src.len()
        invariant
            i <= src@.len(),
            dst@ == old(dst)@ + src@.take(i as int),
        decreases src.len() - i,
    {
        dst.push(src[i]);
        assert(src@.take(i + 1) =~= src@.take(i as int).push(src@[i as int]));
        i += 1;
    }
    assert(src@.take(src@.len() as int) =~= src@);
}

/// Builder for configuring a [`Shell`].
pub struct ShellBuilder {
    pub cwd: Option<String>,
    pub errexit: bool,
    pub nounset: bool,
    pub xtrace: bool,
    pub pipefail: bool,
    pub interactive: bool,
    pub env_clear: bool,
    pub host: Option<Box<dyn Host>>,
    /// Whether the built shell watches the host's cancel flag.
    pub cancel: bool,
    /// The time limit, in milliseconds of the host clock from `build`.
    pub timeout_ms: Option<u64>,
}

impl ShellBuilder {
    pub fn new() -> (r: Self)
        ensures
            r.cwd is None,
            !r.errexit && !r.nounset && !r.xtrace && !r.pipefail && !r.interactive && !r.env_clear,
            r.host is None,
            !r.cancel,
            r.timeout_ms is None,
    {
        ShellBuilder {
            cwd: None,
            errexit: false,
            nounset: false,
            xtrace: false,
            pipefail: false,
            interactive: false,
            env_clear: false,
            host: None,
            cancel: false,
            timeout_ms: None,
        }
    }

    pub fn cwd(self, path: String) -> (r: Self)
        ensures
            r.cancel == self.cancel && r.timeout_ms == self.timeout_ms,
            r.cwd == Some(path),
            r.host == self.host,
            r.errexit == self.errexit && r.nounset == self.nounset && r.xtrace == self.xtrace,
            r.pipefail == self.pipefail && r.interactive == self.interactive && r.env_clear == self.env_clear,
    {
        let mut s = self;
        s.cwd = Some(path);
        s
    }

    pub fn errexit(self, v: bool) -> (r: Self)
        ensures
            r.cancel == self.cancel && r.timeout_ms == self.timeout_ms,
            r.host == self.host,
            r.errexit == v,
            r.cwd == self.cwd && r.nounset == self.nounset && r.xtrace == self.xtrace,
            r.pipefail == self.pipefail && r.interactive == self.interactive && r.env_clear == self.env_clear,
    {
        let mut s = self;
        s.errexit = v;
        s
    }

    pub fn nounset(self, v: bool) -> (r: Self)
        ensures
            r.cancel == self.cancel && r.timeout_ms == self.timeout_ms,
            r.host == self.host,
            r.nounset == v,
            r.cwd == self.cwd && r.errexit == self.errexit && r.xtrace == self.xtrace,
            r.pipefail == self.pipefail && r.interactive == self.interactive && r.env_clear == self.env_clear,
    {
        let mut s = self;
        s.nounset = v;
        s
    }

    pub fn xtrace(self, v: bool) -> (r: Self)
        ensures
            r.cancel == self.cancel && r.timeout_ms == self.timeout_ms,
            r.host == self.host,
            r.xtrace == v,
            r.cwd == self.cwd && r.errexit == self.errexit && r.nounset == self.nounset,
            r.pipefail == self.pipefail && r.interactive == self.interactive && r.env_clear == self.env_clear,
    {
        let mut s = self;
        s.xtrace = v;
        s
    }

    pub fn pipefail(self, v: bool) -> (r: Self)
        ensures
            r.cancel == self.cancel && r.timeout_ms == self.timeout_ms,
            r.host == self.host,
            r.pipefail == v,
            r.cwd == self.cwd && r.errexit == self.errexit && r.nounset == self.nounset,
            r.xtrace == self.xtrace && r.interactive == self.interactive && r.env_clear == self.env_clear,
    {
        let mut s = self;
        s.pipefail = v;
        s
    }

    pub fn interactive(self, v: bool) -> (r: Self)
        ensures
            r.cancel == self.cancel && r.timeout_ms == self.timeout_ms,
            r.host == self.host,
            r.interactive == v,
            r.cwd == self.cwd && r.errexit == self.errexit && r.nounset == self.nounset,
            r.xtrace == self.xtrace && r.pipefail == self.pipefail && r.env_clear == self.env_clear,
    {
        let mut s = self;
        s.interactive = v;
        s
    }

    /// Start with no environment variables (the default here: the
    /// environment is imported by the embedder with `Variables::import_env`).
    pub fn env_clear(self) -> (r: Self)
        ensures
            r.cancel == self.cancel && r.timeout_ms == self.timeout_ms,
            r.host == self.host,
            r.env_clear,
            r.cwd == self.cwd && r.errexit == self.errexit && r.nounset == self.nounset,
            r.xtrace == self.xtrace && r.pipefail == self.pipefail && r.interactive == self.interactive,
    {
        let mut s = self;
        s.env_clear = true;
        s
    }

    /// The host that runs external programs and reaches files.
    pub fn external_handler(self, host: Box<dyn Host>) -> (r: Self)
        ensures
            r.cancel == self.cancel && r.timeout_ms == self.timeout_ms,
            r.host is Some,
            r.cwd == self.cwd && r.errexit == self.errexit && r.nounset == self.nounset,
            r.xtrace == self.xtrace && r.pipefail == self.pipefail && r.interactive == self.interactive,
            r.env_clear == self.env_clear,
    {
        let mut s = self;
        s.host = Some(host);
        s
    }

    /// Watch the host's cancel flag: evaluation stops with `Cancelled` once
    /// the embedder sets it.
    pub fn cancel_flag(self) -> (r: Self)
        ensures
            r.cancel,
            r.timeout_ms == self.timeout_ms && r.host == self.host && r.cwd == self.cwd,
            r.errexit == self.errexit && r.nounset == self.nounset && r.xtrace == self.xtrace,
            r.pipefail == self.pipefail && r.interactive == self.interactive && r.env_clear == self.env_clear,
    {
        let mut s = self;
        s.cancel = true;
        s
    }

    /// Stop evaluation with `TimedOut` once `ms` milliseconds have passed
    /// from `build`.
    pub fn timeout(self, ms: u64) -> (r: Self)
        ensures
            r.timeout_ms == Some(ms),
            r.cancel == self.cancel && r.host == self.host && r.cwd == self.cwd,
            r.errexit == self.errexit && r.nounset == self.nounset && r.xtrace == self.xtrace,
            r.pipefail == self.pipefail && r.interactive == self.interactive && r.env_clear == self.env_clear,
    {
        let mut s = self;
        s.timeout_ms = Some(ms);
        s
    }

    /// The configured shell.
    pub fn build(self) -> (r: Shell)
        ensures
            r.wf(),
            r.opts.errexit == self.errexit,
            r.opts.nounset == self.nounset,
            r.opts.xtrace == self.xtrace,
            r.opts.pipefail == self.pipefail,
            r.opts.interactive == self.interactive,
            self.cwd matches Some(c) ==> r.cwd@ == c@,
            self.cwd is None ==> r.cwd@.len() == 0,
            r.exit_status@ == 0,
            r.fuel == u64::MAX,
            !r.tested,
            r.vars.params().len() == 0,
            forall|n: Seq<char>| #[trigger] r.functions.defined(n) == false,
            forall|n: Seq<char>| #[trigger] r.traps.lookup(n) is None,
            r.watch_cancel == self.cancel,
            r.deadline_ms is Some <==> self.timeout_ms is Some,
            forall|n: Seq<char>| n != seq!['I', 'F', 'S'] ==> #[trigger] r.vars.lookup(n) is None,
            forall|n: Seq<char>| !#[trigger] r.vars.readonly(n),
    {
        let host: Box<dyn Host> = match self.host {
            Some(h) => h,
            None => Box::new(NullHost),
        };
        let mut sh = Shell::with_host(host);
        sh.opts.errexit = self.errexit;
        sh.opts.nounset = self.nounset;
        sh.opts.xtrace = self.xtrace;
        sh.opts.pipefail = self.pipefail;
        sh.opts.interactive = self.interactive;
        if let Some(c) = self.cwd {
            sh.cwd = c;
        }
        sh.watch_cancel = self.cancel;
        if let Some(ms) = self.timeout_ms {
            let now = sh.host.now_ms();
            sh.deadline_ms = Some(deadline_after(now, ms));
        }
        sh
    }
}

impl ShellBuilder {
    /// The configured shell with the process environment `env` brought in
    /// (see `Variables::import_env`), unless `env_clear` was asked for.
    pub fn build_with_env(self, env: Vec<(ShellBytes, ShellBytes)>) -> (r: Shell)
        ensures
            r.wf(),
            r.exit_status@ == 0,
            r.opts.errexit == self.errexit && r.opts.nounset == self.nounset && r.opts.xtrace == self.xtrace,
            r.opts.pipefail == self.pipefail && r.opts.interactive == self.interactive,
            r.watch_cancel == self.cancel,
            r.vars.params().len() == 0,
            self.env_clear ==> forall|n: Seq<char>| n != seq!['I', 'F', 'S'] ==> #[trigger] r.vars.lookup(n) is None,
            !self.env_clear ==> forall|i: int|
                0 <= i < env@.len() && crate::lexer::spec_is_name(spec_bytes_to_str(#[trigger] env@[i].0@))
                    ==> r.vars.exported(spec_bytes_to_str(env@[i].0@)),
    {
        let clear = self.env_clear;
        let self_cancel = self.cancel;
        let mut sh = self.build();
        let ghost old_opts = sh.opts;
        if !clear {
            let mut i: usize = 0;
            while i < env.len()
                invariant
                    sh.wf(),
                    i <= env@.len(),
                    forall|n: Seq<char>| !#[trigger] sh.vars.readonly(n),
                    forall|j: int|
                        0 <= j < i && crate::lexer::spec_is_name(spec_bytes_to_str(#[trigger] env@[j].0@))
                            ==> sh.vars.exported(spec_bytes_to_str(env@[j].0@)),
                    sh.exit_status@ == 0,
                    sh.vars.params().len() == 0,
                    sh.opts == old_opts,
                    sh.watch_cancel == self_cancel,
                decreases env.len() - i,
            {
                let key = env[i].0.duplicate();
                let value = env[i].1.duplicate();
                let ghost k = spec_bytes_to_str(key@);
                let ghost before = sh.vars;
                sh.vars.import_env(key, value);
                proof {
                    assert forall|n: Seq<char>| !#[trigger] sh.vars.readonly(n) by {
                        if n != k {
                            assert(sh.vars.lookup(n) == before.lookup(n));
                            assert(!before.readonly(n));
                        }
                    }
                    assert forall|j: int|
                        0 <= j < i + 1 && crate::lexer::spec_is_name(spec_bytes_to_str(#[trigger] env@[j].0@))
                            implies sh.vars.exported(spec_bytes_to_str(env@[j].0@)) by {
                        if spec_bytes_to_str(env@[j].0@) != k {
                            assert(sh.vars.lookup(spec_bytes_to_str(env@[j].0@)) == before.lookup(spec_bytes_to_str(env@[j].0@)));
                        }
                    }
                }
                i += 1;
            }
        }
        sh
    }
}

/// The time `ms` milliseconds after `now`, or the clock's end when that
/// does not fit.
pub fn deadline_after(now: u64, ms: u64) -> (r: u64)
    ensures
        r == (if now as int + ms as int <= u64::MAX as int {
            (now + ms) as u64
        } else {
            u64::MAX
        }),
{
    if now <= u64::MAX - ms {
        now + ms
    } else {
        u64::MAX
    }
}


/// The status a word names when it is, after expansion, one of the
/// builtins `:`, `true` (0) or `false` (1).
pub open spec fn pure_word(w: Word) -> Option<i32> {
    match crate::expand::static_views(w.parts@, false, w.parts@.len() as int) {
        Some(fs) => if fs.len() > 0 && !crate::glob::glob_chars_from(crate::expand::texts_concat(fs), 0) {
            let t = crate::expand::spec_remove_escapes(crate::expand::texts_concat(fs));
            if t == ":"@ || t == "true"@ {
                Some(0i32)
            } else if t == "false"@ {
                Some(1i32)
            } else {
                None
            }
        } else {
            None
        },
        None => None,
    }
}

/// The status of a command built only from `:`, `true` and `false` (with no
/// assignments or redirections) by `&&`, `||`, `!`, `;`, `if` and braces:
/// what evaluating it gives; `None` for any other command.
pub open spec fn pure_status(c: Command) -> Option<i32>
    decreases c,
{
    match c {
        Command::Simple { assigns, args, redirs, .. } => if assigns@.len() == 0 && redirs@.len() == 0 && args@.len()
            == 1 {
            pure_word(args@[0])
        } else {
            None
        },
        Command::And(l, r) => match (pure_status(*l), pure_status(*r)) {
            (Some(a), Some(b)) => Some(if a == 0 { b } else { a }),
            _ => None,
        },
        Command::Or(l, r) => match (pure_status(*l), pure_status(*r)) {
            (Some(a), Some(b)) => Some(if a != 0 { b } else { a }),
            _ => None,
        },
        Command::Sequence(l, r) => match (pure_status(*l), pure_status(*r)) {
            (Some(_), Some(b)) => Some(b),
            _ => None,
        },
        Command::Not(x) => match pure_status(*x) {
            Some(a) => Some(if a == 0 { 1i32 } else { 0i32 }),
            None => None,
        },
        Command::If { cond, then_part, else_part, .. } => match (pure_status(*cond), pure_status(*then_part)) {
            (Some(c), Some(t)) => match else_part {
                Some(e) => match pure_status(*e) {
                    Some(x) => Some(if c == 0 { t } else { x }),
                    None => None,
                },
                None => Some(if c == 0 { t } else { 0i32 }),
            },
            _ => None,
        },
        Command::BraceGroup { body, redirs, .. } => if redirs@.len() == 0 {
            pure_status(*body)
        } else {
            None
        },
        _ => None,
    }
}

/// How the status of a compound command follows from its parts (each made
/// of `:`, `true` and `false`): `l && r` succeeds exactly when both do and
/// gives `l`'s failure without running `r`; `l || r` succeeds exactly when
/// either does and gives `r`'s status after a failed `l`; `! x` succeeds
/// exactly when `x` fails; `l; r` gives `r`'s status; `if` gives its
/// branch's status, or 0 when the condition fails and there is no `else`.
pub proof fn law_compound_status(c: Command)
    ensures
        match c {
            Command::And(l, r) => pure_status(*l) is Some && pure_status(*r) is Some ==> pure_status(c) is Some && (
            pure_status(c) == Some(0i32) <==> pure_status(*l) == Some(0i32) && pure_status(*r) == Some(0i32)) && (
            pure_status(*l) != Some(0i32) ==> pure_status(c) == pure_status(*l)) && (pure_status(*l) == Some(0i32)
                ==> pure_status(c) == pure_status(*r)),
            Command::Or(l, r) => pure_status(*l) is Some && pure_status(*r) is Some ==> pure_status(c) is Some && (
            pure_status(c) == Some(0i32) <==> pure_status(*l) == Some(0i32) || pure_status(*r) == Some(0i32)) && (
            pure_status(*l) != Some(0i32) ==> pure_status(c) == pure_status(*r)),
            Command::Not(x) => pure_status(*x) is Some ==> (pure_status(c) == Some(0i32) <==> pure_status(*x) != Some(
                0i32,
            )) && (pure_status(*x) == Some(0i32) ==> pure_status(c) == Some(1i32)),
            Command::Sequence(l, r) => pure_status(*l) is Some ==> pure_status(c) == pure_status(*r),
            Command::If { cond, then_part, else_part, .. } => pure_status(*cond) is Some && pure_status(*then_part)
                is Some ==> (pure_status(*cond) == Some(0i32) && (else_part matches Some(e) ==> pure_status(*e) is Some)
                ==> pure_status(c) == pure_status(*then_part)) && (pure_status(*cond) != Some(0i32) ==> pure_status(c)
                == match else_part {
                Some(e) => pure_status(*e),
                None => Some(0i32),
            }),
            _ => true,
        },
{
}

/// An upper bound on the evaluation steps a command of `pure_status`
/// takes.
pub open spec fn pure_cost(c: Command) -> int
    decreases c,
{
    match c {
        Command::Simple { args, .. } => if args@.len() > 0 {
            args@[0].parts@.len() as int + 10
        } else {
            10
        },
        Command::And(l, r) => pure_cost(*l) + pure_cost(*r) + 8,
        Command::Or(l, r) => pure_cost(*l) + pure_cost(*r) + 8,
        Command::Sequence(l, r) => pure_cost(*l) + pure_cost(*r) + 8,
        Command::Not(x) => pure_cost(*x) + 8,
        Command::If { cond, then_part, else_part, .. } => pure_cost(*cond) + pure_cost(*then_part) + match else_part {
            Some(e) => pure_cost(*e),
            None => 0,
        } + 8,
        Command::BraceGroup { body, .. } => pure_cost(*body) + 8,
        _ => 0,
    }
}

/// A command of `pure_status` takes at least ten steps in `pure_cost`, and
/// its parts are of `pure_status` too.
pub proof fn lemma_pure_cost(c: Command)
    requires
        pure_status(c) is Some,
    ensures
        pure_cost(c) >= 10,
        match c {
            Command::And(l, r) => pure_status(*l) is Some && pure_status(*r) is Some && pure_cost(*l) >= 10
                && pure_cost(*r) >= 10,
            Command::Or(l, r) => pure_status(*l) is Some && pure_status(*r) is Some && pure_cost(*l) >= 10
                && pure_cost(*r) >= 10,
            Command::Sequence(l, r) => pure_status(*l) is Some && pure_status(*r) is Some && pure_cost(*l) >= 10
                && pure_cost(*r) >= 10,
            Command::Not(x) => pure_status(*x) is Some && pure_cost(*x) >= 10,
            Command::If { cond, then_part, else_part, .. } => pure_status(*cond) is Some && pure_status(*then_part)
                is Some && pure_cost(*cond) >= 10 && pure_cost(*then_part) >= 10 && (else_part matches Some(e)
                ==> pure_status(*e) is Some && pure_cost(*e) >= 10),
            Command::BraceGroup { body, .. } => pure_status(*body) is Some && pure_cost(*body) >= 10,
            _ => true,
        },
    decreases c,
{
    match c {
        Command::And(l, r) => {
            lemma_pure_cost(*l);
            lemma_pure_cost(*r);
        },
        Command::Or(l, r) => {
            lemma_pure_cost(*l);
            lemma_pure_cost(*r);
        },
        Command::Sequence(l, r) => {
            lemma_pure_cost(*l);
            lemma_pure_cost(*r);
        },
        Command::Not(x) => {
            lemma_pure_cost(*x);
        },
        Command::If { cond, then_part, else_part, .. } => {
            lemma_pure_cost(*cond);
            lemma_pure_cost(*then_part);
            if let Some(e) = else_part {
                lemma_pure_cost(*e);
            }
        },
        Command::BraceGroup { body, .. } => {
            lemma_pure_cost(*body);
        },
        _ => {},
    }
}

/// Under `set -e`, what evaluating a command of `pure_status` gives
/// without the check on its own status: `Ok` of the status, or `Err` of the
/// status that ended the shell. `tested` says whether it runs as a
/// condition, where `set -e` does not apply.
pub open spec fn pure_exit_inner(c: Command, tested: bool) -> Result<i32, i32>
    decreases c, 1int,
{
    match c {
        Command::Simple { .. } => Ok(pure_status(c).unwrap()),
        Command::And(l, r) => match pure_exit_run(*l, true) {
            Ok(a) => if a == 0 {
                pure_exit_run(*r, tested)
            } else {
                Ok(a)
            },
            Err(x) => Err(x),
        },
        Command::Or(l, r) => match pure_exit_run(*l, true) {
            Ok(a) => if a != 0 {
                pure_exit_run(*r, tested)
            } else {
                Ok(a)
            },
            Err(x) => Err(x),
        },
        Command::Sequence(l, r) => match pure_exit_run(*l, tested) {
            Ok(_) => pure_exit_run(*r, tested),
            Err(x) => Err(x),
        },
        Command::Not(x) => match pure_exit_run(*x, true) {
            Ok(a) => Ok(if a == 0 { 1i32 } else { 0i32 }),
            Err(e) => Err(e),
        },
        Command::If { cond, then_part, else_part, .. } => match pure_exit_run(*cond, true) {
            Ok(k) => if k == 0 {
                pure_exit_run(*then_part, tested)
            } else {
                match else_part {
                    Some(e) => pure_exit_run(*e, tested),
                    None => Ok(0i32),
                }
            },
            Err(x) => Err(x),
        },
        Command::BraceGroup { body, .. } => pure_exit_run(*body, tested),
        _ => Ok(0i32),
    }
}

/// Under `set -e`, what evaluating a command of `pure_status` gives: a
/// failing simple command outside a condition ends the shell with its
/// status.
pub open spec fn pure_exit_run(c: Command, tested: bool) -> Result<i32, i32>
    decreases c, 2int,
{
    match pure_exit_inner(c, tested) {
        Ok(k) => if !tested && is_leaf_command(c) && k != 0 {
            Err(k)
        } else {
            Ok(k)
        },
        Err(x) => Err(x),
    }
}

/// The result `r` of an evaluation that `pure_exit_run` (or
/// `pure_exit_inner`) says gives `o`.
pub open spec fn exit_matches(r: Result<ExitStatus, ShellError>, o: Result<i32, i32>) -> bool {
    match o {
        Ok(k) => r matches Ok(s) && s@ == k,
        Err(x) => r matches Err(ShellError::Exit(s)) && s@ == x,
    }
}

/// Under `set -e`, the status a program of `pure_status` commands ends
/// with, from its `i`-th command on: the status of a command that ends the
/// shell, or the last command's.
pub open spec fn errexit_program(cmds: Seq<Command>, i: int) -> i32
    decreases cmds.len() - i,
{
    if i < 0 || i >= cmds.len() {
        0
    } else {
        match pure_exit_run(cmds[i], false) {
            Err(x) => x,
            Ok(k) => if i == cmds.len() - 1 {
                k
            } else {
                errexit_program(cmds, i + 1)
            },
        }
    }
}

/// A non-empty program whose every command is of `pure_status`.
pub open spec fn pure_program(cmds: Seq<Command>) -> bool {
    cmds.len() > 0 && forall|i: int| 0 <= i < cmds.len() ==> (#[trigger] pure_status(cmds[i])) is Some
}

/// The sum of `pure_cost` over the first `n` commands.
pub open spec fn program_cost(cmds: Seq<Command>, n: int) -> int
    decreases n,
{
    if n <= 0 || n > cmds.len() {
        0
    } else {
        program_cost(cmds, n - 1) + pure_cost(cmds[n - 1])
    }
}

/// The cost of a prefix of a pure program grows with the prefix.
proof fn lemma_program_cost(cmds: Seq<Command>, i: int, n: int)
    requires
        pure_program(cmds),
        0 <= i <= n <= cmds.len(),
    ensures
        program_cost(cmds, i) <= program_cost(cmds, n),
        i < n ==> program_cost(cmds, i) + pure_cost(cmds[i]) <= program_cost(cmds, n),
    decreases n - i,
{
    if i < n {
        lemma_program_cost(cmds, i + 1, n);
        assert(pure_status(cmds[i]) is Some);
        lemma_pure_cost(cmds[i]);
    }
}

/// A word with no expansion in it: its parts are literal or quoted text.
pub open spec fn static_word(w: Word) -> bool {
    crate::expand::static_views(w.parts@, false, w.parts@.len() as int) is Some
}

/// The pattern text of a static word (quoted characters escaped).
pub open spec fn pattern_text(w: Word) -> Seq<char> {
    crate::expand::texts_concat(crate::expand::static_views(w.parts@, false, w.parts@.len() as int).unwrap())
}

/// The value of a static word.
pub open spec fn word_value(w: Word) -> Seq<char> {
    crate::expand::spec_remove_escapes(pattern_text(w))
}

/// Some pattern of `arm` matches `v`.
pub open spec fn arm_matches(v: Seq<char>, arm: CaseArm) -> bool {
    exists|j: int| 0 <= j < arm.patterns@.len() && crate::glob::spec_fnmatch(pattern_text(#[trigger] arm.patterns@[j]), 0, v, 0)
}

/// The first arm from `a` on with a pattern that matches `v`.
pub open spec fn first_matching_arm(v: Seq<char>, arms: Seq<CaseArm>, a: int) -> Option<int>
    decreases arms.len() - a,
{
    if a < 0 || a >= arms.len() {
        None
    } else if arm_matches(v, arms[a]) {
        Some(a)
    } else {
        first_matching_arm(v, arms, a + 1)
    }
}

/// The arm `first_matching_arm` picks has a matching pattern, and no arm
/// before it has one; when it picks none, no arm has one.
pub proof fn law_first_matching_arm(v: Seq<char>, arms: Seq<CaseArm>, a: int)
    requires
        0 <= a <= arms.len(),
    ensures
        first_matching_arm(v, arms, a) matches Some(k) ==> a <= k < arms.len() && arm_matches(v, arms[k]) && forall|
            b: int,
        | a <= b < k ==> !arm_matches(v, #[trigger] arms[b]),
        first_matching_arm(v, arms, a) is None ==> forall|b: int| a <= b < arms.len() ==> !arm_matches(
            v,
            #[trigger] arms[b],
        ),
    decreases arms.len() - a,
{
    if a < arms.len() {
        law_first_matching_arm(v, arms, a + 1);
    }
}

/// A `case` whose word and patterns are static and whose bodies are of
/// `pure_status`.
pub open spec fn pure_case(word: Word, arms: Seq<CaseArm>) -> bool {
    &&& static_word(word)
    &&& forall|a: int, j: int|
        0 <= a < arms.len() && 0 <= j < arms[a].patterns@.len() ==> static_word(#[trigger] arms[a].patterns@[j])
    &&& pure_case_arms(arms)
}

/// The steps the patterns of an arm from `j` on take at most.
pub open spec fn patterns_cost(ps: Seq<Word>, j: int) -> int
    decreases ps.len() - j,
{
    if j < 0 || j >= ps.len() {
        0
    } else {
        ps[j].parts@.len() + 3 + patterns_cost(ps, j + 1)
    }
}

/// The steps the arms from `a` on take at most.
pub open spec fn arms_cost(arms: Seq<CaseArm>, a: int) -> int
    decreases arms.len() - a,
{
    if a < 0 || a >= arms.len() {
        0
    } else {
        patterns_cost(arms[a].patterns@, 0) + match arms[a].body {
            Some(b) => pure_cost(b),
            None => 0,
        } + arms_cost(arms, a + 1)
    }
}

/// The steps a `case` of `pure_case` takes at most.
pub open spec fn case_cost(word: Word, arms: Seq<CaseArm>) -> int {
    word.parts@.len() + 3 + arms_cost(arms, 0)
}

/// The status of a `case` of `pure_case`: that of the body of the first
/// arm with a matching pattern, 0 where that arm has no body or no arm
/// matches.
pub open spec fn case_status(word: Word, arms: Seq<CaseArm>) -> i32 {
    match first_matching_arm(word_value(word), arms, 0) {
        None => 0,
        Some(k) => match arms[k].body {
            Some(b) => pure_status(b).unwrap(),
            None => 0,
        },
    }
}

/// A `case` runs the arm in which some pattern, whichever its place in
/// the arm, matches the word, provided no earlier arm has one that
/// matches; with no such arm its status is 0.
pub proof fn law_case_status(word: Word, arms: Seq<CaseArm>, k: int, j: int)
    requires
        0 <= k < arms.len(),
        0 <= j < arms[k].patterns@.len(),
        crate::glob::spec_fnmatch(pattern_text(arms[k].patterns@[j]), 0, word_value(word), 0),
        forall|b: int, i: int|
            0 <= b < k && 0 <= i < arms[b].patterns@.len() ==> !crate::glob::spec_fnmatch(
                pattern_text(#[trigger] arms[b].patterns@[i]),
                0,
                word_value(word),
                0,
            ),
    ensures
        case_status(word, arms) == match arms[k].body {
            Some(b) => pure_status(b).unwrap(),
            None => 0i32,
        },
{
    let v = word_value(word);
    law_first_matching_arm(v, arms, 0);
    assert(arm_matches(v, arms[k]));
    match first_matching_arm(v, arms, 0) {
        Some(m) => {
            if m < k {
                assert(!arm_matches(v, arms[m]));
            } else if m > k {
                assert(!arm_matches(v, arms[k]));
            }
        },
        None => {
            assert(!arm_matches(v, arms[k]));
        },
    }
}

/// A `case` in which no pattern of any arm matches the word has status 0.
pub proof fn law_case_no_match(word: Word, arms: Seq<CaseArm>)
    requires
        forall|b: int, i: int|
            0 <= b < arms.len() && 0 <= i < arms[b].patterns@.len() ==> !crate::glob::spec_fnmatch(
                pattern_text(#[trigger] arms[b].patterns@[i]),
                0,
                word_value(word),
                0,
            ),
    ensures
        case_status(word, arms) == 0,
{
    let v = word_value(word);
    law_first_matching_arm(v, arms, 0);
    if let Some(m) = first_matching_arm(v, arms, 0) {
        assert(arm_matches(v, arms[m]));
        let i = choose|i: int| 0 <= i < arms[m].patterns@.len() && crate::glob::spec_fnmatch(
            pattern_text(#[trigger] arms[m].patterns@[i]),
            0,
            v,
            0,
        );
        assert(!crate::glob::spec_fnmatch(pattern_text(arms[m].patterns@[i]), 0, v, 0));
    }
}

/// Every body among `arms` is of `pure_status`.
pub open spec fn pure_case_arms(arms: Seq<CaseArm>) -> bool {
    forall|a: int| 0 <= a < arms.len() ==> (#[trigger] arms[a].body matches Some(b) ==> pure_status(b) is Some)
}

/// The steps of patterns are never negative.
proof fn lemma_patterns_cost(ps: Seq<Word>, j: int)
    ensures
        patterns_cost(ps, j) >= 0,
    decreases ps.len() - j,
{
    if 0 <= j < ps.len() {
        lemma_patterns_cost(ps, j + 1);
    }
}

/// The steps of arms whose bodies are of `pure_status` are never negative.
proof fn lemma_arms_cost(arms: Seq<CaseArm>, a: int)
    requires
        pure_case_arms(arms),
    ensures
        arms_cost(arms, a) >= 0,
    decreases arms.len() - a,
{
    if 0 <= a < arms.len() {
        lemma_arms_cost(arms, a + 1);
        lemma_patterns_cost(arms[a].patterns@, 0);
        if arms[a].body is Some {
            lemma_pure_cost(arms[a].body.unwrap());
        }
    }
}

/// The highest status code among `cs` (0 for none).
pub open spec fn max_code(cs: Seq<ExitStatus>) -> i32
    decreases cs.len(),
{
    if cs.len() == 0 {
        0
    } else if cs.last()@ > max_code(cs.drop_last()) {
        cs.last()@
    } else {
        max_code(cs.drop_last())
    }
}

/// The status code of a pipeline whose stages ended with `cs`: the last
/// stage's, or with `pipefail` the highest nonzero one when there is one.
pub open spec fn pipeline_code(cs: Seq<ExitStatus>, pipefail: bool) -> i32 {
    if pipefail && max_code(cs) != 0 {
        max_code(cs)
    } else if cs.len() == 0 {
        0
    } else {
        cs.last()@
    }
}

/// The state a subshell must not change in its parent.
pub struct SavedState {
    pub vars: Variables,
    pub functions: Functions,
    pub cwd: String,
    pub opts: ShellOpts,
    pub traps: Traps,
    pub loop_depth: usize,
    pub fds: Vec<Fd>,
    pub last_bg_pid: Option<u32>,
}

/// The prefix followed by `words[..n]`, each after a space unless the text
/// so far is empty or ends with one.
pub open spec fn trace_text(prefix: Seq<char>, words: Seq<String>, n: int) -> Seq<char>
    decreases n,
{
    if n <= 0 || n > words.len() {
        prefix
    } else {
        let t = trace_text(prefix, words, n - 1);
        (if t.len() == 0 || t.last() != ' ' {
            t.push(' ')
        } else {
            t
        }) + words[n - 1]@
    }
}

/// The trace line of `set -x`: the prefix, then the words separated by
/// single spaces.
fn trace_line(prefix: &str, words: &Vec<String>) -> (r: String)
    ensures
        r@ == trace_text(prefix@, words@, words@.len() as int).push('\n'),
{
    let mut t = prefix.to_owned();
    let mut i: usize = 0;
    while i < words.len()
        invariant
            i <= words@.len(),
            t@ == trace_text(prefix@, words@, i as int),
        decreases words.len() - i,
    {
        let cs = chars_of(t.as_str());
        if cs.len() == 0 || cs[cs.len() - 1] != ' ' {
            crate::text::push_char(&mut t, ' ');
        }
        t.append(words[i].as_str());
        i += 1;
    }
    crate::text::push_char(&mut t, '\n');
    t
}

/// How a loop body ended: carry on, stop the loop, or leave with a result.
enum LoopStep {
    Next(ExitStatus),
    Stop,
    Leave(Result<ExitStatus, ShellError>),
}

impl Shell {
    /// What an evaluation step keeps: the invariant, and no new fuel.
    /// The variables, positional parameters, functions, working directory,
    /// options and descriptors are those of `old`.
    pub open spec fn same_context(&self, old: &Shell) -> bool {
        &&& forall|n: Seq<char>| #[trigger] self.vars.lookup(n) == old.vars.lookup(n)
        &&& self.vars.params() == old.vars.params()
        &&& forall|n: Seq<char>| #[trigger] self.functions.defined(n) == old.functions.defined(n)
        &&& self.cwd@ == old.cwd@
        &&& self.opts == old.opts
        &&& self.fds@ == old.fds@
    }

    /// The input stream that descriptor 0 reads: a stream of the table, or
    /// the shell's own standard input (the next stream, when it is still to
    /// be read from the host); `None` when descriptor 0 reads nothing.
    pub open spec fn read_source(&self) -> Option<int> {
        match self.fds@[0] {
            Fd::Reader(i) => Some(i as int),
            Fd::HostStdin => match self.stdin_index {
                Some(i) => Some(i as int),
                None => Some(self.inputs@.len() as int),
            },
            _ => None,
        }
    }

    /// Descriptor 0 is the shell's own standard input, not read yet.
    pub open spec fn loads_stdin(&self) -> bool {
        self.fds@[0] is HostStdin && self.stdin_index is None
    }

    /// The descriptor table, the input streams and the working directory
    /// are those of `old`.
    pub open spec fn keeps_io(&self, old: &Shell) -> bool {
        &&& self.fds@ == old.fds@
        &&& self.inputs@ == old.inputs@
        &&& self.cwd@ == old.cwd@
    }

    pub open spec fn steps_from(&self, old: &Shell) -> bool {
        &&& self.wf()
        &&& self.fuel <= old.fuel
    }

    /// Save what a subshell must not change.
    pub fn save_state(&self) -> (r: SavedState)
        requires
            self.wf(),
        ensures
            r.vars.wf(),
            r.fds@.len() == self.fds@.len(),
            forall|n: Seq<char>| #[trigger] r.vars.lookup(n) == self.vars.lookup(n),
            r.vars.params() == self.vars.params(),
            forall|n: Seq<char>| #[trigger] r.functions.defined(n) == self.functions.defined(n),
            r.cwd@ == self.cwd@,
            r.opts == self.opts,
            r.fds@ == self.fds@,
    {
        SavedState {
            vars: self.vars.duplicate(),
            functions: self.functions.duplicate(),
            cwd: self.cwd.clone(),
            opts: self.opts,
            traps: Traps { entries: clone_trap_entries(&self.traps.entries) },
            loop_depth: self.loop_depth,
            fds: clone_fds(&self.fds),
            last_bg_pid: self.last_bg_pid,
        }
    }

    /// Put saved state back.
    pub fn restore_state(&mut self, st: SavedState)
        requires
            old(self).wf(),
            st.vars.wf(),
            st.fds@.len() >= 10,
        ensures
            final(self).wf(),
            final(self).watch_cancel == old(self).watch_cancel && final(self).deadline_ms == old(self).deadline_ms,
            final(self).fuel == old(self).fuel,
            final(self).vars == st.vars,
            final(self).functions == st.functions,
            final(self).cwd == st.cwd,
            final(self).opts == st.opts,
            final(self).fds == st.fds,
    {
        self.vars = st.vars;
        self.functions = st.functions;
        self.cwd = st.cwd;
        self.opts = st.opts;
        self.traps = st.traps;
        self.loop_depth = st.loop_depth;
        self.fds = st.fds;
        self.last_bg_pid = st.last_bg_pid;
    }

    /// Execute a shell script from source text; returns its exit status
    /// (2 when it does not parse).
    pub fn run_script(&mut self, source: &str) -> (r: i32)
        requires
            old(self).wf(),
        ensures
            final(self).wf(),
            r == final(self).exit_status@,
    {
        let mut parser = Parser::new(source);
        match parser.parse() {
            Ok(program) => self.run_program(&program).code(),
            Err(e) => {
                self.report_error(&e);
                self.exit_status = ExitStatus::new(2);
                2
            },
        }
    }

    /// Execute a parsed program; returns the final exit status. `exit`
    /// ends it early with its status; an error ends it with status 2.
    pub fn run_program(&mut self, program: &Program) -> (r: ExitStatus)
        requires
            old(self).wf(),
        ensures
            final(self).wf(),
            r == final(self).exit_status,
            program.commands@.len() == 0 && old(self).traps.lookup("EXIT"@) is None ==> r == old(self).exit_status,
            !old(self).opts.errexit && old(self).unwatched() && old(self).traps.lookup("EXIT"@) is None
                && pure_program(program.commands@) && old(self).fuel > program_cost(
                program.commands@,
                program.commands@.len() as int,
            ) ==> r@ == pure_status(program.commands@.last()).unwrap(),
            old(self).opts.errexit && !old(self).tested && old(self).unwatched() && old(self).traps.lookup("EXIT"@)
                is None && pure_program(program.commands@) && old(self).fuel > program_cost(
                program.commands@,
                program.commands@.len() as int,
            ) ==> r@ == errexit_program(program.commands@, 0),
    {
        let ghost cmds = program.commands@;
        let ghost pure = !old(self).opts.errexit && old(self).unwatched() && old(self).traps.lookup("EXIT"@) is None
            && pure_program(cmds) && old(self).fuel > program_cost(cmds, cmds.len() as int);
        let ghost pure_e = old(self).opts.errexit && !old(self).tested && old(self).unwatched() && old(
            self,
        ).traps.lookup("EXIT"@) is None && pure_program(cmds) && old(self).fuel > program_cost(cmds, cmds.len() as int);
        let mut i: usize = 0;
        while i < program.commands.len()
            invariant
                self.wf(),
                program.commands@.len() == 0 ==> *self == *old(self),
                cmds == program.commands@,
                pure_e == (old(self).opts.errexit && !old(self).tested && old(self).unwatched() && old(
                    self,
                ).traps.lookup("EXIT"@) is None && pure_program(cmds) && old(self).fuel > program_cost(
                    cmds,
                    cmds.len() as int,
                )),
                pure_e ==> self.fuel >= old(self).fuel - program_cost(cmds, i as int) && self.same_settings(
                    &*old(self),
                ),
                pure_e && i < cmds.len() ==> errexit_program(cmds, 0) == errexit_program(cmds, i as int),
                pure_e && i == cmds.len() ==> errexit_program(cmds, 0) == self.exit_status@,
                i <= cmds.len(),
                pure == (!old(self).opts.errexit && old(self).unwatched() && old(self).traps.lookup("EXIT"@) is None
                    && pure_program(cmds) && old(self).fuel > program_cost(cmds, cmds.len() as int)),
                pure ==> self.fuel >= old(self).fuel - program_cost(cmds, i as int) && self.same_settings(&*old(self)),
                pure && i > 0 ==> self.exit_status@ == pure_status(cmds[i - 1]).unwrap(),
            decreases program.commands.len() - i,
        {
            proof {
                if pure || pure_e {
                    lemma_program_cost(cmds, i as int, cmds.len() as int);
                    assert(pure_status(cmds[i as int]) is Some);
                }
            }
            match self.eval_command(&program.commands[i]) {
                Ok(status) => {
                    self.exit_status = status;
                },
                Err(ShellError::Exit(n)) => {
                    self.exit_status = n;
                    self.run_exit_trap();
                    self.exit_status = n;
                    return n;
                },
                Err(ShellError::Cancelled) => {
                    let st = ExitStatus::new(130);
                    self.exit_status = st;
                    return st;
                },
                Err(ShellError::TimedOut) => {
                    let st = ExitStatus::new(130);
                    self.exit_status = st;
                    return st;
                },
                Err(e) => {
                    self.report_error(&e);
                    self.exit_status = ExitStatus::new(2);
                    self.run_exit_trap();
                    return self.exit_status;
                },
            }
            i += 1;
        }
        self.run_exit_trap();
        self.exit_status
    }

    /// Run the EXIT trap, if one is set (it is removed first).
    pub fn run_exit_trap(&mut self)
        requires
            old(self).wf(),
        ensures
            final(self).steps_from(&*old(self)),
            old(self).traps.lookup("EXIT"@) is None ==> final(self).vars == old(self).vars && final(self).exit_status
                == old(self).exit_status && final(self).functions == old(self).functions && final(self).fds@
                == old(self).fds@ && final(self).opts == old(self).opts && forall|k: Seq<char>| #[trigger] final(self).traps.lookup(k)
                == old(self).traps.lookup(k),
        decreases old(self).fuel,
    {
        if self.tick().is_err() {
            return;
        }
        let action = self.traps.remove("EXIT");
        if let Some(a) = action {
            let mut parser = Parser::new(a.as_str());
            if let Ok(program) = parser.parse() {
                let mut i: usize = 0;
                while i < program.commands.len()
                    invariant
                        self.wf(),
                        self.fuel < old(self).fuel,
                    decreases program.commands.len() - i,
                {
                    let _ = self.eval_command(&program.commands[i]);
                    i += 1;
                }
            }
        }
    }

    /// Set $0 and the positional parameters from `args` (its first element
    /// is $0).
    pub fn set_args(&mut self, args: &[&str])
        requires
            old(self).wf(),
        ensures
            final(self).wf(),
            args@.len() > 0 ==> final(self).vars.script_name() == args@[0]@,
            args@.len() == 0 ==> final(self).vars.script_name() == old(self).vars.script_name(),
            args@.len() > 0 ==> final(self).vars.params().len() == args@.len() - 1,
            args@.len() == 0 ==> final(self).vars.params().len() == 0,
            forall|k: int| 0 <= k < final(self).vars.params().len() ==> #[trigger] final(self).vars.params()[k]@
                == args@[k + 1]@,
            forall|n: Seq<char>| #[trigger] final(self).vars.lookup(n) == old(self).vars.lookup(n),
    {
        if args.len() > 0 {
            self.vars.set_arg0(args[0].to_owned());
        }
        let mut params: Vec<String> = Vec::new();
        let mut i: usize = 1;
        let ghost v1 = self.vars;
        while i < args.len()
            invariant
                self.wf(),
                self.vars == v1,
                1 <= i,
                i <= args@.len() || i == 1,
                params@.len() == i - 1,
                forall|k: int| 0 <= k < params@.len() ==> #[trigger] params@[k]@ == args@[k + 1]@,
            decreases args.len() - i,
        {
            params.push(args[i].to_owned());
            i += 1;
        }
        self.vars.set_params(params);
    }

    /// Set a variable; fails if it is readonly.
    pub fn set_var(&mut self, name: &str, value: &str) -> (r: Result<(), String>)
        requires
            old(self).wf(),
        ensures
            final(self).wf(),
            r is Err <==> old(self).vars.readonly(name@),
            r is Err ==> final(self).vars == old(self).vars,
            r is Ok ==> final(self).vars.value_of(name@) == Some(value@),
            r is Ok ==> forall|n: Seq<char>| n != name@ ==> #[trigger] final(self).vars.lookup(n) == old(
                self,
            ).vars.lookup(n),
            final(self).functions == old(self).functions,
            final(self).opts == old(self).opts,
            final(self).traps == old(self).traps,
            final(self).exit_status == old(self).exit_status,
            final(self).cwd == old(self).cwd,
    {
        self.vars.set(name, value)
    }

    /// A variable's value.
    pub fn get_var(&self, name: &str) -> (r: Option<&str>)
        ensures
            r matches Some(s) ==> self.vars.value_of(name@) == Some(s@),
            r is None ==> self.vars.value_of(name@) is None,
    {
        self.vars.get(name)
    }

    /// Evaluate a command node, returning its exit status; with `set -e`, a
    /// failing simple command, pipeline, subshell or background command
    /// outside a condition ends the shell (`Exit`).
    pub fn eval_command(&mut self, cmd: &Command) -> (r: Result<ExitStatus, ShellError>)
        requires
            old(self).wf(),
        ensures
            final(self).steps_from(&*old(self)),
            r matches Ok(s) ==> final(self).exit_status == s,
            final(self).opts.errexit && !final(self).tested && is_leaf_command(*cmd) ==> (r matches Ok(s)
                ==> s@ == 0),
            cmd is Subshell ==> final(self).same_context(&*old(self)),
            old(self).fuel > 1 && old(self).unwatched() && cmd is FuncDef ==> (r matches Ok(s) && s@ == 0),
            old(self).fuel == 0 ==> r == Err::<ExitStatus, ShellError>(ShellError::Cancelled) && *final(self) == *old(
                self,
            ),
            !old(self).opts.errexit && old(self).unwatched() && old(self).fuel > pure_cost(*cmd) ==> (pure_status(
                *cmd,
            ) matches Some(k) ==> (r matches Ok(s) && s@ == k) && final(self).fuel >= old(self).fuel - pure_cost(*cmd)
                + 1 && final(self).same_settings(&*old(self))),
            old(self).opts.errexit && old(self).unwatched() && old(self).fuel > pure_cost(*cmd) && pure_status(*cmd)
                is Some ==> exit_matches(r, pure_exit_run(*cmd, old(self).tested)) && final(self).fuel >= old(
                self).fuel - pure_cost(*cmd) + 1 && final(self).same_settings(&*old(self)),
            !old(self).opts.errexit && old(self).unwatched() ==> match *cmd {
                Command::Case { word, arms, .. } => pure_case(word, arms@) && old(self).fuel > case_cost(word, arms@)
                    + 2 ==> (r matches Ok(s) && s@ == case_status(word, arms@)),
                _ => true,
            },
        decreases old(self).fuel,
    {
        proof {
            if pure_status(*cmd) is Some {
                lemma_pure_cost(*cmd);
            }
            if let Command::Case { arms, .. } = cmd {
                if pure_case_arms(arms@) {
                    lemma_arms_cost(arms@, 0);
                }
            }
        }
        self.tick()?;
        self.poll_cancel()?;
        let status = self.eval_command_inner(cmd)?;
        self.exit_status = status;
        let is_bang = match cmd {
            Command::Pipeline { bang, .. } => *bang,
            _ => false,
        };
        let is_leaf = match cmd {
            Command::Simple { .. } | Command::Pipeline { .. } | Command::Subshell { .. } | Command::Background {
                ..
            } => true,
            _ => false,
        };
        if self.opts.errexit && is_leaf && !self.tested && !is_bang && status.code() != 0 {
            return Err(ShellError::Exit(status));
        }
        Ok(status)
    }

    /// Evaluate `cmd` as a condition: `set -e` does not apply inside.
    fn eval_tested(&mut self, cmd: &Command) -> (r: Result<ExitStatus, ShellError>)
        requires
            old(self).wf(),
        ensures
            final(self).steps_from(&*old(self)),
            final(self).tested == old(self).tested,
            r matches Ok(s) ==> final(self).exit_status == s,
            !old(self).opts.errexit && old(self).unwatched() && old(self).fuel > pure_cost(*cmd) + 1 ==> (
            pure_status(*cmd) matches Some(k) ==> (r matches Ok(s) && s@ == k) && final(self).fuel >= old(self).fuel
                - pure_cost(*cmd) && final(self).same_settings(&*old(self))),
            old(self).opts.errexit && old(self).unwatched() && old(self).fuel > pure_cost(*cmd) + 1 && pure_status(*cmd)
                is Some ==> exit_matches(r, pure_exit_run(*cmd, true)) && final(self).fuel >= old(self).fuel
                - pure_cost(*cmd) && final(self).same_settings(&*old(self)),
        decreases old(self).fuel,
    {
        proof {
            if pure_status(*cmd) is Some {
                lemma_pure_cost(*cmd);
            }
        }
        self.tick()?;
        let saved = self.tested;
        self.tested = true;
        let r = self.eval_command(cmd);
        self.tested = saved;
        r
    }

    /// The effect of a loop body's result on the loop.
    fn loop_step(&mut self, r: Result<ExitStatus, ShellError>) -> (s: LoopStep)
        requires
            old(self).wf(),
        ensures
            final(self).wf(),
            final(self).fuel == old(self).fuel,
            s == match r {
                Ok(st) => LoopStep::Next(st),
                Err(ShellError::Break(n)) => if n <= 1 {
                    LoopStep::Stop
                } else {
                    LoopStep::Leave(Err(ShellError::Break((n - 1) as usize)))
                },
                Err(ShellError::Continue(n)) => if n <= 1 {
                    LoopStep::Next(old(self).exit_status)
                } else {
                    LoopStep::Leave(Err(ShellError::Continue((n - 1) as usize)))
                },
                Err(e) => LoopStep::Leave(Err(e)),
            },
    {
        match r {
            Ok(st) => LoopStep::Next(st),
            Err(ShellError::Break(n)) => {
                if n <= 1 {
                    LoopStep::Stop
                } else {
                    LoopStep::Leave(Err(ShellError::Break(n - 1)))
                }
            },
            Err(ShellError::Continue(n)) => {
                if n <= 1 {
                    LoopStep::Next(self.exit_status)
                } else {
                    LoopStep::Leave(Err(ShellError::Continue(n - 1)))
                }
            },
            Err(e) => LoopStep::Leave(Err(e)),
        }
    }

    /// `while` (`until` when `until` is set) loops.
    fn eval_while(&mut self, cond: &Command, body: &Command, until: bool) -> (r: Result<ExitStatus, ShellError>)
        requires
            old(self).wf(),
        ensures
            final(self).steps_from(&*old(self)),
            !old(self).opts.errexit && old(self).unwatched() && old(self).fuel > pure_cost(*cond) + 4 && (pure_status(
                *cond,
            ) matches Some(c) && (c == 0) == until) ==> (r matches Ok(s) && s@ == 0),
        decreases old(self).fuel,
    {
        let ghost stops = !old(self).opts.errexit && old(self).unwatched() && old(self).fuel > pure_cost(*cond) + 4 && (
        pure_status(*cond) matches Some(c) && (c == 0) == until);
        proof {
            if pure_status(*cond) is Some {
                lemma_pure_cost(*cond);
            }
        }
        self.tick()?;
        if self.loop_depth < usize::MAX {
            self.loop_depth = self.loop_depth + 1;
        }
        let mut last = ExitStatus::new(0);
        let ghost mut first = true;
        let ghost f1 = self.fuel;
        loop
            invariant_except_break
                self.wf(),
                self.fuel < old(self).fuel,
                stops == (!old(self).opts.errexit && old(self).unwatched() && old(self).fuel > pure_cost(*cond) + 4 && (
                pure_status(*cond) matches Some(c) && (c == 0) == until)),
                first ==> self.fuel == f1 && f1 == old(self).fuel - 1 && self.same_settings(&*old(self)) && last@ == 0,
                !first ==> !stops,
                pure_status(*cond) is Some ==> pure_cost(*cond) >= 10,
            ensures
                self.wf(),
                self.fuel < old(self).fuel,
                stops ==> last@ == 0,
            decreases self.fuel,
        {
            if let Err(e) = self.tick() {
                self.leave_loop();
                return Err(e);
            }
            if let Err(e) = self.poll_cancel() {
                self.leave_loop();
                return Err(e);
            }
            let c = match self.eval_tested(cond) {
                Ok(c) => c,
                Err(e) => {
                    self.leave_loop();
                    return Err(e);
                },
            };
            self.exit_status = c;
            if (c.code() == 0) == until {
                break;
            }
            proof {
                first = false;
            }
            let r = self.eval_command(body);
            match self.loop_step(r) {
                LoopStep::Next(st) => {
                    last = st;
                },
                LoopStep::Stop => {
                    break;
                },
                LoopStep::Leave(res) => {
                    self.leave_loop();
                    return res;
                },
            }
        }
        self.leave_loop();
        Ok(last)
    }

    fn leave_loop(&mut self)
        requires
            old(self).wf(),
        ensures
            final(self).wf(),
            final(self).fuel == old(self).fuel,
            final(self).loop_depth == if old(self).loop_depth > 0 {
                old(self).loop_depth - 1
            } else {
                0
            },
            final(self).vars == old(self).vars,
            final(self).exit_status == old(self).exit_status,
    {
        if self.loop_depth > 0 {
            self.loop_depth = self.loop_depth - 1;
        }
    }

    /// `for var in words; do body; done`.
    fn eval_for(&mut self, var: &String, words: &Option<Vec<Word>>, body: &Command) -> (r: Result<
        ExitStatus,
        ShellError,
    >)
        requires
            old(self).wf(),
        ensures
            final(self).steps_from(&*old(self)),
            old(self).fuel > 0 && ((words matches Some(ws) && ws@.len() == 0) || (words is None
                && old(self).vars.params().len() == 0)) ==> (r matches Ok(s) && s@ == 0),
            old(self).fuel > 1 && old(self).unwatched() && words is None && old(self).vars.params().len() > 0
                && old(self).vars.readonly(var@) ==> (r matches Ok(s) && s@ == 1),
        decreases old(self).fuel,
    {
        self.tick()?;
        let list: Vec<String> = match words {
            Some(ws) => {
                let mut out: Vec<String> = Vec::new();
                let mut i: usize = 0;
                while i < ws.len()
                    invariant
                        self.wf(),
                        self.fuel < old(self).fuel,
                        i == 0 ==> out@.len() == 0,
                        i <= ws@.len(),
                        *words == Some(*ws),
                    decreases ws.len() - i,
                {
                    let fields = self.expand_fields(&ws[i])?;
                    append_strings(&mut out, &fields);
                    i += 1;
                }
                assert(ws@.len() == 0 ==> out@.len() == 0);
                out
            },
            None => {
                let ps = self.vars.params_vec().clone();
                assert(ps@.len() == old(self).vars.params().len());
                ps
            },
        };
        if self.loop_depth < usize::MAX {
            self.loop_depth = self.loop_depth + 1;
        }
        let mut last = ExitStatus::new(0);
        let mut k: usize = 0;
        let ghost v0 = self.vars;
        let ghost f0 = self.fuel;
        assert((words matches Some(ws) && ws@.len() == 0) || (words is None && old(self).vars.params().len() == 0)
            ==> list@.len() == 0);
        assert(words is None ==> list@.len() == old(self).vars.params().len() && v0 == old(self).vars);
        while k < list.len()
            invariant_except_break
                self.wf(),
                self.fuel < old(self).fuel,
                (words matches Some(ws) && ws@.len() == 0) || (words is None && old(self).vars.params().len() == 0)
                    ==> list@.len() == 0,
                words is None ==> list@.len() == old(self).vars.params().len() && v0 == old(self).vars,
                words is None ==> f0 + 1 == old(self).fuel,
                k <= list@.len(),
                k == 0 ==> self.vars == v0 && self.fuel == f0 && last@ == 0,
                k == 0 && words is None ==> self.unwatched() == old(self).unwatched(),
                k > 0 ==> !(words is None && old(self).vars.readonly(var@)),
            ensures
                self.wf(),
                self.fuel < old(self).fuel,
                list@.len() == 0 ==> last@ == 0,
                !(words is None && old(self).vars.params().len() > 0 && old(self).vars.readonly(var@)),
            decreases list.len() - k,
        {
            if let Err(e) = self.tick() {
                self.leave_loop();
                return Err(e);
            }
            if let Err(e) = self.poll_cancel() {
                self.leave_loop();
                return Err(e);
            }
            if let Err(m) = self.vars.set(var.as_str(), list[k].as_str()) {
                self.err_msg(m.as_str());
                self.leave_loop();
                return Ok(ExitStatus::new(1));
            }
            let r = self.eval_command(body);
            match self.loop_step(r) {
                LoopStep::Next(st) => {
                    last = st;
                },
                LoopStep::Stop => {
                    break;
                },
                LoopStep::Leave(res) => {
                    self.leave_loop();
                    return res;
                },
            }
            k += 1;
        }
        self.leave_loop();
        Ok(last)
    }

    /// `case word in pattern) body;; ... esac`: the body of the first arm
    /// with a pattern that matches.
    fn eval_case(&mut self, word: &Word, arms: &Vec<CaseArm>) -> (r: Result<ExitStatus, ShellError>)
        requires
            old(self).wf(),
        ensures
            final(self).steps_from(&*old(self)),
            !old(self).opts.errexit && old(self).unwatched() && pure_case(*word, arms@) && old(self).fuel
                > case_cost(*word, arms@) ==> (r matches Ok(s) && s@ == case_status(*word, arms@)),
        decreases old(self).fuel,
    {
        let ghost pc = !old(self).opts.errexit && old(self).unwatched() && pure_case(*word, arms@) && old(self).fuel
            > case_cost(*word, arms@);
        proof {
            if pc {
                lemma_arms_cost(arms@, 0);
            }
        }
        self.tick()?;
        let value = self.expand_string(word)?;
        let ghost v = word_value(*word);
        proof {
            if pc {
                assert(value@ == v);
            }
        }
        let mut a: usize = 0;
        while a < arms.len()
            invariant
                self.wf(),
                self.fuel < old(self).fuel,
                a <= arms@.len(),
                pc == (!old(self).opts.errexit && old(self).unwatched() && pure_case(*word, arms@) && old(self).fuel
                    > case_cost(*word, arms@)),
                pc ==> value@ == v && v == word_value(*word) && self.fuel > arms_cost(arms@, a as int) && self.same_settings(
                    &*old(self),
                ) && first_matching_arm(v, arms@, 0) == first_matching_arm(v, arms@, a as int),
            decreases arms.len() - a,
        {
            let arm = &arms[a];
            proof {
                if pc {
                    lemma_arms_cost(arms@, a + 1);
                    if arm.body is Some {
                        lemma_pure_cost(arm.body.unwrap());
                    }
                    assert(arms_cost(arms@, a as int) == patterns_cost(arm.patterns@, 0) + match arm.body {
                        Some(b) => pure_cost(b),
                        None => 0,
                    } + arms_cost(arms@, a + 1));
                }
            }
            let mut p: usize = 0;
            while p < arm.patterns.len()
                invariant
                    self.wf(),
                    self.fuel < old(self).fuel,
                    a < arms@.len(),
                    *arm == arms@[a as int],
                    p <= arm.patterns@.len(),
                    pc == (!old(self).opts.errexit && old(self).unwatched() && pure_case(*word, arms@) && old(
                        self,
                    ).fuel > case_cost(*word, arms@)),
                    pc ==> value@ == v && v == word_value(*word) && self.fuel > patterns_cost(arm.patterns@, p as int)
                        + match arm.body {
                        Some(b) => pure_cost(b),
                        None => 0,
                    } + arms_cost(arms@, a + 1) && self.same_settings(&*old(self)) && first_matching_arm(v, arms@, 0)
                        == first_matching_arm(v, arms@, a as int),
                    pc ==> forall|j: int| 0 <= j < p ==> !crate::glob::spec_fnmatch(
                        pattern_text(#[trigger] arm.patterns@[j]),
                        0,
                        v,
                        0,
                    ),
                decreases arm.patterns.len() - p,
            {
                proof {
                    if pc {
                        assert(static_word(arm.patterns@[p as int]));
                        lemma_patterns_cost(arm.patterns@, p + 1);
                        lemma_arms_cost(arms@, a + 1);
                        if arm.body is Some {
                            lemma_pure_cost(arm.body.unwrap());
                        }
                        assert(patterns_cost(arm.patterns@, p as int) == arm.patterns@[p as int].parts@.len() + 3
                            + patterns_cost(arm.patterns@, p + 1));
                    }
                }
                let pat = self.expand_pattern(&arm.patterns[p])?;
                proof {
                    if pc {
                        assert(pat@ == pattern_text(arm.patterns@[p as int]));
                    }
                }
                if crate::glob::fnmatch(pat.as_str(), value.as_str()) {
                    proof {
                        if pc {
                            assert(crate::glob::spec_fnmatch(pattern_text(arms@[a as int].patterns@[p as int]), 0, v, 0));
                            assert(arm_matches(v, arms@[a as int]));
                            assert(first_matching_arm(v, arms@, a as int) == Some(a as int));
                            if arm.body is Some {
                                assert(pure_status(arm.body.unwrap()) is Some);
                                lemma_pure_cost(arm.body.unwrap());
                            }
                        }
                    }
                    return match &arm.body {
                        Some(b) => self.eval_command(b),
                        None => Ok(ExitStatus::new(0)),
                    };
                }
                p += 1;
            }
            proof {
                if pc {
                    assert(!arm_matches(v, arms@[a as int]));
                    assert(first_matching_arm(v, arms@, a as int) == first_matching_arm(v, arms@, a + 1));
                    lemma_arms_cost(arms@, a + 1);
                    if arm.body is Some {
                        lemma_pure_cost(arm.body.unwrap());
                    }
                }
            }
            a += 1;
        }
        Ok(ExitStatus::new(0))
    }

    /// Evaluate one command node, without the `set -e` check.
    #[verifier::rlimit(100)]
    fn eval_command_inner(&mut self, cmd: &Command) -> (r: Result<ExitStatus, ShellError>)
        requires
            old(self).wf(),
        ensures
            final(self).steps_from(&*old(self)),
            old(self).fuel > 0 ==> match *cmd {
                Command::FuncDef { name, .. } => (r matches Ok(s) && s@ == 0)
                    && final(self).functions.defined(name@) && forall|n: Seq<char>|
                    n != name@ ==> #[trigger] final(self).functions.defined(n) == old(self).functions.defined(
                        n,
                    ),
                Command::BraceGroup { .. } => r is Ok ==> final(self).fds@ == old(self).fds@,
                _ => true,
            },
            match *cmd {
                Command::And(..) | Command::Or(..) | Command::Sequence(..) | Command::BraceGroup { .. } => r matches Ok(
                    s,
                ) ==> s == final(self).exit_status,
                Command::If { else_part, .. } => r matches Ok(s) ==> s == final(self).exit_status || (else_part is None
                    && s@ == 0),
                Command::Not(..) => r matches Ok(s) ==> s@ == (if final(self).exit_status@ == 0 {
                    1i32
                } else {
                    0i32
                }),
                _ => true,
            },
            cmd is Subshell ==> final(self).same_context(&*old(self)),
            !old(self).opts.errexit && old(self).unwatched() && old(self).fuel > pure_cost(*cmd) - 1 ==> (
            pure_status(*cmd) matches Some(k) ==> (r matches Ok(s) && s@ == k) && final(self).fuel >= old(self).fuel
                - pure_cost(*cmd) + 2 && final(self).same_settings(&*old(self))),
            old(self).opts.errexit && old(self).unwatched() && old(self).fuel > pure_cost(*cmd) - 1 && pure_status(*cmd)
                is Some ==> exit_matches(r, pure_exit_inner(*cmd, old(self).tested)) && final(self).fuel >= old(
                self).fuel - pure_cost(*cmd) + 2 && final(self).same_settings(&*old(self)),
            !old(self).opts.errexit && old(self).unwatched() ==> match *cmd {
                Command::Case { word, arms, .. } => pure_case(word, arms@) && old(self).fuel > case_cost(word, arms@)
                    + 1 ==> (r matches Ok(s) && s@ == case_status(word, arms@)),
                _ => true,
            },
        decreases old(self).fuel,
    {
        proof {
            if pure_status(*cmd) is Some {
                lemma_pure_cost(*cmd);
            }
            if let Command::Case { arms, .. } = cmd {
                if pure_case_arms(arms@) {
                    lemma_arms_cost(arms@, 0);
                }
            }
        }
        self.tick()?;
        match cmd {
            Command::Simple { assigns, args, redirs, span } => self.eval_simple(assigns, args, redirs, *span),
            Command::Pipeline { commands, bang, .. } => {
                let saved = self.tested;
                if *bang {
                    self.tested = true;
                }
                let r = self.eval_pipeline(commands);
                self.tested = saved;
                let status = r?;
                Ok(
                    if *bang {
                        status.inverted()
                    } else {
                        status
                    },
                )
            },
            Command::And(left, right) => {
                let status = self.eval_tested(left)?;
                self.exit_status = status;
                if status.code() == 0 {
                    self.eval_command(right)
                } else {
                    Ok(status)
                }
            },
            Command::Or(left, right) => {
                let status = self.eval_tested(left)?;
                self.exit_status = status;
                if status.code() != 0 {
                    self.eval_command(right)
                } else {
                    Ok(status)
                }
            },
            Command::Sequence(left, right) => {
                let status = self.eval_command(left)?;
                self.exit_status = status;
                self.eval_command(right)
            },
            Command::Subshell { body, redirs, .. } => self.eval_subshell(body, redirs),
            Command::BraceGroup { body, redirs, .. } => {
                let saved = clone_fds(&self.fds);
                self.setup_redirections(redirs)?;
                let r = self.eval_command(body);
                self.fds = saved;
                r
            },
            Command::If { cond, then_part, else_part, .. } => {
                let c = self.eval_tested(cond)?;
                self.exit_status = c;
                if c.code() == 0 {
                    self.eval_command(then_part)
                } else {
                    match else_part {
                        Some(e) => self.eval_command(e),
                        None => Ok(ExitStatus::new(0)),
                    }
                }
            },
            Command::While { cond, body, .. } => self.eval_while(cond, body, false),
            Command::Until { cond, body, .. } => self.eval_while(cond, body, true),
            Command::For { var, words, body, .. } => self.eval_for(var, words, body),
            Command::Case { word, arms, .. } => self.eval_case(word, arms),
            Command::FuncDef { name, body, .. } => {
                self.functions.insert(name.clone(), clone_command(body));
                Ok(ExitStatus::new(0))
            },
            Command::Not(inner) => {
                let status = self.eval_tested(inner)?;
                Ok(status.inverted())
            },
            Command::Background { cmd, redirs } => self.eval_background(cmd, redirs),
        }
    }

    /// Evaluate a simple command: expand its words, apply its redirections,
    /// then run a builtin, a function or an external program.
    fn eval_simple(&mut self, assigns: &Vec<Assignment>, args: &Vec<Word>, redirs: &Vec<Redir>, span: Span) -> (r:
        Result<ExitStatus, ShellError>)
        requires
            old(self).wf(),
        ensures
            final(self).steps_from(&*old(self)),
            assigns@.len() == 0 && redirs@.len() == 0 && args@.len() == 1 && old(self).unwatched()
                && old(self).fuel > args@[0].parts@.len() + 6 ==> (pure_word(args@[0]) matches Some(k) ==> (
            r matches Ok(s) && s@ == k) && final(self).fuel >= old(self).fuel - args@[0].parts@.len() - 6
                && final(self).same_settings(&*old(self))),
        decreases old(self).fuel,
    {
        self.tick()?;
        self.poll_cancel()?;
        let ghost pure = assigns@.len() == 0 && redirs@.len() == 0 && args@.len() == 1 && old(self).unwatched()
            && old(self).fuel > args@[0].parts@.len() + 6 && pure_word(args@[0]) is Some;
        let ghost f0 = self.fuel;
        let mut expanded: Vec<String> = Vec::new();
        let mut i: usize = 0;
        while i < args.len()
            invariant
                self.wf(),
                self.fuel < old(self).fuel,
                i <= args@.len(),
                pure ==> f0 == old(self).fuel - 1 && self.same_settings(&*old(self)),
                pure == (assigns@.len() == 0 && redirs@.len() == 0 && args@.len() == 1 && old(self).unwatched()
                    && old(self).fuel > args@[0].parts@.len() + 6 && pure_word(args@[0]) is Some),
                pure && i == 0 ==> self.fuel == f0 && expanded@.len() == 0,
                pure && i == 1 ==> self.fuel == f0 - 2 - args@[0].parts@.len() && expanded@.len() == 1
                    && expanded@[0]@ == crate::expand::spec_remove_escapes(
                    crate::expand::texts_concat(
                        crate::expand::static_views(args@[0].parts@, false, args@[0].parts@.len() as int).unwrap(),
                    ),
                ),
            decreases args.len() - i,
        {
            proof {
                if pure {
                    assert(i == 0);
                    let fs = crate::expand::static_views(args@[0].parts@, false, args@[0].parts@.len() as int).unwrap();
                    assert(fs.len() > 0 && !crate::glob::glob_chars_from(crate::expand::texts_concat(fs), 0));
                }
            }
            let fields = self.expand_fields(&args[i])?;
            proof {
                if pure {
                    let fs = crate::expand::static_views(args@[0].parts@, false, args@[0].parts@.len() as int).unwrap();
                    assert(old(self).fuel - 1 > args@[0].parts@.len() + 1);
                    assert(crate::expand::field_views(fields@) == seq![crate::expand::spec_remove_escapes(crate::expand::texts_concat(fs))]);
                    assert(fields@.len() == 1);
                    assert(expanded@ + fields@ =~= seq![fields@[0]]);
                }
            }
            append_strings(&mut expanded, &fields);
            proof {
                if pure {
                    let fs = crate::expand::static_views(args@[0].parts@, false, args@[0].parts@.len() as int).unwrap();
                    assert(self.fuel == f0 - 2 - args@[0].parts@.len());
                    assert(expanded@.len() == 1);
                    assert(crate::expand::field_views(fields@)[0] == fields@[0]@);
                    assert(expanded@[0] == fields@[0]);
                    assert(expanded@[0]@ == crate::expand::spec_remove_escapes(crate::expand::texts_concat(fs)));
                }
            }
            i += 1;
        }
        if expanded.len() == 0 {
            let mut words: Vec<String> = Vec::new();
            let mut values: Vec<String> = Vec::new();
            let mut k: usize = 0;
            while k < assigns.len()
                invariant
                    self.wf(),
                    self.fuel < old(self).fuel,
                decreases assigns.len() - k,
            {
                let value = self.expand_string(&assigns[k].value)?;
                let mut w = assigns[k].name.clone();
                crate::text::push_char(&mut w, '=');
                w.append(value.as_str());
                words.push(w);
                values.push(value);
                k += 1;
            }
            if self.opts.xtrace && assigns.len() > 0 {
                let prefix = self.xtrace_prefix();
                let t = trace_line(prefix.as_str(), &words);
                self.write_err(t.as_str());
            }
            let saved = clone_fds(&self.fds);
            let red = self.setup_redirections(redirs);
            self.fds = saved;
            red?;
            let mut j: usize = 0;
            while j < assigns.len() && j < values.len()
                invariant
                    self.wf(),
                    self.fuel < old(self).fuel,
                decreases assigns.len() - j,
            {
                if let Err(msg) = self.vars.set(assigns[j].name.as_str(), values[j].as_str()) {
                    return Err(ShellError::Runtime { msg, span });
                }
                j += 1;
            }
            return Ok(self.exit_status);
        }
        let ghost sx = *self;
        if self.opts.xtrace {
            let prefix = self.xtrace_prefix();
            let mut words: Vec<String> = Vec::new();
            let mut k: usize = 0;
            while k < assigns.len()
                invariant
                    self.wf(),
                    self.fuel < old(self).fuel,
                    k == 0 ==> *self == sx,
                    k <= assigns@.len(),
                decreases assigns.len() - k,
            {
                if let Ok(value) = self.expand_string(&assigns[k].value) {
                    let mut w = assigns[k].name.clone();
                    crate::text::push_char(&mut w, '=');
                    w.append(value.as_str());
                    words.push(w);
                }
                k += 1;
            }
            append_strings(&mut words, &expanded);
            let t = trace_line(prefix.as_str(), &words);
            self.write_err(t.as_str());
        }
        proof {
            if pure {
                assert(self.fuel == f0 - 2 - args@[0].parts@.len());
                assert(self.same_settings(&*old(self)));
            }
        }
        let is_exec = str_eq(expanded[0].as_str(), "exec");
        let saved = clone_fds(&self.fds);
        if let Err(e) = self.setup_redirections(redirs) {
            self.fds = saved;
            return Err(e);
        }
        let name = expanded[0].clone();
        let result = match self.try_builtin(name.as_str(), &expanded, span) {
            Err(e) => Err(e),
            Ok(Some(status)) => Ok(status),
            Ok(None) => {
                let body = match self.functions.get(name.as_str()) {
                    Some(b) => Some(clone_command(b)),
                    None => None,
                };
                match body {
                    Some(b) => self.eval_function(&b, &expanded, assigns),
                    None => self.eval_external(&expanded, assigns),
                }
            },
        };
        if !is_exec {
            self.fds = saved;
        }
        result
    }

    /// The prefix of `set -x` trace lines: $PS4, or "+ ".
    fn xtrace_prefix(&self) -> (r: String)
        ensures
            r@ == match self.vars.value_of(seq!['P', 'S', '4']) {
                Some(p) => p,
                None => seq!['+', ' '],
            },
    {
        proof {
            reveal_strlit("PS4");
            reveal_strlit("+ ");
            assert("PS4"@ =~= seq!['P', 'S', '4']);
            assert("+ "@ =~= seq!['+', ' ']);
        }
        match self.vars.get("PS4") {
            Some(p) => p.to_owned(),
            None => "+ ".to_owned(),
        }
    }

    /// Call a function: the arguments become the positional parameters, the
    /// assignments are local to the call, and `return` ends it.
    fn eval_function(&mut self, body: &Command, args: &Vec<String>, assigns: &Vec<Assignment>) -> (r: Result<
        ExitStatus,
        ShellError,
    >)
        requires
            old(self).wf(),
            args@.len() >= 1,
        ensures
            final(self).steps_from(&*old(self)),
            final(self).vars.params() == old(self).vars.params(),
        decreases old(self).fuel,
    {
        self.tick()?;
        let saved_params = self.vars.params_vec().clone();
        assert(saved_params@ =~= old(self).vars.params());
        let mut params: Vec<String> = Vec::new();
        let mut i: usize = 1;
        while i < args.len()
            invariant
                1 <= i,
            decreases args.len() - i,
        {
            params.push(args[i].clone());
            i += 1;
        }
        self.vars.set_params(params);
        self.vars.push_scope();
        let mut k: usize = 0;
        while k < assigns.len()
            invariant
                saved_params@ == old(self).vars.params(),
                self.wf(),
                self.fuel < old(self).fuel,
            decreases assigns.len() - k,
        {
            let value = match self.expand_string(&assigns[k].value) {
                Ok(v) => v,
                Err(e) => {
                    self.vars.pop_scope();
                    self.vars.set_params(saved_params);
                    return Err(e);
                },
            };
            self.vars.make_local(assigns[k].name.as_str());
            let _ = self.vars.set(assigns[k].name.as_str(), value.as_str());
            k += 1;
        }
        let result = match self.eval_command(body) {
            Ok(s) => Ok(s),
            Err(ShellError::Return(n)) => Ok(n),
            Err(e) => Err(e),
        };
        self.vars.pop_scope();
        self.vars.set_params(saved_params);
        result
    }

    /// Run an external program through the host, with the exported
    /// variables and the command's assignments as its environment.
    pub fn eval_external(&mut self, args: &Vec<String>, assigns: &Vec<Assignment>) -> (r: Result<
        ExitStatus,
        ShellError,
    >)
        requires
            old(self).wf(),
            args@.len() >= 1,
        ensures
            final(self).steps_from(&*old(self)),
            old(self).fuel > 0 && assigns@.len() == 0 ==> r is Ok,
        decreases old(self).fuel,
    {
        self.tick()?;
        let mut pairs: Vec<(String, String)> = Vec::new();
        let mut k: usize = 0;
        while k < assigns.len()
            invariant
                self.wf(),
                self.fuel < old(self).fuel,
            decreases assigns.len() - k,
        {
            let value = self.expand_string(&assigns[k].value)?;
            pairs.push((assigns[k].name.clone(), value));
            k += 1;
        }
        let env = self.vars.env_for_command(&pairs);
        let stdin = self.take_input();
        let cwd = self.cwd.clone();
        let outcome = self.host.run_external(args, &env, &cwd, stdin);
        self.write_fd(1, &outcome.stdout);
        self.write_fd(2, &outcome.stderr);
        match outcome.status {
            Some(code) => Ok(crate::error::status_from(code)),
            None => {
                let mut m = args[0].clone();
                m.append(": not found");
                self.err_msg(m.as_str());
                Ok(ExitStatus::new(127))
            },
        }
    }

    /// A pipeline: each stage runs in a subshell, its output feeding the
    /// next stage's input; the status is the last stage's (with pipefail,
    /// the highest nonzero status of any stage, when there is one).
    fn eval_pipeline(&mut self, commands: &Vec<Command>) -> (r: Result<ExitStatus, ShellError>)
        requires
            old(self).wf(),
        ensures
            final(self).steps_from(&*old(self)),
            commands@.len() > 0 ==> (r matches Ok(s) ==> exists|cs: Seq<ExitStatus>|
                #![trigger pipeline_code(cs, old(self).opts.pipefail)]
                cs.len() == commands@.len() && cs.last() == final(self).exit_status && s@ == pipeline_code(
                    cs,
                    old(self).opts.pipefail,
                )),
            !old(self).opts.errexit && old(self).unwatched() && pure_program(commands@) && old(self).fuel > program_cost(
                commands@,
                commands@.len() as int,
            ) + 1 ==> (r matches Ok(s) && exists|cs: Seq<ExitStatus>|
                #![trigger pipeline_code(cs, old(self).opts.pipefail)]
                cs.len() == commands@.len() && (forall|j: int| 0 <= j < cs.len() ==> #[trigger] cs[j]@ == pure_status(
                    commands@[j],
                ).unwrap()) && s@ == pipeline_code(cs, old(self).opts.pipefail)),
        decreases old(self).fuel,
    {
        let ghost pure_p = !old(self).opts.errexit && old(self).unwatched() && pure_program(commands@) && old(
            self,
        ).fuel > program_cost(commands@, commands@.len() as int) + 1;
        proof {
            if pure_p {
                lemma_program_cost(commands@, 0, commands@.len() as int);
                assert(pure_status(commands@[0]) is Some);
                lemma_pure_cost(commands@[0]);
            }
        }
        self.tick()?;
        if commands.len() == 1 {
            proof {
                if pure_p {
                    assert(program_cost(commands@, 1) == pure_cost(commands@[0]));
                }
            }
            let r = self.eval_command(&commands[0]);
            proof {
                if let Ok(s) = r {
                    let cs = seq![s];
                    assert(max_code(cs.drop_last()) == 0);
                    assert(s@ == pipeline_code(cs, old(self).opts.pipefail));
                    assert(pure_p ==> cs[0]@ == pure_status(commands@[0]).unwrap());
                }
            }
            return r;
        }
        let mut input: Option<Vec<u8>> = None;
        let mut last = ExitStatus::new(0);
        let mut failed = ExitStatus::new(0);
        let ghost mut cs: Seq<ExitStatus> = Seq::empty();
        let mut i: usize = 0;
        while i < commands.len()
            invariant
                self.wf(),
                self.fuel < old(self).fuel,
                i <= commands@.len(),
                cs.len() == i,
                self.opts == old(self).opts,
                failed@ == max_code(cs),
                i > 0 ==> last == cs.last() && self.exit_status == last,
                i == 0 ==> last@ == 0,
                pure_p == (!old(self).opts.errexit && old(self).unwatched() && pure_program(commands@) && old(
                    self,
                ).fuel > program_cost(commands@, commands@.len() as int) + 1),
                pure_p ==> self.fuel >= old(self).fuel - 1 - program_cost(commands@, i as int) && self.unwatched(),
                pure_p ==> forall|j: int| 0 <= j < i ==> #[trigger] cs[j]@ == pure_status(commands@[j]).unwrap(),
            decreases commands.len() - i,
        {
            proof {
                if pure_p {
                    lemma_program_cost(commands@, i as int, commands@.len() as int);
                    assert(pure_status(commands@[i as int]) is Some);
                    lemma_pure_cost(commands@[i as int]);
                }
            }
            let st = self.save_state();
            if let Some(data) = input {
                let idx = self.new_input(data);
                self.fds.set(0, Fd::Reader(idx));
            }
            let is_last = i + 1 == commands.len();
            let saved_out = if is_last {
                None
            } else {
                Some(self.begin_capture())
            };
            let r = self.eval_command(&commands[i]);
            let status = match r {
                Ok(s) => s,
                Err(ShellError::Exit(n)) => n,
                Err(ShellError::Cancelled) => {
                    if let Some(f) = saved_out {
                        let _ = self.end_capture(f);
                    }
                    self.restore_state(st);
                    return Err(ShellError::Cancelled);
                },
                Err(ShellError::TimedOut) => {
                    if let Some(f) = saved_out {
                        let _ = self.end_capture(f);
                    }
                    self.restore_state(st);
                    return Err(ShellError::TimedOut);
                },
                Err(e) => {
                    self.report_error(&e);
                    ExitStatus::new(1)
                },
            };
            input = match saved_out {
                Some(f) => Some(self.end_capture(f)),
                None => None,
            };
            self.restore_state(st);
            self.exit_status = status;
            proof {
                assert(cs.push(status).drop_last() == cs);
            }
            if status.code() > failed.code() {
                failed = status;
            }
            last = status;
            proof {
                cs = cs.push(status);
                if pure_p {
                    assert(cs[i as int]@ == pure_status(commands@[i as int]).unwrap());
                }
            }
            i += 1;
        }
        let res = if self.opts.pipefail && failed.code() != 0 {
            failed
        } else {
            last
        };
        proof {
            assert(self.opts.pipefail == old(self).opts.pipefail);
            assert(failed@ == max_code(cs));
            if cs.len() > 0 {
                assert(last@ == cs.last()@);
            } else {
                assert(max_code(cs) == 0);
            }
            assert(res@ == pipeline_code(cs, old(self).opts.pipefail));
        }
        Ok(res)
    }

    /// `( body )`: run in a copy of the shell; `exit` ends only the copy.
    fn eval_subshell(&mut self, body: &Command, redirs: &Vec<Redir>) -> (r: Result<ExitStatus, ShellError>)
        requires
            old(self).wf(),
        ensures
            final(self).steps_from(&*old(self)),
            final(self).same_context(&*old(self)),
        decreases old(self).fuel,
    {
        self.tick()?;
        let st = self.save_state();
        let saved_exit = self.traps.remove("EXIT");
        let status = match self.setup_redirections(redirs) {
            Err(e) => {
                self.report_error(&e);
                ExitStatus::new(1)
            },
            Ok(()) => match self.eval_command(body) {
                Ok(s) => s,
                Err(ShellError::Exit(n)) => n,
                Err(ShellError::Cancelled) => {
                    self.restore_state(st);
                    return Err(ShellError::Cancelled);
                },
                Err(ShellError::TimedOut) => {
                    self.restore_state(st);
                    return Err(ShellError::TimedOut);
                },
                Err(e) => {
                    self.report_error(&e);
                    ExitStatus::new(1)
                },
            },
        };
        self.exit_status = status;
        self.run_exit_trap();
        self.restore_state(st);
        Ok(status)
    }

    /// `cmd &`: run to completion in a copy of the shell; `$!` names it.
    fn eval_background(&mut self, cmd: &Command, redirs: &Vec<Redir>) -> (r: Result<ExitStatus, ShellError>)
        requires
            old(self).wf(),
        ensures
            final(self).steps_from(&*old(self)),
            final(self).same_context(&*old(self)),
            r is Ok ==> (r matches Ok(s) && s@ == 0) && final(self).last_bg_pid is Some,
        decreases old(self).fuel,
    {
        self.tick()?;
        let st = self.save_state();
        let ok = self.setup_redirections(redirs).is_ok();
        if ok {
            match self.eval_command(cmd) {
                Err(ShellError::Cancelled) => {
                    self.restore_state(st);
                    return Err(ShellError::Cancelled);
                },
                Err(ShellError::TimedOut) => {
                    self.restore_state(st);
                    return Err(ShellError::TimedOut);
                },
                _ => {},
            }
        }
        self.restore_state(st);
        let n = if self.pid < u32::MAX {
            self.pid + 1
        } else {
            self.pid
        };
        self.last_bg_pid = Some(n);
        Ok(ExitStatus::new(0))
    }

    /// Command substitution: run `cmd` in a copy of the shell and return its
    /// output without trailing newlines; `$?` becomes its status.
    pub fn command_subst(&mut self, cmd: &Command) -> (r: Result<String, ShellError>)
        requires
            old(self).wf(),
        ensures
            final(self).steps_from(&*old(self)),
            final(self).same_context(&*old(self)),
            r matches Ok(t) ==> t@.len() == 0 || t@.last() != '\n',
            old(self).fuel > 0 && !old(self).subst_enabled ==> (r matches Ok(t) && t@.len() == 0),
        decreases old(self).fuel,
    {
        self.tick()?;
        if !self.subst_enabled {
            return Ok(String::new());
        }
        let st = self.save_state();
        let saved_exit = self.traps.remove("EXIT");
        let saved_out = self.begin_capture();
        let status = match self.eval_command(cmd) {
            Ok(s) => s,
            Err(ShellError::Exit(n)) => n,
            Err(ShellError::Cancelled) => {
                let _ = self.end_capture(saved_out);
                self.restore_state(st);
                return Err(ShellError::Cancelled);
            },
            Err(ShellError::TimedOut) => {
                let _ = self.end_capture(saved_out);
                self.restore_state(st);
                return Err(ShellError::TimedOut);
            },
            Err(e) => {
                self.report_error(&e);
                ExitStatus::new(1)
            },
        };
        self.exit_status = status;
        self.run_exit_trap();
        let out = self.end_capture(saved_out);
        self.restore_state(st);
        self.exit_status = status;
        let text = bytes_to_str(out.as_slice());
        Ok(strip_trailing_newlines(text.as_str()))
    }

    /// Parse `source` and run it in this shell (for `eval` and `.`); `exit`,
    /// `return`, `break` and `continue` pass through.
    pub fn run_inline(&mut self, source: &str) -> (r: Result<ExitStatus, ShellError>)
        requires
            old(self).wf(),
        ensures
            final(self).steps_from(&*old(self)),
        decreases old(self).fuel,
    {
        self.tick()?;
        let mut parser = Parser::new(source);
        let program = match parser.parse() {
            Ok(p) => p,
            Err(e) => {
                self.report_error(&e);
                return Ok(ExitStatus::new(2));
            },
        };
        let mut status = ExitStatus::new(0);
        let mut i: usize = 0;
        while i < program.commands.len()
            invariant
                self.wf(),
                self.fuel < old(self).fuel,
            decreases program.commands.len() - i,
        {
            status = self.eval_command(&program.commands[i])?;
            self.exit_status = status;
            i += 1;
        }
        Ok(status)
    }
}

/// A copy of trap entries.
fn clone_trap_entries(e: &Vec<(String, Option<String>)>) -> (r: Vec<(String, Option<String>)>)
    ensures
        r@ == e@,
{
    let mut out: Vec<(String, Option<String>)> = Vec::new();
    let mut i: usize = 0;
    while i < e.len()
        invariant
            i <= e@.len(),
            out@ == e@.take(i as int),
        decreases e.len() - i,
    {
        let v = match &e[i].1 {
            Some(a) => Some(a.clone()),
            None => None,
        };
        out.push((e[i].0.clone(), v));
        assert(e@.take(i + 1) =~= e@.take(i as int).push(e@[i as int]));
        i += 1;
    }
    assert(e@.take(e@.len() as int) =~= e@);
    out
}

/// Append copies of `src` to `dst`.
pub fn append_strings(dst: &mut Vec<String>, src: &Vec<String>)
    ensures
        final(dst)@ == old(dst)@ + src@,
{
    let mut i: usize = 0;
    while i < src.len()
        invariant
            i <= src@.len(),
            dst@ == old(dst)@ + src@.take(i as int),
        decreases src.len() - i,
    {
        dst.push(src[i].clone());
        assert(src@.take(i + 1) =~= src@.take(i as int).push(src@[i as int]));
        i += 1;
    }
    assert(src@.take(src@.len() as int) =~= src@);
}

} // verus!
