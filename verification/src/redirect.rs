//! Redirections: pointing the shell's descriptors at files, other
//! descriptors, or here-document text.

use vstd::prelude::*;

use crate::ast::{HereDocBody, Redir, RedirKind, Word};
use crate::encoding::{spec_str_to_bytes, str_to_bytes};
use crate::error::{ShellError, Span};
use crate::eval::{clone_fd, Fd, Shell};
use crate::expand::{spec_remove_escapes, static_views, texts_concat};
use crate::test_cmd::spec_resolve;
use crate::text::{chars_of, parse_i64, spec_parse_i64, str_eq};

verus! {

/// The highest descriptor number a redirection may name.
pub const MAX_FD: usize = 1023;

/// The descriptor named by the text after `<&` or `>&`: `Some(None)` for
/// `-` (close), `Some(Some(n))` for a descriptor from 0 to `MAX_FD`, `None`
/// for anything else.
pub open spec fn spec_dup_target(t: Seq<char>) -> Option<Option<usize>> {
    if t == seq!['-'] {
        Some(None)
    } else {
        match spec_parse_i64(t) {
            Some(n) => if 0 <= n <= MAX_FD {
                Some(Some(n as usize))
            } else {
                None
            },
            None => None,
        }
    }
}

/// The descriptor table `fds`, extended with closed descriptors so that it
/// holds descriptor `fd`.
pub open spec fn fds_padded(fds: Seq<Fd>, fd: int) -> Seq<Fd> {
    if fd < fds.len() {
        fds
    } else {
        fds + Seq::new((fd + 1 - fds.len()) as nat, |_k: int| Fd::Closed)
    }
}

/// The descriptor table `fds` with descriptor `fd` pointed at `target`.
pub open spec fn fds_set(fds: Seq<Fd>, fd: int, target: Fd) -> Seq<Fd> {
    fds_padded(fds, fd).update(fd, target)
}

/// The text of a word made of literal and single-quoted parts only, after
/// quote removal.
pub open spec fn static_text(w: Word) -> Option<Seq<char>> {
    match static_views(w.parts@, false, w.parts@.len() as int) {
        Some(fs) => Some(spec_remove_escapes(texts_concat(fs))),
        None => None,
    }
}

/// The text of a here-document body whose parts are all literal.
pub open spec fn static_body(b: HereDocBody) -> Option<Seq<char>> {
    match b {
        HereDocBody::Literal(s) => Some(s@),
        HereDocBody::Parsed(parts) => match static_views(parts@, true, parts@.len() as int) {
            Some(fs) => Some(spec_remove_escapes(texts_concat(fs))),
            None => None,
        },
    }
}

/// The evaluation steps a redirection takes when its word is static.
pub open spec fn redir_steps(k: RedirKind) -> int {
    match k {
        RedirKind::Input(w) => (w.parts@.len() + 2) as int,
        RedirKind::Output(w) => (w.parts@.len() + 2) as int,
        RedirKind::Clobber(w) => (w.parts@.len() + 2) as int,
        RedirKind::Append(w) => (w.parts@.len() + 2) as int,
        RedirKind::ReadWrite(w) => (w.parts@.len() + 2) as int,
        RedirKind::DupInput(w) => (w.parts@.len() + 2) as int,
        RedirKind::DupOutput(w) => (w.parts@.len() + 2) as int,
        RedirKind::HereDoc(HereDocBody::Parsed(parts)) => (parts@.len() + 2) as int,
        RedirKind::HereDocStrip(HereDocBody::Parsed(parts)) => (parts@.len() + 2) as int,
        _ => 1,
    }
}

/// `after` is `before` with a new input stream holding `data`, not yet read.
pub open spec fn pushed_stream(after: Seq<(Vec<u8>, usize)>, before: Seq<(Vec<u8>, usize)>, data: Seq<u8>) -> bool {
    &&& after.len() == before.len() + 1
    &&& after.take(before.len() as int) == before
    &&& after.last().0@ == data
    &&& after.last().1 == 0
}

/// Descriptor `fd` of `after` names file `path` (the table otherwise as in
/// `before`, extended as needed).
pub open spec fn points_at_file(after: Seq<Fd>, before: Seq<Fd>, fd: int, path: Seq<char>) -> bool {
    &&& after == fds_set(before, fd, after[fd])
    &&& after[fd] matches Fd::File(p) && p@ == path
}

/// What applying redirection `rd` in shell `sh` gives (`after`, `r`), when
/// its word or body is static and its descriptor in range: a file
/// redirection, when the system lets it succeed, points the descriptor at
/// the file (or, for `<` and for `<>` on descriptor 0, at a new input
/// stream); a duplication copies or closes a descriptor, or fails for a
/// bad descriptor; a here-document points the descriptor at a new input
/// stream holding its text.
pub open spec fn redir_outcome(sh: Shell, after: Shell, rd: Redir, r: Result<(), ShellError>) -> bool {
    let fd = rd.fd as int;
    let stream = Fd::Reader(sh.inputs@.len() as usize);
    let file = |t: Seq<char>| spec_resolve(sh.cwd@, t);
    match rd.kind {
        RedirKind::Input(w) => static_text(w) is Some ==> (r is Ok ==> after.fds@ == fds_set(
            sh.fds@,
            fd,
            stream,
        ) && after.inputs@.len() == sh.inputs@.len() + 1),
        RedirKind::Output(w) => static_text(w) matches Some(t) ==> (r is Ok ==> points_at_file(
            after.fds@,
            sh.fds@,
            fd,
            file(t),
        )),
        RedirKind::Clobber(w) => static_text(w) matches Some(t) ==> (r is Ok ==> points_at_file(
            after.fds@,
            sh.fds@,
            fd,
            file(t),
        )),
        RedirKind::Append(w) => static_text(w) matches Some(t) ==> (r is Ok ==> points_at_file(
            after.fds@,
            sh.fds@,
            fd,
            file(t),
        )),
        RedirKind::ReadWrite(w) => static_text(w) matches Some(t) ==> (r is Ok ==> if fd == 0 {
            after.fds@ == fds_set(sh.fds@, fd, stream) && after.inputs@.len() == sh.inputs@.len() + 1
        } else {
            points_at_file(after.fds@, sh.fds@, fd, file(t))
        }),
        RedirKind::DupInput(w) => static_text(w) matches Some(t) ==> match spec_dup_target(t) {
            Some(None) => r is Ok && after.fds@ == fds_set(sh.fds@, fd, Fd::Closed),
            Some(Some(s)) => r is Ok && after.fds@ == fds_set(
                fds_padded(sh.fds@, s as int),
                fd,
                fds_padded(sh.fds@, s as int)[s as int],
            ),
            None => r is Err,
        },
        RedirKind::DupOutput(w) => static_text(w) matches Some(t) ==> match spec_dup_target(t) {
            Some(None) => r is Ok && after.fds@ == fds_set(sh.fds@, fd, Fd::Closed),
            Some(Some(s)) => r is Ok && after.fds@ == fds_set(
                fds_padded(sh.fds@, s as int),
                fd,
                fds_padded(sh.fds@, s as int)[s as int],
            ),
            None => r is Err,
        },
        RedirKind::HereDoc(b) => static_body(b) matches Some(t) ==> r is Ok && after.fds@ == fds_set(
            sh.fds@,
            fd,
            stream,
        ) && pushed_stream(after.inputs@, sh.inputs@, spec_str_to_bytes(t)),
        RedirKind::HereDocStrip(b) => static_body(b) matches Some(t) ==> r is Ok && after.fds@ == fds_set(
            sh.fds@,
            fd,
            stream,
        ) && pushed_stream(after.inputs@, sh.inputs@, spec_str_to_bytes(t)),
    }
}

/// A redirection whose effect on the descriptor table needs nothing from
/// the system: a duplication or close with a static word, or a
/// here-document with a static body.
pub open spec fn host_free(rd: Redir) -> bool {
    match rd.kind {
        RedirKind::DupInput(w) => static_text(w) is Some,
        RedirKind::DupOutput(w) => static_text(w) is Some,
        RedirKind::HereDoc(b) => static_body(b) is Some,
        RedirKind::HereDocStrip(b) => static_body(b) is Some,
        _ => false,
    }
}

/// The descriptor table and the number of input streams after the
/// host-free redirection `rd`, from table `fds` with `k` streams; `None`
/// when it fails (a descriptor out of range, a bad duplication target).
pub open spec fn redir_apply(rd: Redir, fds: Seq<Fd>, k: int) -> Option<(Seq<Fd>, int)> {
    let fd = rd.fd as int;
    let dup = |w: Word| match static_text(w) {
        Some(t) => match spec_dup_target(t) {
            Some(None) => Some((fds_set(fds, fd, Fd::Closed), k)),
            Some(Some(s)) => Some(
                (fds_set(fds_padded(fds, s as int), fd, fds_padded(fds, s as int)[s as int]), k),
            ),
            None => None,
        },
        None => None,
    };
    if !(0 <= fd <= MAX_FD) {
        None
    } else {
        match rd.kind {
            RedirKind::DupInput(w) => dup(w),
            RedirKind::DupOutput(w) => dup(w),
            RedirKind::HereDoc(_) => Some((fds_set(fds, fd, Fd::Reader(k as usize)), k + 1)),
            RedirKind::HereDocStrip(_) => Some((fds_set(fds, fd, Fd::Reader(k as usize)), k + 1)),
            _ => None,
        }
    }
}

/// The host-free redirections `rds[..n]` applied in order.
pub open spec fn redirs_apply(rds: Seq<Redir>, n: int, fds: Seq<Fd>, k: int) -> Option<(Seq<Fd>, int)>
    decreases n,
{
    if n <= 0 || n > rds.len() {
        Some((fds, k))
    } else {
        match redirs_apply(rds, n - 1, fds, k) {
            Some((f, j)) => redir_apply(rds[n - 1], f, j),
            None => None,
        }
    }
}

/// The evaluation steps that redirections `rds[..n]` take at most when
/// their words are static.
pub open spec fn redirs_steps(rds: Seq<Redir>, n: int) -> int
    decreases n,
{
    if n <= 0 || n > rds.len() {
        0
    } else {
        redirs_steps(rds, n - 1) + redir_steps(rds[n - 1].kind) + 1
    }
}

proof fn lemma_redirs_steps_grow(rds: Seq<Redir>, i: int, n: int)
    requires
        0 <= i < n <= rds.len(),
    ensures
        redirs_steps(rds, i) + redir_steps(rds[i].kind) + 1 <= redirs_steps(rds, n),
    decreases n - i,
{
    if i + 1 < n {
        lemma_redirs_steps_grow(rds, i, n - 1);
        assert(redir_steps(rds[n - 1].kind) >= 1);
    }
}

proof fn lemma_redirs_apply_fails(rds: Seq<Redir>, i: int, n: int, fds: Seq<Fd>, k: int)
    requires
        0 <= i <= n <= rds.len(),
        redirs_apply(rds, i, fds, k) is None,
    ensures
        redirs_apply(rds, n, fds, k) is None,
    decreases n - i,
{
    if i < n {
        lemma_redirs_apply_fails(rds, i, n - 1, fds, k);
    }
}

/// The descriptor named by the text after `<&` or `>&`: `Some(None)` for
/// `-` (close), `Some(Some(n))` for a descriptor from 0 to `MAX_FD`, `None`
/// for anything else.
pub fn dup_target(s: &str) -> (r: Option<Option<usize>>)
    ensures
        r == spec_dup_target(s@),
{
    proof {
        reveal_strlit("-");
        assert("-"@ =~= seq!['-']);
    }
    if str_eq(s, "-") {
        return Some(None);
    }
    match parse_i64(s) {
        Some(n) => if 0 <= n && n <= 1023 {
            Some(Some(n as usize))
        } else {
            None
        },
        None => None,
    }
}

impl Shell {
    /// Grow the descriptor table so that it holds descriptor `fd`.
    pub fn ensure_fd(&mut self, fd: usize)
        requires
            old(self).wf(),
            fd <= MAX_FD,
        ensures
            final(self).wf(),
            final(self).fuel == old(self).fuel,
            final(self).fds@ == fds_padded(old(self).fds@, fd as int),
            final(self).vars == old(self).vars,
            final(self).inputs@ == old(self).inputs@,
            final(self).cwd@ == old(self).cwd@,
            fd < final(self).fds@.len(),
            final(self).fds@.len() >= old(self).fds@.len(),
    {
        let ghost n0 = self.fds@.len();
        while self.fds.len() <= fd
            invariant
                self.wf(),
                self.fuel == old(self).fuel,
                self.vars == old(self).vars,
                self.inputs@ == old(self).inputs@,
                self.cwd@ == old(self).cwd@,
                n0 == old(self).fds@.len(),
                self.fds@.len() >= n0,
                self.fds@.len() <= if fd + 1 > n0 { fd + 1 } else { n0 as int },
                self.fds@.subrange(0, n0 as int) == old(self).fds@,
                forall|k: int| n0 <= k < self.fds@.len() ==> self.fds@[k] == Fd::Closed,
                fd <= MAX_FD,
            decreases fd + 1 - self.fds@.len(),
        {
            self.fds.push(Fd::Closed);
            assert(self.fds@.subrange(0, n0 as int) =~= old(self).fds@);
        }
        proof {
            if fd < n0 {
                assert(self.fds@ =~= old(self).fds@);
            } else {
                assert(self.fds@ =~= fds_padded(old(self).fds@, fd as int));
            }
        }
    }

    /// Point descriptor `fd` at `target`.
    pub fn set_fd(&mut self, fd: usize, target: Fd)
        requires
            old(self).wf(),
            fd <= MAX_FD,
        ensures
            final(self).wf(),
            final(self).fuel == old(self).fuel,
            final(self).fds@ == fds_set(old(self).fds@, fd as int, target),
            final(self).vars == old(self).vars,
            final(self).inputs@ == old(self).inputs@,
            final(self).cwd@ == old(self).cwd@,
    {
        self.ensure_fd(fd);
        self.fds.set(fd, target);
    }

    /// The error for a redirection that cannot be done: the message goes to
    /// standard error.
    fn redir_failure(&mut self, name: &str, what: &str, span: Span) -> (r: ShellError)
        requires
            old(self).wf(),
        ensures
            final(self).wf(),
            final(self).fuel == old(self).fuel,
            r matches ShellError::Io(m) && m@ == name@ + ": "@ + what@,
    {
        let mut m = name.to_owned();
        m.append(": ");
        m.append(what);
        self.err_msg(m.as_str());
        ShellError::Io(m)
    }

    /// Apply redirections to the descriptor table, in order. The caller
    /// saves the table first if it is to be restored.
    pub fn setup_redirections(&mut self, redirs: &Vec<Redir>) -> (r: Result<(), ShellError>)
        requires
            old(self).wf(),
        ensures
            final(self).steps_from(&*old(self)),
            r is Ok ==> forall|i: int| 0 <= i < redirs@.len() ==> 0 <= #[trigger] redirs@[i].fd <= MAX_FD,
            old(self).fuel > redirs_steps(redirs@, redirs@.len() as int) + 1 && (forall|i: int|
                0 <= i < redirs@.len() ==> host_free(#[trigger] redirs@[i])) ==> match redirs_apply(
                redirs@,
                redirs@.len() as int,
                old(self).fds@,
                old(self).inputs@.len() as int,
            ) {
                Some((f, k)) => r is Ok && final(self).fds@ == f && final(self).inputs@.len() == k,
                None => r is Err,
            },
            redirs@.len() == 0 ==> (old(self).fuel > 0 ==> r is Ok) && final(self).fuel >= old(self).fuel - 1
                && final(self).same_settings(&*old(self)) && final(self).fds@ == old(self).fds@,
        decreases old(self).fuel,
    {
        proof {
            if redirs@.len() > 0 {
                lemma_redirs_steps_grow(redirs@, 0, redirs@.len() as int);
            }
        }
        self.tick()?;
        let ghost s0 = *self;
        let ghost all_free = old(self).fuel > redirs_steps(redirs@, redirs@.len() as int) + 1 && (forall|
            i: int,
        | 0 <= i < redirs@.len() ==> host_free(#[trigger] redirs@[i]));
        let mut i: usize = 0;
        while i < redirs.len()
            invariant
                self.wf(),
                self.fuel < old(self).fuel,
                i <= redirs@.len(),
                forall|j: int| 0 <= j < i ==> 0 <= #[trigger] redirs@[j].fd <= MAX_FD,
                all_free == (old(self).fuel > redirs_steps(redirs@, redirs@.len() as int) + 1 && (forall|
                    j: int,
                | 0 <= j < redirs@.len() ==> host_free(#[trigger] redirs@[j]))),
                all_free ==> self.fuel >= old(self).fuel - 1 - redirs_steps(redirs@, i as int)
                    && redirs_apply(redirs@, i as int, old(self).fds@, old(self).inputs@.len() as int)
                    == Some((self.fds@, self.inputs@.len() as int)),
                i == 0 ==> *self == s0,
            decreases redirs.len() - i,
        {
            proof {
                if all_free {
                    lemma_redirs_steps_grow(redirs@, i as int, redirs@.len() as int);
                    assert(host_free(redirs@[i as int]));
                }
            }
            match self.apply_redirection(&redirs[i]) {
                Ok(()) => {},
                Err(e) => {
                    proof {
                        if all_free {
                            assert(redirs_apply(
                                redirs@,
                                i + 1,
                                old(self).fds@,
                                old(self).inputs@.len() as int,
                            ) is None);
                            lemma_redirs_apply_fails(
                                redirs@,
                                i + 1,
                                redirs@.len() as int,
                                old(self).fds@,
                                old(self).inputs@.len() as int,
                            );
                        }
                    }
                    return Err(e);
                },
            }
            i += 1;
        }
        Ok(())
    }

    /// Apply one redirection.
    fn apply_redirection(&mut self, redir: &Redir) -> (r: Result<(), ShellError>)
        requires
            old(self).wf(),
        ensures
            final(self).steps_from(&*old(self)),
            r is Ok ==> 0 <= redir.fd <= MAX_FD,
            old(self).fuel > 0 && !(0 <= redir.fd <= MAX_FD) ==> r is Err,
            old(self).fuel > redir_steps(redir.kind) && 0 <= redir.fd <= MAX_FD ==> redir_outcome(
                *old(self),
                *final(self),
                *redir,
                r,
            ),
            old(self).fuel > redir_steps(redir.kind) && host_free(*redir) ==> final(self).fuel
                >= old(self).fuel - redir_steps(redir.kind) - 1 && match redir_apply(
                *redir,
                old(self).fds@,
                old(self).inputs@.len() as int,
            ) {
                Some((f, k)) => r is Ok && final(self).fds@ == f && final(self).inputs@.len() == k,
                None => r is Err,
            },
        decreases old(self).fuel,
    {
        self.tick()?;
        if redir.fd < 0 || redir.fd > 1023 {
            return Err(ShellError::Runtime { msg: "bad file descriptor".to_owned(), span: redir.span });
        }
        let fd = redir.fd as usize;
        match &redir.kind {
            RedirKind::Input(word) => {
                let name = self.expand_string(word)?;
                let path = self.resolve_path(name.as_str());
                match self.host.read_file(&path) {
                    Some(data) => {
                        let idx = self.new_input(data);
                        self.set_fd(fd, Fd::Reader(idx));
                        Ok(())
                    },
                    None => Err(self.redir_failure(name.as_str(), "No such file or directory", redir.span)),
                }
            },
            RedirKind::Output(word) | RedirKind::Clobber(word) | RedirKind::Append(word) | RedirKind::ReadWrite(word) => {
                let append = match &redir.kind {
                    RedirKind::Output(_) | RedirKind::Clobber(_) => false,
                    _ => true,
                };
                let name = self.expand_string(word)?;
                let path = self.resolve_path(name.as_str());
                let empty: Vec<u8> = Vec::new();
                if !self.host.write_file(&path, &empty, append) {
                    return Err(self.redir_failure(name.as_str(), "cannot create", redir.span));
                }
                let read_write = match &redir.kind {
                    RedirKind::ReadWrite(_) => true,
                    _ => false,
                };
                if read_write && fd == 0 {
                    let data = match self.host.read_file(&path) {
                        Some(d) => d,
                        None => Vec::new(),
                    };
                    let idx = self.new_input(data);
                    self.set_fd(fd, Fd::Reader(idx));
                } else {
                    self.set_fd(fd, Fd::File(path));
                }
                Ok(())
            },
            RedirKind::DupInput(word) | RedirKind::DupOutput(word) => {
                let text = self.expand_string(word)?;
                match dup_target(text.as_str()) {
                    Some(None) => {
                        self.set_fd(fd, Fd::Closed);
                        Ok(())
                    },
                    Some(Some(src)) => {
                        self.ensure_fd(src);
                        let copy = clone_fd(&self.fds[src]);
                        self.set_fd(fd, copy);
                        Ok(())
                    },
                    None => {
                        let mut m = text.clone();
                        m.append(": bad file descriptor");
                        Err(ShellError::Runtime { msg: m, span: redir.span })
                    },
                }
            },
            RedirKind::HereDoc(body) | RedirKind::HereDocStrip(body) => {
                let text = match body {
                    HereDocBody::Literal(s) => s.clone(),
                    HereDocBody::Parsed(parts) => self.expand_heredoc(parts)?,
                };
                let data = str_to_bytes(text.as_str());
                let ghost before = self.inputs@;
                let idx = self.new_input(data);
                self.set_fd(fd, Fd::Reader(idx));
                assert(self.inputs@.take(before.len() as int) =~= before);
                Ok(())
            },
        }
    }
}

} // verus!
