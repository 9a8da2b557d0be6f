use vstd::prelude::*;

use crate::signals::SignalName;

verus! {

/// The kind of a file system object.
#[derive(Debug, Clone, Copy, PartialEq, Eq, Structural)]
pub enum FileKind {
    Regular,
    Directory,
    Symlink,
    Fifo,
    BlockDevice,
    CharDevice,
    Socket,
    Other,
}

/// What the shell needs to know of a file: its kind, permission bits,
/// owner, size, modification time and identity.
#[derive(Debug, Clone, Copy, PartialEq, Eq, Structural)]
pub struct FileStat {
    pub kind: FileKind,
    /// The permission and mode bits (st_mode & 0o7777).
    pub mode: u32,
    pub uid: u32,
    pub size: u64,
    /// Modification time in nanoseconds since the epoch.
    pub mtime_ns: i64,
    pub dev: u64,
    pub ino: u64,
}

/// The result of running an external program.
#[derive(Debug)]
pub struct ExternalOutcome {
    /// The exit status, or `None` when no such program could be started.
    pub status: Option<i32>,
    /// What the program wrote to its standard output.
    pub stdout: Vec<u8>,
    /// What the program wrote to its standard error.
    pub stderr: Vec<u8>,
}

/// The operating system as the shell sees it: programs, files, the process.
///
/// The shell never touches the system itself; an embedder implements this
/// trait (a program runner, a sandbox, a test double) and the shell decides
/// everything else. Paths are shell strings, relative ones already resolved
/// against the shell's working directory.
pub trait Host {
    /// Run the program `args[0]` with arguments `args[1..]`, the environment
    /// `env`, in directory `cwd`, feeding it `stdin` (or the shell's own
    /// standard input when `None`).
    fn run_external(
        &mut self,
        args: &Vec<String>,
        env: &Vec<(String, String)>,
        cwd: &String,
        stdin: Option<Vec<u8>>,
    ) -> ExternalOutcome;

    /// The whole content of a file, or `None` if it cannot be read.
    fn read_file(&mut self, path: &String) -> Option<Vec<u8>>;

    /// Write `data` to a file, creating it, truncating it first unless
    /// `append`. Returns false on failure.
    fn write_file(&mut self, path: &String, data: &Vec<u8>, append: bool) -> bool;

    /// The names of the entries of a directory, or `None` if it cannot be
    /// read.
    fn read_dir(&mut self, path: &String) -> Option<Vec<String>>;

    /// Information on a file, following symbolic links when `follow`.
    fn stat(&mut self, path: &String, follow: bool) -> Option<FileStat>;

    /// The shell's own standard input, read to its end.
    fn read_stdin(&mut self) -> Vec<u8>;

    /// The real user id of the process.
    fn getuid(&mut self) -> u32;

    /// True if the descriptor is a terminal.
    fn isatty(&mut self, fd: i32) -> bool;

    /// The process id of the shell.
    fn pid(&mut self) -> u32;

    /// Set the file creation mask when `new` is given; returns the mask in
    /// force before the call.
    fn umask(&mut self, new: Option<u32>) -> u32;

    /// Send signal `sig` to process `pid`; false if that failed.
    fn kill(&mut self, pid: i32, sig: i32) -> bool;

    /// The platform's number for signal `sig`, if it has one.
    fn signal_number(&mut self, sig: SignalName) -> Option<i32>;

    /// The signal that has number `sig` on the platform, if any.
    fn signal_name(&mut self, sig: i32) -> Option<SignalName>;

    /// The absolute path of a file with every symbolic link resolved, or
    /// `None` if it does not exist.
    fn canonicalize(&mut self, path: &String) -> Option<String>;

    /// True when the embedder has asked the shell to stop (its cancel flag).
    fn cancel_requested(&mut self) -> bool;

    /// The host clock, in milliseconds.
    fn now_ms(&mut self) -> u64;
}

/// A host with no programs and no files: every external command is not
/// found, only `/dev/null` can be opened, and standard input is empty.
pub struct NullHost;

impl Host for NullHost {
    fn cancel_requested(&mut self) -> bool {
        false
    }

    fn now_ms(&mut self) -> u64 {
        0
    }

    fn run_external(
        &mut self,
        args: &Vec<String>,
        env: &Vec<(String, String)>,
        cwd: &String,
        stdin: Option<Vec<u8>>,
    ) -> (r: ExternalOutcome)
        ensures
            r.status is None && r.stdout@.len() == 0 && r.stderr@.len() == 0,
    {
        ExternalOutcome { status: None, stdout: Vec::new(), stderr: Vec::new() }
    }

    fn read_file(&mut self, path: &String) -> (r: Option<Vec<u8>>)
        ensures
            r is Some <==> is_null_path(path@),
            r matches Some(d) ==> d@.len() == 0,
    {
        if is_dev_null(path) {
            Some(Vec::new())
        } else {
            None
        }
    }

    fn write_file(&mut self, path: &String, data: &Vec<u8>, append: bool) -> bool {
        is_dev_null(path)
    }

    fn read_dir(&mut self, path: &String) -> Option<Vec<String>> {
        None
    }

    fn stat(&mut self, path: &String, follow: bool) -> (r: Option<FileStat>)
        ensures
            r is Some <==> is_null_path(path@),
            r matches Some(st) ==> st.kind is CharDevice && st.mode == 0o666 && st.uid == 0 && st.size == 0,
    {
        if is_dev_null(path) {
            Some(
                FileStat {
                    kind: FileKind::CharDevice,
                    mode: 0o666,
                    uid: 0,
                    size: 0,
                    mtime_ns: 0,
                    dev: 0,
                    ino: 0,
                },
            )
        } else {
            None
        }
    }

    fn read_stdin(&mut self) -> Vec<u8> {
        Vec::new()
    }

    fn getuid(&mut self) -> u32 {
        0
    }

    fn isatty(&mut self, fd: i32) -> bool {
        false
    }

    fn pid(&mut self) -> u32 {
        1
    }

    fn umask(&mut self, new: Option<u32>) -> u32 {
        0o022
    }

    fn kill(&mut self, pid: i32, sig: i32) -> bool {
        false
    }

    fn signal_number(&mut self, sig: SignalName) -> Option<i32> {
        None
    }

    fn signal_name(&mut self, sig: i32) -> Option<SignalName> {
        None
    }

    fn canonicalize(&mut self, path: &String) -> (r: Option<String>)
        ensures
            r is Some <==> is_null_path(path@),
            r matches Some(p) ==> p@ == path@,
    {
        if is_dev_null(path) {
            Some(path.clone())
        } else {
            None
        }
    }
}

/// The path `/dev/null`.
pub open spec fn is_null_path(p: Seq<char>) -> bool {
    p == seq!['/', 'd', 'e', 'v', '/', 'n', 'u', 'l', 'l']
}

/// True if `path` is `/dev/null`.
pub fn is_dev_null(path: &String) -> (r: bool)
    ensures
        r == is_null_path(path@),
{
    let p = "/dev/null";
    proof {
        reveal_strlit("/dev/null");
        assert(p@ =~= seq!['/', 'd', 'e', 'v', '/', 'n', 'u', 'l', 'l']);
    }
    crate::text::str_eq(path.as_str(), p)
}

} // verus!
