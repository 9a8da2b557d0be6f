use vstd::prelude::*;

verus! {

/// Source position for error reporting.
#[derive(Debug, Clone, Copy, PartialEq, Eq, Structural, Default)]
pub struct Span {
    pub offset: usize,
    pub line: u32,
    pub col: u32,
}

/// Shell exit status (0-255). Zero is success; 128 + n reports death by
/// signal n.
#[derive(Debug, Clone, Copy, PartialEq, Eq, Structural, Default)]
pub struct ExitStatus(i32);

/// Shell errors and control-flow signals.
///
/// Control flow (`exit`, `return`, `break`, `continue`) travels up the call
/// stack as an `Err`, so every evaluator function can stop early in the
/// same way.
#[derive(Debug)]
pub enum ShellError {
    /// `exit [n]`: terminate the shell
    Exit(ExitStatus),
    /// `return [n]`: return from a function or dot-script
    Return(ExitStatus),
    /// `break [n]`: leave n enclosing loops
    Break(usize),
    /// `continue [n]`: next iteration of the nth enclosing loop
    Continue(usize),
    /// Syntax error found while parsing
    Syntax { msg: String, span: Span },
    /// Command not found among builtins, functions or the host's programs
    CommandNotFound(String),
    /// Failure reported by the host while doing I/O (redirections, files)
    Io(String),
    /// Runtime error with position
    Runtime { msg: String, span: Span },
    /// Execution was cancelled: the cancel flag was set, or the evaluation
    /// budget ran out
    Cancelled,
    /// The execution deadline passed
    TimedOut,
}

/// The status code that an integer stands for: its value modulo 256, as a
/// process reports its exit code.
pub open spec fn status_of(n: int) -> i32 {
    (n % 256) as i32
}

impl View for ExitStatus {
    type V = i32;

    closed spec fn view(&self) -> i32 {
        self.0
    }
}

impl ExitStatus {
    /// Success (0).
    #[allow(non_snake_case)]
    pub fn SUCCESS() -> (r: ExitStatus)
        ensures
            r@ == 0,
    {
        ExitStatus(0)
    }

    /// Failure (1).
    #[allow(non_snake_case)]
    pub fn FAILURE() -> (r: ExitStatus)
        ensures
            r@ == 1,
    {
        ExitStatus(1)
    }

    /// Misuse of a builtin or a syntax error (2).
    #[allow(non_snake_case)]
    pub fn MISUSE() -> (r: ExitStatus)
        ensures
            r@ == 2,
    {
        ExitStatus(2)
    }

    /// Command not found (127).
    #[allow(non_snake_case)]
    pub fn NOT_FOUND() -> (r: ExitStatus)
        ensures
            r@ == 127,
    {
        ExitStatus(127)
    }

    /// Command found but not executable (126).
    #[allow(non_snake_case)]
    pub fn NOT_EXECUTABLE() -> (r: ExitStatus)
        ensures
            r@ == 126,
    {
        ExitStatus(126)
    }


    /// A status code for `code`, which must lie in 0..=255.
    pub fn new(code: i32) -> (r: ExitStatus)
        requires
            0 <= code <= 255,
        ensures
            r@ == code,
    {
        ExitStatus(code)
    }

    /// Every status code lies in 0..=255.
    #[verifier::type_invariant]
    spec fn in_range(self) -> bool {
        0 <= self.0 <= 255
    }

    /// The raw exit code as an integer, from 0 to 255.
    pub fn code(self) -> (r: i32)
        ensures
            r == self@,
            0 <= r <= 255,
    {
        proof {
            use_type_invariant(self);
        }
        self.0
    }

    /// True when the code is zero.
    pub fn success(self) -> (r: bool)
        ensures
            r == (self@ == 0),
    {
        self.0 == 0
    }

    /// SUCCESS (0) if the condition holds, FAILURE (1) otherwise.
    pub fn from_bool(ok: bool) -> (r: ExitStatus)
        ensures
            r@ == (if ok { 0i32 } else { 1i32 }),
    {
        if ok {
            ExitStatus(0)
        } else {
            ExitStatus(1)
        }
    }

    /// Logical negation: a zero code becomes 1 and any other code becomes 0.
    pub fn inverted(self) -> (r: ExitStatus)
        ensures
            r@ == (if self@ == 0 { 1i32 } else { 0i32 }),
    {
        Self::from_bool(!self.success())
    }

    /// The status of a command killed by signal `sig`: 128 + sig.
    pub fn from_signal(sig: i32) -> (r: ExitStatus)
        requires
            0 <= sig <= 127,
        ensures
            r@ == 128 + sig,
    {
        ExitStatus(128 + sig)
    }

    /// The status a shell reports for a raw process wait status: the exit
    /// code when the process exited, 128 + the signal number otherwise.
    pub fn from_wait(status: i32) -> (r: ExitStatus)
        ensures
            crate::sys::spec_wifexited(status) ==> r@ == crate::sys::spec_wexitstatus(status),
            !crate::sys::spec_wifexited(status) ==> r@ == 128 + crate::sys::spec_wtermsig(status),
    {
        if crate::sys::wifexited(status) {
            ExitStatus(crate::sys::wexitstatus(status))
        } else {
            ExitStatus(128 + crate::sys::wtermsig(status))
        }
    }
}

/// The status for an integer code: the code modulo 256.
pub fn status_from(n: i32) -> (r: ExitStatus)
    ensures
        r@ == status_of(n as int),
        0 <= r@ <= 255,
{
    if n >= 0 {
        ExitStatus(n % 256)
    } else {
        let k: i32 = -(n + 1);
        let m: i32 = 255 - k % 256;
        proof {
            let q = k as int / 256;
            let rem = k as int % 256;
            assert(k as int == 256 * q + rem && 0 <= rem < 256) by (nonlinear_arith)
                requires
                    k >= 0,
                    q == k as int / 256,
                    rem == k as int % 256,
            ;
            assert(n as int == 256 * (-q - 1) + (255 - rem));
            assert((n as int) % 256 == 255 - rem) by (nonlinear_arith)
                requires
                    n as int == 256 * (-q - 1) + (255 - rem),
                    0 <= 255 - rem < 256,
            ;
        }
        ExitStatus(m)
    }
}

impl From<i32> for ExitStatus {
    /// The code modulo 256, so that the status stays in 0..=255.
    fn from(n: i32) -> (r: ExitStatus) {
        status_from(n)
    }
}

impl vstd::std_specs::convert::FromSpecImpl<i32> for ExitStatus {
    open spec fn obeys_from_spec() -> bool {
        true
    }

    closed spec fn from_spec(n: i32) -> ExitStatus {
        ExitStatus(status_of(n as int))
    }
}

impl From<ExitStatus> for i32 {
    fn from(s: ExitStatus) -> (r: i32) {
        s.0
    }
}

impl vstd::std_specs::convert::FromSpecImpl<ExitStatus> for i32 {
    open spec fn obeys_from_spec() -> bool {
        true
    }

    open spec fn from_spec(s: ExitStatus) -> i32 {
        s@
    }
}

/// The one-line message a shell prints for an error.
pub open spec fn spec_message(e: ShellError) -> Seq<char> {
    match e {
        ShellError::Exit(n) => "exit "@ + crate::text::int_decimal(n@ as int),
        ShellError::Return(n) => "return "@ + crate::text::int_decimal(n@ as int),
        ShellError::Break(n) => "break "@ + crate::text::decimal(n as nat),
        ShellError::Continue(n) => "continue "@ + crate::text::decimal(n as nat),
        ShellError::Syntax { msg, span } => crate::text::decimal(span.line as nat) + ":"@ + crate::text::decimal(
            span.col as nat,
        ) + ": syntax error: "@ + msg@,
        ShellError::CommandNotFound(name) => name@ + ": not found"@,
        ShellError::Io(m) => m@,
        ShellError::Runtime { msg, span } => crate::text::decimal(span.line as nat) + ":"@ + crate::text::decimal(
            span.col as nat,
        ) + ": "@ + msg@,
        ShellError::Cancelled => "cancelled"@,
        ShellError::TimedOut => "timed out"@,
    }
}

impl ShellError {
    /// The one-line message a shell prints for this error.
    pub fn message(&self) -> (r: String)
        ensures
            r@ == spec_message(*self),
    {
        let mut s = String::new();
        match self {
            ShellError::Exit(n) => {
                s.append("exit ");
                s.append(crate::text::int_to_string(n.0 as i64).as_str());
            },
            ShellError::Return(n) => {
                s.append("return ");
                s.append(crate::text::int_to_string(n.0 as i64).as_str());
            },
            ShellError::Break(n) => {
                s.append("break ");
                s.append(crate::text::usize_to_string(*n).as_str());
            },
            ShellError::Continue(n) => {
                s.append("continue ");
                s.append(crate::text::usize_to_string(*n).as_str());
            },
            ShellError::Syntax { msg, span } => {
                s.append(crate::text::usize_to_string(span.line as usize).as_str());
                s.append(":");
                s.append(crate::text::usize_to_string(span.col as usize).as_str());
                s.append(": syntax error: ");
                s.append(msg.as_str());
            },
            ShellError::CommandNotFound(name) => {
                s.append(name.as_str());
                s.append(": not found");
            },
            ShellError::Io(m) => {
                s.append(m.as_str());
            },
            ShellError::Runtime { msg, span } => {
                s.append(crate::text::usize_to_string(span.line as usize).as_str());
                s.append(":");
                s.append(crate::text::usize_to_string(span.col as usize).as_str());
                s.append(": ");
                s.append(msg.as_str());
            },
            ShellError::Cancelled => {
                s.append("cancelled");
            },
            ShellError::TimedOut => {
                s.append("timed out");
            },
        }
        s
    }
}

} // verus!
