use vstd::prelude::*;

verus! {

/// True if a raw wait status reports a normal exit (WIFEXITED).
pub open spec fn spec_wifexited(status: i32) -> bool {
    (status & 0x7f) == 0
}

/// The exit code stored in a raw wait status (WEXITSTATUS).
pub open spec fn spec_wexitstatus(status: i32) -> i32 {
    (status >> 8) & 0xff
}

/// The terminating signal stored in a raw wait status (WTERMSIG).
pub open spec fn spec_wtermsig(status: i32) -> i32 {
    status & 0x7f
}

/// True if a raw wait status reports a stopped process (WIFSTOPPED).
pub open spec fn spec_wifstopped(status: i32) -> bool {
    (status & 0xff) == 0x7f
}

/// Reading a wait status back: a normal exit with code `code` (stored in
/// the second byte) is an exit with that code and no stop; death by signal
/// `sig` (the low seven bits) is no exit and names that signal; a stop by
/// `sig` is a stop.
pub proof fn law_wait_status(code: i32, sig: i32)
    requires
        0 <= code <= 255,
        1 <= sig <= 126,
    ensures
        spec_wifexited((code * 256) as i32) && spec_wexitstatus((code * 256) as i32) == code && !spec_wifstopped(
            (code * 256) as i32,
        ),
        !spec_wifexited(sig) && spec_wtermsig(sig) == sig && !spec_wifstopped(sig),
        spec_wifstopped((sig * 256 + 0x7f) as i32) && !spec_wifexited((sig * 256 + 0x7f) as i32),
{
    let e: i32 = (code * 256) as i32;
    let st: i32 = (sig * 256 + 0x7f) as i32;
    assert(e == code << 8) by (bit_vector)
        requires
            0 <= code <= 255,
            e == code * 256,
    ;
    assert((e & 0x7f) == 0 && ((e >> 8) & 0xff) == code && (e & 0xff) != 0x7f) by (bit_vector)
        requires
            0 <= code <= 255,
            e == code << 8,
    ;
    assert((sig & 0x7f) != 0 && (sig & 0x7f) == sig && (sig & 0xff) != 0x7f) by (bit_vector)
        requires
            1 <= sig <= 126,
    ;
    assert(st == (sig << 8) | 0x7f) by (bit_vector)
        requires
            1 <= sig <= 126,
            st == sig * 256 + 0x7f,
    ;
    assert((st & 0xff) == 0x7f && (st & 0x7f) != 0) by (bit_vector)
        requires
            1 <= sig <= 126,
            st == (sig << 8) | 0x7f,
    ;
}

/// True if `status` indicates normal exit (WIFEXITED).
pub fn wifexited(status: i32) -> (r: bool)
    ensures
        r == spec_wifexited(status),
{
    (status & 0x7f) == 0
}

/// Extract the exit code from `status` (meaningful only if `wifexited`).
pub fn wexitstatus(status: i32) -> (r: i32)
    ensures
        r == spec_wexitstatus(status),
        0 <= r <= 255,
{
    let r = (status >> 8) & 0xff;
    assert(0 <= ((status >> 8) & 0xff) <= 255) by (bit_vector);
    r
}

/// Extract the terminating signal from `status` (meaningful only if not exited).
pub fn wtermsig(status: i32) -> (r: i32)
    ensures
        r == spec_wtermsig(status),
        0 <= r <= 127,
{
    let r = status & 0x7f;
    assert(0 <= (status & 0x7f) <= 127) by (bit_vector);
    r
}

/// True if `status` indicates the process was stopped (WIFSTOPPED).
pub fn wifstopped(status: i32) -> (r: bool)
    ensures
        r == spec_wifstopped(status),
{
    (status & 0xff) == 0x7f
}

} // verus!
