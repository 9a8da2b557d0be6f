use vstd::prelude::*;

use crate::text::str_eq;

verus! {

/// The signals the shell knows by name. Their numbers depend on the
/// platform; the host maps between the two.
#[derive(Debug, Clone, Copy, PartialEq, Eq, Structural)]
pub enum SignalName {
    Hup,
    Int,
    Quit,
    Ill,
    Trap,
    Abrt,
    Fpe,
    Kill,
    Bus,
    Segv,
    Sys,
    Pipe,
    Alrm,
    Term,
    Urg,
    Stop,
    Tstp,
    Cont,
    Chld,
    Ttin,
    Ttou,
    Usr1,
    Usr2,
}

/// The name of a signal, without the `SIG` prefix.
pub open spec fn spec_signal_text(s: SignalName) -> Seq<char> {
    match s {
        SignalName::Hup => "HUP"@,
        SignalName::Int => "INT"@,
        SignalName::Quit => "QUIT"@,
        SignalName::Ill => "ILL"@,
        SignalName::Trap => "TRAP"@,
        SignalName::Abrt => "ABRT"@,
        SignalName::Fpe => "FPE"@,
        SignalName::Kill => "KILL"@,
        SignalName::Bus => "BUS"@,
        SignalName::Segv => "SEGV"@,
        SignalName::Sys => "SYS"@,
        SignalName::Pipe => "PIPE"@,
        SignalName::Alrm => "ALRM"@,
        SignalName::Term => "TERM"@,
        SignalName::Urg => "URG"@,
        SignalName::Stop => "STOP"@,
        SignalName::Tstp => "TSTP"@,
        SignalName::Cont => "CONT"@,
        SignalName::Chld => "CHLD"@,
        SignalName::Ttin => "TTIN"@,
        SignalName::Ttou => "TTOU"@,
        SignalName::Usr1 => "USR1"@,
        SignalName::Usr2 => "USR2"@,
    }
}

/// The name of a signal, without the `SIG` prefix.
pub fn signal_text(s: SignalName) -> (r: String)
    ensures
        r@ == spec_signal_text(s),
{
    match s {
        SignalName::Hup => "HUP".to_owned(),
        SignalName::Int => "INT".to_owned(),
        SignalName::Quit => "QUIT".to_owned(),
        SignalName::Ill => "ILL".to_owned(),
        SignalName::Trap => "TRAP".to_owned(),
        SignalName::Abrt => "ABRT".to_owned(),
        SignalName::Fpe => "FPE".to_owned(),
        SignalName::Kill => "KILL".to_owned(),
        SignalName::Bus => "BUS".to_owned(),
        SignalName::Segv => "SEGV".to_owned(),
        SignalName::Sys => "SYS".to_owned(),
        SignalName::Pipe => "PIPE".to_owned(),
        SignalName::Alrm => "ALRM".to_owned(),
        SignalName::Term => "TERM".to_owned(),
        SignalName::Urg => "URG".to_owned(),
        SignalName::Stop => "STOP".to_owned(),
        SignalName::Tstp => "TSTP".to_owned(),
        SignalName::Cont => "CONT".to_owned(),
        SignalName::Chld => "CHLD".to_owned(),
        SignalName::Ttin => "TTIN".to_owned(),
        SignalName::Ttou => "TTOU".to_owned(),
        SignalName::Usr1 => "USR1".to_owned(),
        SignalName::Usr2 => "USR2".to_owned(),
    }
}

/// A signal name without its `SIG` prefix, when it has one.
pub open spec fn without_sig(name: Seq<char>) -> Seq<char> {
    if name.len() >= 3 && name.take(3) == "SIG"@ {
        name.skip(3)
    } else {
        name
    }
}

/// The signal a name stands for: the name with or without `SIG`, with
/// `IOT` another name for `ABRT`.
pub open spec fn spec_name_to_signal(name: Seq<char>) -> Option<SignalName> {
    let n = without_sig(name);
    if n == "HUP"@ {
        Some(SignalName::Hup)
    } else if n == "INT"@ {
        Some(SignalName::Int)
    } else if n == "QUIT"@ {
        Some(SignalName::Quit)
    } else if n == "ILL"@ {
        Some(SignalName::Ill)
    } else if n == "TRAP"@ {
        Some(SignalName::Trap)
    } else if n == "ABRT"@ || n == "IOT"@ {
        Some(SignalName::Abrt)
    } else if n == "FPE"@ {
        Some(SignalName::Fpe)
    } else if n == "KILL"@ {
        Some(SignalName::Kill)
    } else if n == "BUS"@ {
        Some(SignalName::Bus)
    } else if n == "SEGV"@ {
        Some(SignalName::Segv)
    } else if n == "SYS"@ {
        Some(SignalName::Sys)
    } else if n == "PIPE"@ {
        Some(SignalName::Pipe)
    } else if n == "ALRM"@ {
        Some(SignalName::Alrm)
    } else if n == "TERM"@ {
        Some(SignalName::Term)
    } else if n == "URG"@ {
        Some(SignalName::Urg)
    } else if n == "STOP"@ {
        Some(SignalName::Stop)
    } else if n == "TSTP"@ {
        Some(SignalName::Tstp)
    } else if n == "CONT"@ {
        Some(SignalName::Cont)
    } else if n == "CHLD"@ {
        Some(SignalName::Chld)
    } else if n == "TTIN"@ {
        Some(SignalName::Ttin)
    } else if n == "TTOU"@ {
        Some(SignalName::Ttou)
    } else if n == "USR1"@ {
        Some(SignalName::Usr1)
    } else if n == "USR2"@ {
        Some(SignalName::Usr2)
    } else {
        None
    }
}

/// A signal's name reads back as that signal, with or without the `SIG`
/// prefix.
pub proof fn law_signal_name_round_trip(s: SignalName)
    ensures
        spec_name_to_signal(spec_signal_text(s)) == Some(s),
        spec_name_to_signal("SIG"@ + spec_signal_text(s)) == Some(s),
{
    reveal_strlit("SIG");
    reveal_strlit("HUP");
    reveal_strlit("INT");
    reveal_strlit("QUIT");
    reveal_strlit("ILL");
    reveal_strlit("TRAP");
    reveal_strlit("ABRT");
    reveal_strlit("IOT");
    reveal_strlit("FPE");
    reveal_strlit("KILL");
    reveal_strlit("BUS");
    reveal_strlit("SEGV");
    reveal_strlit("SYS");
    reveal_strlit("PIPE");
    reveal_strlit("ALRM");
    reveal_strlit("TERM");
    reveal_strlit("URG");
    reveal_strlit("STOP");
    reveal_strlit("TSTP");
    reveal_strlit("CONT");
    reveal_strlit("CHLD");
    reveal_strlit("TTIN");
    reveal_strlit("TTOU");
    reveal_strlit("USR1");
    reveal_strlit("USR2");
    assert("HUP"@[0] == 'H' && "HUP"@[1] == 'U' && "HUP"@[2] == 'P');
    assert("INT"@[0] == 'I' && "INT"@[1] == 'N' && "INT"@[2] == 'T');
    assert("QUIT"@[0] == 'Q' && "QUIT"@[1] == 'U' && "QUIT"@[2] == 'I' && "QUIT"@[3] == 'T');
    assert("ILL"@[0] == 'I' && "ILL"@[1] == 'L' && "ILL"@[2] == 'L');
    assert("TRAP"@[0] == 'T' && "TRAP"@[1] == 'R' && "TRAP"@[2] == 'A' && "TRAP"@[3] == 'P');
    assert("ABRT"@[0] == 'A' && "ABRT"@[1] == 'B' && "ABRT"@[2] == 'R' && "ABRT"@[3] == 'T');
    assert("IOT"@[0] == 'I' && "IOT"@[1] == 'O' && "IOT"@[2] == 'T');
    assert("FPE"@[0] == 'F' && "FPE"@[1] == 'P' && "FPE"@[2] == 'E');
    assert("KILL"@[0] == 'K' && "KILL"@[1] == 'I' && "KILL"@[2] == 'L' && "KILL"@[3] == 'L');
    assert("BUS"@[0] == 'B' && "BUS"@[1] == 'U' && "BUS"@[2] == 'S');
    assert("SEGV"@[0] == 'S' && "SEGV"@[1] == 'E' && "SEGV"@[2] == 'G' && "SEGV"@[3] == 'V');
    assert("SYS"@[0] == 'S' && "SYS"@[1] == 'Y' && "SYS"@[2] == 'S');
    assert("PIPE"@[0] == 'P' && "PIPE"@[1] == 'I' && "PIPE"@[2] == 'P' && "PIPE"@[3] == 'E');
    assert("ALRM"@[0] == 'A' && "ALRM"@[1] == 'L' && "ALRM"@[2] == 'R' && "ALRM"@[3] == 'M');
    assert("TERM"@[0] == 'T' && "TERM"@[1] == 'E' && "TERM"@[2] == 'R' && "TERM"@[3] == 'M');
    assert("URG"@[0] == 'U' && "URG"@[1] == 'R' && "URG"@[2] == 'G');
    assert("STOP"@[0] == 'S' && "STOP"@[1] == 'T' && "STOP"@[2] == 'O' && "STOP"@[3] == 'P');
    assert("TSTP"@[0] == 'T' && "TSTP"@[1] == 'S' && "TSTP"@[2] == 'T' && "TSTP"@[3] == 'P');
    assert("CONT"@[0] == 'C' && "CONT"@[1] == 'O' && "CONT"@[2] == 'N' && "CONT"@[3] == 'T');
    assert("CHLD"@[0] == 'C' && "CHLD"@[1] == 'H' && "CHLD"@[2] == 'L' && "CHLD"@[3] == 'D');
    assert("TTIN"@[0] == 'T' && "TTIN"@[1] == 'T' && "TTIN"@[2] == 'I' && "TTIN"@[3] == 'N');
    assert("TTOU"@[0] == 'T' && "TTOU"@[1] == 'T' && "TTOU"@[2] == 'O' && "TTOU"@[3] == 'U');
    assert("USR1"@[0] == 'U' && "USR1"@[1] == 'S' && "USR1"@[2] == 'R' && "USR1"@[3] == '1');
    assert("USR2"@[0] == 'U' && "USR2"@[1] == 'S' && "USR2"@[2] == 'R' && "USR2"@[3] == '2');
    assert("SIG"@[0] == 'S' && "SIG"@[1] == 'I');
    let t = spec_signal_text(s);
    assert(t.len() >= 3);
    assert(t[0] == t[0] && t[1] == t[1] && t[2] == t[2]);
    if t.len() > 3 {
        assert(t[3] == t[3]);
    }
    assert(t.take(3) != "SIG"@) by {
        assert(t.take(3)[0] == t[0] && t.take(3)[1] == t[1]);
        assert(!(t[0] == 'S' && t[1] == 'I'));
    }
    let u = "SIG"@ + t;
    assert(u.take(3) =~= "SIG"@);
    assert(u.skip(3) =~= t);
}

/// The signal a name stands for (see `spec_name_to_signal`).
pub fn name_to_signal(name: &str) -> (r: Option<SignalName>)
    ensures
        r == spec_name_to_signal(name@),
{
    let cs = crate::text::chars_of(name);
    proof {
        reveal_strlit("SIG");
    }
    let has_sig = cs.len() >= 3 && cs[0] == 'S' && cs[1] == 'I' && cs[2] == 'G';
    let rest = if has_sig {
        crate::text::string_of(&crate::lexer::slice_chars(&cs, 3, cs.len()))
    } else {
        name.to_owned()
    };
    proof {
        if has_sig {
            assert(name@.take(3) =~= "SIG"@);
            assert(rest@ =~= name@.skip(3));
        } else if name@.len() >= 3 {
            assert(name@.take(3) != "SIG"@) by {
                if name@.take(3) == "SIG"@ {
                    assert(name@.take(3)[0] == 'S' && name@.take(3)[1] == 'I' && name@.take(3)[2] == 'G');
                }
            }
        }
        assert(rest@ == without_sig(name@));
    }
    let n = rest.as_str();
    if str_eq(n, "HUP") {
        Some(SignalName::Hup)
    } else if str_eq(n, "INT") {
        Some(SignalName::Int)
    } else if str_eq(n, "QUIT") {
        Some(SignalName::Quit)
    } else if str_eq(n, "ILL") {
        Some(SignalName::Ill)
    } else if str_eq(n, "TRAP") {
        Some(SignalName::Trap)
    } else if str_eq(n, "ABRT") || str_eq(n, "IOT") {
        Some(SignalName::Abrt)
    } else if str_eq(n, "FPE") {
        Some(SignalName::Fpe)
    } else if str_eq(n, "KILL") {
        Some(SignalName::Kill)
    } else if str_eq(n, "BUS") {
        Some(SignalName::Bus)
    } else if str_eq(n, "SEGV") {
        Some(SignalName::Segv)
    } else if str_eq(n, "SYS") {
        Some(SignalName::Sys)
    } else if str_eq(n, "PIPE") {
        Some(SignalName::Pipe)
    } else if str_eq(n, "ALRM") {
        Some(SignalName::Alrm)
    } else if str_eq(n, "TERM") {
        Some(SignalName::Term)
    } else if str_eq(n, "URG") {
        Some(SignalName::Urg)
    } else if str_eq(n, "STOP") {
        Some(SignalName::Stop)
    } else if str_eq(n, "TSTP") {
        Some(SignalName::Tstp)
    } else if str_eq(n, "CONT") {
        Some(SignalName::Cont)
    } else if str_eq(n, "CHLD") {
        Some(SignalName::Chld)
    } else if str_eq(n, "TTIN") {
        Some(SignalName::Ttin)
    } else if str_eq(n, "TTOU") {
        Some(SignalName::Ttou)
    } else if str_eq(n, "USR1") {
        Some(SignalName::Usr1)
    } else if str_eq(n, "USR2") {
        Some(SignalName::Usr2)
    } else {
        None
    }
}

} // verus!
