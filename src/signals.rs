//! Signal names and their lookup.
use crate::text::same_text;
use vstd::prelude::*;

verus! {

/// The signals that can be named, in the order in which they are listed.
#[allow(non_camel_case_types)]
#[derive(Debug, Clone, Copy, PartialEq, Eq, Structural)]
pub enum Signal {
    SIGINT,
    SIGTERM,
    SIGKILL,
    SIGHUP,
    SIGQUIT,
    SIGUSR1,
    SIGUSR2,
    SIGALRM,
    SIGCONT,
    SIGSTOP,
    SIGTSTP,
    SIGCHLD,
    SIGPIPE,
    SIGSEGV,
    SIGABRT,
    SIGILL,
    SIGTRAP,
    SIGBUS,
    SIGFPE,
    SIGTTIN,
    SIGTTOU,
    SIGURG,
    SIGXCPU,
    SIGXFSZ,
    SIGVTALRM,
    SIGPROF,
    SIGWINCH,
    SIGIO,
    SIGPWR,
    SIGSYS,
}

/// The short name of a signal, in upper case and without its `SIG` prefix.
pub open spec fn name_of(sig: Signal) -> Seq<char> {
    match sig {
        Signal::SIGINT => "INT"@,
        Signal::SIGTERM => "TERM"@,
        Signal::SIGKILL => "KILL"@,
        Signal::SIGHUP => "HUP"@,
        Signal::SIGQUIT => "QUIT"@,
        Signal::SIGUSR1 => "USR1"@,
        Signal::SIGUSR2 => "USR2"@,
        Signal::SIGALRM => "ALRM"@,
        Signal::SIGCONT => "CONT"@,
        Signal::SIGSTOP => "STOP"@,
        Signal::SIGTSTP => "TSTP"@,
        Signal::SIGCHLD => "CHLD"@,
        Signal::SIGPIPE => "PIPE"@,
        Signal::SIGSEGV => "SEGV"@,
        Signal::SIGABRT => "ABRT"@,
        Signal::SIGILL => "ILL"@,
        Signal::SIGTRAP => "TRAP"@,
        Signal::SIGBUS => "BUS"@,
        Signal::SIGFPE => "FPE"@,
        Signal::SIGTTIN => "TTIN"@,
        Signal::SIGTTOU => "TTOU"@,
        Signal::SIGURG => "URG"@,
        Signal::SIGXCPU => "XCPU"@,
        Signal::SIGXFSZ => "XFSZ"@,
        Signal::SIGVTALRM => "VTALRM"@,
        Signal::SIGPROF => "PROF"@,
        Signal::SIGWINCH => "WINCH"@,
        Signal::SIGIO => "IO"@,
        Signal::SIGPWR => "PWR"@,
        Signal::SIGSYS => "SYS"@,
    }
}

/// Every signal, in listing order.
pub open spec fn all_signals() -> Seq<Signal> {
    seq![Signal::SIGINT, Signal::SIGTERM, Signal::SIGKILL, Signal::SIGHUP, Signal::SIGQUIT, Signal::SIGUSR1, Signal::SIGUSR2, Signal::SIGALRM, Signal::SIGCONT, Signal::SIGSTOP, Signal::SIGTSTP, Signal::SIGCHLD, Signal::SIGPIPE, Signal::SIGSEGV, Signal::SIGABRT, Signal::SIGILL, Signal::SIGTRAP, Signal::SIGBUS, Signal::SIGFPE, Signal::SIGTTIN, Signal::SIGTTOU, Signal::SIGURG, Signal::SIGXCPU, Signal::SIGXFSZ, Signal::SIGVTALRM, Signal::SIGPROF, Signal::SIGWINCH, Signal::SIGIO, Signal::SIGPWR, Signal::SIGSYS]
}

/// The first signal of `list` whose name is `s`.
pub open spec fn first_named(list: Seq<Signal>, s: Seq<char>) -> Option<Signal>
    decreases list.len(),
{
    if list.len() == 0 {
        None
    } else if name_of(list[0]) == s {
        Some(list[0])
    } else {
        first_named(list.drop_first(), s)
    }
}

/// The signal whose short name is exactly `s`, if there is one.
pub open spec fn signal_named(s: Seq<char>) -> Option<Signal> {
    first_named(all_signals(), s)
}

/// The names of `list`, each followed by a space but the last.
pub open spec fn joined(list: Seq<Signal>) -> Seq<char>
    decreases list.len(),
{
    if list.len() == 0 {
        seq![]
    } else if list.len() == 1 {
        name_of(list[0])
    } else {
        joined(list.drop_last()) + " "@ + name_of(list.last())
    }
}

impl Signal {
    /// The short name of the signal.
    pub fn name(&self) -> (r: &'static str)
        ensures
            r@ == name_of(*self),
    {
        match self {
            Signal::SIGINT => "INT",
            Signal::SIGTERM => "TERM",
            Signal::SIGKILL => "KILL",
            Signal::SIGHUP => "HUP",
            Signal::SIGQUIT => "QUIT",
            Signal::SIGUSR1 => "USR1",
            Signal::SIGUSR2 => "USR2",
            Signal::SIGALRM => "ALRM",
            Signal::SIGCONT => "CONT",
            Signal::SIGSTOP => "STOP",
            Signal::SIGTSTP => "TSTP",
            Signal::SIGCHLD => "CHLD",
            Signal::SIGPIPE => "PIPE",
            Signal::SIGSEGV => "SEGV",
            Signal::SIGABRT => "ABRT",
            Signal::SIGILL => "ILL",
            Signal::SIGTRAP => "TRAP",
            Signal::SIGBUS => "BUS",
            Signal::SIGFPE => "FPE",
            Signal::SIGTTIN => "TTIN",
            Signal::SIGTTOU => "TTOU",
            Signal::SIGURG => "URG",
            Signal::SIGXCPU => "XCPU",
            Signal::SIGXFSZ => "XFSZ",
            Signal::SIGVTALRM => "VTALRM",
            Signal::SIGPROF => "PROF",
            Signal::SIGWINCH => "WINCH",
            Signal::SIGIO => "IO",
            Signal::SIGPWR => "PWR",
            Signal::SIGSYS => "SYS",
        }
    }
}

/// Every signal, in listing order.
pub fn signal_list() -> (r: Vec<Signal>)
    ensures
        r@ == all_signals(),
{
    let r = vec![
        Signal::SIGINT,
        Signal::SIGTERM,
        Signal::SIGKILL,
        Signal::SIGHUP,
        Signal::SIGQUIT,
        Signal::SIGUSR1,
        Signal::SIGUSR2,
        Signal::SIGALRM,
        Signal::SIGCONT,
        Signal::SIGSTOP,
        Signal::SIGTSTP,
        Signal::SIGCHLD,
        Signal::SIGPIPE,
        Signal::SIGSEGV,
        Signal::SIGABRT,
        Signal::SIGILL,
        Signal::SIGTRAP,
        Signal::SIGBUS,
        Signal::SIGFPE,
        Signal::SIGTTIN,
        Signal::SIGTTOU,
        Signal::SIGURG,
        Signal::SIGXCPU,
        Signal::SIGXFSZ,
        Signal::SIGVTALRM,
        Signal::SIGPROF,
        Signal::SIGWINCH,
        Signal::SIGIO,
        Signal::SIGPWR,
        Signal::SIGSYS,
    ];
    proof {
        assert(r@ =~= all_signals());
    }
    r
}

/// A name for what `str::to_uppercase` returns.
pub uninterp spec fn upper_of(s: Seq<char>) -> Seq<char>;

/// Relies on `str::to_uppercase`: the upper-case form of `s`, which depends on
/// its characters alone.
#[verifier::external_body]
fn uppercase(s: &str) -> (r: String)
    ensures
        r@ == upper_of(s@),
{
    s.to_uppercase()
}

/// The signal whose short name is exactly `upper`.
pub fn lookup_signal(upper: &str) -> (r: Option<Signal>)
    ensures
        r == signal_named(upper@),
{
    let list = signal_list();
    proof {
        assert(list@.subrange(0, list@.len() as int) =~= list@);
    }
    let mut i: usize = 0;
    while i < list.len()
        invariant
            0 <= i <= list.len(),
            list@ == all_signals(),
            first_named(list@.subrange(i as int, list@.len() as int), upper@) == signal_named(
                upper@,
            ),
        decreases list.len() - i,
    {
        let rest = Ghost(list@.subrange(i as int, list@.len() as int));
        proof {
            assert(rest@.drop_first() =~= list@.subrange(i as int + 1, list@.len() as int));
            assert(rest@[0] == list@[i as int]);
        }
        if same_text(list[i].name(), upper) {
            return Some(list[i]);
        }
        i = i + 1;
    }
    None
}

/// Resolves a signal name given in any case, as its upper-case form names it.
pub fn parse_signal(name: &str) -> (r: Option<Signal>)
    ensures
        r == signal_named(upper_of(name@)),
{
    let upper = uppercase(name);
    lookup_signal(upper.as_str())
}

/// The names of all signals, separated by single spaces.
pub fn list_signals() -> (r: String)
    ensures
        r@ == joined(all_signals()),
{
    let list = signal_list();
    let mut out = String::new();
    let mut i: usize = 0;
    while i < list.len()
        invariant
            0 <= i <= list.len(),
            list@ == all_signals(),
            out@ == joined(list@.subrange(0, i as int)),
        decreases list.len() - i,
    {
        proof {
            assert(list@.subrange(0, i as int + 1).drop_last() =~= list@.subrange(0, i as int));
        }
        if i > 0 {
            out.append(" ");
        }
        out.append(list[i].name());
        proof {
            if i == 0 {
                assert(out@ =~= joined(list@.subrange(0, 1)));
            }
        }
        i = i + 1;
    }
    proof {
        assert(list@.subrange(0, list@.len() as int) =~= list@);
    }
    out
}

} // verus!
