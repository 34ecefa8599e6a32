//! The requests that the two tools take, and what a signal request asks for.
use crate::signals::{parse_signal, signal_named, upper_of, Signal};
use vstd::prelude::*;

verus! {

/// The most process names that one signal request may give: the width of the
/// native word in bits.
pub const MAX_NAMES: usize = usize::BITS as usize;

/// A request to signal the processes with the given short names.
pub struct FaulxArgs {
    /// The short names of the processes to signal.
    pub process_names: Vec<String>,
    /// List the known signal names instead.
    pub list: bool,
    /// The name of the signal to send instead of `TERM`.
    pub signal: Option<String>,
    /// Print no complaints.
    pub quiet: bool,
    /// Signal the process groups of the matches as well.
    pub process_group: bool,
    /// Report each signal that was sent.
    pub verbose: bool,
}

/// A request to print the process tree; it takes no options.
pub struct ProcedreArgs {}

/// Why a signal request cannot be carried out.
#[derive(Debug, Clone, Copy, PartialEq, Eq, Structural)]
pub enum RequestError {
    /// More process names than [`MAX_NAMES`] were given.
    TooManyNames { given: usize },
    /// The signal name is not one of the known names.
    UnknownSignal,
}

/// The signal that a request with `n_names` names and the signal name
/// `signal` asks for, or why it is refused.
pub open spec fn requested_signal(n_names: nat, signal: Option<Seq<char>>) -> Result<
    Signal,
    RequestError,
> {
    if n_names > MAX_NAMES {
        Err(RequestError::TooManyNames { given: n_names as usize })
    } else {
        match signal {
            None => Ok(Signal::SIGTERM),
            Some(s) => match signal_named(upper_of(s)) {
                Some(g) => Ok(g),
                None => Err(RequestError::UnknownSignal),
            },
        }
    }
}

impl FaulxArgs {
    /// The signal to send: `TERM` when none is named. Refused when there are
    /// too many names, which is checked first, or the name is unknown.
    pub fn checked_signal(&self) -> (r: Result<Signal, RequestError>)
        ensures
            r == requested_signal(
                self.process_names@.len(),
                match self.signal {
                    Some(s) => Some(s@),
                    None => None,
                },
            ),
    {
        if self.process_names.len() > MAX_NAMES {
            return Err(RequestError::TooManyNames { given: self.process_names.len() });
        }
        match &self.signal {
            None => Ok(Signal::SIGTERM),
            Some(name) => match parse_signal(name.as_str()) {
                Some(g) => Ok(g),
                None => Err(RequestError::UnknownSignal),
            },
        }
    }
}

} // verus!
