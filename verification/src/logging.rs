use vstd::prelude::*;

verus! {

/// How grave a log message is.
#[allow(non_camel_case_types)]
#[derive(PartialEq, Eq, Structural, Debug, Clone, Copy)]
pub enum Severities {
    DEBUG,
    OKAY,
    INFO,
    WARNING,
    ERROR,
    CRITICAL,
}

/// Whether a message of this severity is printed: debug messages only in a debug build,
/// every other one always.
pub fn should_log(severity: Severities, debug_build: bool) -> (r: bool)
    ensures
        r == (debug_build || severity != Severities::DEBUG),
{
    debug_build || severity != Severities::DEBUG
}

} // verus!
