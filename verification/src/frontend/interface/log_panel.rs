//! The game log.
use vstd::prelude::*;

verus! {

/// How serious a log message is.
#[derive(Debug, Clone, Copy, PartialEq, Eq, Structural)]
pub enum LogLevel {
    Info,
    Warn,
    Error,
}

} // verus!
