//! Command-line options, as the library sees them.

use vstd::prelude::*;

verus! {

#[derive(Debug, Clone, Copy, PartialEq, Eq, Structural)]
pub enum ReportMode {
    Off,
    Summary,
    Full,
}

#[derive(Debug, Clone)]
pub struct Args {
    /// Path to config.toml (overrides APOGEE_CONFIG and the XDG default).
    pub config: Option<String>,
    pub report: ReportMode,
    pub report_out: Option<String>,
    pub dump_context: bool,
    pub dump_context_out: Option<String>,
    /// Redact secret-like values in a context dump.
    pub redact: bool,
    pub no_redact: bool,
}

impl Args {
    /// `--no-redact` wins over `--redact`.
    pub fn effective_redact(&self) -> (r: bool)
        ensures
            r == (!self.no_redact && self.redact),
    {
        if self.no_redact {
            false
        } else {
            self.redact
        }
    }
}

} // verus!
