//! The errors that abort a generation run.

use vstd::prelude::*;

verus! {

#[derive(Debug, Clone, PartialEq, Eq)]
pub enum Error {
    /// A `requires` entry is not of the form `group.name`.
    InvalidRequire { raw: String },
    /// A module requires a module of its own group that does not exist.
    UnknownDependency { module: String, dep: String },
    /// A regular expression of the configuration does not compile.
    InvalidRegex { pattern: String },
    /// A `{` opens a token that no `}` closes.
    UnclosedToken { input: String },
    /// A token `{}` names nothing.
    EmptyToken { input: String },
    /// A token names nothing that the resolver knows.
    UnknownToken { token: String, input: String },
    /// A line of an env file is not `KEY=VALUE`; its number, from 1.
    InvalidEnvLine { line: usize, text: String },
    /// The same-group `requires` graph has a cycle; the nodes left over, ascending.
    DependencyCycle { group: String, nodes: Vec<String> },
}

} // verus!
