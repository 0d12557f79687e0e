use vstd::prelude::*;

verus! {

#[verifier::external_type_specification]
#[verifier::external_body]
pub struct ExPathBuf(std::path::PathBuf);

/// How the query's letter case is compared with the entries' keys.
#[derive(Debug, Copy, Clone, PartialEq, Eq, Structural)]
pub enum CaseSensitivity {
    /// Case-insensitive only when the query is entirely lowercase
    Smart,
    /// Case-sensitive search
    Respect,
    /// Case-insensitive search
    Ignore,
}

/// The settings a run starts from.
pub struct CliArgs {
    /// The prompt to be displayed
    pub prompt: String,
    /// An initial value for the query
    pub query: String,
    /// Read items from a file instead of stdin
    pub file: Option<std::path::PathBuf>,
    /// Read a theme from a file
    pub theme: Option<std::path::PathBuf>,
    /// How to treat case-sensitivity
    pub case: CaseSensitivity,
    /// The maximum number of items that can be selected
    pub max: usize,
    /// The maximum number of items that can be displayed at once
    pub max_visible: usize,
    /// An external command that repopulates the items whenever the query changes
    pub callback: Option<Vec<String>>,
}

} // verus!
