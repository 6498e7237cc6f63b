use vstd::prelude::*;

verus! {

#[verifier::external_type_specification]
#[verifier::external_body]
pub struct ExRegexError(regex::Error);

#[verifier::external_type_specification]
#[verifier::external_body]
pub struct ExGitError(git2::Error);

/// Why an analysis failed.
pub enum AnalyzerError {
    /// The repository could not be opened or read.
    GitError(git2::Error),
    /// An author pattern is not a valid regular expression.
    RegexError(regex::Error),
}

} // verus!
