//! The analyzer's error taxonomy.

use vstd::prelude::*;

verus! {

/// Why a run, or part of one, failed.
#[derive(Clone, Copy, PartialEq, Eq, Structural, Debug)]
pub enum AnalysisError {
    /// The browser and operating system pair has no known history path.
    UnsupportedCombination,
    /// A required environment value (home or app-data directory) is absent.
    MissingEnvironment,
    /// No profile in the registry satisfies any selection rule.
    ProfileNotFound,
    /// The resolved history database does not exist on disk.
    HistoryFileMissing,
    /// An explicitly supplied normalization pattern does not compile;
    /// `line` is the 1-based line number in the pattern file.
    InvalidPattern { line: usize },
}

impl AnalysisError {
    /// A short description of the failure.
    pub fn message(&self) -> (r: &'static str)
        ensures
            *self == AnalysisError::UnsupportedCombination ==> r@
                == "unsupported browser or operating system"@,
            *self == AnalysisError::MissingEnvironment ==> r@
                == "required environment variable not set"@,
            *self == AnalysisError::ProfileNotFound ==> r@
                == "could not find a default profile in profiles.ini"@,
            *self == AnalysisError::HistoryFileMissing ==> r@
                == "history database not found"@,
            (*self matches AnalysisError::InvalidPattern { .. }) ==> r@
                == "invalid regex pattern"@,
    {
        match self {
            AnalysisError::UnsupportedCombination => "unsupported browser or operating system",
            AnalysisError::MissingEnvironment => "required environment variable not set",
            AnalysisError::ProfileNotFound => "could not find a default profile in profiles.ini",
            AnalysisError::HistoryFileMissing => "history database not found",
            AnalysisError::InvalidPattern { .. } => "invalid regex pattern",
        }
    }
}

} // verus!
