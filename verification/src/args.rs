//! Command-line argument model and validation.

use vstd::prelude::*;

verus! {

/// The browsers whose history stores the analyzer understands.
#[derive(Clone, Copy, PartialEq, Eq, Structural, Debug)]
pub enum Browser {
    Chrome,
    Edge,
    Firefox,
    Vivaldi,
    Zen,
}

impl Browser {
    /// The browser's display name.
    pub open spec fn spec_name(&self) -> Seq<char> {
        match self {
            Browser::Chrome => "Chrome"@,
            Browser::Edge => "Edge"@,
            Browser::Firefox => "Firefox"@,
            Browser::Vivaldi => "Vivaldi"@,
            Browser::Zen => "Zen"@,
        }
    }

    /// Human-readable browser name, as shown in reports.
    pub fn name(&self) -> (r: &'static str)
        ensures
            r@ == self.spec_name(),
    {
        match self {
            Browser::Chrome => "Chrome",
            Browser::Edge => "Edge",
            Browser::Firefox => "Firefox",
            Browser::Vivaldi => "Vivaldi",
            Browser::Zen => "Zen",
        }
    }
}

/// The options a run of the analyzer is configured with.
pub struct Args {
    /// Browser to analyze.
    pub browser: Browser,
    /// Analyze every supported browser and merge the results.
    pub all_browsers: bool,
    /// Number of top domains to display.
    pub top: Option<usize>,
    /// Number of bottom domains to display.
    pub bottom: Option<usize>,
    /// Path to a custom domain pattern file.
    pub patterns: Option<String>,
    /// Disable pattern-based domain normalization.
    pub no_patterns: bool,
    /// Custom temporary file path for the database copy.
    pub temp_path: Option<String>,
    /// Enable verbose logging.
    pub verbose: bool,
    /// Number of worker partitions for aggregation.
    pub workers: Option<usize>,
    /// Redact domain names for privacy.
    pub redact: bool,
    /// Write the default pattern file and exit.
    pub init: bool,
}

/// A rejected command-line option.
#[derive(Clone, Copy, PartialEq, Eq, Structural, Debug)]
pub enum ArgError {
    ZeroTop,
    ZeroBottom,
    ZeroWorkers,
}

impl ArgError {
    /// The message the analyzer reports for this rejection.
    pub fn message(&self) -> (r: &'static str)
        ensures
            *self == ArgError::ZeroTop ==> r@ == "--top must be greater than 0"@,
            *self == ArgError::ZeroBottom ==> r@ == "--bottom must be greater than 0"@,
            *self == ArgError::ZeroWorkers ==> r@ == "--workers must be greater than 0"@,
    {
        match self {
            ArgError::ZeroTop => "--top must be greater than 0",
            ArgError::ZeroBottom => "--bottom must be greater than 0",
            ArgError::ZeroWorkers => "--workers must be greater than 0",
        }
    }
}

/// Rejects a zero `--top`, `--bottom` or `--workers` option, in that order;
/// any other combination of options is accepted.
pub fn validate_args(args: &Args) -> (r: Result<(), ArgError>)
    ensures
        r is Ok <==> args.top != Some(0usize) && args.bottom != Some(0usize) && args.workers
            != Some(0usize),
        r == Err::<(), ArgError>(ArgError::ZeroTop) <==> args.top == Some(0usize),
        r == Err::<(), ArgError>(ArgError::ZeroBottom) <==> args.top != Some(0usize)
            && args.bottom == Some(0usize),
        r == Err::<(), ArgError>(ArgError::ZeroWorkers) <==> args.top != Some(0usize)
            && args.bottom != Some(0usize) && args.workers == Some(0usize),
{
    if let Some(top) = args.top {
        if top == 0 {
            return Err(ArgError::ZeroTop);
        }
    }
    if let Some(bottom) = args.bottom {
        if bottom == 0 {
            return Err(ArgError::ZeroBottom);
        }
    }
    if let Some(workers) = args.workers {
        if workers == 0 {
            return Err(ArgError::ZeroWorkers);
        }
    }
    Ok(())
}

} // verus!
