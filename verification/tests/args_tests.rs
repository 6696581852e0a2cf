use historee::args::{validate_args, ArgError, Args, Browser};
use historee::errors::AnalysisError;
use historee::patterns::compile_pattern_lines;
use historee::utils::{format_number, redact_domain};

fn base_args() -> Args {
    Args {
        browser: Browser::Vivaldi,
        all_browsers: false,
        top: None,
        bottom: None,
        patterns: None,
        no_patterns: false,
        temp_path: None,
        verbose: false,
        workers: None,
        redact: false,
        init: false,
    }
}

#[test]
fn default_args_validate() {
    assert!(validate_args(&base_args()).is_ok());
    let mut args = base_args();
    args.top = Some(10);
    args.bottom = Some(5);
    args.workers = Some(4);
    assert!(validate_args(&args).is_ok());
}

#[test]
fn zero_options_are_rejected_in_order() {
    let mut args = base_args();
    args.top = Some(0);
    assert_eq!(validate_args(&args).unwrap_err(), ArgError::ZeroTop);
    let mut args = base_args();
    args.bottom = Some(0);
    assert_eq!(validate_args(&args).unwrap_err(), ArgError::ZeroBottom);
    let mut args = base_args();
    args.workers = Some(0);
    assert_eq!(validate_args(&args).unwrap_err(), ArgError::ZeroWorkers);
    let mut args = base_args();
    args.top = Some(0);
    args.bottom = Some(0);
    assert_eq!(validate_args(&args).unwrap_err(), ArgError::ZeroTop);
}

#[test]
fn rejection_messages_match() {
    assert_eq!(ArgError::ZeroTop.message(), "--top must be greater than 0");
    assert_eq!(
        ArgError::ZeroBottom.message(),
        "--bottom must be greater than 0"
    );
    assert_eq!(
        ArgError::ZeroWorkers.message(),
        "--workers must be greater than 0"
    );
}

#[test]
fn analysis_error_messages_are_stable() {
    assert_eq!(
        AnalysisError::ProfileNotFound.message(),
        "could not find a default profile in profiles.ini"
    );
    assert_eq!(
        AnalysisError::HistoryFileMissing.message(),
        "history database not found"
    );
    assert_eq!(
        AnalysisError::UnsupportedCombination.message(),
        "unsupported browser or operating system"
    );
    assert_eq!(
        AnalysisError::MissingEnvironment.message(),
        "required environment variable not set"
    );
    assert_eq!(
        AnalysisError::InvalidPattern { line: 3 }.message(),
        "invalid regex pattern"
    );
}

#[test]
fn browser_names_render() {
    assert_eq!(Browser::Chrome.name(), "Chrome");
    assert_eq!(Browser::Edge.name(), "Edge");
    assert_eq!(Browser::Firefox.name(), "Firefox");
    assert_eq!(Browser::Vivaldi.name(), "Vivaldi");
    assert_eq!(Browser::Zen.name(), "Zen");
}

#[test]
fn strict_pattern_loading_reports_the_bad_line() {
    let lines: Vec<String> = vec![
        "# comment".to_string(),
        "".to_string(),
        r"^.+\.(foo\.com)$".to_string(),
        "(unclosed".to_string(),
    ];
    let err = compile_pattern_lines(&lines, true).unwrap_err();
    assert_eq!(err, AnalysisError::InvalidPattern { line: 4 });
}

#[test]
fn lenient_pattern_loading_skips_bad_lines() {
    let lines: Vec<String> = vec![
        "(unclosed".to_string(),
        r"^.+\.(foo\.com)$".to_string(),
        "  # padded comment".to_string(),
        r"  ^.+\.(bar\.net)$  ".to_string(),
    ];
    let pats = compile_pattern_lines(&lines, false).unwrap();
    assert_eq!(pats.len(), 2);
    assert_eq!(pats[0].source(), r"^.+\.(foo\.com)$");
    assert_eq!(pats[1].source(), r"^.+\.(bar\.net)$");
}

#[test]
fn default_pattern_set_compiles() {
    let sources = historee::patterns::default_pattern_sources();
    assert_eq!(sources.len(), 24);
    let owned: Vec<String> = sources.iter().map(|s| s.to_string()).collect();
    let pats = compile_pattern_lines(&owned, true).unwrap();
    assert_eq!(pats.len(), 24);
}

#[test]
fn numbers_group_by_thousands() {
    assert_eq!(format_number(0), "0");
    assert_eq!(format_number(999), "999");
    assert_eq!(format_number(1000), "1,000");
    assert_eq!(format_number(1234567), "1,234,567");
    assert_eq!(format_number(4294967295), "4,294,967,295");
}

#[test]
fn redaction_masks_all_but_the_tld() {
    assert_eq!(redact_domain("www.example.com"), "***.*******.com");
    assert_eq!(redact_domain("localhost"), "localhost");
    assert_eq!(redact_domain("abc.co"), "???.co");
    assert_eq!(redact_domain("a.io.net"), "???.net");
}

#[test]
fn redaction_masks_by_byte_length() {
    // "héllo" is five characters but six UTF-8 bytes, so six asterisks.
    assert_eq!(redact_domain("héllo.example.com"), "******.*******.com");
}
