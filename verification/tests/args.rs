use dnsglobe::args::{parse_args, ArgsError, Command, OutputFormat};
use dnsglobe::record::{parse_record_type, record_type_index};

const USAGE: &str = "usage: dnsglobe --once <domain> [type] [--output json|csv]";

fn parse(args: &[&str]) -> Result<Command, ArgsError> {
    let args: Vec<String> = args.iter().map(|a| a.to_string()).collect();
    parse_args(&args)
}

fn once(args: &[&str]) -> (String, u16, OutputFormat) {
    match parse(args) {
        Ok(Command::Once { domain, code, format }) => (domain, code, format),
        other => panic!("{:?}", other),
    }
}

fn message(args: &[&str]) -> String {
    parse(args).unwrap_err().message()
}

#[test]
fn no_argument_opens_an_empty_table() {
    assert!(matches!(parse(&[]), Ok(Command::Watch { domain }) if domain.is_empty()));
}

#[test]
fn a_domain_is_watched() {
    assert!(matches!(parse(&["example.com", "x"]), Ok(Command::Watch { domain }) if domain == "example.com"));
}

#[test]
fn version_flags() {
    assert!(matches!(parse(&["--version"]), Ok(Command::Version)));
    assert!(matches!(parse(&["-V", "--once"]), Ok(Command::Version)));
}

#[test]
fn once_takes_domain_type_and_format() {
    assert_eq!(once(&["--once", "example.com"]), ("example.com".to_string(), 1, OutputFormat::Text));
    assert_eq!(once(&["--once", "example.com", "TXT"]).1, 16);
    assert_eq!(once(&["--once", "example.com", "--output", "json"]).2, OutputFormat::Json);
    assert_eq!(
        once(&["--once", "example.com", "A", "--output", "csv"]),
        ("example.com".to_string(), 1, OutputFormat::Csv)
    );
    assert_eq!(once(&["--once", "example.com", "PTR", "extra"]).1, 12);
}

#[test]
fn output_may_stand_anywhere_and_in_either_form() {
    for args in [
        ["--once", "--output=CSV", "d", "mx"],
        ["--once", "d", "--output=csv", "mx"],
        ["--once", "d", "mx", "--output=Csv"],
    ] {
        assert_eq!(once(&args), ("d".to_string(), 15, OutputFormat::Csv));
    }
    assert_eq!(once(&["--once", "--output", "json", "d", "--output=text"]).2, OutputFormat::Text);
}

#[test]
fn faults_are_reported_in_order() {
    assert_eq!(message(&["--once"]), USAGE);
    assert_eq!(message(&["--once", "--output"]), format!("--output requires a value\n{}", USAGE));
    assert_eq!(
        message(&["--once", "--output", "XML", "--bad"]),
        "unknown output format: XML (expected json or csv)"
    );
    assert_eq!(message(&["--once", "--output="]), "unknown output format:  (expected json or csv)");
    assert_eq!(message(&["--once", "d", "--bad", "--output=x"]), format!("unknown flag: --bad\n{}", USAGE));
    assert_eq!(message(&["--once", "d", "nope"]), "unknown record type: nope");
    assert_eq!(message(&["--once", "d", "straße"]), "unknown record type: straße");
}

#[test]
fn formats_are_read_in_either_case() {
    assert_eq!(OutputFormat::from_str("TeXt").unwrap(), OutputFormat::Text);
    assert_eq!(OutputFormat::from_str("JSON").unwrap(), OutputFormat::Json);
    assert_eq!(OutputFormat::from_str("csv").unwrap(), OutputFormat::Csv);
    assert!(matches!(OutputFormat::from_str("csv "), Err(ArgsError::UnknownFormat(s)) if s == "csv "));
    assert_eq!(OutputFormat::default(), OutputFormat::Text);
}

#[test]
fn record_types_are_read_in_either_case() {
    assert_eq!(parse_record_type("aaaa"), Some(28));
    assert_eq!(parse_record_type("CNAME"), Some(5));
    assert_eq!(parse_record_type("Ns"), Some(2));
    assert_eq!(parse_record_type("soa"), Some(6));
    assert_eq!(parse_record_type("nsec3param"), Some(51));
    assert_eq!(parse_record_type("*"), Some(255));
    assert_eq!(parse_record_type(""), None);
    assert_eq!(parse_record_type("ſoa"), Some(6));
}

#[test]
fn unoffered_record_types_stand_for_the_first() {
    assert_eq!(record_type_index(6), 6);
    assert_eq!(record_type_index(1), 0);
    assert_eq!(record_type_index(255), 0);
}
