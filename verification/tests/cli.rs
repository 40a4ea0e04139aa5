use fixtures::cli::{parse_args, ArgsError};
use std::path::PathBuf;

fn args(slice: &[&str]) -> Vec<String> {
    slice.iter().map(|s| s.to_string()).collect()
}

#[test]
fn defaults_when_no_args() {
    let (defs, gen) = parse_args(&args(&["bin"])).unwrap();
    assert_eq!(PathBuf::from(defs), PathBuf::from("fixtures/definitions"));
    assert_eq!(PathBuf::from(gen), PathBuf::from("fixtures/generated"));
}

#[test]
fn long_flags() {
    let (defs, gen) = parse_args(&args(&[
        "bin",
        "--definitions",
        "/tmp/defs",
        "--output",
        "/tmp/out",
    ]))
    .unwrap();
    assert_eq!(PathBuf::from(defs), PathBuf::from("/tmp/defs"));
    assert_eq!(PathBuf::from(gen), PathBuf::from("/tmp/out"));
}

#[test]
fn short_flags() {
    let (defs, gen) = parse_args(&args(&["bin", "-d", "my/defs", "-o", "my/out"])).unwrap();
    assert_eq!(PathBuf::from(defs), PathBuf::from("my/defs"));
    assert_eq!(PathBuf::from(gen), PathBuf::from("my/out"));
}

#[test]
fn only_definitions_flag() {
    let (defs, gen) = parse_args(&args(&["bin", "-d", "custom"])).unwrap();
    assert_eq!(PathBuf::from(defs), PathBuf::from("custom"));
    assert_eq!(PathBuf::from(gen), PathBuf::from("fixtures/generated"));
}

#[test]
fn only_output_flag() {
    let (defs, gen) = parse_args(&args(&["bin", "-o", "custom"])).unwrap();
    assert_eq!(PathBuf::from(defs), PathBuf::from("fixtures/definitions"));
    assert_eq!(PathBuf::from(gen), PathBuf::from("custom"));
}

#[test]
fn missing_definitions_value() {
    let result = parse_args(&args(&["bin", "--definitions"]));
    assert!(result.is_err());
    let msg = result.unwrap_err().message();
    assert!(msg.contains("missing value"), "unexpected error: {msg}");
}

#[test]
fn missing_output_value() {
    let result = parse_args(&args(&["bin", "--output"]));
    assert!(result.is_err());
}

#[test]
fn unknown_argument() {
    let result = parse_args(&args(&["bin", "--foo"]));
    assert!(result.is_err());
    let msg = result.unwrap_err().message();
    assert!(msg.contains("unknown argument"), "unexpected error: {msg}");
}

#[test]
fn missing_value_messages_name_the_long_flag() {
    let err = parse_args(&args(&["bin", "-d"])).unwrap_err();
    assert_eq!(err.message(), "missing value for --definitions");
    let err = parse_args(&args(&["bin", "-o"])).unwrap_err();
    assert_eq!(err.message(), "missing value for --output");
}

#[test]
fn unknown_argument_message_is_exact() {
    let err = parse_args(&args(&["bin", "-x"])).unwrap_err();
    assert_eq!(err.message(), "unknown argument: -x\n\nRun with --help for usage.");
}

#[test]
fn help_and_version_stop_parsing() {
    assert!(matches!(parse_args(&args(&["bin", "--help", "--foo"])), Err(ArgsError::HelpRequested)));
    assert!(matches!(parse_args(&args(&["bin", "-h"])), Err(ArgsError::HelpRequested)));
    assert!(matches!(parse_args(&args(&["bin", "-V"])), Err(ArgsError::VersionRequested)));
    assert!(matches!(
        parse_args(&args(&["bin", "--version"])),
        Err(ArgsError::VersionRequested)
    ));
    // An earlier unknown argument is reported before a later help flag.
    assert!(matches!(
        parse_args(&args(&["bin", "--foo", "--help"])),
        Err(ArgsError::UnknownArgument(_))
    ));
}

#[test]
fn later_flags_override_earlier_ones() {
    let (defs, gen) = parse_args(&args(&["bin", "-d", "a", "-o", "b", "--definitions", "c"])).unwrap();
    assert_eq!(defs, "c");
    assert_eq!(gen, "b");
}

#[test]
fn empty_argument_list_gives_defaults() {
    let (defs, gen) = parse_args(&[]).unwrap();
    assert_eq!(defs, "fixtures/definitions");
    assert_eq!(gen, "fixtures/generated");
}
