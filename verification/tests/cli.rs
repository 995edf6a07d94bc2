use ip_sniffer::cli::{classify_arguments, contains_bytes, CliDecision};

#[test]
fn too_few_arguments() {
    assert_eq!(classify_arguments(1, false, b""), CliDecision::NotEnough);
    assert_eq!(classify_arguments(0, false, b""), CliDecision::NotEnough);
}

#[test]
fn too_many_arguments() {
    assert_eq!(classify_arguments(5, false, b"10.0.0.1"), CliDecision::TooMany);
}

#[test]
fn plain_address_uses_defaults() {
    assert_eq!(classify_arguments(2, true, b"10.0.0.1"), CliDecision::AddressOnly);
}

#[test]
fn help_flags() {
    assert_eq!(classify_arguments(2, false, b"-h"), CliDecision::Help);
    assert_eq!(classify_arguments(2, false, b"--help"), CliDecision::Help);
}

#[test]
fn help_flag_anywhere_in_the_argument() {
    assert_eq!(classify_arguments(2, false, b"xx-hxx"), CliDecision::Help);
}

#[test]
fn jobs_flag_needs_both_operands() {
    assert_eq!(classify_arguments(4, false, b"-j"), CliDecision::ThreadsAndAddress);
    assert_eq!(classify_arguments(3, false, b"-j"), CliDecision::InvalidSyntax);
}

#[test]
fn unknown_first_argument() {
    assert_eq!(classify_arguments(2, false, b"bogus"), CliDecision::InvalidSyntax);
}

#[test]
fn byte_search_finds_and_misses() {
    assert!(contains_bytes(b"--help", b"-h"));
    assert!(contains_bytes(b"abc", b""));
    assert!(!contains_bytes(b"abc", b"abcd"));
    assert!(!contains_bytes(b"aabbb", b"ba"));
    assert!(contains_bytes(b"aabab", b"ba"));
}
