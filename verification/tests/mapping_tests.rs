use hff_rs::errors::HffError;
use hff_rs::mapping::{
    default_mapping, load_default_mapping, load_mapping_from_str, process_mapping,
    signature_to_str,
};

#[test]
fn hff_test_read_mapping() {
    let file_path = "../resources/mapping.hfc";
    println!("Reading mapping file: {}", file_path);
    let _ = process_mapping(&vec![file_path.to_string()]);
}

#[test]
fn mod_test_read_mapping() {
    let file_path = "../resources/mapping.hfc";
    println!("Reading mapping file: {}", file_path);
    let _ = process_mapping(&vec![file_path.to_string()]);
}

#[test]
fn signature_is_sorted_and_joined() {
    let sig = signature_to_str(vec!["value".to_string(), "system".to_string()]);
    assert_eq!(sig, "system|value");
}

#[test]
fn signature_of_one_name() {
    let sig = signature_to_str(vec!["code".to_string()]);
    assert_eq!(sig, "code");
}

#[test]
fn signature_order_is_irrelevant() {
    let a = signature_to_str(vec!["b".to_string(), "a".to_string(), "c".to_string()]);
    let b = signature_to_str(vec!["c".to_string(), "b".to_string(), "a".to_string()]);
    assert_eq!(a, "a|b|c");
    assert_eq!(a, b);
}

#[test]
fn comment_only_source_yields_empty_registry() {
    let lines = load_mapping_from_str("// only a comment\n   // another\n").unwrap();
    assert_eq!(lines.len(), 0);
    let reg = process_mapping(&lines).unwrap();
    assert!(reg.lookup("system|value").is_none());
}

#[test]
fn empty_source_yields_empty_registry() {
    let lines = load_mapping_from_str("").unwrap();
    assert_eq!(lines.len(), 0);
    let reg = process_mapping(&lines).unwrap();
    assert!(reg.lookup("code").is_none());
}

#[test]
fn odd_line_count_is_a_format_error() {
    let lines = load_mapping_from_str("#[system, value]\n{$.value}\n#[code]\n").unwrap();
    assert_eq!(lines.len(), 3);
    let r = process_mapping(&lines);
    assert_eq!(r.err(), Some(HffError::RuleSourceFormat));
}

#[test]
fn lone_line_is_a_format_error() {
    let lines = vec!["#[code]".to_string()];
    let r = process_mapping(&lines);
    assert_eq!(r.err(), Some(HffError::RuleSourceFormat));
}

#[test]
fn bad_signature_line_is_a_signature_error() {
    let lines = vec!["not a signature".to_string(), "{$.x}".to_string()];
    let r = process_mapping(&lines);
    assert_eq!(r.err(), Some(HffError::SignatureFormat));
}

#[test]
fn later_rule_replaces_earlier_rule() {
    let src = "#[system, value]\nfirst\n#[value, system]\nsecond\n";
    let lines = load_mapping_from_str(src).unwrap();
    let reg = process_mapping(&lines).unwrap();
    assert_eq!(reg.lookup("system|value").map(|s| s.as_str()), Some("second"));
}

#[test]
fn rule_lines_and_names_are_trimmed() {
    let src = "  #[ value , system ]  \n   {$.value}   \n";
    let lines = load_mapping_from_str(src).unwrap();
    let reg = process_mapping(&lines).unwrap();
    assert_eq!(reg.lookup("system|value").map(|s| s.as_str()), Some("{$.value}"));
}

#[test]
fn default_mapping_round_trips_through_the_loader() {
    let lines = load_default_mapping().unwrap();
    let reg = process_mapping(&lines);
    assert!(reg.is_ok());
}

#[test]
fn default_mapping_text_is_not_empty() {
    assert!(!default_mapping().is_empty());
    assert_eq!(default_mapping(), hff_rs::friendly::default_mapping());
}

#[test]
fn crlf_lines_are_split_and_stripped() {
    let src = "#[a, b]\r\ntemplate text\r\n";
    let lines = load_mapping_from_str(src).unwrap();
    assert_eq!(lines, vec!["#[a, b]".to_string(), "template text".to_string()]);
    let reg = process_mapping(&lines).unwrap();
    assert_eq!(reg.lookup("a|b").map(|s| s.as_str()), Some("template text"));
}

#[test]
fn error_messages_name_each_failure() {
    assert_eq!(HffError::Shape.message(), "expected an object");
    assert_eq!(
        HffError::RuleSourceFormat.message(),
        "unequal number of lines in mapping"
    );
    assert_eq!(HffError::SignatureFormat.message(), "invalid signature format");
    assert_eq!(HffError::RuleSourceIo.message(), "mapping file could not be read");
    assert_eq!(HffError::Serialization.message(), "serialization failed");
}
