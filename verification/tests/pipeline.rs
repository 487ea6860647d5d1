use env_reader::parser::parse_units;
use env_reader::{read_env, EnvError, EnvReader, EnvType, Transform};

struct Recorder {
    policy: bool,
    calls: Vec<(Vec<String>, String, String)>,
}

impl Transform for Recorder {
    fn clear_policy(&self) -> bool {
        self.policy
    }

    fn remove_comments_if_blank_line_occurs(&self) -> bool {
        self.policy
    }

    fn write(&mut self, comments: Vec<String>, key: &str, inferred_type: EnvType) {
        self.calls.push((comments, key.to_string(), inferred_type.raw_value()));
    }
}

#[test]
fn unit_count_matches_entry_lines() {
    let input = b"# c\nA=1\n\nB=2\nC=x\n".to_vec();
    let units = parse_units(&input, true).unwrap();
    assert_eq!(units.len(), 3);
}

#[test]
fn comment_attaches_to_following_key() {
    let input = b"# a\nKEY=1\n".to_vec();
    let units = parse_units(&input, true).unwrap();
    assert_eq!(units.len(), 1);
    assert_eq!(units[0].comments, vec!["// a".to_string()]);
    assert_eq!(units[0].key, "KEY");
    assert!(matches!(units[0].value, EnvType::I32(1)));
}

#[test]
fn blank_line_clears_comments_by_default() {
    let input = b"# a\n\nKEY=1\n".to_vec();
    let units = parse_units(&input, true).unwrap();
    assert_eq!(units.len(), 1);
    assert!(units[0].comments.is_empty());
}

#[test]
fn blank_line_keeps_comments_when_policy_disabled() {
    let input = b"# a\n\nKEY=1\n".to_vec();
    let units = parse_units(&input, false).unwrap();
    assert_eq!(units.len(), 1);
    assert_eq!(units[0].comments, vec!["// a".to_string()]);
}

#[test]
fn malformed_line_fails_the_pass() {
    let input = b"NOEQUALSIGN".to_vec();
    match parse_units(&input, true) {
        Err(e) => assert_eq!(e, EnvError::MalformedLine),
        Ok(_) => panic!("a line without a separator must fail"),
    }
}

#[test]
fn malformed_line_keeps_earlier_dispatches() {
    let reader = EnvReader::new(
        b"A=1\nNOEQUALSIGN\nB=2\n".to_vec(),
        Recorder { policy: true, calls: Vec::new() },
    );
    let mut reader = reader;
    let outcome = read_env(&mut reader);
    assert_eq!(outcome, Err(EnvError::MalformedLine));
    assert_eq!(reader.transformer.calls.len(), 1);
    assert_eq!(reader.transformer.calls[0].1, "A");
}

#[test]
fn invalid_utf8_is_an_encoding_error() {
    let input = vec![0x4b, 0xff, 0x3d, 0x31];
    match parse_units(&input, true) {
        Err(e) => assert_eq!(e, EnvError::Encoding),
        Ok(_) => panic!("invalid bytes must fail"),
    }
}

#[test]
fn dispatch_is_in_file_order_with_duplicates_kept() {
    let mut reader = EnvReader::new(
        b"K=1\nJ=2\nK=3\n".to_vec(),
        Recorder { policy: true, calls: Vec::new() },
    );
    assert_eq!(read_env(&mut reader), Ok(()));
    let keys: Vec<&str> = reader.transformer.calls.iter().map(|c| c.1.as_str()).collect();
    assert_eq!(keys, vec!["K", "J", "K"]);
    assert_eq!(reader.transformer.calls[2].2, "3");
}

#[test]
fn policy_disabled_via_transformer_keeps_comments() {
    let mut reader = EnvReader::new(
        b"# a\n\nKEY=1\n".to_vec(),
        Recorder { policy: false, calls: Vec::new() },
    );
    assert_eq!(read_env(&mut reader), Ok(()));
    assert_eq!(reader.transformer.calls[0].0, vec!["// a".to_string()]);
}

#[test]
fn every_hash_in_a_comment_is_converted() {
    let input = b"##x# y\nK=1\n".to_vec();
    let units = parse_units(&input, true).unwrap();
    assert_eq!(units[0].comments, vec!["////x// y".to_string()]);
}

#[test]
fn lines_are_trimmed_but_inner_spacing_is_kept() {
    let input = b"  KEY = a b  \n".to_vec();
    let units = parse_units(&input, true).unwrap();
    assert_eq!(units[0].key, "KEY ");
    assert_eq!(units[0].value.raw_value(), "\" a b\"");
}

#[test]
fn consecutive_comment_blocks_concatenate() {
    let input = b"# a\n# b\nK=1\n".to_vec();
    let units = parse_units(&input, true).unwrap();
    assert_eq!(units[0].comments, vec!["// a".to_string(), "// b".to_string()]);
}

#[test]
fn trailing_comments_without_a_key_are_dropped() {
    let input = b"K=1\n# tail\n".to_vec();
    let units = parse_units(&input, true).unwrap();
    assert_eq!(units.len(), 1);
    assert!(units[0].comments.is_empty());
}

#[test]
fn non_ascii_text_is_decoded() {
    let input = "GRUSS=gr\u{00fc}n\n".as_bytes().to_vec();
    let units = parse_units(&input, true).unwrap();
    assert_eq!(units[0].key, "GRUSS");
    assert_eq!(units[0].value.raw_value(), "\"gr\u{00fc}n\"");
}

#[test]
fn empty_value_classifies_as_empty_string() {
    let input = b"K=\n".to_vec();
    let units = parse_units(&input, true).unwrap();
    assert_eq!(units[0].value.raw_value(), "\"\"");
}
