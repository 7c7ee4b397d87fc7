use csv_viewer::processor::{detect_from_sample, CSVProcessor};

fn bytes(text: &str) -> Option<Vec<u8>> {
    Some(text.as_bytes().to_vec())
}

#[test]
fn detects_comma_from_sample_lines() {
    let proc = CSVProcessor::new();
    let d = proc.detect_delimiter(&bytes("name,age,city\nAlice,30,NYC\nBob,25,LA\n"));
    assert_eq!(d, b',');
}

#[test]
fn detects_semicolon() {
    let proc = CSVProcessor::new();
    let d = proc.detect_delimiter(&bytes("a;b;c\n1;2;3\n"));
    assert_eq!(d, b';');
}

#[test]
fn detects_tab() {
    let proc = CSVProcessor::new();
    let d = proc.detect_delimiter(&bytes("a\tb\n1\t2\n"));
    assert_eq!(d, b'\t');
}

#[test]
fn detects_pipe() {
    let proc = CSVProcessor::new();
    let d = proc.detect_delimiter(&bytes("a|b\n1|2\n"));
    assert_eq!(d, b'|');
}

#[test]
fn detects_slash_and_backslash() {
    let proc = CSVProcessor::new();
    assert_eq!(proc.detect_delimiter(&bytes("a/b/c\n")), b'/');
    assert_eq!(proc.detect_delimiter(&bytes("a\\b\\c\n")), b'\\');
}

#[test]
fn dominant_candidate_wins() {
    // Every sampled line holds ';' strictly more often than any other
    // candidate, so the detector must return ';'.
    let proc = CSVProcessor::new();
    let d = proc.detect_delimiter(&bytes("a;;b|c\nd;;e/f\n"));
    assert_eq!(d, b';');
}

#[test]
fn tie_goes_to_first_listed_candidate() {
    // ';' and '|' occur equally often; ';' is listed earlier.
    let proc = CSVProcessor::new();
    assert_eq!(proc.detect_delimiter(&bytes("a;b|c\n")), b';');
    // '|' and '/' occur equally often; '|' is listed earlier.
    assert_eq!(proc.detect_delimiter(&bytes("a|b/c\n")), b'|');
}

#[test]
fn default_comma_on_empty_content() {
    let proc = CSVProcessor::new();
    assert_eq!(proc.detect_delimiter(&bytes("")), b',');
}

#[test]
fn default_comma_when_no_candidate_occurs() {
    let proc = CSVProcessor::new();
    assert_eq!(proc.detect_delimiter(&bytes("abc\ndef\nghi\n")), b',');
}

#[test]
fn default_comma_on_unreadable_source() {
    let proc = CSVProcessor::new();
    assert_eq!(proc.detect_delimiter(&None), b',');
}

#[test]
fn sampling_stops_after_five_records() {
    // The first five lines hold no candidate at all; the ';' on the sixth
    // line is never sampled, so the comma default wins.
    let proc = CSVProcessor::new();
    let d = proc.detect_delimiter(&bytes("a\nb\nc\nd\ne\nf;g;h\n"));
    assert_eq!(d, b',');
}

#[test]
fn detect_from_sample_counts_field_contents() {
    let records = vec![
        Some(vec!["a;b".to_string(), "c;d".to_string()]),
        None,
        Some(vec!["e;f".to_string()]),
    ];
    assert_eq!(detect_from_sample(&records), b';');
}

#[test]
fn detect_from_sample_empty_is_comma() {
    let records: Vec<Option<Vec<String>>> = Vec::new();
    assert_eq!(detect_from_sample(&records), b',');
}
