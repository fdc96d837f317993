use heq_core::format::parse_number_text;

fn parsed(s: &str) -> Option<(String, bool)> {
    parse_number_text(s)
}

#[test]
fn plain_numbers() {
    assert_eq!(parsed("440"), Some(("440".to_string(), false)));
    assert_eq!(parsed(" -3.5 "), Some(("-3.5".to_string(), false)));
    assert_eq!(parsed("1,5"), Some(("1.5".to_string(), false)));
    assert_eq!(parsed("1e3"), Some(("1e3".to_string(), false)));
}

#[test]
fn kilo_units() {
    assert_eq!(parsed("1k"), Some(("1".to_string(), true)));
    assert_eq!(parsed("1.2 kHz"), Some(("1.2".to_string(), true)));
    assert_eq!(parsed("2,5K"), Some(("2.5".to_string(), true)));
}

#[test]
fn plain_units() {
    assert_eq!(parsed("440hz"), Some(("440".to_string(), false)));
    assert_eq!(parsed("-3 dB"), Some(("-3".to_string(), false)));
}

#[test]
fn not_numbers() {
    assert_eq!(parsed(""), None);
    assert_eq!(parsed("abc"), None);
    assert_eq!(parsed("hz"), None);
    assert_eq!(parsed("1.2.3"), None);
    assert_eq!(parsed("12 khz extra"), None);
}

#[test]
fn words_rust_reads_as_numbers() {
    assert_eq!(parsed("inf"), Some(("inf".to_string(), false)));
    assert_eq!(parsed("NaN"), Some(("nan".to_string(), false)));
}
