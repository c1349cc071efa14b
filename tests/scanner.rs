use sum_floats::literal::is_float_literal_bytes;
use sum_floats::scanner::{
    classify, is_ascii_space, Input, ParseFloatIterator, ParseFloatIteratorError, Step,
    PARSE_CAPACITY,
};

type Element = Result<String, ParseFloatIteratorError>;

/// Feeds every byte, then the end of the source until the scanner is finished.
fn scan(bytes: &[u8]) -> Vec<Element> {
    let mut scanner = ParseFloatIterator::new();
    let mut out = Vec::new();
    for &b in bytes {
        match scanner.feed(Input::Byte(b)) {
            Step::Pending => {}
            Step::Item(e) => out.push(e),
            Step::Finished => panic!("finished before the end of the source"),
        }
    }
    loop {
        match scanner.feed(Input::End) {
            Step::Pending => panic!("pending at the end of the source"),
            Step::Item(e) => out.push(e),
            Step::Finished => return out,
        }
    }
}

fn numbers(bytes: &[u8]) -> Vec<String> {
    scan(bytes)
        .into_iter()
        .map(|e| match e {
            Ok(s) => s,
            Err(err) => panic!("unexpected error {err:?}"),
        })
        .collect()
}

fn sum(bytes: &[u8]) -> f64 {
    numbers(bytes).iter().map(|s| s.parse::<f64>().unwrap()).sum()
}

#[test]
fn one_value_per_literal_in_order() {
    assert_eq!(numbers(b"1 2.5 -3 4e2 .5 7."), vec!["1", "2.5", "-3", "4e2", ".5", "7."]);
}

#[test]
fn whitespace_makes_no_tokens() {
    assert_eq!(numbers(b"  \t\n1\r\n\n 2 \x0c\t3  \n"), vec!["1", "2", "3"]);
}

#[test]
fn empty_input_yields_nothing() {
    assert!(scan(b"").is_empty());
}

#[test]
fn blank_input_yields_nothing() {
    assert!(scan(b" \t\n\r\x0c  \n").is_empty());
}

#[test]
fn million_digits_too_big() {
    let digits = vec![b'7'; 1_000_000];
    let mut scanner = ParseFloatIterator::new();
    let mut first = None;
    for (i, &b) in digits.iter().enumerate() {
        match scanner.feed(Input::Byte(b)) {
            Step::Pending => {}
            Step::Item(e) => {
                first = Some((i, e));
                break;
            }
            Step::Finished => panic!("finished early"),
        }
    }
    let (at, e) = first.expect("an element");
    assert_eq!(at, PARSE_CAPACITY);
    match e {
        Err(ParseFloatIteratorError::TooBig { input }) => assert_eq!(input, vec![b'7'; 30]),
        other => panic!("expected too big, got {other:?}"),
    }
}

#[test]
fn token_at_capacity_parses() {
    let mut bytes = vec![b'1'; PARSE_CAPACITY];
    bytes.push(b' ');
    let out = numbers(&bytes);
    assert_eq!(out, vec!["1".repeat(30)]);
}

#[test]
fn lone_continuation_byte_not_utf8() {
    let out = scan(b"1 \x80 2");
    assert_eq!(out.len(), 3);
    assert!(matches!(&out[0], Ok(s) if s == "1"));
    match &out[1] {
        Err(ParseFloatIteratorError::NotUtf8 { bytes }) => assert_eq!(bytes, &vec![0x80u8]),
        other => panic!("expected not utf-8, got {other:?}"),
    }
    assert!(matches!(&out[2], Ok(s) if s == "2"));
}

#[test]
fn invalid_number_carries_text() {
    let out = scan(b"12a");
    assert_eq!(out.len(), 1);
    match &out[0] {
        Err(ParseFloatIteratorError::ParseFloat { text }) => assert_eq!(text, "12a"),
        other => panic!("expected invalid number, got {other:?}"),
    }
}

#[test]
fn read_failure_is_an_element() {
    let mut scanner = ParseFloatIterator::new();
    assert!(matches!(scanner.feed(Input::Byte(b'4')), Step::Pending));
    match scanner.feed(Input::Failed("disk on fire".to_string())) {
        Step::Item(Err(ParseFloatIteratorError::Io(m))) => assert_eq!(m, "disk on fire"),
        other => panic!("expected a read failure, got {other:?}"),
    }
    // the token in progress was dropped with the failure
    assert!(matches!(scanner.feed(Input::End), Step::Finished));
}

#[test]
fn sums_whole_numbers() {
    assert_eq!(sum(b"1 2 3"), 6.0);
    assert_eq!(sum(b"1.5 2.5"), 4.0);
    let s = sum(b"1.1 2.2");
    assert!(s.fract() != 0.0);
    assert!((s - 3.3).abs() < 1e-9);
}

#[test]
fn finished_stays_finished() {
    let mut scanner = ParseFloatIterator::new();
    assert!(matches!(scanner.feed(Input::Byte(b'9')), Step::Pending));
    assert!(matches!(scanner.feed(Input::End), Step::Item(Ok(s)) if s == "9"));
    for _ in 0..5 {
        assert!(matches!(scanner.feed(Input::End), Step::Finished));
    }
    assert!(matches!(scanner.feed(Input::Byte(b'1')), Step::Finished));
    assert!(matches!(scanner.feed(Input::Byte(b' ')), Step::Finished));
    assert!(matches!(scanner.feed(Input::End), Step::Finished));
}

#[test]
fn classify_each_kind() {
    assert!(matches!(classify(b"-0.25".to_vec()), Ok(s) if s == "-0.25"));
    assert!(matches!(classify(b"1.0.0".to_vec()),
        Err(ParseFloatIteratorError::ParseFloat { text }) if text == "1.0.0"));
    assert!(matches!(classify(vec![0xff, 0x31]),
        Err(ParseFloatIteratorError::NotUtf8 { bytes }) if bytes == vec![0xff, 0x31]));
    assert!(matches!(classify("é".as_bytes().to_vec()),
        Err(ParseFloatIteratorError::ParseFloat { text }) if text == "é"));
}

#[test]
fn ascii_whitespace_bytes() {
    for b in [b' ', b'\t', b'\n', b'\r', 0x0c] {
        assert!(is_ascii_space(b));
    }
    for b in [b'0', b'a', 0x0b, 0x00, 0x80, 0xa0] {
        assert!(!is_ascii_space(b));
    }
}

#[test]
fn literal_grammar_accepts() {
    for s in [
        "0", "42", "+7", "-7", "3.14", "3.", ".5", "1e10", "1E10", "1e+5", "2.5e-3", ".5E7",
        "inf", "-inf", "+Infinity", "INFINITY", "NaN", "nan", "-nan", "007", "1.e3",
    ] {
        assert!(is_float_literal_bytes(s.as_bytes()), "{s}");
        assert!(s.parse::<f64>().is_ok(), "{s}");
    }
}

#[test]
fn literal_grammar_refuses() {
    for s in [
        "", "+", "-", ".", "e5", "1e", "1e+", "12a", "1.2.3", "--1", "+-1", "0x10", "1_000",
        "infin", "nana", "1,5", ".e1", "1 ", "in f", "1ee2",
    ] {
        assert!(!is_float_literal_bytes(s.as_bytes()), "{s}");
        assert!(s.parse::<f64>().is_err(), "{s}");
    }
}
