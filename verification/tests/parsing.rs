use sinkctl::record::Sink;

#[test]
fn leading_digits_parse_to_identifier() {
    let sink = Sink::new(String::from("123abc")).unwrap();
    assert_eq!(sink.id, 123);
    assert_eq!(sink.desc, "123abc");
}

#[test]
fn single_zero_parses() {
    let sink = Sink::new(String::from("0 alsa_output.pci-0000_00_1f.3.analog-stereo")).unwrap();
    assert_eq!(sink.id, 0);
}

#[test]
fn digits_only_parse_whole_line() {
    let sink = Sink::new(String::from("42")).unwrap();
    assert_eq!(sink.id, 42);
    assert_eq!(sink.desc, "42");
}

#[test]
fn digit_run_stops_at_first_non_digit() {
    let sink = Sink::new(String::from("7x8")).unwrap();
    assert_eq!(sink.id, 7);
}

#[test]
fn no_leading_digit_fails() {
    let err = Sink::new(String::from("abc")).unwrap_err();
    assert_eq!(err.line, "abc");
}

#[test]
fn empty_line_fails() {
    let err = Sink::new(String::from("")).unwrap_err();
    assert_eq!(err.line, "");
}

#[test]
fn leading_space_fails() {
    assert!(Sink::new(String::from(" 5 sink")).is_err());
}

#[test]
fn overflowing_identifier_fails() {
    let line = String::from("999999999999999999999999999999999999999 sink");
    let err = Sink::new(line.clone()).unwrap_err();
    assert_eq!(err.line, line);
}
