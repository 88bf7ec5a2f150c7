use srt_edit::timestamp::{Field, ParseErrorKind};
use srt_edit::transform::{transform_line, transform_lines, Config};

#[test]
fn shifts_a_range_line() {
    let out = transform_line("00:00:01,000 --> 00:00:04,000", -500).unwrap();
    assert_eq!(out, "00:00:00,500 --> 00:00:03,500");
}

#[test]
fn clamps_the_start_of_a_range_line() {
    let out = transform_line("00:00:00,200 --> 00:00:01,000", -500).unwrap();
    assert_eq!(out, "00:00:00,000 --> 00:00:00,500");
}

#[test]
fn passes_caption_text_through() {
    let out = transform_line("Hello, world!", -500).unwrap();
    assert_eq!(out, "Hello, world!");
}

#[test]
fn passes_non_range_lines_through() {
    for line in [
        "",
        "1",
        "42",
        "some caption text",
        "00:00:01,000",
        "00:00:01,000 -> 00:00:04,000",
        "00:00:01,000 --> 00:00:04,000 extra",
        " 00:00:01,000 --> 00:00:04,000",
        "100:00:00,000 --> 00:00:04,000",
    ] {
        assert_eq!(transform_line(line, 250).unwrap(), line);
    }
}

#[test]
fn whitespace_around_the_arrow_is_normalized() {
    let out = transform_line("00:00:01,000-->00:00:02,000", 500).unwrap();
    assert_eq!(out, "00:00:01,500 --> 00:00:02,500");

    let out = transform_line("00:00:01,000 \t-->\t\t00:00:02,000", 0).unwrap();
    assert_eq!(out, "00:00:01,000 --> 00:00:02,000");
}

#[test]
fn range_line_with_bad_field_propagates_the_error() {
    let e = transform_line("00:60:00,000 --> 00:00:01,000", 0).unwrap_err();
    assert_eq!(e.kind, ParseErrorKind::FieldOutOfRange(Field::Minutes));
    assert_eq!(e.text, "00:60:00,000");

    let e = transform_line("00:00:01,000 --> 00:00:61,000", 0).unwrap_err();
    assert_eq!(e.kind, ParseErrorKind::FieldOutOfRange(Field::Seconds));
    assert_eq!(e.text, "00:00:61,000");
}

#[test]
fn transforms_a_whole_file_line_by_line() {
    let lines = vec![
        String::from("1"),
        String::from("00:00:01,000 --> 00:00:04,000"),
        String::from("Hello, world!"),
        String::from(""),
        String::from("2"),
        String::from("00:00:05,500 --> 00:00:06,000"),
    ];
    let out = transform_lines(&lines, -500).unwrap();
    assert_eq!(
        out,
        vec![
            String::from("1"),
            String::from("00:00:00,500 --> 00:00:03,500"),
            String::from("Hello, world!"),
            String::from(""),
            String::from("2"),
            String::from("00:00:05,000 --> 00:00:05,500"),
        ]
    );
}

#[test]
fn a_bad_range_line_stops_the_whole_run() {
    let lines = vec![
        String::from("00:00:01,000 --> 00:00:04,000"),
        String::from("00:00:05,000 --> 00:99:06,000"),
        String::from("00:00:07,000 --> 00:00:08,000"),
    ];
    let e = transform_lines(&lines, 100).unwrap_err();
    assert_eq!(e.kind, ParseErrorKind::FieldOutOfRange(Field::Minutes));
    assert_eq!(e.text, "00:99:06,000");
}

#[test]
fn config_carries_the_run_parameters() {
    let config = Config {
        input_filepath: String::from("in.srt"),
        output_filepath: String::from("out.srt"),
        offset_ms: -1500,
    };
    assert_eq!(config.input_filepath, "in.srt");
    assert_eq!(config.output_filepath, "out.srt");
    assert_eq!(config.offset_ms, -1500);
}
