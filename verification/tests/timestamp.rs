use srt_edit::timestamp::{Field, ParseError, ParseErrorKind, Timestamp};

#[test]
fn parse_valid_timestamp() {
    let valid_timestamp_str = "01:54:12,590";
    let timestamp = Timestamp::build(valid_timestamp_str).unwrap();

    assert_eq!(1, timestamp.hours);
    assert_eq!(54, timestamp.minutes);
    assert_eq!(12, timestamp.seconds);
    assert_eq!(590, timestamp.milliseconds);
    assert_eq!("01:54:12,590", timestamp.to_string());
}

#[test]
fn parse_invalid_timestamp() {
    let negative_hours_str = "-15:01:01,000";
    assert!(Timestamp::build(negative_hours_str).is_err());

    let overflow_hours = "100:01:01,000";
    assert!(Timestamp::build(overflow_hours).is_err());

    let overflow_mins = "000:60:01,000";
    assert!(Timestamp::build(overflow_mins).is_err());

    let overflow_secs = "000:00:60,000";
    assert!(Timestamp::build(overflow_secs).is_err());

    let missing_hrs = ":00:00,000";
    assert!(Timestamp::build(missing_hrs).is_err());
}

#[test]
fn apply_offest() {
    let mut timestamp = Timestamp::build("16:54:12,590").unwrap();
    timestamp.apply_offset_ms(100);

    assert_eq!(16, timestamp.hours);
    assert_eq!(54, timestamp.minutes);
    assert_eq!(12, timestamp.seconds);
    assert_eq!(690, timestamp.milliseconds);

    timestamp = Timestamp::build("10:59:59,900").unwrap();
    timestamp.apply_offset_ms(500);
    assert_eq!(11, timestamp.hours);
    assert_eq!(0, timestamp.minutes);
    assert_eq!(0, timestamp.seconds);
    assert_eq!(400, timestamp.milliseconds);
}

#[test]
fn render_after_parse_gives_back_the_text() {
    for s in ["00:00:00,000", "01:54:12,590", "99:59:59,999", "12:00:30,007"] {
        let t = Timestamp::build(s).unwrap();
        assert_eq!(s, t.to_string());
    }
}

#[test]
fn offset_zero_changes_nothing() {
    let mut t = Timestamp::build("07:08:09,010").unwrap();
    t.apply_offset_ms(0);
    assert_eq!(t, Timestamp { hours: 7, minutes: 8, seconds: 9, milliseconds: 10 });
}

#[test]
fn offsets_compose_when_nothing_clamps() {
    let mut one_step = Timestamp::build("00:00:02,000").unwrap();
    one_step.apply_offset_ms(200);
    let mut two_steps = Timestamp::build("00:00:02,000").unwrap();
    two_steps.apply_offset_ms(500);
    two_steps.apply_offset_ms(-300);
    assert_eq!(one_step, two_steps);
    assert_eq!("00:00:02,200", two_steps.to_string());
}

#[test]
fn non_positive_total_clamps_to_zero() {
    let mut t = Timestamp::build("00:00:00,200").unwrap();
    t.apply_offset_ms(-500);
    assert_eq!("00:00:00,000", t.to_string());

    let mut exact = Timestamp::build("00:00:01,000").unwrap();
    exact.apply_offset_ms(-1000);
    assert_eq!("00:00:00,000", exact.to_string());
}

#[test]
fn hours_out_of_range() {
    let e = Timestamp::build("100:00:00,000").unwrap_err();
    assert_eq!(e.kind, ParseErrorKind::FieldOutOfRange(Field::Hours));
    assert_eq!(e.text, "100:00:00,000");
}

#[test]
fn minutes_out_of_range() {
    let e = Timestamp::build("00:60:00,000").unwrap_err();
    assert_eq!(e.kind, ParseErrorKind::FieldOutOfRange(Field::Minutes));
    assert_eq!(e.text, "00:60:00,000");
}

#[test]
fn seconds_out_of_range() {
    let e = Timestamp::build("00:00:60,000").unwrap_err();
    assert_eq!(e.kind, ParseErrorKind::FieldOutOfRange(Field::Seconds));
}

#[test]
fn format_mismatch_carries_the_text() {
    for s in ["", "0:00:00,000", "00:00:00.000", "00:00:00,00", "ab:cd:ef,ghi", "00:00:00,0000"] {
        let e = Timestamp::build(s).unwrap_err();
        assert_eq!(e.kind, ParseErrorKind::FormatMismatch);
        assert_eq!(e.text, s);
    }
}

#[test]
fn hours_too_wide_for_the_field() {
    let e = Timestamp::build("4294967296:00:00,000").unwrap_err();
    assert_eq!(e.kind, ParseErrorKind::FieldParseError(Field::Hours));

    let widest = Timestamp::build("4294967295:00:00,000").unwrap_err();
    assert_eq!(widest.kind, ParseErrorKind::FieldOutOfRange(Field::Hours));
}

#[test]
fn leading_zeros_keep_hours_in_range() {
    let t = Timestamp::build("00099:00:00,000").unwrap();
    assert_eq!(t.hours, 99);
}

#[test]
fn rendering_widens_large_hours() {
    let mut t = Timestamp::build("99:59:59,999").unwrap();
    t.apply_offset_ms(3_600_000);
    assert_eq!(t.hours, 100);
    assert_eq!("100:59:59,999", t.to_string());
}

#[test]
fn parse_error_new_keeps_its_parts() {
    let e = ParseError::new(ParseErrorKind::FormatMismatch, String::from("nonsense"));
    assert_eq!(e.kind, ParseErrorKind::FormatMismatch);
    assert_eq!(e.text, "nonsense");
}
