use judge_core::report::{parse_report, ReportError, ResourceUsage};

#[test]
fn fifty_milliseconds_and_a_memory_count() {
    let r = parse_report(b"0.05 12345");
    assert_eq!(r, Ok(ResourceUsage { time_micros: 50000, memory: 12345 }));
    // the wire reports milliseconds
    let usage = r.unwrap();
    assert_eq!(usage.time_micros as f64 / 1000.0, 50.0);
    assert_eq!(usage.memory as f64, 12345.0);
}

#[test]
fn trailing_newline_is_whitespace() {
    let r = parse_report(b"0.05 12345\n");
    assert_eq!(r, Ok(ResourceUsage { time_micros: 50000, memory: 12345 }));
}

#[test]
fn whole_seconds_without_fraction() {
    let r = parse_report(b"3 42");
    assert_eq!(r, Ok(ResourceUsage { time_micros: 3_000_000, memory: 42 }));
}

#[test]
fn microsecond_precision_is_kept() {
    let r = parse_report(b"0.000001 1");
    assert_eq!(r, Ok(ResourceUsage { time_micros: 1, memory: 1 }));
}

#[test]
fn digits_past_the_microsecond_are_dropped() {
    let r = parse_report(b"0.1234567 9");
    assert_eq!(r, Ok(ResourceUsage { time_micros: 123456, memory: 9 }));
}

#[test]
fn dot_with_one_sided_digits_is_accepted() {
    assert_eq!(
        parse_report(b"5. 7"),
        Ok(ResourceUsage { time_micros: 5_000_000, memory: 7 })
    );
    assert_eq!(
        parse_report(b".5 7"),
        Ok(ResourceUsage { time_micros: 500_000, memory: 7 })
    );
}

#[test]
fn text_past_the_second_field_is_ignored() {
    let r = parse_report(b"0.05 12345 anything else");
    assert_eq!(r, Ok(ResourceUsage { time_micros: 50000, memory: 12345 }));
}

#[test]
fn malformed_reports_are_refused() {
    assert_eq!(parse_report(b""), Err(ReportError::Malformed));
    assert_eq!(parse_report(b"   \n"), Err(ReportError::Malformed));
    assert_eq!(parse_report(b"0.05"), Err(ReportError::Malformed));
    assert_eq!(parse_report(b"abc 5"), Err(ReportError::Malformed));
    assert_eq!(parse_report(b". 7"), Err(ReportError::Malformed));
    assert_eq!(parse_report(b"1.2.3 7"), Err(ReportError::Malformed));
    assert_eq!(parse_report(b"1 12.5"), Err(ReportError::Malformed));
    assert_eq!(parse_report(b"-1 5"), Err(ReportError::Malformed));
}

#[test]
fn oversized_values_are_refused_as_such() {
    assert_eq!(
        parse_report(b"99999999999999999999999 1"),
        Err(ReportError::TooLarge)
    );
    assert_eq!(
        parse_report(b"1 99999999999999999999999"),
        Err(ReportError::TooLarge)
    );
    // a huge but garbage first field is malformed, not oversized
    assert_eq!(
        parse_report(b"9999999999999999999999x 99999999999999999999999"),
        Err(ReportError::Malformed)
    );
}
