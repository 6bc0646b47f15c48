use coventry_scraper::duration::parse_iso_duration;

#[test]
fn durations_in_words() {
    assert_eq!(parse_iso_duration("P3Y"), "3 years");
    assert_eq!(parse_iso_duration("P1Y6M"), "1 year, 6 months");
    assert_eq!(parse_iso_duration("P1Y"), "1 year");
    assert_eq!(parse_iso_duration("P18M"), "18 months");
    assert_eq!(parse_iso_duration("P1W"), "1 week");
    assert_eq!(parse_iso_duration("P10D"), "10 days");
    assert_eq!(parse_iso_duration("P0Y1M2W3D"), "0 years, 1 month, 2 weeks, 3 days");
}

#[test]
fn leading_zeros_are_dropped() {
    assert_eq!(parse_iso_duration("P03Y"), "3 years");
}

#[test]
fn what_is_no_duration_stays_as_it_is() {
    assert_eq!(parse_iso_duration("3 years"), "3 years");
    assert_eq!(parse_iso_duration("Part time"), "Part time");
    assert_eq!(parse_iso_duration("P"), "P");
    assert_eq!(parse_iso_duration(""), "");
    assert_eq!(parse_iso_duration("PY"), "PY");
}

#[test]
fn amounts_are_limited_to_32_bits() {
    assert_eq!(parse_iso_duration("P4294967295Y"), "4294967295 years");
    assert_eq!(parse_iso_duration("P4294967296Y"), "P4294967296Y");
}

#[test]
fn other_numeric_characters_spoil_an_amount() {
    assert_eq!(parse_iso_duration("P½3Y"), "P½3Y");
    assert_eq!(parse_iso_duration("Px3Y"), "3 years");
}

#[test]
fn the_time_of_day_is_left_out() {
    assert_eq!(parse_iso_duration("PT30M"), "PT30M");
    assert_eq!(parse_iso_duration("PT12H"), "PT12H");
    assert_eq!(parse_iso_duration("P1DT30M"), "1 day");
    assert_eq!(parse_iso_duration("P2MT30M"), "2 months");
}

#[test]
fn any_number_of_years() {
    for n in [0u32, 1, 2, 9, 10, 99, 1000000] {
        let plural = if n == 1 { "" } else { "s" };
        assert_eq!(parse_iso_duration(&format!("P{}Y", n)), format!("{} year{}", n, plural));
    }
}

#[test]
fn durations_in_any_units() {
    assert_eq!(parse_iso_duration("P2Y3W"), "2 years, 3 weeks");
    assert_eq!(parse_iso_duration("P1M1D"), "1 month, 1 day");
    assert_eq!(parse_iso_duration("P4W5DT6H"), "4 weeks, 5 days");
    assert_eq!(parse_iso_duration("P1Y2M3W4DT5H"), "1 year, 2 months, 3 weeks, 4 days");
}
