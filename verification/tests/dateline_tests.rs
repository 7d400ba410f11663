use miniprinter::dateline::dec_string;
use miniprinter::dateline::format_date;

#[test]
fn decimal_rendering_has_no_padding() {
    assert_eq!(dec_string(0), "0");
    assert_eq!(dec_string(7), "7");
    assert_eq!(dec_string(10), "10");
    assert_eq!(dec_string(2024), "2024");
    assert_eq!(dec_string(90210), "90210");
}

#[test]
fn date_line_for_a_monday() {
    assert_eq!(format_date(2024, 1, 1), "Monday, January 1, 2024");
}

#[test]
fn date_line_for_a_december_holiday() {
    assert_eq!(format_date(2023, 12, 25), "Monday, December 25, 2023");
}

#[test]
fn date_line_for_a_sunday_without_day_padding() {
    assert_eq!(format_date(1999, 7, 4), "Sunday, July 4, 1999");
}

#[test]
fn date_line_in_a_leap_february() {
    assert_eq!(format_date(2024, 2, 29), "Thursday, February 29, 2024");
}
