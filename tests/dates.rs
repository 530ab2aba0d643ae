use rush::{date_format_list, expand_dates_with, strftime_replace, DateError};

fn stamps(v: &[&str]) -> Vec<String> {
    v.iter().map(|s| s.to_string()).collect()
}

#[test]
fn date_expression_takes_the_clock_text() {
    let r = expand_dates_with("at %D{%H:%M} now", &stamps(&["12:34"]));
    assert_eq!(r.unwrap(), "at 12:34 now");
    assert_eq!(date_format_list("at %D{%H:%M} now"), vec!["%H:%M".to_string()]);
}

#[test]
fn several_date_expressions_in_order() {
    let s = "%D{a}-%D{b}";
    assert_eq!(date_format_list(s), stamps(&["a", "b"]));
    assert_eq!(expand_dates_with(s, &stamps(&["1", "2"])).unwrap(), "1-2");
}

#[test]
fn doubled_percent_is_not_expanded() {
    assert_eq!(expand_dates_with("%%D{x}", &stamps(&["T"])).unwrap(), "%%D{x}");
    assert!(date_format_list("%%D{x}").is_empty());
    assert_eq!(strftime_replace("%%D{x}".to_string()).unwrap(), "%%D{x}");
}

#[test]
fn other_placeholders_pass_through() {
    assert_eq!(expand_dates_with("%u@%h %", &stamps(&[])).unwrap(), "%u@%h %");
}

#[test]
fn date_introducer_without_brace() {
    assert_eq!(expand_dates_with("%Dx", &stamps(&[])), Err(DateError::UnterminatedDateIntroducer));
    assert_eq!(strftime_replace("ab%D".to_string()), Err(DateError::UnterminatedDateIntroducer));
}

#[test]
fn date_format_without_closing_brace() {
    assert_eq!(strftime_replace("%D{%H".to_string()), Err(DateError::UnterminatedFormat));
}

#[test]
fn clock_formats_literal_pattern() {
    assert_eq!(strftime_replace("[%D{%%}]".to_string()).unwrap(), "[%]");
    assert_eq!(strftime_replace("<%D{year}>".to_string()).unwrap(), "<year>");
    let y = strftime_replace("%D{%Y}".to_string()).unwrap();
    assert_eq!(y.len(), 4);
    assert!(y.chars().all(|c| c.is_ascii_digit()));
}

#[test]
fn unknown_clock_specifier_gives_stand_in() {
    assert_eq!(strftime_replace("[%D{%Q}]".to_string()).unwrap(), "[???]");
}

#[test]
fn stamp_of_failed_format_is_fixed() {
    assert_eq!(rush::date_stamp(None), "???");
    assert_eq!(rush::date_stamp(Some("12:00".to_string())), "12:00");
}
