use rush::{
    decimal_string, first_label, format_text, get_prompt, home_relative_path, last_segment,
    prompt_map, PromptFacts, SubstitutionTable, TemplateError,
};

fn facts() -> PromptFacts {
    PromptFacts {
        uid: 1000,
        user_name: Some("ada".to_string()),
        command_count: 12,
        history_count: 305,
        version_short: "0.1".to_string(),
        version: "0.1.0".to_string(),
        hostname: "box.example.org".to_string(),
        tty_name: Some("3".to_string()),
        program: "/usr/local/bin/rush".to_string(),
        cwd: "/home/ada/src/rush".to_string(),
        home: "/home/ada".to_string(),
        date: Some("Mon, Jan 01".to_string()),
        time_24: Some("13:04:05".to_string()),
        time_12: None,
        clock_12: Some("01:04 PM".to_string()),
        clock_24: None,
    }
}

fn value(t: &SubstitutionTable, c: char) -> String {
    t.get(c).expect("key present").clone()
}

#[test]
fn table_from_facts() {
    let t = prompt_map(&facts());
    assert_eq!(value(&t, '$'), "$");
    assert_eq!(value(&t, 'u'), "ada");
    assert_eq!(value(&t, '#'), "12");
    assert_eq!(value(&t, '!'), "305");
    assert_eq!(value(&t, 'v'), "0.1");
    assert_eq!(value(&t, 'V'), "0.1.0");
    assert_eq!(value(&t, 'h'), "box");
    assert_eq!(value(&t, 'H'), "box.example.org");
    assert_eq!(value(&t, 'l'), "3");
    assert_eq!(value(&t, 's'), "rush");
    assert_eq!(value(&t, 'w'), "~/src/rush");
    assert_eq!(value(&t, 'W'), "rush");
    assert_eq!(value(&t, 'd'), "Mon, Jan 01");
    assert_eq!(value(&t, 't'), "13:04:05");
    assert_eq!(value(&t, 'T'), "??:??:??");
    assert_eq!(value(&t, '@'), "01:04 PM");
    assert_eq!(value(&t, 'A'), "??:??");
    assert!(!t.contains_key('x'));
}

#[test]
fn table_fallbacks() {
    let mut f = facts();
    f.uid = 0;
    f.user_name = None;
    f.tty_name = None;
    f.date = None;
    f.clock_12 = None;
    f.cwd = "/home/ada".to_string();
    let t = prompt_map(&f);
    assert_eq!(value(&t, '$'), "#");
    assert_eq!(value(&t, 'u'), "0");
    assert_eq!(value(&t, 'l'), "err");
    assert_eq!(value(&t, 'd'), "???, ??? ??");
    assert_eq!(value(&t, '@'), "??:?? ?M");
    assert_eq!(value(&t, 'w'), "~/");
    assert_eq!(value(&t, 'W'), "");
}

#[test]
fn decimal_digits() {
    assert_eq!(decimal_string(0), "0");
    assert_eq!(decimal_string(7), "7");
    assert_eq!(decimal_string(1050), "1050");
    assert_eq!(decimal_string(u64::MAX), "18446744073709551615");
}

#[test]
fn path_parts() {
    assert_eq!(last_segment("/dev/pts/3"), "3");
    assert_eq!(last_segment("rush"), "rush");
    assert_eq!(last_segment("a/"), "");
    assert_eq!(first_label("box.example.org"), "box");
    assert_eq!(first_label("box"), "box");
    assert_eq!(home_relative_path("/home/ada/x", "/home/ada"), "~/x");
    assert_eq!(home_relative_path("/home/adam/x", "/home/ada"), "/home/adam/x");
    assert_eq!(home_relative_path("/tmp", "/home/ada"), "/tmp");
    assert_eq!(home_relative_path("/tmp", ""), "/tmp");
}

#[test]
fn prompt_from_default_and_override() {
    let t = prompt_map(&facts());
    let (p, e) = get_prompt(None, "rush$ ".to_string(), &t);
    assert_eq!(p, "rush$ ");
    assert!(e.is_none());
    let (p, e) = get_prompt(Some("%u@%h:%w%$ ".to_string()), "rush$ ".to_string(), &t);
    assert_eq!(p, "ada@box:~/src/rush$ ");
    assert!(e.is_none());
}

#[test]
fn failed_prompt_falls_back_to_literal_default() {
    let t = prompt_map(&facts());
    let (p, e) = get_prompt(Some("%q> ".to_string()), "%u\\n$ ".to_string(), &t);
    assert_eq!(p, "%u\\n$ ");
    assert!(matches!(e, Some(TemplateError::Decode(_))));
    let (p, e) = get_prompt(Some("%D{".to_string()), "+ ".to_string(), &t);
    assert_eq!(p, "+ ");
    assert!(matches!(e, Some(TemplateError::Date(_))));
}

#[test]
fn format_text_runs_dates_then_escapes() {
    let mut t = SubstitutionTable::new();
    t.insert('c', "X".to_string());
    assert_eq!(format_text("%D{ab}%c\\t".to_string(), &t).unwrap(), "abX\t");
}
