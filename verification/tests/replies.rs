use asimov_ftp_module::facts::parse_facts;
use asimov_ftp_module::text::{decimal_text, join_path, last_segment, split_text};
use asimov_ftp_module::time::parse_datetime;
use asimov_ftp_module::Error;

fn value(line: &str, key: &str) -> Option<String> {
    parse_facts(line).0.get(key).cloned()
}

#[test]
fn facts_and_name_of_a_line() {
    let (facts, name) = parse_facts("type=file;size=1024;modify=20240229123456; notes.txt");
    assert_eq!(facts.get("type"), Some(&String::from("file")));
    assert_eq!(facts.get("size"), Some(&String::from("1024")));
    assert_eq!(facts.get("modify"), Some(&String::from("20240229123456")));
    assert_eq!(facts.get("perm"), None);
    assert_eq!(name, "notes.txt");
}

#[test]
fn keys_are_in_lower_case_and_values_are_not() {
    assert_eq!(value("Type=OS.unix=symlink; x", "type"), Some(String::from("OS.unix=symlink")));
    assert_eq!(value("UNIX.ownername=root; x", "UNIX.ownername"), None);
    assert_eq!(value("UNIX.ownername=root; x", "unix.ownername"), Some(String::from("root")));
    assert_eq!(value("\u{c4}=1; x", "\u{e4}"), Some(String::from("1")));
}

#[test]
fn white_space_round_facts_and_names_is_cut_off() {
    let (facts, name) = parse_facts(" Size =\t7 ;\u{3000} a b \r\n");
    assert_eq!(facts.get("size"), Some(&String::from("7")));
    assert_eq!(name, "a b");
}

#[test]
fn the_last_fact_with_a_key_counts() {
    assert_eq!(value("size=1;SIZE=2;type=dir; x", "size"), Some(String::from("2")));
}

#[test]
fn text_without_an_equals_sign_is_no_fact() {
    let (facts, name) = parse_facts("type;size=3; x");
    assert_eq!(facts.get("type"), None);
    assert_eq!(facts.get("size"), Some(&String::from("3")));
    assert_eq!(name, "x");
}

#[test]
fn a_line_without_semicolons_is_a_name() {
    let (facts, name) = parse_facts("type=file");
    assert_eq!(facts.get("type"), None);
    assert_eq!(name, "type=file");
    assert_eq!(parse_facts("").1, "");
}

#[test]
fn times_are_read_in_utc() {
    assert_eq!(parse_datetime("19700101000000").unwrap(), 0);
    assert_eq!(parse_datetime("20240229123456").unwrap(), 1709210096);
    assert_eq!(parse_datetime("20001231235959").unwrap(), 978307199);
    assert_eq!(parse_datetime("19600101000000").unwrap(), -315619200);
    assert_eq!(parse_datetime("19000301000000").unwrap(), -2203891200);
}

#[test]
fn the_last_time_that_can_be_stood_for() {
    assert_eq!(parse_datetime("99991230220000").unwrap(), 253402207200);
    assert!(matches!(parse_datetime("99991230220001"), Err(Error::Timestamp(_))));
    assert_eq!(parse_datetime("00000101000000").unwrap(), -62167219200);
}

#[test]
fn the_second_sixty_counts_as_the_one_before() {
    assert_eq!(
        parse_datetime("20161231235960").unwrap(),
        parse_datetime("20161231235959").unwrap()
    );
}

#[test]
fn text_that_is_no_time_is_refused() {
    for text in [
        "",
        "yesterday",
        "20241301000000",
        "20240001000000",
        "20230229000000",
        "19000229000000",
        "20240431000000",
        "20240100000000",
        "20240101240000",
        "20240101006000",
        "20240101000061",
        "20240101000000.123",
        "20240101000000 ",
        "202401010000000",
        "no digits",
    ] {
        assert!(matches!(parse_datetime(text), Err(Error::Timestamp(_))), "{}", text);
    }
}

#[test]
fn the_error_of_a_time_is_that_of_its_text() {
    let direct = jiff::civil::DateTime::strptime("%Y%m%d%H%M%S", "20241301000000").unwrap_err();
    match parse_datetime("20241301000000") {
        Err(Error::Timestamp(error)) => assert_eq!(error.to_string(), direct.to_string()),
        _ => panic!("no error"),
    }
}

#[test]
fn pieces_between_separators() {
    assert_eq!(split_text("a;;b", ';'), vec!["a", "", "b"]);
    assert_eq!(split_text("", ';'), vec![""]);
    assert_eq!(split_text("a;;b", ';').join(";"), "a;;b");
}

#[test]
fn paths_inside_a_directory() {
    assert_eq!(join_path("/pub", "a", '/'), "/pub/a");
    assert_eq!(join_path("/pub/", "a", '/'), "/pub/a");
    assert_eq!(join_path("", "a", '/'), "a");
    assert_eq!(join_path("/pub", "/etc/a", '/'), "/etc/a");
    assert_eq!(join_path("/pub", "", '/'), "/pub/");
}

#[test]
fn paths_with_another_separator() {
    assert_eq!(join_path("/pub", "a", '\\'), "/pub\\a");
    assert_eq!(join_path("/pub/", "a", '\\'), "/pub/a");
    assert_eq!(join_path("\\pub\\", "a", '\\'), "\\pub\\a");
    assert_eq!(join_path("/pub", "/a", '\\'), "/a");
    assert_eq!(join_path("/pub", "\\a", '\\'), "\\a");
    assert_eq!(join_path("/pub", "C:a", '\\'), "C:a");
    assert_eq!(join_path("/pub", "C:a", '/'), "/pub/C:a");
    assert_eq!(join_path("/pub", "", '\\'), "/pub\\");
}

#[test]
fn a_fact_in_front_of_a_line_counts_less() {
    let line = "size=1;type=dir; x";
    assert_eq!(value(&format!("size=2;{}", line), "size"), Some(String::from("1")));
    assert_eq!(value(&format!("perm=r;{}", line), "perm"), Some(String::from("r")));
    assert_eq!(parse_facts(&format!("perm=r;{}", line)).1, "x");
}

#[test]
fn white_space_round_a_line_is_cut_off() {
    let (facts, name) = parse_facts(" \t type = dir;size=1; a b \r\n");
    assert_eq!(facts.get("type"), Some(&String::from("dir")));
    assert_eq!(facts.get("size"), Some(&String::from("1")));
    assert_eq!(name, "a b");
}

#[test]
fn keys_that_are_not_ascii_are_clean() {
    assert_eq!(value(" \u{3a3}\u{3a3} =1; x", "\u{3c3}\u{3c2}"), Some(String::from("1")));
}

#[test]
fn earlier_times_are_fewer_seconds() {
    let times = ["19991231235959", "20000101000000", "20000228235959", "20000229000000",
        "20000301000000", "20001231235959", "20010101000000"];
    for pair in times.windows(2) {
        assert!(parse_datetime(pair[0]).unwrap() < parse_datetime(pair[1]).unwrap());
    }
}

#[test]
fn last_segments_of_paths() {
    assert_eq!(last_segment("/pub/a.txt"), "a.txt");
    assert_eq!(last_segment("a.txt"), "a.txt");
    assert_eq!(last_segment("/pub/"), "");
}

#[test]
fn numbers_as_text() {
    assert_eq!(decimal_text(0), "0");
    assert_eq!(decimal_text(1000), "1000");
    assert_eq!(decimal_text(u32::MAX), "4294967295");
}
