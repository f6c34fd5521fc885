use polite::config::{ParseError, PoliteConfig};
use polite::mapping::ConfigMapping;
use polite::number::NumberError;
use polite::store::{load_local_config, LocalScanner};

fn settings(niceness: i32, oom_score_adj: i32) -> PoliteConfig {
    PoliteConfig::new(niceness, oom_score_adj).unwrap()
}

fn pairs(m: &ConfigMapping) -> Vec<(i8, i32, i32)> {
    m.entries().iter().map(|(a, c)| (*a, c.niceness(), c.oom_score_adj())).collect()
}

fn load(text: &str) -> Vec<(i8, i32, i32)> {
    pairs(&load_local_config(text).unwrap())
}

#[test]
fn loads_the_records_of_the_section() {
    assert_eq!(load("-START-\n1;5;100\n-END-"), vec![(1, 5, 100)]);
    assert_eq!(
        load("-START-\n1;5;100\n2;-5;-100\n-3;0;0\n-END-\n"),
        vec![(-3, 0, 0), (1, 5, 100), (2, -5, -100)]
    );
}

#[test]
fn loading_twice_gives_the_same_mapping() {
    let text = "# header\n-START-\n# profiles\n1;5;100\n\n65;19;1000\n1;6;200\n-END-\nrest";
    let first = load_local_config(text).unwrap();
    let second = load_local_config(text).unwrap();
    assert_eq!(first.entries(), second.entries());
    assert_eq!(pairs(&first), vec![(1, 6, 200), (65, 19, 1000)]);
    let bad = "-START-\n1;5\n-END-";
    assert_eq!(load_local_config(bad).err(), load_local_config(bad).err());
}

#[test]
fn stops_at_the_first_end_marker() {
    assert_eq!(load("-START-\n1;5;100\n-END-\n2;5;100\n"), vec![(1, 5, 100)]);
    assert_eq!(load("-START-\n1;5;100\n-END-\nnot a record\n0;0;0\n"), vec![(1, 5, 100)]);
    assert_eq!(load("-START-\n1;5;100\n-END-\n-START-\n2;5;100\n-END-\n"), vec![(1, 5, 100)]);
    assert_eq!(load("-START-\n1;5;100\n-END-"), load("-START-\n1;5;100\n-END-\n3;3;3"));
}

#[test]
fn an_end_marker_before_the_section_ends_the_reading() {
    assert_eq!(load("-END-\n-START-\n1;5;100\n-END-"), vec![]);
    assert_eq!(load("garbage\n-END-\n-START-\n1;5;100"), vec![]);
}

#[test]
fn a_bad_line_in_the_section_fails_the_whole_load() {
    assert_eq!(load_local_config("-START-\n1;5;100\nbad\n-END-").err(), Some(ParseError::InvalidConfig));
    assert_eq!(
        load_local_config("-START-\n1;5;100\n2;x;0\n3;1;1\n-END-").err(),
        Some(ParseError::Number(NumberError::InvalidDigit))
    );
    assert_eq!(load_local_config("-START-\n0;5;100\n-END-").err(), Some(ParseError::AliasReserved));
    assert_eq!(load_local_config("-START-\n1;50;100\n-END-").err(), Some(ParseError::OutOfRange));
    assert_eq!(load_local_config("-START-\n1;5;100\n1;5\n").err(), Some(ParseError::InvalidConfig));
}

#[test]
fn the_first_bad_line_gives_the_fault() {
    assert_eq!(
        load_local_config("-START-\n1;50;100\nbad\n-END-").err(),
        Some(ParseError::OutOfRange)
    );
}

#[test]
fn lines_outside_the_section_are_not_looked_at() {
    assert_eq!(load("bad line\n9;9;9\n-START-\n1;5;100\n-END-"), vec![(1, 5, 100)]);
    assert_eq!(load("1;5;100\n"), vec![]);
    assert_eq!(load(""), vec![]);
    assert_eq!(load("-START-"), vec![]);
}

#[test]
fn a_section_without_end_marker_runs_to_the_end() {
    assert_eq!(load("-START-\n1;5;100\n2;6;200"), vec![(1, 5, 100), (2, 6, 200)]);
}

#[test]
fn blank_lines_and_comments_are_passed_over() {
    assert_eq!(
        load("-START-\n\n# a comment\n   \n  # indented comment\n1;5;100\n#2;5;100\n-END-"),
        vec![(1, 5, 100)]
    );
}

#[test]
fn white_space_around_a_line_is_dropped() {
    assert_eq!(load("  -START-  \n\t1;5;100 \r\n -END- \r\n2;2;2"), vec![(1, 5, 100)]);
    assert_eq!(load("-START-\r\n1;5;100\r\n-END-\r\n"), vec![(1, 5, 100)]);
}

#[test]
fn white_space_inside_a_record_is_a_fault() {
    assert_eq!(
        load_local_config("-START-\n1; 5;100\n-END-").err(),
        Some(ParseError::Number(NumberError::InvalidDigit))
    );
}

#[test]
fn a_later_record_replaces_an_earlier_one() {
    assert_eq!(load("-START-\n1;5;100\n1;6;200\n-END-"), vec![(1, 6, 200)]);
}

#[test]
fn a_second_start_marker_changes_nothing() {
    assert_eq!(load("-START-\n1;5;100\n-START-\n2;6;200\n-END-"), vec![(1, 5, 100), (2, 6, 200)]);
}

#[test]
fn a_marker_inside_other_text_is_no_marker() {
    assert_eq!(load_local_config("-START-\n-END-x\n").err(), Some(ParseError::InvalidConfig));
    assert_eq!(load("x-START-\n1;5;100\n"), vec![]);
}

#[test]
fn the_scanner_takes_line_by_line() {
    let mut scanner = LocalScanner::new();
    assert_eq!(scanner.feed("9;9;9"), Ok(false));
    assert_eq!(scanner.feed(" -START- "), Ok(false));
    assert_eq!(scanner.feed("1;5;100"), Ok(false));
    assert_eq!(scanner.feed("# note"), Ok(false));
    assert_eq!(scanner.feed("oops"), Err(ParseError::InvalidConfig));
    assert_eq!(scanner.feed("2;6;200"), Ok(false));
    assert_eq!(scanner.feed("-END-"), Ok(true));
    assert_eq!(scanner.feed("3;7;300"), Ok(true));
    assert_eq!(scanner.feed("oops"), Ok(true));
    let m = scanner.finish();
    assert_eq!(pairs(&m), vec![(1, 5, 100), (2, 6, 200)]);
    assert_eq!(m.get(1), Some(settings(5, 100)));
    assert_eq!(m.get(3), None);
}

#[test]
fn the_mapping_keeps_the_reserved_alias_out() {
    let mut m = ConfigMapping::new();
    assert!(m.is_empty());
    assert!(!m.insert(0, settings(1, 1)));
    assert!(m.is_empty());
    assert_eq!(m.get(0), None);
    assert!(m.insert(-128, settings(1, 1)));
    assert!(m.insert(127, settings(2, 2)));
    assert!(m.insert(-128, settings(3, 3)));
    assert!(!m.is_empty());
    assert_eq!(m.entries(), vec![(-128, settings(3, 3)), (127, settings(2, 2))]);
}
