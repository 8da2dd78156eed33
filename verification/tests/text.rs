use shader_split::text::{line_end_from, str_begins_with, str_contains};

#[test]
fn begins_with_checks_the_prefix_only() {
    assert!(str_begins_with("#shader vertex", "#shader"));
    assert!(str_begins_with("abc", ""));
    assert!(!str_begins_with("#shade", "#shader"));
    assert!(!str_begins_with(" #shader", "#shader"));
}

#[test]
fn contains_finds_a_word_anywhere() {
    assert!(str_contains("#shader vertex", "vertex"));
    assert!(str_contains("vertex", "vertex"));
    assert!(str_contains("prefix vertex suffix", "vertex"));
    assert!(!str_contains("#shader vert", "vertex"));
    assert!(!str_contains("", "fragment"));
    assert!(str_contains("anything", ""));
}

#[test]
fn line_end_stops_at_the_next_newline() {
    let s = "one\ntwo\n\nfour";
    assert_eq!(line_end_from(s, 0), 3);
    assert_eq!(line_end_from(s, 4), 7);
    assert_eq!(line_end_from(s, 8), 8);
    assert_eq!(line_end_from(s, 9), 13);
    assert_eq!(line_end_from(s, 13), 13);
}
