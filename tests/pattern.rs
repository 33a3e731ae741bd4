use conways::pattern::{parse_number, parse_pattern, parse_pattern_chars, pattern_chars, push_decimal};
use conways::world::World;

fn chars(s: &str) -> Vec<char> {
    s.chars().collect()
}

#[test]
fn decimal_numerals() {
    let mut out = Vec::new();
    push_decimal(&mut out, 0);
    push_decimal(&mut out, 7);
    out.push(' ');
    push_decimal(&mut out, 65535);
    assert_eq!(out.into_iter().collect::<String>(), "07 65535");
}

#[test]
fn pattern_chars_joins_with_colons() {
    let cells = vec![(4, 6), (5, 6), (6, 6)];
    assert_eq!(pattern_chars(&cells), chars("4,6:5,6:6,6"));
    assert!(pattern_chars(&Vec::new()).is_empty());
}

#[test]
fn parse_number_reads_one_numeral() {
    assert_eq!(parse_number(&chars("123,4"), 0), Some((123, 3)));
    assert_eq!(parse_number(&chars("123,4"), 4), Some((4, 5)));
    assert_eq!(parse_number(&chars("0"), 0), Some((0, 1)));
    assert_eq!(parse_number(&chars("65535"), 0), Some((65535, 5)));
    assert_eq!(parse_number(&chars("65536"), 0), None);
    assert_eq!(parse_number(&chars("007"), 0), None);
    assert_eq!(parse_number(&chars("1234567"), 0), None);
    assert_eq!(parse_number(&chars(",1"), 0), None);
    assert_eq!(parse_number(&chars("12"), 2), None);
}

#[test]
fn parse_pattern_reads_cells() {
    assert_eq!(parse_pattern("1,2:10,300:0,0"), Some(vec![(1, 2), (10, 300), (0, 0)]));
    assert_eq!(parse_pattern("5,5"), Some(vec![(5, 5)]));
    assert_eq!(parse_pattern(""), Some(Vec::new()));
}

#[test]
fn parse_pattern_rejects_malformed_text() {
    for bad in ["1,2:", ":1,2", "1,2,3", "1;2", "12", "1,", ",1", "01,2", "1,70000", "1,2::3,4", " 1,2", "1,2 "] {
        assert_eq!(parse_pattern(bad), None, "{bad}");
    }
    assert_eq!(parse_pattern_chars(&chars("1,2:3")), None);
}

#[test]
fn saved_text_reads_back_as_the_same_cells() {
    let mut w = World::new(600, 600);
    for &(r, c) in &[(3, 4), (0, 0), (499, 12), (65, 535)] {
        w.toggle(r, c);
    }
    let text = w.alive_to_string();
    assert_eq!(text, "3,4:0,0:499,12:65,535");
    assert_eq!(parse_pattern(&text), Some(w.alive.clone()));
}

#[test]
fn with_cells_keeps_cells_inside_the_grid() {
    let w = World::with_cells(5, 5, &vec![(1, 1), (9, 0), (1, 1), (4, 4)]);
    let mut alive = w.alive.clone();
    alive.sort();
    assert_eq!(alive, vec![(1, 1), (4, 4)]);
    assert!(w.is_alive(4, 4));
    assert!(!w.is_alive(9, 0));
}
