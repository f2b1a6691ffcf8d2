use clear_docker_images::text::{chars_of, contains_text, find_char, matches_at};

fn chars(text: &str) -> Vec<char> {
    chars_of(text)
}

#[test]
fn characters_not_bytes() {
    assert_eq!(chars("a\u{e9}\u{65e5}"), ['a', '\u{e9}', '\u{65e5}']);
    assert_eq!(chars(""), Vec::<char>::new());
}

#[test]
fn the_first_occurrence_is_found() {
    let text = chars("a|b|c");
    assert_eq!(find_char(&text, '|', 0), 1);
    assert_eq!(find_char(&text, '|', 1), 1);
    assert_eq!(find_char(&text, '|', 2), 3);
    assert_eq!(find_char(&text, '|', 4), 5);
    assert_eq!(find_char(&text, '|', 5), 5);
    assert_eq!(find_char(&text, 'x', 0), 5);
    assert_eq!(find_char(&chars(""), 'x', 0), 0);
}

#[test]
fn occurrences_at_a_position() {
    let hay = chars("v1.2.0");
    assert!(matches_at(&chars("1.2"), &hay, 1));
    assert!(!matches_at(&chars("1.2"), &hay, 0));
    assert!(!matches_at(&chars("1.2"), &hay, 3));
    assert!(matches_at(&chars(""), &hay, 6));
    assert!(matches_at(&hay, &hay, 0));
}

#[test]
fn substrings() {
    assert!(contains_text(&chars("v1.2.0"), &chars("1.2")));
    assert!(contains_text(&chars("v1.2.0"), &chars("v1.2.0")));
    assert!(contains_text(&chars("v1.2.0"), &chars(".0")));
    assert!(contains_text(&chars("v1.2.0"), &chars("")));
    assert!(contains_text(&chars(""), &chars("")));
    assert!(!contains_text(&chars(""), &chars("a")));
    assert!(!contains_text(&chars("v1.2.0"), &chars("1.3")));
    assert!(!contains_text(&chars("v1.2.0"), &chars("v1.2.0 ")));
    assert!(!contains_text(&chars("aab"), &chars("abb")));
    assert!(contains_text(&chars("aaab"), &chars("aab")));
}
