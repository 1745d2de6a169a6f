use paydept::text::chars_of;
use paydept::text::contains_text;
use paydept::text::has_substring;
use paydept::text::join;
use paydept::text::matches_at;
use paydept::text::same_text;

#[test]
fn chars_are_those_of_the_string() {
    assert_eq!(chars_of("aé)"), vec!['a', 'é', ')']);
    assert_eq!(chars_of(""), Vec::<char>::new());
}

#[test]
fn same_text_is_equality() {
    assert!(same_text("abc", "abc"));
    assert!(same_text("", ""));
    assert!(!same_text("abc", "abd"));
    assert!(!same_text("abc", "ab"));
    assert!(!same_text("", "a"));
}

#[test]
fn substring_is_found_wherever_it_stands() {
    assert!(contains_text("hello world", "hello"));
    assert!(contains_text("hello world", "o w"));
    assert!(contains_text("hello world", "world"));
    assert!(contains_text("hello world", ""));
    assert!(contains_text("", ""));
    assert!(!contains_text("hello world", "worlds"));
    assert!(!contains_text("", "a"));
    assert!(!contains_text("ab", "abc"));
    assert!(contains_text("aab", "ab"));
}

#[test]
fn match_at_a_position() {
    let text = chars_of("abcabc");
    let pattern = chars_of("bc");
    assert!(matches_at(&text, &pattern, 1));
    assert!(matches_at(&text, &pattern, 4));
    assert!(!matches_at(&text, &pattern, 0));
    assert!(!matches_at(&text, &pattern, 5));
    assert!(!matches_at(&text, &pattern, 99));
    assert!(matches_at(&text, &Vec::new(), 6));
    assert!(!matches_at(&text, &Vec::new(), 7));
    assert!(has_substring(&text, &pattern));
    assert!(!has_substring(&pattern, &text));
}

#[test]
fn join_puts_the_separator_between() {
    assert_eq!(join(&vec![String::from("a"), String::from("b"), String::from("c")], "\n"), "a\nb\nc");
    assert_eq!(join(&vec![String::from("a")], "\n"), "a");
    assert_eq!(join(&Vec::new(), "\n"), "");
    assert_eq!(join(&vec![String::from(""), String::from("")], ", "), ", ");
}
