use note_index::title::{find_title, TITLE_PATTERN};
use note_index::{Note, NoteErrors};

fn parse_title_or_return_placeholder(text: &str, placeholder: &str) -> String {
    let s = String::from(text);
    match Note::title_from_string(s) {
        Ok(string) => string,
        Err(_) => String::from(placeholder),
    }
}

fn title(text: &str) -> Result<String, NoteErrors> {
    Note::title_from_string(String::from(text))
}

fn missing() -> Result<String, NoteErrors> {
    Err(NoteErrors::NoteTitleMissingError)
}

#[test]
fn test_title_from_string() {
    let n = parse_title_or_return_placeholder("Test\n----\n", "err");
    assert_eq!(n, "Test");
}

#[test]
fn test_title_from_string_invalid() {
    let n = parse_title_or_return_placeholder("\n", "err");
    assert_eq!(n, "err");
}

#[test]
fn title_is_the_line_not_the_text() {
    assert_eq!(title("Test\n----\nBody of the note.\n"), Ok(String::from("Test")));
    assert_eq!(title("Test\n----\n"), Ok(String::from("Test")));
}

#[test]
fn title_of_blank_line_is_missing() {
    assert_eq!(title("\n"), missing());
    assert_eq!(title(""), missing());
}

#[test]
fn title_takes_every_allowed_character() {
    let line = "ABCXYZ abcxyz 0189 - _ :";
    let text = format!("{}\n-\n", line);
    assert_eq!(title(&text), Ok(String::from(line)));
}

#[test]
fn title_is_kept_verbatim() {
    assert_eq!(title("  spaced out  \n---\n"), Ok(String::from("  spaced out  ")));
    assert_eq!(title("-\n-\n"), Ok(String::from("-")));
    assert_eq!(title("---\n---\n"), Ok(String::from("---")));
}

#[test]
fn title_with_other_characters_is_missing() {
    assert_eq!(title("Hello, world\n----\n"), missing());
    assert_eq!(title("What?\n----\n"), missing());
    assert_eq!(title("a.b\n----\n"), missing());
    assert_eq!(title("a/b\n----\n"), missing());
    assert_eq!(title("(draft)\n----\n"), missing());
    assert_eq!(title("tab\there\n----\n"), missing());
    assert_eq!(title("caf\u{e9}\n----\n"), missing());
    assert_eq!(title("\\documentclass{article}\n----\n"), missing());
}

#[test]
fn title_needs_the_underline() {
    assert_eq!(title("Test\n"), missing());
    assert_eq!(title("Test\n\n----\n"), missing());
    assert_eq!(title("Test\n====\n"), missing());
    assert_eq!(title("Test\n--x-\n"), missing());
    assert_eq!(title("Test\n---- \n"), missing());
    assert_eq!(title("Test\n\n"), missing());
}

#[test]
fn title_needs_both_line_breaks() {
    assert_eq!(title("Test"), missing());
    assert_eq!(title("Test\n----"), missing());
    assert_eq!(title("Test\r\n----\r\n"), missing());
    assert_eq!(title("Test\n----\r\n"), missing());
}

#[test]
fn title_must_stand_first() {
    assert_eq!(title("\nTest\n----\n"), missing());
    assert_eq!(title("# heading\nTest\n----\n"), missing());
    assert_eq!(title("\u{feff}Test\n----\n"), missing());
}

#[test]
fn underline_of_one_hyphen_is_enough() {
    assert_eq!(title("T\n-\n"), Ok(String::from("T")));
    assert_eq!(title("T\n--------------------------------\nrest"), Ok(String::from("T")));
}

#[test]
fn only_the_first_marker_counts() {
    assert_eq!(title("One\n---\nTwo\n---\n"), Ok(String::from("One")));
}

#[test]
fn find_title_agrees_with_title_from_string() {
    assert_eq!(find_title("Test note\n---------\n"), Some(String::from("Test note")));
    assert_eq!(find_title("no marker here"), None);
}

#[test]
fn pattern_is_anchored_and_captures_the_line() {
    assert_eq!(TITLE_PATTERN, "^([A-Za-z0-9 _:\\-]+)\n-+\n");
}

/// The title read off a text by hand: the first line, where it is made of
/// title characters and underlined.
fn title_by_hand(text: &[char]) -> Option<String> {
    let allowed = |c: char| c.is_ascii_alphanumeric() || c == ' ' || c == '-' || c == '_' || c == ':';
    let mut n = 0;
    while n < text.len() && allowed(text[n]) {
        n += 1;
    }
    if n == 0 || n >= text.len() || text[n] != '\n' {
        return None;
    }
    let mut m = 0;
    while n + 1 + m < text.len() && text[n + 1 + m] == '-' {
        m += 1;
    }
    if m == 0 || n + 1 + m >= text.len() || text[n + 1 + m] != '\n' {
        return None;
    }
    Some(text[..n].iter().collect())
}

/// Holds `find_title` against a reading by hand on every text of up to
/// `longest` characters over `alphabet`; gives the number of titles found.
fn compare_on_all_texts(alphabet: &[char], longest: usize) -> usize {
    let mut found = 0;
    let mut texts: Vec<Vec<char>> = vec![Vec::new()];
    for _ in 0..=longest {
        let mut longer = Vec::new();
        for text in &texts {
            let as_string: String = text.iter().collect();
            let expected = title_by_hand(text);
            assert_eq!(find_title(&as_string), expected, "text: {:?}", as_string);
            if expected.is_some() {
                found += 1;
            }
            for c in alphabet {
                let mut next = text.clone();
                next.push(*c);
                longer.push(next);
            }
        }
        texts = longer;
    }
    found
}

#[test]
fn title_agrees_with_a_reading_by_hand_on_short_texts() {
    let found = compare_on_all_texts(&['a', '-', '\n', '!'], 6);
    assert!(found > 0);
}

#[test]
fn title_agrees_with_a_reading_by_hand_on_other_characters() {
    let found = compare_on_all_texts(&[' ', ':', '\n', '-', '\r'], 5);
    assert!(found > 0);
    let found = compare_on_all_texts(&['Z', '_', '\n', '-', '\u{e9}'], 5);
    assert!(found > 0);
    let found = compare_on_all_texts(&['0', '/', '\n', '-', '^'], 5);
    assert!(found > 0);
}
