use note_index::excerpt::{excerpt, EXCERPT_BYTES};
use note_index::{FileProbe, Note, NoteErrors, Resolved};

fn probe(content: &str) -> FileProbe {
    FileProbe {
        content: Some(String::from(content)),
        dir: Resolved::Text(String::from("/r/a")),
        path: Resolved::Text(String::from("/r/a/note.md")),
    }
}

fn root() -> Resolved {
    Resolved::Text(String::from("/r"))
}

fn title_in_file(content: &str) -> Result<String, NoteErrors> {
    match Note::from_path(&probe(content), &root()) {
        Ok(note) => Ok(String::from(note.title())),
        Err(e) => Err(e),
    }
}

fn marked(line: usize, rule: usize) -> String {
    format!("{}\n{}\n", "a".repeat(line), "-".repeat(rule))
}

#[test]
fn excerpt_limit_is_512_bytes() {
    assert_eq!(EXCERPT_BYTES, 512);
}

#[test]
fn short_text_is_its_own_excerpt() {
    assert_eq!(excerpt(""), Some(""));
    assert_eq!(excerpt("Test\n----\n"), Some("Test\n----\n"));
    let full = "x".repeat(512);
    assert_eq!(excerpt(&full), Some(full.as_str()));
}

#[test]
fn long_text_is_cut_after_512_bytes() {
    let text = "x".repeat(513);
    assert_eq!(excerpt(&text), Some(&text[..512]));
    let text = format!("{}{}", "x".repeat(512), "yyyy");
    assert_eq!(excerpt(&text), Some("x".repeat(512).as_str()));
}

#[test]
fn cut_counts_bytes_not_characters() {
    // 256 characters of two bytes each fill the excerpt.
    let text = format!("{}{}", "\u{e9}".repeat(256), "tail");
    assert_eq!(excerpt(&text), Some("\u{e9}".repeat(256).as_str()));
}

#[test]
fn cut_inside_a_character_gives_no_excerpt() {
    // The two bytes of the last character are bytes 512 and 513.
    let text = format!("{}\u{e9}", "x".repeat(511));
    assert_eq!(text.len(), 513);
    assert_eq!(excerpt(&text), None);
    // A character of four bytes around the cut.
    let text = format!("{}\u{1f600}", "x".repeat(510));
    assert_eq!(excerpt(&text), None);
}

#[test]
fn cut_between_two_characters_gives_an_excerpt() {
    let text = format!("{}\u{e9}\u{e9}", "x".repeat(510));
    assert_eq!(excerpt(&text), Some(&text[..512]));
}

#[test]
fn marker_that_ends_at_byte_512_is_found() {
    let text = format!("{}{}", marked(500, 10), "body ".repeat(40));
    assert_eq!(marked(500, 10).len(), 512);
    assert_eq!(title_in_file(&text), Ok("a".repeat(500)));
}

#[test]
fn marker_that_ends_at_byte_513_is_missed() {
    let text = format!("{}{}", marked(501, 10), "body ".repeat(40));
    assert_eq!(title_in_file(&text), Err(NoteErrors::NoteTitleMissingError));
    assert_eq!(title_in_file(&marked(501, 10)), Err(NoteErrors::NoteTitleMissingError));
    // The whole text still has a title: only the excerpt has none.
    assert_eq!(Note::title_from_string(marked(501, 10)), Ok("a".repeat(501)));
}

#[test]
fn title_line_longer_than_the_excerpt_is_missed() {
    assert_eq!(title_in_file(&marked(600, 5)), Err(NoteErrors::NoteTitleMissingError));
}

#[test]
fn marker_after_the_excerpt_is_missed() {
    let text = format!("{}\nTitle\n-----\n", "x".repeat(512));
    assert_eq!(title_in_file(&text), Err(NoteErrors::NoteTitleMissingError));
    let text = format!("{}\nTitle\n-----\n", "word ".repeat(200));
    assert_eq!(title_in_file(&text), Err(NoteErrors::NoteTitleMissingError));
}

#[test]
fn title_is_missing_where_the_cut_splits_a_character() {
    let text = format!("T\n-\n{}\u{e9}more", "x".repeat(507));
    assert_eq!(title_in_file(&text), Err(NoteErrors::NoteTitleMissingError));
    let text = format!("T\n-\n{}\u{e9}more", "x".repeat(506));
    assert_eq!(title_in_file(&text), Ok(String::from("T")));
}

#[test]
fn text_after_the_marker_does_not_matter() {
    let text = format!("Title\n-----\n{}", "\u{fc}ber ".repeat(300));
    assert_eq!(title_in_file(&text), Ok(String::from("Title")));
}
