use note_index::tag::{chars_of, parent_dir, relative_dir, SEPARATOR};

fn some(tag: &str) -> Option<String> {
    Some(String::from(tag))
}

#[test]
fn separator_is_the_slash() {
    assert_eq!(SEPARATOR, '/');
}

#[test]
fn chars_of_gives_each_character() {
    assert_eq!(chars_of(""), Vec::<char>::new());
    assert_eq!(chars_of("a/b"), vec!['a', '/', 'b']);
    assert_eq!(chars_of("\u{e9}t\u{e9}"), vec!['\u{e9}', 't', '\u{e9}']);
}

#[test]
fn relative_dir_below_the_root() {
    assert_eq!(relative_dir("/home/me/notes/a/b", "/home/me/notes"), some("a/b"));
    assert_eq!(relative_dir("/home/me/notes/a", "/home/me/notes"), some("a"));
}

#[test]
fn relative_dir_of_the_root_itself_is_empty() {
    assert_eq!(relative_dir("/home/me/notes", "/home/me/notes"), some(""));
    assert_eq!(relative_dir("/home/me/notes", "/home/me/notes/"), some(""));
    assert_eq!(relative_dir("", ""), some(""));
}

#[test]
fn relative_dir_ignores_separators_at_the_end_of_the_root() {
    assert_eq!(relative_dir("/r/a/b", "/r"), some("a/b"));
    assert_eq!(relative_dir("/r/a/b", "/r/"), some("a/b"));
    assert_eq!(relative_dir("/r/a/b", "/r//"), some("a/b"));
}

#[test]
fn relative_dir_takes_whole_segments_only() {
    assert_eq!(relative_dir("/home/me/notes2/a", "/home/me/notes"), None);
    assert_eq!(relative_dir("/home/me/notes2", "/home/me/notes"), None);
    assert_eq!(relative_dir("/home/me/note", "/home/me/notes"), None);
}

#[test]
fn relative_dir_outside_the_root_is_none() {
    assert_eq!(relative_dir("/elsewhere/a", "/home/me/notes"), None);
    assert_eq!(relative_dir("/home/me", "/home/me/notes"), None);
    assert_eq!(relative_dir("", "/home"), None);
    assert_eq!(relative_dir("home/me", "/home"), None);
}

#[test]
fn relative_dir_under_the_top_of_the_tree() {
    assert_eq!(relative_dir("/a/b", "/"), some("a/b"));
    assert_eq!(relative_dir("/", "/"), some(""));
    assert_eq!(relative_dir("a", "/"), None);
}

#[test]
fn relative_dir_keeps_characters_beyond_ascii() {
    assert_eq!(relative_dir("/r\u{e9}/\u{fc}ber/x", "/r\u{e9}"), some("\u{fc}ber/x"));
    assert_eq!(relative_dir("/r\u{e9}/a", "/r\u{e8}"), None);
}

#[test]
fn parent_dir_is_what_stands_before_the_last_separator() {
    assert_eq!(parent_dir("/r/a/link.md"), "/r/a");
    assert_eq!(parent_dir("/r/link.md"), "/r");
    assert_eq!(parent_dir("/link.md"), "");
    assert_eq!(parent_dir("link.md"), "");
    assert_eq!(parent_dir(""), "");
    assert_eq!(parent_dir("/r/a/"), "/r/a");
    assert_eq!(parent_dir("/r\u{e9}/\u{fc}/n.md"), "/r\u{e9}/\u{fc}");
}

#[test]
fn tag_of_a_link_below_the_root() {
    let holder = parent_dir("/r/b/link.md");
    assert_eq!(relative_dir(&holder, "/r"), some("b"));
    let holder = parent_dir("/r/link.md");
    assert_eq!(relative_dir(&holder, "/r"), some(""));
}
