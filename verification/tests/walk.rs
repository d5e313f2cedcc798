use note_index::walk::{walk_pattern, BELOW};

#[test]
fn pattern_of_a_plain_root() {
    assert_eq!(walk_pattern("/home/me/notes"), "/home/me/notes/**/*");
    assert_eq!(walk_pattern(""), "/**/*");
    assert_eq!(BELOW, "/**/*");
}

#[test]
fn pattern_escapes_what_has_a_meaning_of_its_own() {
    assert_eq!(walk_pattern("/a[1]/b*?"), "/a[[]1[]]/b[*][?]/**/*");
    assert_eq!(walk_pattern("*"), "[*]/**/*");
    assert_eq!(walk_pattern("[!x]"), "[[]!x[]]/**/*");
}

#[test]
fn pattern_keeps_other_characters() {
    assert_eq!(walk_pattern("/r\u{e9} sum\u{e9}/{a,b}"), "/r\u{e9} sum\u{e9}/{a,b}/**/*");
}
