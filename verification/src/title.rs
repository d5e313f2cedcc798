//! The title marker: the two lines at the very start of a note that name it.
//!
//! A marker is a title line, a line break, an underline of hyphens and a
//! second line break. Nothing may stand before the title line.

use vstd::prelude::*;

verus! {

/// The pattern that recognises a title marker and captures its title line.
pub const TITLE_PATTERN: &'static str = "^([A-Za-z0-9 _:\\-]+)\n-+\n";

/// The characters a title line may hold: ASCII letters and digits, the space,
/// the hyphen, the underscore and the colon.
pub open spec fn is_title_char(c: char) -> bool {
    ||| 'A' <= c <= 'Z'
    ||| 'a' <= c <= 'z'
    ||| '0' <= c <= '9'
    ||| c == ' '
    ||| c == '-'
    ||| c == '_'
    ||| c == ':'
}

/// `s` starts with a title line of `n` characters followed by an underline of
/// `m` hyphens, each closed by a line break.
pub open spec fn marker_at(s: Seq<char>, n: int, m: int) -> bool {
    &&& 1 <= n
    &&& 1 <= m
    &&& n + m + 2 <= s.len()
    &&& forall|i: int| 0 <= i < n ==> is_title_char(#[trigger] s[i])
    &&& s[n] == '\n'
    &&& forall|j: int| n < j <= n + m ==> #[trigger] s[j] == '-'
    &&& s[n + m + 1] == '\n'
}

/// `s` starts with a title marker.
pub open spec fn has_title(s: Seq<char>) -> bool {
    exists|n: int, m: int| marker_at(s, n, m)
}

/// The title line of the marker that `s` starts with, if it starts with one.
pub open spec fn title_of(s: Seq<char>) -> Option<Seq<char>> {
    if has_title(s) {
        let (n, m) = choose|n: int, m: int| marker_at(s, n, m);
        Some(s.take(n))
    } else {
        None
    }
}

/// A text starts with at most one marker: the title line ends at the first
/// line break and the underline at the second.
pub proof fn lemma_marker_unique(s: Seq<char>, n1: int, m1: int, n2: int, m2: int)
    requires
        marker_at(s, n1, m1),
        marker_at(s, n2, m2),
    ensures
        n1 == n2,
        m1 == m2,
{
    if n1 < n2 {
        assert(is_title_char(s[n1]));
    }
    if n2 < n1 {
        assert(is_title_char(s[n2]));
    }
    if m1 < m2 {
        assert(s[n1 + m1 + 1] == '-');
    }
    if m2 < m1 {
        assert(s[n2 + m2 + 1] == '-');
    }
}

/// Where a marker stands, its title line is the title.
pub proof fn lemma_title_at(s: Seq<char>, n: int, m: int)
    requires
        marker_at(s, n, m),
    ensures
        title_of(s) == Some(s.take(n)),
{
    let (n0, m0) = choose|n0: int, m0: int| marker_at(s, n0, m0);
    lemma_marker_unique(s, n, m, n0, m0);
}

/// A title is never empty, holds title characters only and stands at the very
/// start of its text.
pub proof fn lemma_title_is_first_line(s: Seq<char>)
    ensures
        title_of(s) matches Some(t) ==> {
            &&& 1 <= t.len() < s.len()
            &&& t == s.take(t.len() as int)
            &&& forall|i: int| 0 <= i < t.len() ==> is_title_char(#[trigger] t[i])
            &&& s[t.len() as int] == '\n'
        },
{
    if has_title(s) {
        let (n, m) = choose|n: int, m: int| marker_at(s, n, m);
        assert forall|i: int| 0 <= i < n implies is_title_char(#[trigger] s.take(n)[i]) by {
            assert(s.take(n)[i] == s[i]);
        }
    }
}

/// The text made of a title line, a line break, `rule` hyphens, a line break
/// and whatever follows.
pub open spec fn marked(line: Seq<char>, rule: nat, rest: Seq<char>) -> Seq<char> {
    line + seq!['\n'] + Seq::new(rule, |i: int| '-') + seq!['\n'] + rest
}

/// Every text that opens with a non-empty line of title characters, underlined
/// by at least one hyphen, has exactly that line as its title, whatever comes
/// after the underline.
pub proof fn lemma_title_of_marked(line: Seq<char>, rule: nat, rest: Seq<char>)
    requires
        line.len() >= 1,
        forall|i: int| 0 <= i < line.len() ==> is_title_char(#[trigger] line[i]),
        rule >= 1,
    ensures
        title_of(marked(line, rule, rest)) == Some(line),
{
    let s = marked(line, rule, rest);
    let n = line.len() as int;
    let m = rule as int;
    assert(marker_at(s, n, m));
    lemma_title_at(s, n, m);
    assert(s.take(n) =~= line);
}

/// A text that is empty, or whose first character is not a title character,
/// has no title: nothing may stand before the title line, not even a blank
/// line.
pub proof fn lemma_title_starts_text(s: Seq<char>)
    requires
        s.len() == 0 || !is_title_char(s[0]),
    ensures
        title_of(s) is None,
{
    if has_title(s) {
        let (n, m) = choose|n: int, m: int| marker_at(s, n, m);
        assert(is_title_char(s[0]));
    }
}

/// Runs the regular expression `pattern` over `text` and hands back what its
/// first capture group matched: `regex::Regex::new`, `Regex::captures`,
/// `Captures::get` and `Match::as_str`.
///
/// Trusted, for the one pattern it admits: the search is anchored at the start
/// of the text, the group takes one or more title characters and must be
/// followed by a line break, one or more hyphens and a second line break. The
/// class holds no line break and the underline no character but the hyphen, so
/// the engine's greedy repetitions leave one way to match; a match therefore
/// exists exactly where the text starts with a marker, and the group is its
/// title line.
#[verifier::external_body]
fn first_capture(pattern: &str, text: &str) -> (found: Option<String>)
    requires
        pattern@ == TITLE_PATTERN@,
    ensures
        match found {
            Some(t) => title_of(text@) == Some(t@),
            None => title_of(text@) is None,
        },
{
    let re = regex::Regex::new(pattern).unwrap();
    let caps = re.captures(text)?;
    let group = caps.get(1)?;
    Some(group.as_str().to_string())
}

/// The title of a text: the title line of the marker it starts with.
pub fn find_title(text: &str) -> (found: Option<String>)
    ensures
        match found {
            Some(t) => title_of(text@) == Some(t@),
            None => title_of(text@) is None,
        },
{
    first_capture(TITLE_PATTERN, text)
}

} // verus!
