//! What to ask of the file system: the pattern that finds everything below a
//! root.

use vstd::prelude::*;
use vstd::string::StringExecFns;

verus! {

/// What follows the root in a walk pattern: any number of directories, then
/// any name.
pub const BELOW: &'static str = "/**/*";

/// Whether `c` has a meaning of its own in a pattern.
pub open spec fn is_meta(c: char) -> bool {
    c == '?' || c == '*' || c == '[' || c == ']'
}

/// `text` as a pattern that matches `text` and nothing else: each character
/// that has a meaning of its own stands in brackets.
pub open spec fn escaped(text: Seq<char>) -> Seq<char>
    decreases text.len(),
{
    if text.len() == 0 {
        Seq::empty()
    } else if is_meta(text.last()) {
        escaped(text.drop_last()) + seq!['[', text.last(), ']']
    } else {
        escaped(text.drop_last()).push(text.last())
    }
}

/// Escapes `text` with `glob::Pattern::escape`.
///
/// Trusted: the outside function goes through the characters in order, writes
/// `?`, `*`, `[` and `]` between a `[` and a `]`, and every other character as
/// it is.
#[verifier::external_body]
fn escape(text: &str) -> (pattern: String)
    ensures
        pattern@ == escaped(text@),
{
    glob::Pattern::escape(text)
}

/// The pattern that matches every path below `root`, however deep, and
/// nothing that is not below it.
pub fn walk_pattern(root: &str) -> (pattern: String)
    ensures
        pattern@ == escaped(root@) + BELOW@,
{
    let mut pattern = escape(root);
    pattern.append(BELOW);
    pattern
}

/// A root without characters that mean something in a pattern stands in the
/// pattern as it is.
pub proof fn lemma_plain_root_unchanged(root: Seq<char>)
    requires
        forall|i: int| 0 <= i < root.len() ==> !is_meta(#[trigger] root[i]),
    ensures
        escaped(root) == root,
    decreases root.len(),
{
    if root.len() > 0 {
        lemma_plain_root_unchanged(root.drop_last());
        assert(root.drop_last().push(root.last()) =~= root);
    }
}

} // verus!
