//! Tags: where a note lies, told as a directory path relative to the scan root.
//!
//! Paths are text with `/` between their segments. A directory is told
//! relative to a root by taking the root off its front, segment by segment: the
//! root has to end where a segment of the directory ends.

use vstd::prelude::*;
use vstd::string::StrSliceExecFns;

verus! {

/// The character that stands between the segments of a path.
pub const SEPARATOR: char = '/';

/// `path` without the separators at its end.
pub open spec fn trim_separators(path: Seq<char>) -> Seq<char>
    decreases path.len(),
{
    if path.len() > 0 && path.last() == SEPARATOR {
        trim_separators(path.drop_last())
    } else {
        path
    }
}

/// The directory that holds `path`: what stands before its last separator, and
/// nothing where it has none.
pub open spec fn parent_of(path: Seq<char>) -> Seq<char>
    decreases path.len(),
{
    if path.len() == 0 {
        path
    } else if path.last() == SEPARATOR {
        path.drop_last()
    } else {
        parent_of(path.drop_last())
    }
}

/// `dir` as seen from `root`: empty where `dir` is the root itself, what
/// follows the root and one separator where `dir` lies below it, and nothing
/// where it does not lie under the root. Separators at the end of `root` do not
/// count.
pub open spec fn relative_to(dir: Seq<char>, root: Seq<char>) -> Option<Seq<char>> {
    let base = trim_separators(root);
    if dir == base {
        Some(Seq::empty())
    } else if dir.len() > base.len() && dir.take(base.len() as int) == base && dir[base.len() as int]
        == SEPARATOR {
        Some(dir.skip(base.len() as int + 1))
    } else {
        None
    }
}

/// The characters of `text`, one element each.
pub fn chars_of(text: &str) -> (chars: Vec<char>)
    ensures
        chars@ == text@,
{
    let mut chars: Vec<char> = Vec::new();
    for c in it: text.chars()
        invariant
            it.seq() == text@,
            chars@ == it.seq().take(it.index()),
    {
        chars.push(c);
    }
    chars
}

/// How many characters of `path` are left when the separators at its end are
/// taken off.
fn trimmed_len(path: &Vec<char>) -> (kept: usize)
    ensures
        kept <= path.len(),
        path@.take(kept as int) == trim_separators(path@),
{
    let mut kept: usize = path.len();
    proof {
        assert(path@.take(kept as int) =~= path@);
    }
    while kept > 0 && path[kept - 1] == SEPARATOR
        invariant
            kept <= path.len(),
            trim_separators(path@.take(kept as int)) == trim_separators(path@),
        decreases kept,
    {
        proof {
            assert(path@.take(kept as int).drop_last() =~= path@.take(kept - 1));
        }
        kept = kept - 1;
    }
    kept
}

/// The directory that holds `path`.
pub fn parent_dir(path: &str) -> (dir: String)
    ensures
        dir@ == parent_of(path@),
{
    let chars = chars_of(path);
    let mut end: usize = chars.len();
    proof {
        assert(chars@.take(end as int) =~= chars@);
    }
    while end > 0 && chars[end - 1] != SEPARATOR
        invariant
            end <= chars.len(),
            parent_of(chars@.take(end as int)) == parent_of(chars@),
        decreases end,
    {
        proof {
            assert(chars@.take(end as int).drop_last() =~= chars@.take(end - 1));
        }
        end = end - 1;
    }
    if end == 0 {
        String::new()
    } else {
        proof {
            assert(chars@.take(end as int).drop_last() =~= chars@.subrange(0, end - 1));
        }
        path.substring_char(0, end - 1).to_owned()
    }
}

/// Tells `dir` relative to `root`, where it lies under it.
pub fn relative_dir(dir: &str, root: &str) -> (tag: Option<String>)
    ensures
        match tag {
            Some(t) => relative_to(dir@, root@) == Some(t@),
            None => relative_to(dir@, root@) is None,
        },
{
    let below = chars_of(dir);
    let above = chars_of(root);
    let base = trimmed_len(&above);
    if below.len() < base {
        return None;
    }
    let mut i: usize = 0;
    while i < base
        invariant
            i <= base <= above.len(),
            base <= below.len(),
            below@ == dir@,
            above@.take(base as int) == trim_separators(root@),
            below@.take(i as int) == above@.take(i as int),
        decreases base - i,
    {
        if below[i] != above[i] {
            proof {
                let stem = trim_separators(root@);
                assert(stem[i as int] == above@[i as int]);
                assert(dir@.take(base as int)[i as int] == below@[i as int]);
            }
            return None;
        }
        proof {
            assert(below@.take(i + 1) =~= below@.take(i as int).push(below@[i as int]));
            assert(above@.take(i + 1) =~= above@.take(i as int).push(above@[i as int]));
        }
        i = i + 1;
    }
    if below.len() == base {
        proof {
            assert(below@.take(base as int) =~= below@);
        }
        Some(String::new())
    } else if below[base] == SEPARATOR {
        proof {
            assert(dir@.skip(base + 1) =~= dir@.subrange(base + 1, dir@.len() as int));
        }
        Some(dir.substring_char(base + 1, below.len()).to_owned())
    } else {
        None
    }
}

/// Separators at the end of the root make no difference to a tag.
pub proof fn lemma_root_separator_ignored(dir: Seq<char>, root: Seq<char>)
    ensures
        relative_to(dir, root.push(SEPARATOR)) == relative_to(dir, root),
{
    assert(root.push(SEPARATOR).drop_last() =~= root);
}

/// A directory that lies below the root is told by what follows the root: the
/// tag of `root/tag` is `tag`.
pub proof fn lemma_relative_of_joined(root: Seq<char>, tag: Seq<char>)
    ensures
        relative_to(trim_separators(root) + seq![SEPARATOR] + tag, root) == Some(tag),
{
    let base = trim_separators(root);
    let dir = base + seq![SEPARATOR] + tag;
    assert(dir.take(base.len() as int) =~= base);
    assert(dir.skip(base.len() as int + 1) =~= tag);
}

/// A tag joined back onto the root gives the directory: the root is taken off
/// whole segments only.
pub proof fn lemma_relative_joins_back(dir: Seq<char>, root: Seq<char>)
    ensures
        relative_to(dir, root) matches Some(tag) ==> dir == trim_separators(root) || dir
            == trim_separators(root) + seq![SEPARATOR] + tag,
{
    let base = trim_separators(root);
    if dir != base && relative_to(dir, root) is Some {
        let tag = dir.skip(base.len() as int + 1);
        assert(dir =~= dir.take(base.len() as int) + seq![SEPARATOR] + tag);
    }
}

} // verus!
