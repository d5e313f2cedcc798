//! The collection of notes under one directory.
//!
//! A scan looks at every entry below the root once. Files that make a note are
//! kept in the order in which they were found; files that make none are passed
//! over. Each symlink that leads to a note adds the directory that holds the
//! link to that note's tags.

use vstd::prelude::*;
use crate::note::{
    lemma_note_of_wf, note_of, FileProbe, FileProbeView, Note, NoteErrors, NoteView, Resolved,
    ResolvedView,
};
use crate::tag::{parent_dir, parent_of, relative_dir, relative_to};

verus! {

/// What was read of one symlink.
pub struct LinkProbe {
    /// The path of the link itself, as it was found below the root; `None`
    /// where it is not text.
    pub link: Option<String>,
    /// The canonical form of what the link leads to.
    pub target: Resolved,
}

/// What was read of one symlink, as sequences of characters.
pub struct LinkProbeView {
    pub link: Option<Seq<char>>,
    pub target: ResolvedView,
}

impl View for LinkProbe {
    type V = LinkProbeView;

    open spec fn view(&self) -> LinkProbeView {
        LinkProbeView {
            link: match self.link {
                Some(at) => Some(at@),
                None => None,
            },
            target: self.target@,
        }
    }
}

/// One entry found below the root: a symlink, or anything else. Which of the
/// two is told by the entry itself, not by what a link leads to.
pub enum Entry {
    File(FileProbe),
    Link(LinkProbe),
}

/// One entry, as sequences of characters.
pub enum EntryView {
    File(FileProbeView),
    Link(LinkProbeView),
}

impl View for Entry {
    type V = EntryView;

    open spec fn view(&self) -> EntryView {
        match self {
            Entry::File(file) => EntryView::File(file@),
            Entry::Link(link) => EntryView::Link(link@),
        }
    }
}

/// The views of a sequence of entries.
pub open spec fn entry_views(entries: Seq<Entry>) -> Seq<EntryView> {
    entries.map_values(|e: Entry| e@)
}

/// The views of a sequence of notes.
pub open spec fn note_views(notes: Seq<Note>) -> Seq<NoteView> {
    notes.map_values(|n: Note| n@)
}

/// The tag that a symlink adds to the note at `path`: the directory that
/// holds the link, told from the root. A link that leads elsewhere or nowhere,
/// or that does not lie under the root, adds none.
pub open spec fn link_tag(link: LinkProbeView, root: Seq<char>, path: Seq<char>) -> Option<
    Seq<char>,
> {
    match link.link {
        Some(at) => if link.target == ResolvedView::Text(path) {
            relative_to(parent_of(at), root)
        } else {
            None
        },
        None => None,
    }
}

/// The tag that an entry adds to the note at `path`.
pub open spec fn entry_tag(entry: EntryView, root: Seq<char>, path: Seq<char>) -> Option<
    Seq<char>,
> {
    match entry {
        EntryView::Link(link) => link_tag(link, root, path),
        EntryView::File(_) => None,
    }
}

/// The tags that the entries add to the note at `path`, in their order.
pub open spec fn link_tags(entries: Seq<EntryView>, root: Seq<char>, path: Seq<char>) -> Seq<
    Seq<char>,
>
    decreases entries.len(),
{
    if entries.len() == 0 {
        Seq::empty()
    } else {
        let before = link_tags(entries.drop_last(), root, path);
        match entry_tag(entries.last(), root, path) {
            Some(tag) => before.push(tag),
            None => before,
        }
    }
}

/// The note that an entry makes, with the tags that the symlinks among `all`
/// add to it.
pub open spec fn entry_note(entry: EntryView, all: Seq<EntryView>, root: Seq<char>) -> Option<
    NoteView,
> {
    match entry {
        EntryView::File(file) => match note_of(file, ResolvedView::Text(root)) {
            Ok(note) => Some(
                NoteView { tags: note.tags + link_tags(all, root, note.path), ..note },
            ),
            Err(_) => None,
        },
        EntryView::Link(_) => None,
    }
}

/// The notes that the entries `found` make, in their order, each with the tags
/// that the symlinks among `all` add to it.
pub open spec fn notes_of(found: Seq<EntryView>, all: Seq<EntryView>, root: Seq<char>) -> Seq<
    NoteView,
>
    decreases found.len(),
{
    if found.len() == 0 {
        Seq::empty()
    } else {
        let before = notes_of(found.drop_last(), all, root);
        match entry_note(found.last(), all, root) {
            Some(note) => before.push(note),
            None => before,
        }
    }
}

/// A collection as the directory it was asked for and its notes in the order
/// in which they were found.
pub struct NotesView {
    pub dir: Seq<char>,
    pub notes: Seq<NoteView>,
}

/// What a scan of `dir` gives: the notes of the entries, or the reason why the
/// root cannot be scanned at all.
pub open spec fn scan(dir: Seq<char>, root: ResolvedView, entries: Seq<EntryView>) -> Result<
    NotesView,
    NoteErrors,
> {
    match root.text_or(NoteErrors::RootUnresolvableError) {
        Err(e) => Err(e),
        Ok(base) => Ok(NotesView { dir, notes: notes_of(entries, entries, base) }),
    }
}

/// The notes found under one directory.
#[derive(Debug)]
pub struct Notes {
    dir: String,
    notes: Vec<Note>,
}

impl View for Notes {
    type V = NotesView;

    closed spec fn view(&self) -> NotesView {
        NotesView { dir: self.dir@, notes: note_views(self.notes@) }
    }
}

impl Notes {
    /// Collects the notes of a directory from what was read of it: `dir` as
    /// it was asked for, `root` as its canonical form and `entries` as
    /// everything found below the root, in the order in which it was found.
    pub fn from_dir(dir: String, root: &Resolved, entries: &Vec<Entry>) -> (scanned: Result<
        Notes,
        NoteErrors,
    >)
        ensures
            match scanned {
                Ok(notes) => scan(dir@, root@, entry_views(entries@)) == Ok::<
                    NotesView,
                    NoteErrors,
                >(notes@),
                Err(e) => scan(dir@, root@, entry_views(entries@)) == Err::<NotesView, NoteErrors>(
                    e,
                ),
            },
            scanned is Ok <==> root@ is Text,
            root@ is Unresolvable ==> scanned == Err::<Notes, NoteErrors>(
                NoteErrors::RootUnresolvableError,
            ),
    {
        let base = match root.text_or(NoteErrors::RootUnresolvableError) {
            Ok(base) => base,
            Err(e) => { return Err(e); },
        };
        let ghost all = entry_views(entries@);
        let mut notes: Vec<Note> = Vec::new();
        let mut i: usize = 0;
        while i < entries.len()
            invariant
                i <= entries.len(),
                all == entry_views(entries@),
                root@ == ResolvedView::Text(base@),
                note_views(notes@) == notes_of(all.take(i as int), all, base@),
            decreases entries.len() - i,
        {
            proof {
                assert(all.take(i + 1).drop_last() =~= all.take(i as int));
            }
            match &entries[i] {
                Entry::File(file) => {
                    match Note::from_path(file, root) {
                        Ok(note) => {
                            let note = Self::with_link_tags(note, entries, base);
                            proof {
                                assert(note_views(notes@.push(note)) =~= note_views(notes@).push(
                                    note@,
                                ));
                            }
                            notes.push(note);
                        },
                        Err(_) => {},
                    }
                },
                Entry::Link(_) => {},
            }
            i = i + 1;
        }
        proof {
            assert(all.take(entries.len() as int) =~= all);
        }
        Ok(Notes { dir, notes })
    }

    /// The note with the tags that the symlinks among `entries` add to it.
    fn with_link_tags(note: Note, entries: &Vec<Entry>, base: &str) -> (tagged: Note)
        ensures
            tagged@ == (NoteView {
                tags: note@.tags + link_tags(entry_views(entries@), base@, note@.path),
                ..note@
            }),
    {
        let ghost first = note@;
        let ghost all = entry_views(entries@);
        let mut tagged = note;
        let mut j: usize = 0;
        proof {
            assert(first.tags + Seq::<Seq<char>>::empty() =~= first.tags);
        }
        while j < entries.len()
            invariant
                j <= entries.len(),
                all == entry_views(entries@),
                tagged@ == (NoteView {
                    tags: first.tags + link_tags(all.take(j as int), base@, first.path),
                    ..first
                }),
            decreases entries.len() - j,
        {
            proof {
                assert(all.take(j + 1).drop_last() =~= all.take(j as int));
            }
            let ghost before = link_tags(all.take(j as int), base@, first.path);
            match &entries[j] {
                Entry::Link(probe) => {
                    match (&probe.link, &probe.target) {
                        (Some(at), Resolved::Text(target)) => {
                            if tagged.is_at(target) {
                                let holder = parent_dir(at.as_str());
                                match relative_dir(holder.as_str(), base) {
                                    Some(tag) => {
                                        proof {
                                            assert(first.tags + before.push(tag@) =~= (first.tags
                                                + before).push(tag@));
                                        }
                                        tagged = tagged.with_tag(tag);
                                    },
                                    None => {},
                                }
                            }
                        },
                        _ => {},
                    }
                },
                Entry::File(_) => {},
            }
            j = j + 1;
        }
        proof {
            assert(all.take(entries.len() as int) =~= all);
        }
        tagged
    }

    /// The directory that was asked for, as it was given.
    pub fn dir(&self) -> (dir: &str)
        ensures
            dir@ == self@.dir,
    {
        self.dir.as_str()
    }

    /// The notes, in the order in which they were found.
    pub fn notes(&self) -> (notes: &Vec<Note>)
        ensures
            note_views(notes@) == self@.notes,
    {
        &self.notes
    }
}

/// The tags that two runs of entries add are those of the first run followed
/// by those of the second.
pub proof fn lemma_link_tags_concat(
    first: Seq<EntryView>,
    second: Seq<EntryView>,
    root: Seq<char>,
    path: Seq<char>,
)
    ensures
        link_tags(first + second, root, path) == link_tags(first, root, path) + link_tags(
            second,
            root,
            path,
        ),
    decreases second.len(),
{
    if second.len() == 0 {
        assert(first + second =~= first);
        assert(link_tags(first, root, path) + Seq::<Seq<char>>::empty() =~= link_tags(
            first,
            root,
            path,
        ));
    } else {
        assert((first + second).drop_last() =~= first + second.drop_last());
        lemma_link_tags_concat(first, second.drop_last(), root, path);
        let head = link_tags(first, root, path);
        let tail = link_tags(second.drop_last(), root, path);
        match entry_tag(second.last(), root, path) {
            Some(tag) => {
                assert((head + tail).push(tag) =~= head + tail.push(tag));
            },
            None => {},
        }
    }
}

/// The notes that two runs of entries make are those of the first run
/// followed by those of the second.
pub proof fn lemma_notes_of_concat(
    first: Seq<EntryView>,
    second: Seq<EntryView>,
    all: Seq<EntryView>,
    root: Seq<char>,
)
    ensures
        notes_of(first + second, all, root) == notes_of(first, all, root) + notes_of(
            second,
            all,
            root,
        ),
    decreases second.len(),
{
    if second.len() == 0 {
        assert(first + second =~= first);
        assert(notes_of(first, all, root) + Seq::<NoteView>::empty() =~= notes_of(
            first,
            all,
            root,
        ));
    } else {
        assert((first + second).drop_last() =~= first + second.drop_last());
        lemma_notes_of_concat(first, second.drop_last(), all, root);
        let head = notes_of(first, all, root);
        let tail = notes_of(second.drop_last(), all, root);
        match entry_note(second.last(), all, root) {
            Some(note) => {
                assert((head + tail).push(note) =~= head + tail.push(note));
            },
            None => {},
        }
    }
}

/// The notes depend on the other entries only through the tags that these
/// add.
pub proof fn lemma_notes_of_same_tags(
    found: Seq<EntryView>,
    all: Seq<EntryView>,
    other: Seq<EntryView>,
    root: Seq<char>,
)
    requires
        forall|path: Seq<char>| #[trigger]
            link_tags(all, root, path) == link_tags(other, root, path),
    ensures
        notes_of(found, all, root) == notes_of(found, other, root),
    decreases found.len(),
{
    if found.len() > 0 {
        lemma_notes_of_same_tags(found.drop_last(), all, other, root);
        match found.last() {
            EntryView::File(file) => {
                match note_of(file, ResolvedView::Text(root)) {
                    Ok(note) => {
                        assert(link_tags(all, root, note.path) == link_tags(
                            other,
                            root,
                            note.path,
                        ));
                    },
                    Err(_) => {},
                }
            },
            EntryView::Link(_) => {},
        }
    }
}

/// A file that makes no note leaves no trace: with it or without it, wherever
/// among the entries it stands, the scan gives the same collection. What cannot
/// be read as a note neither shows up nor keeps the other notes from being
/// found.
pub proof fn lemma_noteless_file_ignored(
    dir: Seq<char>,
    root: ResolvedView,
    entries: Seq<EntryView>,
    at: int,
    file: FileProbeView,
)
    requires
        0 <= at <= entries.len(),
        note_of(file, root) is Err,
    ensures
        scan(dir, root, entries.insert(at, EntryView::File(file))) == scan(dir, root, entries),
{
    if let ResolvedView::Text(base) = root {
        let entry = EntryView::File(file);
        let before = entries.take(at);
        let after = entries.skip(at);
        let one = seq![entry];
        let with = entries.insert(at, entry);
        assert(with =~= before + one + after);
        assert(entries =~= before + after);
        assert(one.drop_last() =~= Seq::<EntryView>::empty());
        assert forall|path: Seq<char>| #[trigger]
            link_tags(with, base, path) == link_tags(entries, base, path) by {
            lemma_link_tags_concat(before + one, after, base, path);
            lemma_link_tags_concat(before, one, base, path);
            lemma_link_tags_concat(before, after, base, path);
            assert(link_tags(one.drop_last(), base, path) =~= Seq::<Seq<char>>::empty());
            assert(link_tags(one, base, path) =~= Seq::<Seq<char>>::empty());
            assert(link_tags(before, base, path) + Seq::<Seq<char>>::empty() =~= link_tags(
                before,
                base,
                path,
            ));
        }
        lemma_notes_of_same_tags(with, with, entries, base);
        lemma_notes_of_concat(before + one, after, entries, base);
        lemma_notes_of_concat(before, one, entries, base);
        lemma_notes_of_concat(before, after, entries, base);
        assert(notes_of(one.drop_last(), entries, base) =~= Seq::<NoteView>::empty());
        assert(notes_of(one, entries, base) =~= Seq::<NoteView>::empty());
        assert(notes_of(before, entries, base) + Seq::<NoteView>::empty() =~= notes_of(
            before,
            entries,
            base,
        ));
    }
}

/// A symlink that leads to a note and lies under the root adds the directory
/// that holds it to the tags of that note.
pub proof fn lemma_link_tag_is_added(
    entries: Seq<EntryView>,
    at: int,
    root: Seq<char>,
    path: Seq<char>,
)
    requires
        0 <= at < entries.len(),
        entry_tag(entries[at], root, path) is Some,
    ensures
        link_tags(entries, root, path).contains(entry_tag(entries[at], root, path)->0),
    decreases entries.len(),
{
    let tag = entry_tag(entries[at], root, path)->0;
    let before = link_tags(entries.drop_last(), root, path);
    if at == entries.len() - 1 {
        assert(before.push(tag).last() == tag);
    } else {
        lemma_link_tag_is_added(entries.drop_last(), at, root, path);
        let k = choose|k: int| 0 <= k < before.len() && before[k] == tag;
        match entry_tag(entries.last(), root, path) {
            Some(last) => {
                assert(before.push(last)[k] == tag);
            },
            None => {},
        }
    }
}

/// Every entry that makes a note has that note in the collection.
pub proof fn lemma_note_is_collected(
    found: Seq<EntryView>,
    at: int,
    all: Seq<EntryView>,
    root: Seq<char>,
)
    requires
        0 <= at < found.len(),
        entry_note(found[at], all, root) is Some,
    ensures
        notes_of(found, all, root).contains(entry_note(found[at], all, root)->0),
    decreases found.len(),
{
    let note = entry_note(found[at], all, root)->0;
    let before = notes_of(found.drop_last(), all, root);
    if at == found.len() - 1 {
        assert(before.push(note).last() == note);
    } else {
        lemma_note_is_collected(found.drop_last(), at, all, root);
        let k = choose|k: int| 0 <= k < before.len() && before[k] == note;
        match entry_note(found.last(), all, root) {
            Some(last) => {
                assert(before.push(last)[k] == note);
            },
            None => {},
        }
    }
}

/// Every note of a collection has a title and at least one tag, and its first
/// tag is the directory that holds its own file.
pub proof fn lemma_collected_notes_wf(
    found: Seq<EntryView>,
    all: Seq<EntryView>,
    root: Seq<char>,
    k: int,
)
    requires
        0 <= k < notes_of(found, all, root).len(),
    ensures
        notes_of(found, all, root)[k].wf(),
        exists|at: int|
            0 <= at < found.len() && (#[trigger] found[at] matches EntryView::File(file)
                && note_of(file, ResolvedView::Text(root)) matches Ok(own) && own.tags.len() == 1
                && notes_of(found, all, root)[k] == (NoteView {
                tags: own.tags + link_tags(all, root, own.path),
                ..own
            })),
    decreases found.len(),
{
    let before = notes_of(found.drop_last(), all, root);
    if k < before.len() {
        lemma_collected_notes_wf(found.drop_last(), all, root, k);
        let at = choose|at: int|
            0 <= at < found.drop_last().len() && (#[trigger] found.drop_last()[at] matches EntryView::File(
                file,
            ) && note_of(file, ResolvedView::Text(root)) matches Ok(own) && own.tags.len() == 1
                && before[k] == (NoteView {
                tags: own.tags + link_tags(all, root, own.path),
                ..own
            }));
        assert(found[at] == found.drop_last()[at]);
    } else {
        let at = found.len() - 1;
        match found[at] {
            EntryView::File(file) => {
                lemma_note_of_wf(file, ResolvedView::Text(root));
            },
            EntryView::Link(_) => {},
        }
    }
}

/// Scanning is repeatable: whatever two scans of the same directory, root and
/// entries give, they give the same, down to the order of the notes and of
/// their tags.
pub proof fn lemma_scan_repeatable(
    dir: Seq<char>,
    root: ResolvedView,
    entries: Seq<EntryView>,
    once: Result<NotesView, NoteErrors>,
    again: Result<NotesView, NoteErrors>,
)
    requires
        once == scan(dir, root, entries),
        again == scan(dir, root, entries),
    ensures
        once == again,
{
}

} // verus!
