//! A note: one text file with a title, told by its canonical path and tagged
//! with the directories under which it is found.

use vstd::prelude::*;
use crate::excerpt::{
    excerpt, excerpt_of, excerpt_title, lemma_marker_past_excerpt, lemma_untitled_text,
    EXCERPT_BYTES,
};
use crate::tag::{lemma_root_separator_ignored, relative_dir, relative_to, SEPARATOR};
use crate::title::{
    find_title, has_title, lemma_title_at, lemma_title_is_first_line, marker_at, title_of,
};

verus! {

/// Why a note could not be made, or a directory not be scanned.
#[derive(PartialEq, Eq, Debug, Clone, Copy, Structural)]
pub enum NoteErrors {
    /// The text does not start with a title marker within its excerpt.
    NoteTitleMissingError,
    /// The file, its directory or its own path could not be read or resolved.
    FileUnreadableError,
    /// A path that is needed as text cannot be written as text.
    PathNotTextError,
    /// The note's directory does not lie under the scan root.
    TagPrefixMismatchError,
    /// The scan root does not exist or could not be resolved.
    RootUnresolvableError,
}

impl NoteErrors {
    /// The sentence that tells a reader what went wrong.
    pub open spec fn message_text(self) -> Seq<char> {
        match self {
            NoteErrors::NoteTitleMissingError => "The note title could not be parsed."@,
            NoteErrors::FileUnreadableError => "The note file could not be read."@,
            NoteErrors::PathNotTextError => "The path cannot be written as text."@,
            NoteErrors::TagPrefixMismatchError => "The note does not lie under the scan root."@,
            NoteErrors::RootUnresolvableError => "The scan root could not be resolved."@,
        }
    }

    /// The longer description of the error.
    pub open spec fn description_text(self) -> Seq<char> {
        match self {
            NoteErrors::NoteTitleMissingError =>
                "The provided string did not contain something like a note title."@,
            NoteErrors::FileUnreadableError =>
                "The file could not be opened, was not text, or its location could not be resolved."@,
            NoteErrors::PathNotTextError =>
                "A path of the note or of the scan root is not valid text."@,
            NoteErrors::TagPrefixMismatchError =>
                "The directory of the note, once resolved, is not the scan root nor below it."@,
            NoteErrors::RootUnresolvableError =>
                "The directory to scan does not exist or could not be made canonical."@,
        }
    }

    /// The sentence that tells a reader what went wrong.
    pub fn message(&self) -> (text: &'static str)
        ensures
            text@ == self.message_text(),
    {
        match self {
            NoteErrors::NoteTitleMissingError => "The note title could not be parsed.",
            NoteErrors::FileUnreadableError => "The note file could not be read.",
            NoteErrors::PathNotTextError => "The path cannot be written as text.",
            NoteErrors::TagPrefixMismatchError => "The note does not lie under the scan root.",
            NoteErrors::RootUnresolvableError => "The scan root could not be resolved.",
        }
    }

    /// The longer description of the error.
    pub fn description(&self) -> (text: &'static str)
        ensures
            text@ == self.description_text(),
    {
        match self {
            NoteErrors::NoteTitleMissingError =>
                "The provided string did not contain something like a note title.",
            NoteErrors::FileUnreadableError =>
                "The file could not be opened, was not text, or its location could not be resolved.",
            NoteErrors::PathNotTextError =>
                "A path of the note or of the scan root is not valid text.",
            NoteErrors::TagPrefixMismatchError =>
                "The directory of the note, once resolved, is not the scan root nor below it.",
            NoteErrors::RootUnresolvableError =>
                "The directory to scan does not exist or could not be made canonical.",
        }
    }
}

/// What came of resolving a path to its canonical form: absolute and free of
/// symlinks.
pub enum Resolved {
    /// The canonical path, as text.
    Text(String),
    /// The path was resolved, but its canonical form is not text.
    NotText,
    /// The path does not exist or could not be resolved.
    Unresolvable,
}

/// A resolved path with its text as a sequence of characters.
pub enum ResolvedView {
    Text(Seq<char>),
    NotText,
    Unresolvable,
}

impl View for Resolved {
    type V = ResolvedView;

    open spec fn view(&self) -> ResolvedView {
        match self {
            Resolved::Text(text) => ResolvedView::Text(text@),
            Resolved::NotText => ResolvedView::NotText,
            Resolved::Unresolvable => ResolvedView::Unresolvable,
        }
    }
}

impl ResolvedView {
    /// The canonical text, or the error that stands for its absence:
    /// `unresolved` where the path could not be resolved at all.
    pub open spec fn text_or(self, unresolved: NoteErrors) -> Result<Seq<char>, NoteErrors> {
        match self {
            ResolvedView::Text(text) => Ok(text),
            ResolvedView::NotText => Err(NoteErrors::PathNotTextError),
            ResolvedView::Unresolvable => Err(unresolved),
        }
    }
}

impl Resolved {
    /// The canonical text, or the error that stands for its absence:
    /// `unresolved` where the path could not be resolved at all.
    pub fn text_or(&self, unresolved: NoteErrors) -> (text: Result<&str, NoteErrors>)
        ensures
            match text {
                Ok(t) => self@.text_or(unresolved) == Ok::<Seq<char>, NoteErrors>(t@),
                Err(e) => self@.text_or(unresolved) == Err::<Seq<char>, NoteErrors>(e),
            },
    {
        match self {
            Resolved::Text(text) => Ok(text.as_str()),
            Resolved::NotText => Err(NoteErrors::PathNotTextError),
            Resolved::Unresolvable => Err(unresolved),
        }
    }
}

/// What was read of one file that may be a note.
pub struct FileProbe {
    /// The file's whole text; `None` where it could not be opened or is not
    /// text.
    pub content: Option<String>,
    /// The canonical form of the directory that holds the file.
    pub dir: Resolved,
    /// The canonical form of the file's own path.
    pub path: Resolved,
}

/// What was read of one file, as sequences of characters.
pub struct FileProbeView {
    pub content: Option<Seq<char>>,
    pub dir: ResolvedView,
    pub path: ResolvedView,
}

impl View for FileProbe {
    type V = FileProbeView;

    open spec fn view(&self) -> FileProbeView {
        FileProbeView {
            content: match self.content {
                Some(text) => Some(text@),
                None => None,
            },
            dir: self.dir@,
            path: self.path@,
        }
    }
}

/// The texts of a sequence of strings.
pub open spec fn texts(strings: Seq<String>) -> Seq<Seq<char>> {
    strings.map_values(|s: String| s@)
}

/// A note as its title, its canonical path and its tags in the order in which
/// they were found.
pub struct NoteView {
    pub title: Seq<char>,
    pub path: Seq<char>,
    pub tags: Seq<Seq<char>>,
}

impl NoteView {
    /// What holds of every note: it has a title and at least one tag.
    pub open spec fn wf(self) -> bool {
        &&& self.title.len() >= 1
        &&& self.tags.len() >= 1
    }
}

/// The note that a probed file makes under a scan root, or the reason why it
/// makes none. The first thing that fails decides: the text, the title, the
/// directory, the root, the tag, the path.
pub open spec fn note_of(file: FileProbeView, root: ResolvedView) -> Result<NoteView, NoteErrors> {
    match file.content {
        None => Err(NoteErrors::FileUnreadableError),
        Some(text) => match excerpt_title(text) {
            None => Err(NoteErrors::NoteTitleMissingError),
            Some(title) => match file.dir.text_or(NoteErrors::FileUnreadableError) {
                Err(e) => Err(e),
                Ok(dir) => match root.text_or(NoteErrors::RootUnresolvableError) {
                    Err(e) => Err(e),
                    Ok(base) => match relative_to(dir, base) {
                        None => Err(NoteErrors::TagPrefixMismatchError),
                        Some(tag) => match file.path.text_or(NoteErrors::FileUnreadableError) {
                            Err(e) => Err(e),
                            Ok(path) => Ok(NoteView { title, path, tags: seq![tag] }),
                        },
                    },
                },
            },
        },
    }
}

/// One note.
#[derive(Debug)]
pub struct Note {
    title: String,
    path: String,
    tags: Vec<String>,
}

impl View for Note {
    type V = NoteView;

    closed spec fn view(&self) -> NoteView {
        NoteView { title: self.title@, path: self.path@, tags: texts(self.tags@) }
    }
}

impl Note {
    #[verifier::type_invariant]
    spec fn inv(self) -> bool {
        self@.wf()
    }

    /// The title of a text: the title line of the marker that it starts with.
    /// Every text that starts with a marker has its title line as title, and
    /// no other text has one.
    pub fn title_from_string(text: String) -> (title: Result<String, NoteErrors>)
        ensures
            match title {
                Ok(t) => title_of(text@) == Some(t@),
                Err(e) => e == NoteErrors::NoteTitleMissingError && title_of(text@) is None,
            },
            forall|n: int, m: int| #[trigger]
                marker_at(text@, n, m) ==> (title matches Ok(t) && t@ == text@.take(n)),
            title is Ok <==> has_title(text@),
    {
        proof {
            assert forall|n: int, m: int| #[trigger] marker_at(text@, n, m) implies title_of(text@)
                == Some(text@.take(n)) by {
                lemma_title_at(text@, n, m);
            }
        }
        match find_title(text.as_str()) {
            Some(t) => Ok(t),
            None => Err(NoteErrors::NoteTitleMissingError),
        }
    }

    /// Makes the note of a probed file under a scan root: with the title of
    /// its excerpt, its canonical path, and its directory, told from the root,
    /// as its one tag.
    pub fn from_path(file: &FileProbe, root: &Resolved) -> (made: Result<Note, NoteErrors>)
        ensures
            match made {
                Ok(note) => note_of(file@, root@) == Ok::<NoteView, NoteErrors>(note@),
                Err(e) => note_of(file@, root@) == Err::<NoteView, NoteErrors>(e),
            },
            made matches Ok(note) ==> note@.wf() && note@.tags.len() == 1,
    {
        proof {
            lemma_note_of_wf(file@, root@);
        }
        let text = match &file.content {
            Some(text) => text.as_str(),
            None => { return Err(NoteErrors::FileUnreadableError); },
        };
        let head = match excerpt(text) {
            Some(head) => head,
            None => { return Err(NoteErrors::NoteTitleMissingError); },
        };
        let title = match find_title(head) {
            Some(title) => title,
            None => { return Err(NoteErrors::NoteTitleMissingError); },
        };
        let dir = match file.dir.text_or(NoteErrors::FileUnreadableError) {
            Ok(dir) => dir,
            Err(e) => { return Err(e); },
        };
        let base = match root.text_or(NoteErrors::RootUnresolvableError) {
            Ok(base) => base,
            Err(e) => { return Err(e); },
        };
        let tag = match relative_dir(dir, base) {
            Some(tag) => tag,
            None => { return Err(NoteErrors::TagPrefixMismatchError); },
        };
        let path = match file.path.text_or(NoteErrors::FileUnreadableError) {
            Ok(path) => path,
            Err(e) => { return Err(e); },
        };
        let mut tags: Vec<String> = Vec::new();
        tags.push(tag);
        proof {
            assert(texts(tags@) =~= seq![tag@]);
            lemma_title_is_first_line(head@);
        }
        Ok(Note { title, path: path.to_owned(), tags })
    }

    /// The note's title.
    pub fn title(&self) -> (title: &str)
        ensures
            title@ == self@.title,
            self@.wf(),
    {
        proof {
            use_type_invariant(self);
        }
        self.title.as_str()
    }

    /// The canonical path of the note's file: what tells one note from
    /// another.
    pub fn path(&self) -> (path: &str)
        ensures
            path@ == self@.path,
            self@.wf(),
    {
        proof {
            use_type_invariant(self);
        }
        self.path.as_str()
    }

    /// The note's tags: its own directory first, then the directories of the
    /// symlinks that lead to it.
    pub fn tags(&self) -> (tags: &Vec<String>)
        ensures
            texts(tags@) == self@.tags,
            tags@.len() >= 1,
            self@.wf(),
    {
        proof {
            use_type_invariant(self);
        }
        &self.tags
    }

    /// Whether this is the note of the file at `path`: two notes are the same
    /// note exactly where their canonical paths are equal.
    pub fn is_at(&self, path: &String) -> (same: bool)
        ensures
            same == (self@.path == path@),
    {
        self.path == *path
    }

    /// The note with one more tag behind those that it has.
    pub(crate) fn with_tag(self, tag: String) -> (tagged: Note)
        ensures
            tagged@ == (NoteView { tags: self@.tags.push(tag@), ..self@ }),
    {
        proof {
            use_type_invariant(&self);
            assert(texts(self.tags@.push(tag)) =~= texts(self.tags@).push(tag@));
        }
        let Note { title, path, tags } = self;
        let mut tags = tags;
        tags.push(tag);
        Note { title, path, tags }
    }
}

/// Every note that can be made has a title and exactly one tag: the directory
/// that holds it, told from the scan root.
pub proof fn lemma_note_of_wf(file: FileProbeView, root: ResolvedView)
    ensures
        note_of(file, root) matches Ok(note) ==> note.wf() && note.tags.len() == 1,
{
    if let Ok(note) = note_of(file, root) {
        lemma_title_is_first_line(excerpt_of(file.content->0)->0);
    }
}

/// Separators at the end of the scan root change nothing about the note that
/// a file makes.
pub proof fn lemma_note_of_root_separator(file: FileProbeView, root: Seq<char>)
    ensures
        note_of(file, ResolvedView::Text(root.push(SEPARATOR))) == note_of(
            file,
            ResolvedView::Text(root),
        ),
{
    if let ResolvedView::Text(dir) = file.dir {
        lemma_root_separator_ignored(dir, root);
    }
}

/// A text that holds no whole title marker at its start within its first 512
/// bytes makes no note: whether the marker comes later in the text or runs
/// past the excerpt, the title is missing.
pub proof fn lemma_title_must_fit_excerpt(file: FileProbeView, root: ResolvedView)
    requires
        file.content matches Some(text) && forall|n: int, m: int| #[trigger]
            marker_at(text, n, m) ==> n + m + 2 > EXCERPT_BYTES,
    ensures
        note_of(file, root) == Err::<NoteView, NoteErrors>(NoteErrors::NoteTitleMissingError),
{
    let text = file.content->0;
    if has_title(text) {
        let (n, m) = choose|n: int, m: int| marker_at(text, n, m);
        lemma_marker_past_excerpt(text, n, m);
    } else {
        lemma_untitled_text(text);
    }
}

} // verus!
