//! What credential stores hold.
use vstd::prelude::*;

use crate::paths;
use crate::paths::{PathPlan, PathView};
use crate::text;

verus! {

/// A file that was read.
#[derive(Debug)]
pub struct StoredFile {
    pub path: PathPlan,
    pub content: String,
}

/// What was found where credentials are stored: the value of `CODEX_HOME`, the files that could be
/// read, and the text in the keychain.
#[derive(Debug)]
pub struct StoredCredentials {
    pub configured_home: Option<String>,
    pub files: Vec<StoredFile>,
    pub keychain: Option<String>,
}

/// What credential stores hold.
pub struct StoredView {
    pub configured_home: Option<Seq<char>>,
    pub files: Map<PathView, Seq<char>>,
    pub keychain: Option<Seq<char>>,
}

/// The contents of files by their paths; of two readings of a file the later counts.
pub open spec fn files_view(files: Seq<StoredFile>) -> Map<PathView, Seq<char>>
    decreases files.len(),
{
    if files.len() == 0 {
        Map::empty()
    } else {
        files_view(files.drop_last()).insert(files.last().path@, files.last().content@)
    }
}

impl View for StoredCredentials {
    type V = StoredView;

    open spec fn view(&self) -> StoredView {
        StoredView {
            configured_home: text::string_view(self.configured_home),
            files: files_view(self.files@),
            keychain: text::string_view(self.keychain),
        }
    }
}

/// The content of a file, where it could be read.
pub open spec fn content_of(stored: StoredView, path: PathView) -> Option<Seq<char>> {
    if stored.files.contains_key(path) {
        Some(stored.files[path])
    } else {
        None
    }
}

/// The last reading of a file decides.
proof fn lemma_last_reading(files: Seq<StoredFile>, at: int)
    requires
        0 <= at < files.len(),
        forall|j: int| at < j < files.len() ==> (#[trigger] files[j]).path@ != files[at].path@,
    ensures
        files_view(files).contains_key(files[at].path@),
        files_view(files)[files[at].path@] == files[at].content@,
    decreases files.len(),
{
    if at < files.len() - 1 {
        assert(files[files.len() - 1].path@ != files[at].path@);
        lemma_last_reading(files.drop_last(), at);
    }
}

/// A file that was not read has no content.
proof fn lemma_no_reading(files: Seq<StoredFile>, path: PathView)
    requires
        forall|j: int| 0 <= j < files.len() ==> (#[trigger] files[j]).path@ != path,
    ensures
        !files_view(files).contains_key(path),
    decreases files.len(),
{
    if files.len() > 0 {
        assert(files[files.len() - 1].path@ != path);
        lemma_no_reading(files.drop_last(), path);
    }
}

impl StoredCredentials {
    /// The content of a file, where it could be read.
    pub fn content(&self, path: &PathPlan) -> (content: Option<&str>)
        ensures
            text::text_view(content) == content_of(self@, path@),
    {
        let mut i: usize = self.files.len();
        while i > 0
            invariant
                i <= self.files@.len(),
                forall|j: int|
                    i <= j < self.files@.len() ==> (#[trigger] self.files@[j]).path@ != path@,
            decreases i,
        {
            i -= 1;
            if self.files[i].path.same(path) {
                proof {
                    lemma_last_reading(self.files@, i as int);
                }
                return Some(self.files[i].content.as_str());
            }
        }
        proof {
            lemma_no_reading(self.files@, path@);
        }
        None
    }

    /// Where the credentials of the standard account may lie.
    pub fn standard_paths(&self) -> (paths: Vec<PathPlan>)
        ensures
            paths::path_views(paths@) == paths::standard_auth_files(self@.configured_home),
    {
        paths::auth_paths(text::borrowed(&self.configured_home))
    }
}

} // verus!
