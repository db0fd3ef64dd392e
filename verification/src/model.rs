//! The catalog's data model: raw directory entries as the caller read
//! them from the filesystem, the records a scan returns, and the uniform
//! success/error result envelopes.
//!
//! All of these are transient value objects, constructed per call; the
//! library holds no state between calls.

use vstd::prelude::*;
use crate::order::NameKeyed;

verus! {

/// What a scan reads of one file: its byte length and an opaque,
/// display-only stringification of its modification time (no logic is
/// built on the string's format).
#[derive(Debug, PartialEq, Eq)]
pub struct FileMeta {
    pub size_bytes: u64,
    pub modified_at: String,
}

/// The kind the filesystem reports for a directory entry.
#[derive(Clone, Copy, Debug, PartialEq, Eq, Structural)]
pub enum EntryKind {
    File,
    Directory,
    Other,
}

/// One direct entry of a listed directory, as the caller read it: the
/// bare name, the reported kind, and the metadata — `None` where the
/// metadata could not be read (such an entry is skipped, never fatal).
#[derive(Debug, PartialEq, Eq)]
pub struct RawEntry {
    pub name: String,
    pub kind: EntryKind,
    pub meta: Option<FileMeta>,
}

/// One file a flat scan found and kept.
#[derive(Debug, PartialEq, Eq)]
pub struct CatalogedFile {
    pub name: String,
    pub size_bytes: u64,
    pub modified_at: String,
}

impl NameKeyed for CatalogedFile {
    open spec fn key(&self) -> Seq<char> {
        self.name@
    }

    fn key_ref(&self) -> (r: &str) {
        self.name.as_str()
    }
}

/// One file inside a module, tagged with the suffix class it matched:
/// `class` is the index, in the scan's suffix list, of the first suffix
/// the name ends with.
#[derive(Debug, PartialEq, Eq)]
pub struct ModuleFile {
    pub name: String,
    pub class: usize,
    pub size_bytes: u64,
    pub modified_at: String,
}

impl NameKeyed for ModuleFile {
    open spec fn key(&self) -> Seq<char> {
        self.name@
    }

    fn key_ref(&self) -> (r: &str) {
        self.name.as_str()
    }
}

/// The raw material of a module scan for one subdirectory: the
/// directory's name and its direct entries (empty where listing the
/// subdirectory failed; that failure is tolerated and the module simply
/// drops out).
#[derive(Debug)]
pub struct ModuleListing {
    pub name: String,
    pub entries: Vec<RawEntry>,
}

impl NameKeyed for ModuleListing {
    open spec fn key(&self) -> Seq<char> {
        self.name@
    }

    fn key_ref(&self) -> (r: &str) {
        self.name.as_str()
    }
}

/// One module a scan returns: a named subdirectory together with its
/// qualifying files. A returned module always has at least one file.
#[derive(Debug)]
pub struct Module {
    pub name: String,
    pub files: Vec<ModuleFile>,
}

impl NameKeyed for Module {
    open spec fn key(&self) -> Seq<char> {
        self.name@
    }

    fn key_ref(&self) -> (r: &str) {
        self.name.as_str()
    }
}

/// Envelope of a flat scan: on success the sorted files and no error;
/// on failure an error message and no files.
#[derive(Debug)]
pub struct FileListResult {
    pub success: bool,
    pub files: Vec<CatalogedFile>,
    pub error: Option<String>,
}

/// The envelope invariant of a flat scan result.
pub open spec fn file_list_wf(r: FileListResult) -> bool {
    &&& (r.success <==> r.error is None)
    &&& (!r.success ==> r.files@.len() == 0)
}

/// Envelope of a module scan: on success the sorted modules and no
/// error; on failure an error message and no modules.
#[derive(Debug)]
pub struct ModuleListResult {
    pub success: bool,
    pub modules: Vec<Module>,
    pub error: Option<String>,
}

/// The envelope invariant of a module scan result.
pub open spec fn module_list_wf(r: ModuleListResult) -> bool {
    &&& (r.success <==> r.error is None)
    &&& (!r.success ==> r.modules@.len() == 0)
}

/// Envelope of content retrieval: on success the text and the original
/// file name; on failure only an error message.
#[derive(Debug, PartialEq, Eq)]
pub struct ContentResult {
    pub success: bool,
    pub content: Option<String>,
    pub filename: Option<String>,
    pub error: Option<String>,
}

/// The envelope invariant of a content retrieval result.
pub open spec fn content_wf(r: ContentResult) -> bool {
    &&& (r.success <==> r.content is Some)
    &&& (r.success <==> r.filename is Some)
    &&& (r.success <==> r.error is None)
}

} // verus!
