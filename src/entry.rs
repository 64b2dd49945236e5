//! One file's payload in a patch container, and the items an archive yields.
use vstd::prelude::*;
use crate::path::{
    entry_path_ok, escapes, is_entry_path_ok, is_escaping, lemma_valid_not_escaping, target_of,
    target_path,
};
use crate::path::{is_utf8, utf8_ok};

verus! {

/// Why one entry could not be built, read or applied. Such a failure concerns
/// that entry alone.
#[derive(Debug, Clone, Copy, PartialEq, Eq, Structural)]
pub enum EntryError {
    /// The archive item's header, name or body could not be read.
    Unreadable,
    /// The path, or the file it names, is absolute or has a `..` segment.
    UnsafePath,
    /// The archive cannot hold the path as given: it is empty, has an empty
    /// or `.` segment or a trailing slash, holds a NUL byte, is not UTF-8, or
    /// names a snapshot with the diff suffix.
    Unrepresentable,
    /// The base buffer is beyond what the diff engine can index.
    TooLarge,
    /// The diff engine failed.
    DiffFailed,
    /// The payload is not a delta that rebuilds from the current content.
    PatchFailed,
    /// The file could not be read or written.
    Io,
}

/// An archive item as read: its name and its body.
pub struct ArchiveItem {
    pub name: Vec<u8>,
    pub body: Vec<u8>,
}

pub open spec fn item_view(o: Option<ArchiveItem>) -> Option<(Seq<u8>, Seq<u8>)> {
    match o {
        Some(it) => Some((it.name@, it.body@)),
        None => None,
    }
}

pub open spec fn items_view(s: Seq<Option<ArchiveItem>>) -> Seq<Option<(Seq<u8>, Seq<u8>)>> {
    s.map_values(|o: Option<ArchiveItem>| item_view(o))
}

/// One file's entry: the path it is stored under and its payload, a binary
/// diff when the path ends in `.bspatch`, the whole file otherwise.
pub struct RelativeBSPatch {
    content: Vec<u8>,
    path: Vec<u8>,
}

impl RelativeBSPatch {
    #[verifier::type_invariant]
    spec fn inv(&self) -> bool {
        storable(self.path@)
    }

    pub closed spec fn path_view(&self) -> Seq<u8> {
        self.path@
    }

    pub closed spec fn content_view(&self) -> Seq<u8> {
        self.content@
    }

    /// An entry stored under `path`; refused with `UnsafePath` where `path`
    /// or the file it names is absolute or has a `..` segment.
    ///
    /// Limit: a safe path is also refused, with `Unrepresentable`, where tar
    /// would not store it byte for byte (it would write `a//b`, `./a` or `a/`
    /// as `a/b`, `a`, `a`; it needs UTF-8 names), so that every entry reads
    /// back under the path it was made with. Callers pass normalised paths.
    pub fn new(path: Vec<u8>, content: Vec<u8>) -> (r: Result<RelativeBSPatch, EntryError>)
        ensures
            outcome_view(r) == entry_outcome(Some((path@, content@))),
    {
        match check_path(path.as_slice()) {
            Some(e) => Err(e),
            None => Ok(RelativeBSPatch { content, path }),
        }
    }

    /// The entry an archive item stands for.
    pub fn from_tar(item: ArchiveItem) -> (r: Result<RelativeBSPatch, EntryError>)
        ensures
            outcome_view(r) == entry_outcome(Some((item.name@, item.body@))),
    {
        Self::new(item.name, item.body)
    }

    /// A copy of this entry.
    pub fn duplicate(&self) -> (r: RelativeBSPatch)
        ensures
            r.path_view() == self.path_view(),
            r.content_view() == self.content_view(),
    {
        proof {
            use_type_invariant(self);
        }
        RelativeBSPatch { content: self.content.clone(), path: self.path.clone() }
    }

    pub fn path(&self) -> (r: &Vec<u8>)
        ensures
            r@ == self.path_view(),
            storable(r@),
    {
        proof {
            use_type_invariant(self);
        }
        &self.path
    }

    pub fn content(&self) -> (r: &Vec<u8>)
        ensures
            r@ == self.content_view(),
    {
        &self.content
    }
}

pub open spec fn entry_view(e: RelativeBSPatch) -> (Seq<u8>, Seq<u8>) {
    (e.path_view(), e.content_view())
}

pub open spec fn entries_view(s: Seq<RelativeBSPatch>) -> Seq<(Seq<u8>, Seq<u8>)> {
    s.map_values(|e: RelativeBSPatch| entry_view(e))
}

pub open spec fn outcome_view(r: Result<RelativeBSPatch, EntryError>) -> Result<(Seq<u8>, Seq<u8>), EntryError> {
    match r {
        Ok(e) => Ok(entry_view(e)),
        Err(err) => Err(err),
    }
}

/// A path an entry can be stored under: normalised, relative, naming a
/// normalised relative file, and UTF-8.
pub open spec fn storable(p: Seq<u8>) -> bool {
    entry_path_ok(p) && utf8_ok(p)
}

/// Why no entry can be stored under `p`, if there is a reason.
pub open spec fn path_error(p: Seq<u8>) -> Option<EntryError> {
    if escapes(p) || escapes(target_of(p)) {
        Some(EntryError::UnsafePath)
    } else if !storable(p) {
        Some(EntryError::Unrepresentable)
    } else {
        None
    }
}

/// A storable path has nothing against it.
pub proof fn lemma_storable_accepted(p: Seq<u8>)
    requires
        storable(p),
    ensures
        path_error(p) is None,
{
    lemma_valid_not_escaping(p);
    lemma_valid_not_escaping(target_of(p));
}

/// Decides `path_error`.
pub fn check_path(p: &[u8]) -> (r: Option<EntryError>)
    ensures
        r == path_error(p@),
{
    let target = target_path(p);
    if is_escaping(p) || is_escaping(target.as_slice()) {
        Some(EntryError::UnsafePath)
    } else if !is_entry_path_ok(p) || !is_utf8(p) {
        Some(EntryError::Unrepresentable)
    } else {
        None
    }
}

/// What reading an archive item gives: the entry, or why there is none.
pub open spec fn entry_outcome(o: Option<(Seq<u8>, Seq<u8>)>) -> Result<(Seq<u8>, Seq<u8>), EntryError> {
    match o {
        None => Err(EntryError::Unreadable),
        Some(item) => match path_error(item.0) {
            Some(e) => Err(e),
            None => Ok(item),
        },
    }
}

} // verus!
