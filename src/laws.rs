//! Properties that relate several of the library's functions.
use vstd::prelude::*;
use crate::apply::rebuilds;
use crate::codec::encoded;
use crate::entry::{EntryError, RelativeBSPatch, entries_view, entry_outcome};
use crate::path::{DOT, SLASH, escapes, has_diff_suffix, segment_end, segment_start};

verus! {
/// Determinism: entries with the same paths and payloads in the same order
/// are encoded to the same container.
pub proof fn lemma_encode_deterministic(a: Seq<RelativeBSPatch>, b: Seq<RelativeBSPatch>)
    requires
        entries_view(a) == entries_view(b),
    ensures
        encoded(entries_view(a)) == encoded(entries_view(b)),
{
}

/// A snapshot entry whose payload is the file's current content leaves that
/// file unchanged.
pub proof fn lemma_snapshot_idempotent(path: Seq<u8>, current: Seq<u8>)
    requires
        !has_diff_suffix(path),
    ensures
        rebuilds(path, current, current, current),
{
}

/// An archive item whose name has a `..` segment is reported as unsafe and
/// yields no entry, so nothing is written for it.
pub proof fn lemma_escape_rejected(name: Seq<u8>, body: Seq<u8>, i: int)
    requires
        0 <= i < name.len() - 1,
        segment_start(name, i),
        name[i] == DOT,
        name[i + 1] == DOT,
        segment_end(name, i + 2),
    ensures
        escapes(name),
        entry_outcome(Some((name, body))) == Err::<(Seq<u8>, Seq<u8>), EntryError>(
            EntryError::UnsafePath,
        ),
{
}

/// An archive item with an absolute name is reported as unsafe and yields no
/// entry.
pub proof fn lemma_absolute_rejected(name: Seq<u8>, body: Seq<u8>)
    requires
        name.len() > 0,
        name[0] == SLASH,
    ensures
        entry_outcome(Some((name, body))) == Err::<(Seq<u8>, Seq<u8>), EntryError>(
            EntryError::UnsafePath,
        ),
{
}

} // verus!
