//! Building one entry from two versions of a file, and rebuilding a file
//! from an entry.
use vstd::prelude::*;
use crate::entry::{
    EntryError, RelativeBSPatch, check_path, entry_outcome, outcome_view, path_error,
};
use crate::outside::{
    DIFF_SOURCE_MAX, bsdiff, bsdiff_of, bspatch, bspatch_applies, bspatched, delta_header_ok,
    le_u64_at,
};
use crate::path::{
    diff_suffix, ends_with_diff_suffix, prefix, has_diff_suffix, target_of, target_path,
    lemma_diff_path, valid_path, with_diff_suffix,
};

verus! {

/// Applying an entry stored under `p` with payload `c` to a file holding
/// `current` leaves it holding `t`: `c` is a well-formed delta from `current`
/// to `t` for a diff, `t` itself for a snapshot.
pub open spec fn rebuilds(p: Seq<u8>, c: Seq<u8>, current: Seq<u8>, t: Seq<u8>) -> bool {
    if has_diff_suffix(p) {
        c == bsdiff_of(current, t) && delta_header_ok(c)
    } else {
        c == t
    }
}

/// The diff entry for the file at `path`, from its `before` to its `after`
/// content. Applied to `before`, it rebuilds `after`.
pub fn diff_entry(path: &[u8], before: &[u8], after: &[u8]) -> (r: Result<RelativeBSPatch, EntryError>)
    ensures
        path_error(path@ + diff_suffix()) matches Some(e) ==> r == Err::<RelativeBSPatch, EntryError>(e),
        path_error(path@ + diff_suffix()) is None && before@.len() > DIFF_SOURCE_MAX ==> r == Err::<
            RelativeBSPatch,
            EntryError,
        >(EntryError::TooLarge),
        path_error(path@ + diff_suffix()) is None && before@.len() <= DIFF_SOURCE_MAX ==> r is Ok,
        r matches Ok(e) ==> e.path_view() == path@ + diff_suffix() && e.content_view() == bsdiff_of(
            before@,
            after@,
        ) && rebuilds(e.path_view(), e.content_view(), before@, after@),
{
    let stored = with_diff_suffix(path);
    proof {
        lemma_diff_path(path@);
    }
    match check_path(stored.as_slice()) {
        Some(e) => {
            return Err(e);
        },
        None => {},
    }
    if before.len() > DIFF_SOURCE_MAX {
        return Err(EntryError::TooLarge);
    }
    let delta = bsdiff(before, after).unwrap();
    RelativeBSPatch::new(stored, delta)
}

/// The snapshot entry for the file at `path`: its whole content. A name that
/// ends in `.bspatch` would read back as a diff, so it is refused.
pub fn snapshot_entry(path: &[u8], content: &[u8]) -> (r: Result<RelativeBSPatch, EntryError>)
    ensures
        has_diff_suffix(path@) ==> r == Err::<RelativeBSPatch, EntryError>(
            EntryError::Unrepresentable,
        ),
        !has_diff_suffix(path@) ==> outcome_view(r) == entry_outcome(Some((path@, content@))),
{
    if ends_with_diff_suffix(path) {
        return Err(EntryError::Unrepresentable);
    }
    let p = prefix(path, path.len());
    let c = prefix(content, content.len());
    assert(p@ =~= path@);
    assert(c@ =~= content@);
    RelativeBSPatch::new(p, c)
}

/// The file, relative to the destination root, that an entry rebuilds. It
/// never leaves that root.
pub fn entry_target(entry: &RelativeBSPatch) -> (r: Vec<u8>)
    ensures
        r@ == target_of(entry.path_view()),
        valid_path(r@),
{
    target_path(entry.path().as_slice())
}

/// The new content of the file an entry rebuilds, given its `current`
/// content (empty for a file that does not exist yet).
pub fn apply_entry(entry: &RelativeBSPatch, current: &[u8]) -> (r: Result<Vec<u8>, EntryError>)
    ensures
        !has_diff_suffix(entry.path_view()) ==> (r matches Ok(t) && t@ == entry.content_view()),
        has_diff_suffix(entry.path_view()) ==> (r is Ok <==> delta_header_ok(entry.content_view())
            && bspatch_applies(current@, entry.content_view())),
        has_diff_suffix(entry.path_view()) ==> match r {
            Ok(t) => t@ == bspatched(current@, entry.content_view()),
            Err(e) => e == EntryError::PatchFailed,
        },
        forall|t: Seq<u8>| #[trigger]
            rebuilds(entry.path_view(), entry.content_view(), current@, t) ==> r is Ok && r->Ok_0@
                == t,
{
    let content = entry.content();
    if ends_with_diff_suffix(entry.path().as_slice()) {
        if !delta_header_fits(content.as_slice()) {
            return Err(EntryError::PatchFailed);
        }
        match bspatch(current, content.as_slice()) {
            Ok(t) => Ok(t),
            Err(_) => Err(EntryError::PatchFailed),
        }
    } else {
        let t = content.clone();
        assert(t@ =~= content@);
        Ok(t)
    }
}

/// The little-endian 64-bit value at `o`, exactly.
fn le_u64_value(d: &[u8], o: usize) -> (r: u128)
    requires
        o + 8 <= d@.len(),
    ensures
        r == le_u64_at(d@, o as int),
{
    d[o] as u128 + d[o + 1] as u128 * 0x100 + d[o + 2] as u128 * 0x1_0000 + d[o + 3] as u128
        * 0x100_0000 + d[o + 4] as u128 * 0x1_0000_0000 + d[o + 5] as u128 * 0x100_0000_0000 + d[o
        + 6] as u128 * 0x1_0000_0000_0000 + d[o + 7] as u128 * 0x100_0000_0000_0000
}

/// Decides `delta_header_ok`.
pub fn delta_header_fits(d: &[u8]) -> (r: bool)
    ensures
        r == delta_header_ok(d@),
{
    if d.len() < 32 || d[15] >= 128 || d[23] >= 128 {
        return false;
    }
    let c = le_u64_value(d, 8);
    let s = le_u64_value(d, 16);
    32 + c + s <= d.len() as u128
}

/// How far applying a container got, when it could be read at all.
#[derive(Debug, Clone, Copy, PartialEq, Eq, Structural)]
pub enum ApplyStatus {
    /// Every entry was applied.
    Complete,
    /// At least one entry was skipped or failed.
    Partial,
}

/// Whether every per-entry outcome is a success.
pub fn apply_status(outcomes: &Vec<Result<isize, EntryError>>) -> (r: ApplyStatus)
    ensures
        (r == ApplyStatus::Complete) <==> forall|k: int| 0 <= k < outcomes@.len() ==> #[trigger] outcomes@[k] is Ok,
{
    let mut i: usize = 0;
    while i < outcomes.len()
        invariant
            i <= outcomes@.len(),
            forall|k: int| 0 <= k < i ==> #[trigger] outcomes@[k] is Ok,
        decreases outcomes@.len() - i,
    {
        if outcomes[i].is_err() {
            return ApplyStatus::Partial;
        }
        i += 1;
    }
    ApplyStatus::Complete
}

/// The signed change in size from `old_len` bytes to `new_len` bytes.
pub fn size_delta(old_len: usize, new_len: usize) -> (r: isize)
    requires
        old_len <= isize::MAX,
        new_len <= isize::MAX,
    ensures
        r == new_len - old_len,
{
    new_len as isize - old_len as isize
}

} // verus!
