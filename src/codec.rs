//! The container: an xz stream of a tar archive with one item per entry.
use vstd::prelude::*;
use crate::entry::{
    ArchiveItem, EntryError, RelativeBSPatch, entries_view, entry_outcome, entry_view, item_view,
    items_view, outcome_view,
};
use crate::outside::{
    ArchiveWriter, all_names_valid, sizes_fit, read_archive, tar_image, tar_items, written_items,
    xz_compress, xz_compressed, xz_decodes, xz_decompress, xz_decompressed,
};
use crate::path::target_of;
use crate::entry::{lemma_storable_accepted, storable};
use crate::apply::entry_target;
use crate::tree::has_duplicate;
use crate::tarscan::{headers_plain, tar_headers_plain};

verus! {

/// Why a whole container could not be written or read.
#[derive(Debug, Clone, Copy, PartialEq, Eq, Structural)]
pub enum PatchError {
    /// The xz stream could not be produced or decoded.
    Compression,
    /// The archive inside cannot be read: a header tar would not read
    /// safely (sparse, pax, or a size not in plain octal), or its first item.
    Archive,
    /// Two entries name the same file.
    DuplicateTarget,
}

/// The container that holds these (path, payload) items in this order.
pub open spec fn encoded(items: Seq<(Seq<u8>, Seq<u8>)>) -> Seq<u8> {
    xz_compressed(tar_image(items))
}

/// `c` is the container of `items`, each under a path an entry may have:
/// decoding `c` gives back exactly `items`.
pub open spec fn decodes_to(c: Seq<u8>, items: Seq<(Seq<u8>, Seq<u8>)>) -> bool {
    encoded(items) == c && all_entry_paths_ok(items) && headers_plain(tar_image(items))
}

/// The archive's first item could not be read.
pub open spec fn first_unreadable(s: Seq<Option<(Seq<u8>, Seq<u8>)>>) -> bool {
    s.len() > 0 && s[0] is None
}

/// Whether a container can be read at all.
pub open spec fn container_readable(patch: Seq<u8>) -> bool {
    &&& xz_decodes(patch)
    &&& headers_plain(xz_decompressed(patch))
    &&& !first_unreadable(tar_items(xz_decompressed(patch)))
}

pub open spec fn all_entry_paths_ok(items: Seq<(Seq<u8>, Seq<u8>)>) -> bool {
    forall|i: int| 0 <= i < items.len() ==> storable(#[trigger] items[i].0)
}

/// No two items name the same file.
pub open spec fn targets_distinct(items: Seq<(Seq<u8>, Seq<u8>)>) -> bool {
    forall|i: int, j: int|
        0 <= i < j < items.len() ==> target_of(#[trigger] items[i].0) != target_of(#[trigger] items[j].0)
}

/// The per-item outcomes of a decoded archive.
pub open spec fn outcomes_of(items: Seq<Option<(Seq<u8>, Seq<u8>)>>) -> Seq<Result<(Seq<u8>, Seq<u8>), EntryError>> {
    items.map_values(|o: Option<(Seq<u8>, Seq<u8>)>| entry_outcome(o))
}

pub open spec fn outcomes_view(s: Seq<Result<RelativeBSPatch, EntryError>>) -> Seq<Result<(Seq<u8>, Seq<u8>), EntryError>> {
    s.map_values(|r: Result<RelativeBSPatch, EntryError>| outcome_view(r))
}

/// The entries among some outcomes, in order.
pub open spec fn successes(s: Seq<Result<(Seq<u8>, Seq<u8>), EntryError>>) -> Seq<(Seq<u8>, Seq<u8>)>
    decreases s.len(),
{
    if s.len() == 0 {
        Seq::empty()
    } else {
        let rest = successes(s.drop_last());
        match s.last() {
            Ok(e) => rest.push(e),
            Err(_) => rest,
        }
    }
}

/// Serialises entries, in order, into a container; refused where two
/// entries name the same file.
pub fn encode_patch(files: Vec<RelativeBSPatch>) -> (r: Result<Vec<u8>, PatchError>)
    ensures
        targets_distinct(entries_view(files@)) ==> r is Ok,
        !targets_distinct(entries_view(files@)) ==> r == Err::<Vec<u8>, PatchError>(
            PatchError::DuplicateTarget,
        ),
        r matches Ok(c) ==> c@ == encoded(entries_view(files@)),
        r is Ok && sizes_fit(entries_view(files@)) ==> decodes_to(r->Ok_0@, entries_view(files@)),
{
    let mut targets: Vec<Vec<u8>> = Vec::new();
    let mut k: usize = 0;
    while k < files.len()
        invariant
            k <= files@.len(),
            targets@.len() == k,
            forall|m: int| 0 <= m < k ==> #[trigger] targets@[m]@ == target_of(files@[m].path_view()),
        decreases files@.len() - k,
    {
        targets.push(entry_target(&files[k]));
        k += 1;
    }
    if has_duplicate(&targets) {
        proof {
            let (a, b) = choose|a: int, b: int| 0 <= a < b < targets@.len() && #[trigger] targets@[a]@ == #[trigger] targets@[b]@;
            let v = entries_view(files@);
            assert(v[a].0 == files@[a].path_view());
            assert(v[b].0 == files@[b].path_view());
            assert(target_of(v[a].0) == target_of(v[b].0));
        }
        return Err(PatchError::DuplicateTarget);
    }
    assert(targets_distinct(entries_view(files@))) by {
        let v = entries_view(files@);
        assert forall|a: int, b: int| 0 <= a < b < v.len() implies target_of(#[trigger] v[a].0) != target_of(#[trigger] v[b].0) by {
            assert(targets@[a]@ == target_of(v[a].0));
            assert(targets@[b]@ == target_of(v[b].0));
        }
    }
    let mut w = ArchiveWriter::new();
    let mut i: usize = 0;
    while i < files.len()
        invariant
            i <= files@.len(),
            written_items(w) == entries_view(files@.take(i as int)),
            all_entry_paths_ok(entries_view(files@.take(i as int))),
        decreases files@.len() - i,
    {
        let e = &files[i];
        let path = e.path();
        w = w.append(path.as_slice(), e.content().as_slice()).unwrap();
        assert(entries_view(files@.take(i + 1)) =~= entries_view(files@.take(i as int)).push(
            entry_view(files@[i as int]),
        ));
        assert(all_entry_paths_ok(entries_view(files@.take(i + 1)))) by {
            let next = entries_view(files@.take(i + 1));
            assert forall|k: int| 0 <= k < next.len() implies storable(#[trigger] next[k].0) by {
                if k < i {
                    assert(next[k] == entries_view(files@.take(i as int))[k]);
                }
            }
        }
        i += 1;
    }
    assert(files@.take(files@.len() as int) =~= files@);
    let archive = w.finish().unwrap();
    Ok(xz_compress(archive.as_slice()).unwrap())
}

proof fn lemma_outcomes_of_sound(items: Seq<(Seq<u8>, Seq<u8>)>)
    requires
        all_entry_paths_ok(items),
    ensures
        successes(outcomes_of(items.map_values(|it: (Seq<u8>, Seq<u8>)| Some(it)))) == items,
    decreases items.len(),
{
    let wrapped = items.map_values(|it: (Seq<u8>, Seq<u8>)| Some(it));
    if items.len() > 0 {
        let front = items.drop_last();
        assert(all_entry_paths_ok(front)) by {
            assert forall|i: int| 0 <= i < front.len() implies storable(#[trigger] front[i].0) by {
                assert(front[i] == items[i]);
            }
        }
        lemma_outcomes_of_sound(front);
        assert(outcomes_of(wrapped).drop_last() =~= outcomes_of(
            front.map_values(|it: (Seq<u8>, Seq<u8>)| Some(it)),
        ));
        lemma_storable_accepted(items[items.len() - 1].0);
        assert(items =~= front.push(items.last()));
    } else {
        assert(items =~= Seq::<(Seq<u8>, Seq<u8>)>::empty());
    }
}

/// Reads a container into one outcome per archive item, in order: the entry,
/// or why the item could not be made into one.
pub fn decode_items(patch: &[u8]) -> (r: Result<Vec<Result<RelativeBSPatch, EntryError>>, PatchError>)
    ensures
        r is Ok <==> container_readable(patch@),
        !xz_decodes(patch@) ==> r == Err::<Vec<Result<RelativeBSPatch, EntryError>>, PatchError>(
            PatchError::Compression,
        ),
        xz_decodes(patch@) && r is Err ==> r == Err::<Vec<Result<RelativeBSPatch, EntryError>>, PatchError>(
            PatchError::Archive,
        ),
        r matches Ok(v) ==> outcomes_view(v@) == outcomes_of(tar_items(xz_decompressed(patch@))),
        forall|items: Seq<(Seq<u8>, Seq<u8>)>|
            #[trigger] decodes_to(patch@, items) ==> r is Ok && successes(
                outcomes_view(r->Ok_0@),
            ) == items,
{
    let archive = match xz_decompress(patch) {
        Ok(a) => a,
        Err(_) => {
            return Err(PatchError::Compression);
        },
    };
    if !tar_headers_plain(archive.as_slice()) {
        return Err(PatchError::Archive);
    }
    let read = read_archive(archive.as_slice()).unwrap();
    if read.len() > 0 && read[0].is_none() {
        assert(items_view(read@)[0] == item_view(read@[0]));
        return Err(PatchError::Archive);
    }
    assert(!first_unreadable(items_view(read@))) by {
        if read@.len() > 0 {
            assert(items_view(read@)[0] == item_view(read@[0]));
        }
    }
    let ghost raw = items_view(read@);
    let mut out: Vec<Result<RelativeBSPatch, EntryError>> = Vec::new();
    let mut i: usize = 0;
    while i < read.len()
        invariant
            i <= read@.len(),
            raw == items_view(read@),
            out@.len() == i,
            outcomes_view(out@) == outcomes_of(raw.take(i as int)),
        decreases read@.len() - i,
    {
        assert(item_view(read@[i as int]) == raw[i as int]);
        let outcome = match &read[i] {
            Some(it) => {
                let name = it.name.clone();
                let body = it.body.clone();
                assert(name@ =~= it.name@);
                assert(body@ =~= it.body@);
                RelativeBSPatch::from_tar(ArchiveItem { name, body })
            },
            None => Err(EntryError::Unreadable),
        };
        assert(outcome_view(outcome) == entry_outcome(raw[i as int]));
        let ghost prev = out@;
        out.push(outcome);
        assert forall|k: int| 0 <= k <= i implies #[trigger] outcomes_view(out@)[k] == outcomes_of(
            raw.take(i + 1),
        )[k] by {
            if k < i {
                assert(out@[k] == prev[k]);
                assert(outcomes_view(prev)[k] == outcomes_of(raw.take(i as int))[k]);
            }
        }
        assert(outcomes_view(out@) =~= outcomes_of(raw.take(i + 1)));
        i += 1;
    }
    assert(raw.take(read@.len() as int) =~= raw);
    assert(outcomes_view(out@) =~= outcomes_of(raw));
    proof {
        assert forall|items: Seq<(Seq<u8>, Seq<u8>)>|
            #[trigger] decodes_to(patch@, items) implies successes(
                outcomes_view(out@),
            ) == items by {
            assert(all_names_valid(items));
            lemma_outcomes_of_sound(items);
        }
    }
    Ok(out)
}

/// Reads a container's entries, in order, leaving out items that could not
/// be read or that name an unsafe path.
pub fn decode_patch(patch: &[u8]) -> (r: Result<Vec<RelativeBSPatch>, PatchError>)
    ensures
        r is Ok <==> container_readable(patch@),
        !xz_decodes(patch@) ==> r == Err::<Vec<RelativeBSPatch>, PatchError>(PatchError::Compression),
        xz_decodes(patch@) && r is Err ==> r == Err::<Vec<RelativeBSPatch>, PatchError>(
            PatchError::Archive,
        ),
        r matches Ok(v) ==> entries_view(v@) == successes(
            outcomes_of(tar_items(xz_decompressed(patch@))),
        ),
        forall|items: Seq<(Seq<u8>, Seq<u8>)>|
            #[trigger] decodes_to(patch@, items) ==> r is Ok
                && entries_view(r->Ok_0@) == items,
{
    let outcomes = match decode_items(patch) {
        Ok(v) => v,
        Err(e) => {
            return Err(e);
        },
    };
    let ghost all = outcomes_view(outcomes@);
    let mut kept: Vec<RelativeBSPatch> = Vec::new();
    let mut i: usize = 0;
    while i < outcomes.len()
        invariant
            i <= outcomes@.len(),
            all == outcomes_view(outcomes@),
            entries_view(kept@) == successes(all.take(i as int)),
        decreases outcomes@.len() - i,
    {
        assert(all.take(i + 1).drop_last() =~= all.take(i as int));
        assert(all[i as int] == outcome_view(outcomes@[i as int]));
        match &outcomes[i] {
            Ok(e) => {
                kept.push(e.duplicate());
                assert(entries_view(kept@) =~= successes(all.take(i + 1)));
            },
            Err(_) => {},
        }
        i += 1;
    }
    assert(all.take(outcomes@.len() as int) =~= all);
    Ok(kept)
}

} // verus!
