//! The outside codecs this library drives: xz compression (liblzma), tar
//! archives (tar) and binary deltas (qbsdiff). Their results are named here
//! and carried through the verified code under those names.
use vstd::prelude::*;
use std::io::Read;
use crate::entry::{ArchiveItem, items_view};
use crate::path::{utf8_ok, valid_path};
use crate::tarscan::headers_plain;

verus! {

#[verifier::external_type_specification]
#[verifier::external_body]
pub struct ExIoError(std::io::Error);

/// The xz stream (preset 9) of some bytes.
pub uninterp spec fn xz_compressed(data: Seq<u8>) -> Seq<u8>;

/// The bytes an xz stream decodes to.
pub uninterp spec fn xz_decompressed(data: Seq<u8>) -> Seq<u8>;

/// Whether an xz stream decodes.
pub uninterp spec fn xz_decodes(data: Seq<u8>) -> bool;

/// Relies on liblzma::encode_all at preset 9: it compresses into memory, and
/// the stream depends on the input alone.
#[verifier::external_body]
pub(crate) fn xz_compress(data: &[u8]) -> (r: Result<Vec<u8>, std::io::Error>)
    ensures
        r is Ok,
        r matches Ok(v) ==> v@ == xz_compressed(data@),
{
    liblzma::encode_all(data, 9)
}

/// Relies on liblzma::decode_all: a stream that encode_all produced decodes
/// to the bytes that were compressed.
#[verifier::external_body]
pub(crate) fn xz_decompress(data: &[u8]) -> (r: Result<Vec<u8>, std::io::Error>)
    ensures
        r is Ok <==> xz_decodes(data@),
        r matches Ok(v) ==> v@ == xz_decompressed(data@),
        forall|x: Seq<u8>| #[trigger] xz_compressed(x) == data@ ==> r is Ok && r->Ok_0@ == x,
{
    liblzma::decode_all(data)
}

/// A tar archive being written into memory.
#[verifier::external_body]
pub struct ArchiveWriter {
    inner: tar::Builder<Vec<u8>>,
}

/// The (name, body) items appended to a writer so far.
pub uninterp spec fn written_items(w: ArchiveWriter) -> Seq<(Seq<u8>, Seq<u8>)>;

/// The closed tar archive that holds these items, each under a GNU header.
pub uninterp spec fn tar_image(items: Seq<(Seq<u8>, Seq<u8>)>) -> Seq<u8>;

/// The items that reading a tar archive yields, `None` for one that could not be read.
pub uninterp spec fn tar_items(data: Seq<u8>) -> Seq<Option<(Seq<u8>, Seq<u8>)>>;

/// Each name and body is short enough for tar to write its size in octal.
pub open spec fn sizes_fit(items: Seq<(Seq<u8>, Seq<u8>)>) -> bool {
    forall|i: int|
        0 <= i < items.len() ==> (#[trigger] items[i]).0.len() < 8589934591 && items[i].1.len()
            < 8589934592
}

pub open spec fn all_names_valid(items: Seq<(Seq<u8>, Seq<u8>)>) -> bool {
    forall|i: int| 0 <= i < items.len() ==> valid_path(#[trigger] items[i].0)
}

impl ArchiveWriter {
    /// Relies on tar::Builder::new over an empty buffer: nothing is written yet.
    #[verifier::external_body]
    pub(crate) fn new() -> (r: ArchiveWriter)
        ensures
            written_items(r) == Seq::<(Seq<u8>, Seq<u8>)>::empty(),
    {
        ArchiveWriter { inner: tar::Builder::new(Vec::new()) }
    }

    /// Relies on tar::Builder::append_data, with a GNU header that holds the
    /// body's size and checksum: on success the item is appended as given.
    #[verifier::external_body]
    pub(crate) fn append(self, name: &[u8], body: &[u8]) -> (r: Result<ArchiveWriter, std::io::Error>)
        ensures
            utf8_ok(name@) && valid_path(name@) ==> r is Ok,
            r matches Ok(w) ==> written_items(w) == written_items(self).push((name@, body@)),
    {
        let mut inner = self.inner;
        let path = std::str::from_utf8(name).map_err(
            |e| std::io::Error::new(std::io::ErrorKind::InvalidInput, e),
        )?;
        let mut header = tar::Header::new_gnu();
        header.set_size(body.len() as u64);
        header.set_cksum();
        inner.append_data(&mut header, path, body)?;
        Ok(ArchiveWriter { inner })
    }

    /// Relies on tar::Builder::into_inner: the archive is closed with its end
    /// blocks, written into memory, and handed back. Every header in it is a
    /// GNU header (or a GNU long-name header) of type `0` or `L`, with its
    /// size in eleven octal digits where the size is below 8 GiB.
    #[verifier::external_body]
    pub(crate) fn finish(self) -> (r: Result<Vec<u8>, std::io::Error>)
        ensures
            r is Ok,
            sizes_fit(written_items(self)) ==> r is Ok && headers_plain(r->Ok_0@),
            r matches Ok(v) ==> v@ == tar_image(written_items(self)),
    {
        self.inner.into_inner()
    }
}

/// Relies on tar::Archive::entries: on a fresh archive it does not fail,
/// items come in the order they were written, and an archive written by
/// `ArchiveWriter` with normalised relative names reads back item for item.
/// tar 0.4 adds block offsets unchecked only for GNU sparse headers; the
/// `requires` keeps those (and pax headers, which can move offsets) out.
#[verifier::external_body]
pub(crate) fn read_archive(data: &[u8]) -> (r: Result<Vec<Option<ArchiveItem>>, std::io::Error>)
    requires
        headers_plain(data@),
    ensures
        r is Ok,
        r matches Ok(v) ==> items_view(v@) == tar_items(data@),
        forall|items: Seq<(Seq<u8>, Seq<u8>)>|
            #[trigger] tar_image(items) == data@ && all_names_valid(items) ==> r is Ok
                && items_view(r->Ok_0@) == items.map_values(|it: (Seq<u8>, Seq<u8>)| Some(it)),
{
    let mut archive = tar::Archive::new(data);
    let entries = archive.entries()?;
    Ok(entries.map(|e| {
        let mut e = e.ok()?;
        let name = e.path_bytes().into_owned();
        let mut body = Vec::new();
        e.read_to_end(&mut body).ok()?;
        Some(ArchiveItem { name, body })
    }).collect())
}

/// The delta that qbsdiff computes from one buffer to another.
pub uninterp spec fn bsdiff_of(source: Seq<u8>, target: Seq<u8>) -> Seq<u8>;

/// What qbsdiff rebuilds from a base buffer and a delta.
pub uninterp spec fn bspatched(source: Seq<u8>, delta: Seq<u8>) -> Seq<u8>;

/// Whether qbsdiff rebuilds a target from a base buffer and a delta.
pub uninterp spec fn bspatch_applies(source: Seq<u8>, delta: Seq<u8>) -> bool;

/// The little-endian 64-bit value at `o`.
pub open spec fn le_u64_at(d: Seq<u8>, o: int) -> int {
    d[o] + d[o + 1] * 0x100 + d[o + 2] * 0x1_0000 + d[o + 3] * 0x100_0000 + d[o + 4] * 0x1_0000_0000
        + d[o + 5] * 0x100_0000_0000 + d[o + 6] * 0x1_0000_0000_0000 + d[o + 7]
        * 0x100_0000_0000_0000
}

/// A delta whose header sizes are non-negative and whose two leading
/// sections fit inside it: the header of a bsdiff 4 delta that qbsdiff can
/// split without overflow.
pub open spec fn delta_header_ok(d: Seq<u8>) -> bool {
    &&& d.len() >= 32
    &&& d[15] < 128
    &&& d[23] < 128
    &&& 32 + le_u64_at(d, 8) + le_u64_at(d, 16) <= d.len()
}

/// Bsdiff::new panics on a base longer than this.
pub const DIFF_SOURCE_MAX: usize = 2147483647;

/// Relies on qbsdiff::Bsdiff::compare (64 KiB buffer, bzip2 level 7, no
/// threads): writing into memory it does not fail, the delta depends on the
/// two buffers alone, and its header gives the true sizes of its sections.
#[verifier::external_body]
pub(crate) fn bsdiff(source: &[u8], target: &[u8]) -> (r: Result<Vec<u8>, std::io::Error>)
    requires
        source@.len() <= DIFF_SOURCE_MAX,
    ensures
        r is Ok,
        r matches Ok(d) ==> d@ == bsdiff_of(source@, target@) && delta_header_ok(d@),
{
    let mut delta = Vec::new();
    qbsdiff::Bsdiff::new(source, target).buffer_size(65536).compression_level(7).parallel_scheme(
        qbsdiff::ParallelScheme::Never,
    ).compare(std::io::Cursor::new(&mut delta))?;
    Ok(delta)
}

/// Relies on qbsdiff::Bspatch::new and apply: a delta that Bsdiff made from
/// `source` to some target rebuilds that target from `source`. Parsing a
/// header whose sizes overflow panics, hence the `requires`.
#[verifier::external_body]
pub(crate) fn bspatch(source: &[u8], delta: &[u8]) -> (r: Result<Vec<u8>, std::io::Error>)
    requires
        delta_header_ok(delta@),
    ensures
        r is Ok <==> bspatch_applies(source@, delta@),
        r matches Ok(t) ==> t@ == bspatched(source@, delta@),
        forall|t: Seq<u8>| #[trigger] bsdiff_of(source@, t) == delta@ ==> r is Ok && r->Ok_0@ == t,
{
    let patcher = qbsdiff::Bspatch::new(delta)?;
    let mut target = Vec::new();
    patcher.apply(source, std::io::Cursor::new(&mut target))?;
    Ok(target)
}

} // verus!
