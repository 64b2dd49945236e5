use patchpack::apply::{
    apply_entry, apply_status, diff_entry, entry_target, size_delta, snapshot_entry, ApplyStatus,
};
use patchpack::codec::{decode_items, decode_patch, encode_patch, PatchError};
use patchpack::entry::{check_path, EntryError, RelativeBSPatch};
use patchpack::path::{
    ends_with_diff_suffix, is_entry_path_ok, is_utf8, is_valid_path, target_path,
};
use patchpack::tree::{bytes_equal, bytes_less, is_strictly_sorted, pair_by_path};

fn snapshot(path: &str, content: &[u8]) -> RelativeBSPatch {
    snapshot_entry(path.as_bytes(), content).unwrap()
}

fn views(entries: &[RelativeBSPatch]) -> Vec<(Vec<u8>, Vec<u8>)> {
    entries.iter().map(|e| (e.path().clone(), e.content().clone())).collect()
}

fn raw_container(name: &[u8], body: &[u8]) -> Vec<u8> {
    let mut header = tar::Header::new_gnu();
    header.as_old_mut().name[..name.len()].copy_from_slice(name);
    header.set_size(body.len() as u64);
    header.set_cksum();
    let mut builder = tar::Builder::new(Vec::new());
    builder.append(&header, body).unwrap();
    let tarball = builder.into_inner().unwrap();
    liblzma::encode_all(&tarball[..], 9).unwrap()
}

#[test]
fn patch_build() {
    let files = vec![snapshot("a.txt", b"hello"), snapshot("dir/b.bin", &[0, 1, 2, 255])];
    let expected = views(&files);
    let container = encode_patch(files).unwrap();
    let decoded = decode_patch(&container).unwrap();
    assert_eq!(views(&decoded), expected);
    assert!(!ends_with_diff_suffix(decoded[0].path()));
}

#[test]
fn patch_create() {
    let entry = diff_entry(b"a.txt", b"hello", b"hello world").unwrap();
    assert_eq!(entry.path(), &b"a.txt.bspatch".to_vec());
    assert_eq!(entry_target(&entry), b"a.txt".to_vec());
    assert_eq!(apply_entry(&entry, b"hello").unwrap(), b"hello world".to_vec());
}

#[test]
fn patch_send() {
    let files = vec![
        diff_entry(b"lib/engine.so", b"version one", b"version two").unwrap(),
        snapshot("readme", b"text"),
    ];
    let expected = views(&files);
    let sent: Vec<u8> = encode_patch(files).unwrap();
    let received = sent.clone();
    let decoded = decode_patch(&received).unwrap();
    assert_eq!(views(&decoded), expected);
}

#[test]
fn patch_apply() {
    let files = vec![diff_entry(b"libs/engine.so", b"old engine", b"new engine!").unwrap()];
    let container = encode_patch(files).unwrap();
    let outcomes = decode_items(&container).unwrap();
    assert_eq!(outcomes.len(), 1);
    let entry = outcomes[0].as_ref().unwrap();
    assert_eq!(entry_target(entry), b"libs/engine.so".to_vec());
    let rebuilt = apply_entry(entry, b"old engine").unwrap();
    assert_eq!(rebuilt, b"new engine!".to_vec());
    assert_eq!(size_delta(10, rebuilt.len()), 1);
}

#[test]
fn round_trip_keeps_order() {
    let files = vec![
        snapshot("z", b"last"),
        snapshot("a", b""),
        diff_entry(b"m/n", b"", b"from nothing").unwrap(),
    ];
    let expected = views(&files);
    let container = encode_patch(files).unwrap();
    assert_eq!(views(&decode_patch(&container).unwrap()), expected);
}

#[test]
fn empty_patch_set_round_trips() {
    let container = encode_patch(Vec::new()).unwrap();
    assert!(decode_patch(&container).unwrap().is_empty());
    assert!(decode_items(&container).unwrap().is_empty());
}

#[test]
fn long_path_round_trips() {
    let long = format!("{}/file.txt", "d".repeat(150));
    let files = vec![snapshot(&long, b"deep")];
    let expected = views(&files);
    let container = encode_patch(files).unwrap();
    assert_eq!(views(&decode_patch(&container).unwrap()), expected);
}

#[test]
fn encoding_is_deterministic() {
    let first = encode_patch(vec![snapshot("a", b"x"), snapshot("b", b"yy")]).unwrap();
    let second = encode_patch(vec![snapshot("a", b"x"), snapshot("b", b"yy")]).unwrap();
    assert_eq!(first, second);
}

#[test]
fn diff_then_patch_edge_cases() {
    let cases: [(&[u8], &[u8]); 4] =
        [(b"", b"abc"), (b"abc", b""), (b"same", b"same"), (b"", b"")];
    for (a, b) in cases {
        let entry = diff_entry(b"f", a, b).unwrap();
        assert_eq!(apply_entry(&entry, a).unwrap(), b.to_vec());
    }
}

#[test]
fn corrupt_entry_is_reported() {
    let bad = RelativeBSPatch::new(b"bad.txt.bspatch".to_vec(), b"not a delta".to_vec()).unwrap();
    let good = diff_entry(b"good.txt", b"hello", b"hello world").unwrap();
    let container = encode_patch(vec![bad, good]).unwrap();
    let outcomes = decode_items(&container).unwrap();
    assert_eq!(outcomes.len(), 2);
    let results: Vec<Result<Vec<u8>, EntryError>> = outcomes
        .iter()
        .map(|o| apply_entry(o.as_ref().unwrap(), b"hello"))
        .collect();
    assert_eq!(results[0], Err(EntryError::PatchFailed));
    assert_eq!(results[1], Ok(b"hello world".to_vec()));
}

#[test]
fn escaping_entry_is_rejected() {
    let container = raw_container(b"../../etc/passwd.bspatch", b"abc");
    let outcomes = decode_items(&container).unwrap();
    assert_eq!(outcomes.len(), 1);
    assert!(matches!(outcomes[0], Err(EntryError::UnsafePath)));
    assert!(decode_patch(&container).unwrap().is_empty());
    assert!(matches!(
        RelativeBSPatch::new(b"../../etc/passwd.bspatch".to_vec(), Vec::new()),
        Err(EntryError::UnsafePath)
    ));
}

#[test]
fn absolute_entry_is_rejected() {
    let container = raw_container(b"/etc/passwd", b"abc");
    let outcomes = decode_items(&container).unwrap();
    assert!(matches!(outcomes[0], Err(EntryError::UnsafePath)));
}

#[test]
fn snapshot_of_current_content_changes_nothing() {
    let current = b"unchanged bytes".to_vec();
    let entry = snapshot("conf/app.toml", &current);
    assert_eq!(apply_entry(&entry, &current).unwrap(), current);
    assert_eq!(size_delta(current.len(), current.len()), 0);
}

#[test]
fn snapshot_overwrites_whatever_is_there() {
    let entry = snapshot("a", b"new");
    assert_eq!(apply_entry(&entry, b"much longer old content").unwrap(), b"new".to_vec());
}

#[test]
fn unreadable_container_fails_whole() {
    assert_eq!(decode_patch(b"not xz at all").err(), Some(PatchError::Compression));
    let garbage = liblzma::encode_all(&[b'A'; 1024][..], 9).unwrap();
    assert_eq!(decode_items(&garbage).err(), Some(PatchError::Archive));
    assert_eq!(decode_patch(&garbage).err(), Some(PatchError::Archive));
}

#[test]
fn bad_checksum_first_header_fails_whole() {
    let mut header = tar::Header::new_gnu();
    header.as_old_mut().name[..1].copy_from_slice(b"a");
    header.set_size(0);
    header.set_cksum();
    let mut bytes = header.as_bytes().to_vec();
    bytes[0] = b'b';
    bytes.extend_from_slice(&[0u8; 1024]);
    let container = liblzma::encode_all(&bytes[..], 9).unwrap();
    assert_eq!(decode_items(&container).err(), Some(PatchError::Archive));
}

#[test]
fn sparse_archive_is_refused() {
    let mut header = tar::Header::new_gnu();
    header.as_old_mut().name[..4].copy_from_slice(b"file");
    header.set_size(0);
    header.set_entry_type(tar::EntryType::GNUSparse);
    header.set_cksum();
    let mut bytes = header.as_bytes().to_vec();
    bytes.extend_from_slice(&[0u8; 1024]);
    let container = liblzma::encode_all(&bytes[..], 9).unwrap();
    assert_eq!(decode_items(&container).err(), Some(PatchError::Archive));
}

#[test]
fn utf8_rule() {
    assert!(is_utf8(b"a.txt"));
    assert!(is_utf8("\u{e9}\u{20ac}\u{1f600}".as_bytes()));
    assert!(!is_utf8(&[0xc0, 0x80]));
    assert!(!is_utf8(&[0xed, 0xa0, 0x80]));
    assert!(!is_utf8(&[0xf4, 0x90, 0x80, 0x80]));
    assert!(!is_utf8(&[0xe2, 0x82]));
}

#[test]
fn path_rules() {
    assert!(is_valid_path(b"a/b.c"));
    assert!(is_valid_path(b"..a/b.."));
    assert!(!is_valid_path(b""));
    assert!(!is_valid_path(b"/a"));
    assert!(!is_valid_path(b"a/"));
    assert!(!is_valid_path(b"a//b"));
    assert!(!is_valid_path(b"./a"));
    assert!(!is_valid_path(b"a/../b"));
    assert!(!is_valid_path(b".."));
    assert!(!is_valid_path(b"a\0b"));
    assert!(!is_entry_path_ok(b".bspatch"));
    assert!(!is_entry_path_ok(b"a/..bspatch"));
    assert!(is_entry_path_ok(b"a/b.bspatch"));
    assert_eq!(target_path(b"a/b.bspatch"), b"a/b".to_vec());
    assert_eq!(target_path(b"a/b.txt"), b"a/b.txt".to_vec());
}

#[test]
fn bad_paths_give_errors() {
    assert_eq!(diff_entry(b"../x", b"a", b"b").err(), Some(EntryError::UnsafePath));
    assert_eq!(snapshot_entry(b"/abs", b"a").err(), Some(EntryError::UnsafePath));
}

#[test]
fn size_delta_is_signed() {
    assert_eq!(size_delta(5, 11), 6);
    assert_eq!(size_delta(11, 5), -6);
}

#[test]
fn pairs_follow_paths_not_positions() {
    let before = vec![b"b".to_vec(), b"a".to_vec(), b"gone".to_vec()];
    let after = vec![b"a".to_vec(), b"new".to_vec(), b"b".to_vec()];
    assert_eq!(pair_by_path(&before, &after), vec![(1, 0), (0, 2)]);
    assert!(pair_by_path(&Vec::new(), &after).is_empty());
    assert!(bytes_equal(b"abc", b"abc"));
    assert!(!bytes_equal(b"abc", b"abd"));
}

#[test]
fn status_tells_partial_from_complete() {
    assert_eq!(apply_status(&vec![Ok(3), Ok(-2)]), ApplyStatus::Complete);
    assert_eq!(apply_status(&Vec::new()), ApplyStatus::Complete);
    assert_eq!(apply_status(&vec![Ok(3), Err(EntryError::PatchFailed)]), ApplyStatus::Partial);
}

#[test]
fn diff_of_directory_like_path_is_refused() {
    assert_eq!(diff_entry(b"dir/", b"a", b"b").err(), Some(EntryError::Unrepresentable));
    assert_eq!(diff_entry(b"dir/.", b"a", b"b").err(), Some(EntryError::Unrepresentable));
    assert_eq!(diff_entry(b"dir/..", b"a", b"b").err(), Some(EntryError::UnsafePath));
    let ok = diff_entry(b"dir/f", b"a", b"b").unwrap();
    assert_eq!(ok.path(), &b"dir/f.bspatch".to_vec());
}

#[test]
fn non_normalised_paths_are_not_called_unsafe() {
    assert_eq!(check_path(b"a//b"), Some(EntryError::Unrepresentable));
    assert_eq!(check_path(b"./a"), Some(EntryError::Unrepresentable));
    assert_eq!(check_path(b"a/"), Some(EntryError::Unrepresentable));
    assert_eq!(check_path(b""), Some(EntryError::Unrepresentable));
    assert_eq!(check_path(&[0xff, 0xfe]), Some(EntryError::Unrepresentable));
    assert_eq!(check_path(b"a/...bspatch"), Some(EntryError::UnsafePath));
    assert_eq!(check_path(b"x/../y"), Some(EntryError::UnsafePath));
    assert_eq!(check_path(b"/x"), Some(EntryError::UnsafePath));
    assert_eq!(check_path("d/\u{e9}t\u{e9}.txt".as_bytes()), None);
}

#[test]
fn snapshot_with_diff_suffix_is_refused() {
    assert_eq!(snapshot_entry(b"notes.bspatch", b"x").err(), Some(EntryError::Unrepresentable));
}

#[test]
fn colliding_targets_are_refused() {
    let files = vec![snapshot("a", b"whole"), diff_entry(b"a", b"x", b"y").unwrap()];
    assert_eq!(encode_patch(files).err(), Some(PatchError::DuplicateTarget));
}

#[test]
fn delta_with_overflowing_sizes_fails_cleanly() {
    let mut delta = b"BSDIFF40".to_vec();
    delta.extend_from_slice(&0x7fff_ffff_ffff_ffffu64.to_le_bytes());
    delta.extend_from_slice(&0x7fff_ffff_ffff_ffffu64.to_le_bytes());
    delta.extend_from_slice(&0u64.to_le_bytes());
    let entry = RelativeBSPatch::new(b"f.bspatch".to_vec(), delta).unwrap();
    assert_eq!(apply_entry(&entry, b"base"), Err(EntryError::PatchFailed));
    let short = RelativeBSPatch::new(b"g.bspatch".to_vec(), b"BSDIFF40".to_vec()).unwrap();
    assert_eq!(apply_entry(&short, b""), Err(EntryError::PatchFailed));
}

#[test]
fn path_order_is_bytewise() {
    assert!(bytes_less(b"a", b"b"));
    assert!(bytes_less(b"a", b"a/b"));
    assert!(bytes_less(b"", b"a"));
    assert!(!bytes_less(b"b", b"a/z"));
    assert!(!bytes_less(b"same", b"same"));
    assert!(is_strictly_sorted(&vec![b"a".to_vec(), b"a/b".to_vec(), b"b".to_vec()]));
    assert!(!is_strictly_sorted(&vec![b"b".to_vec(), b"a".to_vec()]));
    assert!(!is_strictly_sorted(&vec![b"a".to_vec(), b"a".to_vec()]));
    assert!(is_strictly_sorted(&Vec::new()));
}
