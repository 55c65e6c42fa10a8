use std::io::Cursor;

use nnbfl_preview::archive::{blyt_file_name, clean_label, container_name, display_name, ArchiveEntry};
use nnbfl_preview::compression::{decompress_if_needed, unwrap_compression, UnwrappedError, MAX_RECURSION_DEPTH};
use nnbfl_preview::labels::{decimal_string, hex_string};
use nnbfl_preview::magic::{peek_magic_kind, MagicKind};
use nnbfl_preview::sarc_walk::{
    entry_label_string, is_scan_candidate, select_nested_child, start_package_search, unwrap_or_keep,
    walk_sarc_level, PackageLocation, PackageSearch, SarcFileEntry, WalkStep,
};

fn zstd(data: &[u8]) -> Vec<u8> {
    let mut out = Vec::new();
    tomolib::formats::zs::compress(Cursor::new(data), &mut out, 3, None).unwrap();
    out
}

fn yaz0(data: &[u8]) -> Vec<u8> {
    szs::encode(data, szs::EncodeAlgo::MKW_Rust).unwrap()
}

fn layout_bytes() -> Vec<u8> {
    let mut v = b"FLYT".to_vec();
    v.extend_from_slice(&[0xFE, 0xFF, 0x14, 0x00, 1, 2, 3, 4]);
    v
}

fn archive_bytes() -> Vec<u8> {
    let mut v = b"SARC".to_vec();
    v.extend_from_slice(&[0x14, 0x00, 0xFF, 0xFE, 9, 9, 9, 9]);
    v
}

fn entry(label: Option<&str>, hash: u32, hash_multiplier: u32, path: &str, display: &str) -> ArchiveEntry {
    ArchiveEntry {
        path: path.to_string(),
        nested_path: vec![0],
        display_name: display.to_string(),
        file_idx: 0,
        hash,
        hash_multiplier,
        last_label: label.map(|s| s.to_string()),
    }
}

#[test]
fn magic_kinds_by_header() {
    assert_eq!(peek_magic_kind(b"FLYT\x00\x00"), MagicKind::Bflyt);
    assert_eq!(peek_magic_kind(b"FLAN"), MagicKind::Bflan);
    assert_eq!(peek_magic_kind(b"BNTX1234"), MagicKind::Bntx);
    assert_eq!(peek_magic_kind(b"SARC"), MagicKind::Sarc);
    assert_eq!(peek_magic_kind(b"Yaz0...."), MagicKind::Yaz0);
    assert_eq!(peek_magic_kind(&[0x28, 0xB5, 0x2F, 0xFD, 0]), MagicKind::Zstd);
    assert_eq!(peek_magic_kind(b"MsgPrjBn"), MagicKind::Msbp);
    assert_eq!(peek_magic_kind(b"MsgStdBn\x01"), MagicKind::Msbt);
    assert_eq!(peek_magic_kind(b"MsgS"), MagicKind::Unknown);
    assert_eq!(peek_magic_kind(b"FLY"), MagicKind::Unknown);
    assert_eq!(peek_magic_kind(b""), MagicKind::Unknown);
    assert_eq!(peek_magic_kind(b"ABCD"), MagicKind::Unknown);
}

#[test]
fn scan_candidates_are_layouts_archives_and_compressed_data() {
    assert!(is_scan_candidate(b"FLYT"));
    assert!(is_scan_candidate(b"SARC"));
    assert!(is_scan_candidate(b"Yaz0"));
    assert!(is_scan_candidate(&[0x28, 0xB5, 0x2F, 0xFD]));
    assert!(!is_scan_candidate(b"BNTX"));
    assert!(!is_scan_candidate(b"FLAN"));
    assert!(!is_scan_candidate(b"XY"));
}

#[test]
fn layout_key_uses_last_label_stem_in_lower_case() {
    let e = entry(Some("blyt/Foo_Bar.bflyt"), 0, 0, "/games/Common.szs", "Common");
    assert_eq!(e.layout_key(), "foo_bar");
    let e = entry(Some("NoExtension"), 0, 0, "/games/Common.szs", "Common");
    assert_eq!(e.layout_key(), "noextension");
}

#[test]
fn layout_key_falls_back_to_file_stem() {
    let e = entry(None, 0, 0, "/games/Layout/Title.bflyt", "Title");
    assert_eq!(e.layout_key(), "title");
    let e = entry(None, 0, 0, "/romfs/Layout/Common.lyarc.zs", "Common");
    assert_eq!(e.layout_key(), "common");
    let e = entry(None, 0, 0, "/", "root");
    assert_eq!(e.layout_key(), "");
    assert!(!e.matches_layout_name("x", 0));
}

#[test]
fn matches_layout_name_by_key_or_hash() {
    let e = entry(Some("blyt/Header.bflyt"), 0x1234, 0x65, "/a/b.szs", "b");
    assert!(e.matches_layout_name("HEADER", 0));
    assert!(!e.matches_layout_name("Footer", 0));
    assert!(e.matches_layout_name("Footer", 0x1234));
    let unhashed = entry(Some("blyt/Header.bflyt"), 0x1234, 0, "/a/b.szs", "b");
    assert!(!unhashed.matches_layout_name("Footer", 0x1234));
}

#[test]
fn blyt_file_name_wraps_the_layout_name() {
    assert_eq!(blyt_file_name("Header"), "blyt/Header.bflyt");
    assert_eq!(blyt_file_name(""), "blyt/.bflyt");
}

#[test]
fn display_names_join_cleaned_labels() {
    assert_eq!(container_name("Common.Nin_NX_NVN.zs"), "Common");
    assert_eq!(container_name("Plain"), "Plain");
    assert_eq!(clean_label("blyt/dir/A.bflyt"), "A.bflyt");
    assert_eq!(clean_label("A"), "A");
    assert_eq!(display_name("Common.Nin_NX_NVN.zs", &vec![]), "Common");
    assert_eq!(display_name("Common.Nin_NX_NVN.zs", &vec!["blyt/A.bflyt".to_string()]), "Common > A.bflyt");
    assert_eq!(
        display_name("X.sarc", &vec!["inner/Y.sarc".to_string(), "blyt/b.bflyt".to_string()]),
        "X > Y.sarc > b.bflyt"
    );
}

#[test]
fn entry_from_package_keeps_location_and_last_label() {
    let loc = PackageLocation {
        nested_path: vec![3, 1],
        file_idx: 7,
        hash: 0xAA,
        hash_multiplier: 0x65,
        labels: vec!["Sub.sarc".to_string(), "blyt/T.bflyt".to_string()],
    };
    let e = ArchiveEntry::from_package("/r/Common.szs".to_string(), "Common.szs", loc);
    assert_eq!(e.display_name, "Common > Sub.sarc > T.bflyt");
    assert_eq!(e.nested_path, vec![3, 1]);
    assert_eq!(e.file_idx, 7);
    assert_eq!(e.hash, 0xAA);
    assert_eq!(e.hash_multiplier, 0x65);
    assert_eq!(e.last_label.as_deref(), Some("blyt/T.bflyt"));
    assert_eq!(e.path, "/r/Common.szs");

    let whole = PackageLocation { nested_path: vec![], file_idx: 0, hash: 0, hash_multiplier: 0, labels: vec![] };
    let e = ArchiveEntry::from_package("/r/Title.bflyt".to_string(), "Title.bflyt", whole);
    assert_eq!(e.display_name, "Title");
    assert_eq!(e.last_label, None);
}

#[test]
fn numbers_render_in_decimal_and_padded_hex() {
    assert_eq!(decimal_string(0), "0");
    assert_eq!(decimal_string(7), "7");
    assert_eq!(decimal_string(1234567890), "1234567890");
    assert_eq!(hex_string(0xAB, 8), "000000AB");
    assert_eq!(hex_string(0xDEADBEEF, 8), "DEADBEEF");
    assert_eq!(hex_string(0x1F, 1), "F");
    assert_eq!(hex_string(5, 0), "");
}

#[test]
fn unnamed_entries_are_labelled_by_position_and_hash() {
    assert_eq!(entry_label_string(&None, 3, 0xAB), "#3 (0x000000AB)");
    assert_eq!(entry_label_string(&None, 12, 0x89ABCDEF), "#12 (0x89ABCDEF)");
    assert_eq!(entry_label_string(&Some("blyt/X.bflyt".to_string()), 3, 0xAB), "blyt/X.bflyt");
}

#[test]
fn unwrap_compression_removes_zstd_and_yaz0() {
    let payload = archive_bytes();
    assert_eq!(unwrap_compression(&zstd(&payload), 0).unwrap(), payload);
    assert_eq!(unwrap_compression(&yaz0(&payload), 5).unwrap(), payload);
}

#[test]
fn unwrap_compression_errors() {
    assert_eq!(unwrap_compression(&archive_bytes(), 0), Err(UnwrappedError::DataAlreadyUncompressed));
    assert_eq!(unwrap_compression(&zstd(b"SARC"), MAX_RECURSION_DEPTH), Err(UnwrappedError::MaxDepthExceeded));
    assert_eq!(unwrap_compression(&zstd(b"SARC"), 40), Err(UnwrappedError::MaxDepthExceeded));
    let broken = vec![0x28, 0xB5, 0x2F, 0xFD, 0xFF, 0xFF, 0xFF, 0xFF, 0x00];
    assert_eq!(unwrap_compression(&broken, 0), Err(UnwrappedError::DecompressionFailed));
}

#[test]
fn decompress_if_needed_only_touches_zstd() {
    let payload = layout_bytes();
    assert_eq!(decompress_if_needed(zstd(&payload)), payload);
    assert_eq!(decompress_if_needed(payload.clone()), payload);
    let y = yaz0(&payload);
    assert_eq!(decompress_if_needed(y.clone()), y);
    let broken = vec![0x28, 0xB5, 0x2F, 0xFD, 0xFF, 0xFF];
    assert_eq!(decompress_if_needed(broken.clone()), broken);
}

#[test]
fn unwrap_or_keep_keeps_plain_data() {
    let payload = archive_bytes();
    assert_eq!(unwrap_or_keep(payload.clone(), 0), Some(payload.clone()));
    assert_eq!(unwrap_or_keep(zstd(&payload), 1), Some(payload.clone()));
    assert_eq!(unwrap_or_keep(zstd(&payload), 32), None);
    assert_eq!(unwrap_or_keep(vec![0x28, 0xB5, 0x2F, 0xFD, 1], 0), None);
}

#[test]
fn walk_level_finds_packages_and_nested_archives_in_order() {
    let files = vec![
        SarcFileEntry { name: Some("blyt/a.bflyt".to_string()), hash: 0x11, data: layout_bytes() },
        SarcFileEntry { name: None, hash: 0x1234, data: zstd(&archive_bytes()) },
        SarcFileEntry { name: Some("timg/t.bntx".to_string()), hash: 0x22, data: b"BNTX0000".to_vec() },
        SarcFileEntry { name: Some("broken".to_string()), hash: 0x33, data: vec![0x28, 0xB5, 0x2F, 0xFD, 9] },
        SarcFileEntry { name: Some("blyt/z.bflyt".to_string()), hash: 0x44, data: yaz0(&layout_bytes()) },
    ];
    let steps = walk_sarc_level(&files, 0x65, 0, &vec![2], &vec!["outer.sarc".to_string()]);
    assert_eq!(steps.len(), 3);
    match &steps[0] {
        WalkStep::Package(p) => {
            assert_eq!(p.nested_path, vec![2]);
            assert_eq!(p.file_idx, 0);
            assert_eq!(p.hash, 0x11);
            assert_eq!(p.hash_multiplier, 0x65);
            assert_eq!(p.labels, vec!["outer.sarc".to_string(), "blyt/a.bflyt".to_string()]);
        }
        _ => panic!("expected a package"),
    }
    match &steps[1] {
        WalkStep::Descend { index, label, data } => {
            assert_eq!(*index, 1);
            assert_eq!(label, "#1 (0x00001234)");
            assert_eq!(data, &archive_bytes());
        }
        _ => panic!("expected a nested archive"),
    }
    match &steps[2] {
        WalkStep::Package(p) => {
            assert_eq!(p.file_idx, 4);
            assert_eq!(p.hash, 0x44);
        }
        _ => panic!("expected a package"),
    }
}

#[test]
fn walk_level_gives_up_at_max_depth() {
    let files = vec![SarcFileEntry { name: None, hash: 1, data: layout_bytes() }];
    assert!(walk_sarc_level(&files, 1, MAX_RECURSION_DEPTH, &vec![], &vec![]).is_empty());
    assert!(walk_sarc_level(&files, 1, MAX_RECURSION_DEPTH - 1, &vec![], &vec![]).is_empty());
    assert_eq!(walk_sarc_level(&files, 1, MAX_RECURSION_DEPTH - 2, &vec![], &vec![]).len(), 1);
}

#[test]
fn walk_level_entries_one_below_the_limit_cannot_be_decompressed() {
    let files = vec![SarcFileEntry { name: None, hash: 1, data: zstd(&layout_bytes()) }];
    assert!(walk_sarc_level(&files, 1, MAX_RECURSION_DEPTH - 1, &vec![], &vec![]).is_empty());
    assert_eq!(walk_sarc_level(&files, 1, MAX_RECURSION_DEPTH - 2, &vec![], &vec![]).len(), 1);
}

#[test]
fn search_start_handles_layouts_archives_and_failures() {
    match start_package_search(zstd(&layout_bytes())) {
        PackageSearch::Found(p) => {
            assert_eq!(p.len(), 1);
            assert!(p[0].nested_path.is_empty());
            assert_eq!((p[0].file_idx, p[0].hash, p[0].hash_multiplier), (0, 0, 0));
            assert!(p[0].labels.is_empty());
        }
        PackageSearch::Walk(_) => panic!("a layout file is one package"),
    }
    match start_package_search(yaz0(&archive_bytes())) {
        PackageSearch::Walk(d) => assert_eq!(d, archive_bytes()),
        PackageSearch::Found(_) => panic!("an archive is walked"),
    }
    match start_package_search(vec![0x28, 0xB5, 0x2F, 0xFD, 0xFF]) {
        PackageSearch::Found(p) => assert!(p.is_empty()),
        PackageSearch::Walk(_) => panic!("broken data holds nothing"),
    }
}

#[test]
fn nested_child_selection() {
    let files = vec![
        SarcFileEntry { name: None, hash: 0, data: archive_bytes() },
        SarcFileEntry { name: None, hash: 0, data: zstd(&layout_bytes()) },
    ];
    assert_eq!(select_nested_child(files, 1), Some(layout_bytes()));
    let files = vec![SarcFileEntry { name: None, hash: 0, data: archive_bytes() }];
    assert_eq!(select_nested_child(files, 0), Some(archive_bytes()));
    let files = vec![SarcFileEntry { name: None, hash: 0, data: archive_bytes() }];
    assert_eq!(select_nested_child(files, 1), None);
    let files = vec![SarcFileEntry { name: None, hash: 0, data: vec![0x28, 0xB5, 0x2F, 0xFD] }];
    assert_eq!(select_nested_child(files, 0), None);
}

#[test]
fn malformed_yaz0_is_refused_before_decoding() {
    // A valid header declaring 16 bytes, then a chunk whose first group refers back
    // before the start of the output.
    let mut bad = b"Yaz0".to_vec();
    bad.extend_from_slice(&[0, 0, 0, 16, 0, 0, 0, 0, 0, 0, 0, 0]);
    bad.extend_from_slice(&[0x00, 0x10, 0x00]);
    assert_eq!(unwrap_compression(&bad, 0), Err(UnwrappedError::DecompressionFailed));
    assert!(!nnbfl_preview::compression::yaz0_check(&bad));
    // A group cut short by the end of the input.
    let mut cut = b"Yaz0".to_vec();
    cut.extend_from_slice(&[0, 0, 0, 16, 0, 0, 0, 0, 0, 0, 0, 0]);
    cut.extend_from_slice(&[0x80, 0x41, 0x00]);
    assert!(!nnbfl_preview::compression::yaz0_check(&cut));
    // Raw bytes then a back-reference within what was written decode.
    let mut good = b"Yaz0".to_vec();
    good.extend_from_slice(&[0, 0, 0, 5, 0, 0, 0, 0, 0, 0, 0, 0]);
    good.extend_from_slice(&[0xC0, b'a', b'b', 0x10, 0x01]);
    assert!(nnbfl_preview::compression::yaz0_check(&good));
    assert_eq!(unwrap_compression(&good, 0).unwrap(), b"ababa".to_vec());
    assert!(nnbfl_preview::compression::yaz0_check(&yaz0(&layout_bytes())));
    assert!(nnbfl_preview::compression::yaz0_check(b"not yaz0"));
}
