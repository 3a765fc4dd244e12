use openforge::asar::{
    frame_header, hash_header_sha256, is_sorted_header, list_all, name_before, parse_prefix, read_header_bytes,
    AsarEntry, AsarError, AsarHeader, FileIntegrity,
};
use openforge::digest::{file_integrity, hex_encode, sha1_hex, sha256_hex, INTEGRITY_BLOCK_SIZE};
use openforge::extract::{extract_plan, ExtractItem};
use openforge::listing::{largest_first, listing_line, top_entries};
use openforge::number::parse_decimal_u64;
use openforge::pack::{assign_offsets, packed_files};

fn file(size: u64, offset: Option<&str>, unpacked: Option<bool>) -> AsarEntry {
    AsarEntry::File {
        size,
        offset: offset.map(|s| s.to_string()),
        executable: None,
        unpacked,
        integrity: None,
    }
}

fn dir(files: Vec<(String, AsarEntry)>) -> AsarEntry {
    AsarEntry::Directory { files }
}

fn sample_header() -> AsarHeader {
    AsarHeader {
        files: vec![
            ("a.js".to_string(), file(3, Some("0"), None)),
            (
                "lib".to_string(),
                dir(vec![
                    ("b.node".to_string(), file(7, None, Some(true))),
                    ("c.json".to_string(), file(5, Some("3"), Some(false))),
                ]),
            ),
            ("z.txt".to_string(), file(2, Some("8"), None)),
        ],
    }
}

fn integrity(tag: &str) -> FileIntegrity {
    FileIntegrity {
        algorithm: "SHA256".to_string(),
        hash: tag.to_string(),
        block_size: 4194304,
        blocks: vec![tag.to_string()],
    }
}

fn path(v: &[&str]) -> Vec<String> {
    v.iter().map(|s| s.to_string()).collect()
}

#[test]
fn list_all_walks_in_header_order() {
    let h = sample_header();
    let l = list_all(&h);
    assert_eq!(l.len(), 4);
    assert_eq!(l[0], (path(&["a.js"]), 3, false));
    assert_eq!(l[1], (path(&["lib", "b.node"]), 7, true));
    assert_eq!(l[2], (path(&["lib", "c.json"]), 5, false));
    assert_eq!(l[3], (path(&["z.txt"]), 2, false));
}

#[test]
fn packed_files_leave_out_unpacked() {
    let h = sample_header();
    let p = packed_files(&h);
    assert_eq!(p, vec![path(&["a.js"]), path(&["lib", "c.json"]), path(&["z.txt"])]);
}

#[test]
fn assign_offsets_lays_files_end_to_end() {
    let h = sample_header();
    let measured = vec![(10, integrity("a")), (20, integrity("c")), (5, integrity("z"))];
    let h2 = match assign_offsets(h, measured) {
        Ok(h2) => h2,
        Err(e) => panic!("unexpected {:?}", e),
    };
    match &h2.files[0].1 {
        AsarEntry::File { size, offset, integrity, .. } => {
            assert_eq!(*size, 10);
            assert_eq!(offset.as_deref(), Some("0"));
            assert_eq!(integrity.as_ref().map(|i| i.hash.clone()), Some("a".to_string()));
        }
        _ => panic!("expected a file"),
    }
    match &h2.files[1].1 {
        AsarEntry::Directory { files } => {
            match &files[0].1 {
                AsarEntry::File { size, offset, unpacked, .. } => {
                    assert_eq!(*size, 7);
                    assert_eq!(*offset, None);
                    assert_eq!(*unpacked, Some(true));
                }
                _ => panic!("expected a file"),
            }
            match &files[1].1 {
                AsarEntry::File { size, offset, .. } => {
                    assert_eq!(*size, 20);
                    assert_eq!(offset.as_deref(), Some("10"));
                }
                _ => panic!("expected a file"),
            }
        }
        _ => panic!("expected a directory"),
    }
    match &h2.files[2].1 {
        AsarEntry::File { size, offset, .. } => {
            assert_eq!(*size, 5);
            assert_eq!(offset.as_deref(), Some("30"));
        }
        _ => panic!("expected a file"),
    }
}

#[test]
fn assign_offsets_refuses_totals_beyond_64_bits() {
    let h = sample_header();
    let measured = vec![(u64::MAX, integrity("a")), (1, integrity("c")), (0, integrity("z"))];
    assert_eq!(assign_offsets(h, measured).err(), Some(AsarError::OffsetOverflow));
}

#[test]
fn extract_plan_of_a_laid_out_archive_reads_back_the_offsets() {
    let h = sample_header();
    let measured = vec![(10, integrity("a")), (20, integrity("c")), (5, integrity("z"))];
    let h2 = assign_offsets(h, measured).ok().unwrap();
    let (items, stats) = extract_plan(&h2).ok().unwrap();
    assert_eq!(stats.files, 3);
    assert_eq!(stats.dirs, 1);
    assert_eq!(stats.bytes, 35);
    assert_eq!(stats.unpacked, 1);
    assert_eq!(items.len(), 4);
    assert!(matches!(&items[0], ExtractItem::Write { offset: 0, size: 10, .. }));
    assert!(matches!(&items[1], ExtractItem::Dir(p) if *p == path(&["lib"])));
    assert!(matches!(&items[2], ExtractItem::Write { offset: 10, size: 20, .. }));
    match &items[3] {
        ExtractItem::Write { path: p, offset, size } => {
            assert_eq!(*p, path(&["z.txt"]));
            assert_eq!(*offset, 30);
            assert_eq!(*size, 5);
        }
        _ => panic!("expected a write"),
    }
}

#[test]
fn extract_plan_refuses_a_bad_offset() {
    let h = AsarHeader { files: vec![("x".to_string(), file(1, Some("12a"), None))] };
    assert_eq!(extract_plan(&h).err(), Some(AsarError::BadOffset));
}

#[test]
fn extract_plan_counts_files_without_offset_as_unpacked() {
    let h = AsarHeader { files: vec![("x".to_string(), file(4, None, None))] };
    let (items, stats) = extract_plan(&h).ok().unwrap();
    assert_eq!(items.len(), 0);
    assert_eq!(stats.unpacked, 1);
    assert_eq!(stats.files, 0);
}

#[test]
fn decimal_offsets_parse_like_from_str() {
    assert_eq!(parse_decimal_u64("0"), Some(0));
    assert_eq!(parse_decimal_u64("+42"), Some(42));
    assert_eq!(parse_decimal_u64("18446744073709551615"), Some(u64::MAX));
    assert_eq!(parse_decimal_u64("18446744073709551616"), None);
    assert_eq!(parse_decimal_u64(""), None);
    assert_eq!(parse_decimal_u64("+"), None);
    assert_eq!(parse_decimal_u64("-1"), None);
    assert_eq!(parse_decimal_u64("1 "), None);
    assert_eq!(parse_decimal_u64("007"), Some(7));
}

fn pickle(json: &[u8]) -> Vec<u8> {
    frame_header(json).ok().unwrap()
}

#[test]
fn frame_header_pads_and_sizes_the_pickle() {
    let framed = pickle(b"{\"files\":{}}");
    // 12 bytes of JSON: no padding; sizes 4, 20, 16, 12.
    assert_eq!(&framed[0..4], &[4, 0, 0, 0]);
    assert_eq!(&framed[4..8], &[20, 0, 0, 0]);
    assert_eq!(&framed[8..12], &[16, 0, 0, 0]);
    assert_eq!(&framed[12..16], &[12, 0, 0, 0]);
    assert_eq!(framed.len(), 28);
    let framed = pickle(b"{}");
    assert_eq!(framed.len(), 16 + 4);
    assert_eq!(&framed[18..20], &[0, 0]);
}

#[test]
fn framed_header_reads_back() {
    let json = b"{\"files\":{\"a\":{\"size\":1}}}";
    let mut file = pickle(json);
    file.extend_from_slice(b"blob");
    assert_eq!(read_header_bytes(&file).ok().unwrap(), json.to_vec());
    let prefix = parse_prefix(&file).ok().unwrap();
    assert_eq!(prefix.json_size as usize, json.len());
    assert_eq!(prefix.data_offset as usize, 16 + 28);
}

#[test]
fn read_header_refuses_bad_size_of_size_and_truncation() {
    let mut file = pickle(b"{}");
    file[0] = 8;
    assert_eq!(read_header_bytes(&file).err(), Some(AsarError::BadSizeOfSize(8)));
    let file = pickle(b"{\"files\":{}}");
    assert_eq!(read_header_bytes(&file[0..20]).err(), Some(AsarError::Truncated));
    assert_eq!(read_header_bytes(&file[0..10]).err(), Some(AsarError::Truncated));
}

#[test]
fn header_hash_is_sha256_of_the_json() {
    let json = b"abc";
    let file = pickle(json);
    assert_eq!(
        hash_header_sha256(&file).ok().unwrap(),
        "ba7816bf8f01cfea414140de5dae2223b00361a396177a9cb410ff61f20015ad"
    );
}

#[test]
fn digests_are_lower_case_hex() {
    assert_eq!(sha256_hex(b""), "e3b0c44298fc1c149afbf4c8996fb92427ae41e4649b934ca495991b7852b855");
    assert_eq!(sha1_hex(b"abc"), "a9993e364706816aba3e25717850c26c9cd0d89d");
    assert_eq!(hex_encode(&[0x00, 0xab, 0x10]), "00ab10");
}

#[test]
fn integrity_of_small_and_empty_files() {
    let (size, rec) = file_integrity(b"abc");
    assert_eq!(size, 3);
    assert_eq!(rec.algorithm, "SHA256");
    assert_eq!(rec.block_size as usize, INTEGRITY_BLOCK_SIZE);
    assert_eq!(rec.hash, "ba7816bf8f01cfea414140de5dae2223b00361a396177a9cb410ff61f20015ad");
    assert_eq!(rec.blocks, vec![rec.hash.clone()]);
    let (size, rec) = file_integrity(b"");
    assert_eq!(size, 0);
    assert_eq!(rec.blocks, vec!["e3b0c44298fc1c149afbf4c8996fb92427ae41e4649b934ca495991b7852b855".to_string()]);
}

#[test]
fn integrity_splits_into_blocks() {
    let data = vec![7u8; INTEGRITY_BLOCK_SIZE + 1];
    let (size, rec) = file_integrity(&data);
    assert_eq!(size as usize, INTEGRITY_BLOCK_SIZE + 1);
    assert_eq!(rec.blocks.len(), 2);
    assert_eq!(rec.blocks[1], sha256_hex(&[7u8]));
    assert_eq!(rec.hash, sha256_hex(&data));
}

#[test]
fn largest_first_keeps_order_among_equals() {
    let sizes = vec![5, 9, 5, 1, 9];
    assert_eq!(largest_first(&sizes, 3), vec![1, 4, 0]);
    assert_eq!(largest_first(&sizes, 50), vec![1, 4, 0, 2, 3]);
    assert_eq!(largest_first(&sizes, 0), Vec::<usize>::new());
}

#[test]
fn listing_lines_right_align_sizes() {
    assert_eq!(listing_line(1234, "lib/c.json", false), "        1234  lib/c.json");
    assert_eq!(listing_line(7, "b.node", true), "           7  b.node [unpacked]");
}

#[test]
fn top_entries_join_root_names() {
    let h = sample_header();
    assert_eq!(top_entries(&h), "a.js, lib, z.txt");
    let many: Vec<(String, AsarEntry)> = (0..25).map(|i| (format!("n{}", i), file(0, None, None))).collect();
    let line = top_entries(&AsarHeader { files: many });
    assert!(line.starts_with("n0, n1, "));
    assert!(line.ends_with("n19"));
}

#[test]
fn extraction_counts_agree_with_the_listing() {
    let h = sample_header();
    let listed = list_all(&h);
    let (_, st) = extract_plan(&h).ok().unwrap();
    assert_eq!((st.files + st.unpacked) as usize, listed.len());
    assert_eq!(st.dirs, 1);
    assert_eq!(st.bytes, 3 + 5 + 2);
}

#[test]
fn packing_files_of_the_recorded_sizes_keeps_the_listing() {
    let h = sample_header();
    let before = list_all(&h);
    let measured = vec![(3, integrity("a")), (5, integrity("c")), (2, integrity("z"))];
    let h2 = assign_offsets(sample_header(), measured).ok().unwrap();
    assert_eq!(list_all(&h2), before);
}

#[test]
fn headers_keep_the_order_of_a_sorted_map() {
    assert!(is_sorted_header(&sample_header()));
    let swapped = AsarHeader {
        files: vec![("b".to_string(), file(1, Some("0"), None)), ("a".to_string(), file(1, Some("1"), None))],
    };
    assert!(!is_sorted_header(&swapped));
    let twice = AsarHeader {
        files: vec![("a".to_string(), file(1, Some("0"), None)), ("a".to_string(), file(1, Some("1"), None))],
    };
    assert!(!is_sorted_header(&twice));
    let inner = AsarHeader {
        files: vec![(
            "d".to_string(),
            dir(vec![("z".to_string(), file(1, None, Some(true))), ("y".to_string(), file(1, None, Some(true)))]),
        )],
    };
    assert!(!is_sorted_header(&inner));
    assert!(name_before(&"Z".to_string(), &"a".to_string()));
    assert!(name_before(&"ab".to_string(), &"abc".to_string()));
    assert!(!name_before(&"abc".to_string(), &"ab".to_string()));
    assert!(!name_before(&"é".to_string(), &"z".to_string()));
}
