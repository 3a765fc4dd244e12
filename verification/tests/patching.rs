use openforge::fuses::{
    describe, find_fuses, flip_fuses_for_portable, read_fuses, Fuse, FuseError, FUSE_DISABLED, FUSE_ENABLED,
    FUSE_REMOVED, SENTINEL,
};
use openforge::integrity::{check_hash_pair, rewrite_hash, HashPatchError};
use openforge::json::{brand_bytes, rewrite_brand_values, JsonValue};
use openforge::literal::{in_place_replace, replace_literal};
use openforge::patch::{apply_all, apply_rules, record_locale_branding, PatchError, PatchReport};
use openforge::rules::{rules, PatchRule};
use openforge::search::{bytes_equal, find_subslice, memmem};

fn binary_with_wire(wire: &[u8]) -> Vec<u8> {
    let mut bin = b"MZ....header....".to_vec();
    bin.extend_from_slice(&SENTINEL);
    bin.push(1);
    bin.push(wire.len() as u8);
    bin.extend_from_slice(wire);
    bin.extend_from_slice(b"tail");
    bin
}

#[test]
fn fuse_wire_is_found_after_the_sentinel() {
    let bin = binary_with_wire(&[0x31, 0x32, 0x30]);
    let h = find_fuses(&bin).ok().unwrap();
    assert_eq!(h.sentinel_offset, 16);
    assert_eq!(h.version, 1);
    assert_eq!(h.fuse_count, 3);
    assert_eq!(h.fuses_offset, 16 + 32 + 2);
    let (h2, bytes) = read_fuses(&bin).ok().unwrap();
    assert_eq!(h2, h);
    assert_eq!(bytes, vec![0x31, 0x32, 0x30]);
}

#[test]
fn fuse_errors_name_what_is_missing() {
    assert_eq!(find_fuses(b"no electron here").err(), Some(FuseError::SentinelNotFound));
    let mut bin = b"xx".to_vec();
    bin.extend_from_slice(&SENTINEL);
    bin.push(1);
    assert_eq!(find_fuses(&bin).err(), Some(FuseError::TruncatedNearSentinel));
    bin.push(4);
    bin.push(0x31);
    assert_eq!(find_fuses(&bin).err(), Some(FuseError::TruncatedWire));
}

#[test]
fn describe_names_the_fuse_and_its_state() {
    assert_eq!(describe(0, FUSE_DISABLED), "[0] RunAsNode                              = disabled (0x31)");
    assert_eq!(describe(4, FUSE_ENABLED), "[4] EnableEmbeddedAsarIntegrityValidation  = enabled (0x32)");
    assert_eq!(describe(9, 0x41), "[9] UNKNOWN                                = INVALID (0x41)");
    assert_eq!(describe(2, FUSE_REMOVED), "[2] EnableNodeOptionsEnvVar                = removed (0x30)");
}

#[test]
fn fuse_indices_follow_the_wire() {
    assert_eq!(Fuse::RunAsNode.index(), 0);
    assert_eq!(Fuse::EnableEmbeddedAsarIntegrityValidation.index(), 4);
    assert_eq!(Fuse::OnlyLoadAppFromAsar.index(), 5);
    assert_eq!(Fuse::GrantFileProtocolExtraPrivileges.index(), 7);
}

#[test]
fn portable_flip_turns_off_integrity_and_asar_only() {
    let mut bin = binary_with_wire(&[0x31, 0x32, 0x30, 0x32, 0x32, 0x32, 0x31, 0x32]);
    let changes = flip_fuses_for_portable(&mut bin).ok().unwrap();
    assert_eq!(changes, vec![(4, FUSE_ENABLED, FUSE_DISABLED), (5, FUSE_ENABLED, FUSE_DISABLED)]);
    let (_, wire) = read_fuses(&bin).ok().unwrap();
    assert_eq!(wire, vec![0x31, 0x32, 0x30, 0x32, 0x31, 0x31, 0x31, 0x32]);
    // Flipping again changes nothing.
    let before = bin.clone();
    let again = flip_fuses_for_portable(&mut bin).ok().unwrap();
    assert!(again.is_empty());
    assert_eq!(bin, before);
}

#[test]
fn portable_flip_leaves_short_wires_and_bad_binaries_alone() {
    let mut bin = binary_with_wire(&[0x32, 0x32, 0x32, 0x32, 0x32]);
    let changes = flip_fuses_for_portable(&mut bin).ok().unwrap();
    assert_eq!(changes, vec![(4, FUSE_ENABLED, FUSE_DISABLED)]);
    let mut junk = b"plain".to_vec();
    assert_eq!(flip_fuses_for_portable(&mut junk).err(), Some(FuseError::SentinelNotFound));
    assert_eq!(junk, b"plain".to_vec());
}

const OLD: &str = "aaaaaaaaaaaaaaaaaaaaaaaaaaaaaaaaaaaaaaaaaaaaaaaaaaaaaaaaaaaaaaaa";
const NEW: &str = "bbbbbbbbbbbbbbbbbbbbbbbbbbbbbbbbbbbbbbbbbbbbbbbbbbbbbbbbbbbbbbbb";

#[test]
fn hash_pairs_are_checked() {
    assert_eq!(check_hash_pair(OLD, NEW), Ok(true));
    assert_eq!(check_hash_pair(OLD, &OLD.to_uppercase()), Ok(false));
    assert_eq!(check_hash_pair("abc", NEW), Err(HashPatchError::BadLength { old_len: 3, new_len: 64 }));
    let bad = format!("{}g", &OLD[..63]);
    assert_eq!(check_hash_pair(&bad, NEW), Err(HashPatchError::NotHex));
}

#[test]
fn embedded_hash_is_rewritten_in_both_spellings() {
    let mut data = format!("x{}y{}z", OLD, OLD.to_uppercase()).into_bytes();
    let n = rewrite_hash(&mut data, OLD.as_bytes(), NEW.as_bytes());
    assert_eq!(n, Ok(2));
    assert_eq!(data, format!("x{}y{}z", NEW, NEW.to_uppercase()).into_bytes());
    let mut none = b"nothing".to_vec();
    assert_eq!(rewrite_hash(&mut none, OLD.as_bytes(), NEW.as_bytes()), Err(HashPatchError::NotFound));
    assert_eq!(none, b"nothing".to_vec());
}

#[test]
fn literal_replacement_counts_non_overlapping_matches() {
    let (n, out) = replace_literal(b"aaaa", b"aa", b"b");
    assert_eq!(n, 2);
    assert_eq!(out, b"bb".to_vec());
    let (n, out) = replace_literal(b"CurseForge and CurseForge", b"CurseForge", b"OpenForge");
    assert_eq!(n, 2);
    assert_eq!(out, b"OpenForge and OpenForge".to_vec());
    let (n, out) = replace_literal(b"abc", b"x", b"yy");
    assert_eq!(n, 0);
    assert_eq!(out, b"abc".to_vec());
}

#[test]
fn in_place_replacement_keeps_the_length() {
    let mut buf = b"abcabcab".to_vec();
    let n = in_place_replace(&mut buf, b"abc", b"XYZ");
    assert_eq!(n, 2);
    assert_eq!(buf, b"XYZXYZab".to_vec());
    let mut buf = b"abc".to_vec();
    assert_eq!(in_place_replace(&mut buf, b"", b""), 0);
    assert_eq!(buf, b"abc".to_vec());
}

#[test]
fn searching_finds_the_first_occurrence() {
    assert_eq!(memmem(b"hello world", b"o"), Some(4));
    assert_eq!(memmem(b"hello", b"xyz"), None);
    assert_eq!(find_subslice(b"..OpenForge..", b"OpenForge"), Some(2));
    assert_eq!(find_subslice(b"abc", b""), None);
    assert_eq!(find_subslice(b"ab", b"abc"), None);
    assert!(bytes_equal(b"abc", b"abc"));
    assert!(!bytes_equal(b"abc", b"abd"));
}

#[test]
fn branding_rewrites_every_spelling() {
    assert_eq!(brand_bytes(b"CurseForge curseforge CURSEFORGE"), b"OpenForge openforge OPENFORGE".to_vec());
    assert_eq!(brand_bytes(b"Ads support authors"), b"Ads support Israel".to_vec());
    assert_eq!(brand_bytes(b"Show Intro"), b"Watch the best video ever".to_vec());
    assert_eq!(brand_bytes(b"nothing to see"), b"nothing to see".to_vec());
}

#[test]
fn json_values_are_rebranded_in_place() {
    let mut v = JsonValue::Object(vec![
        ("title".to_string(), JsonValue::Str(b"CurseForge App".to_vec())),
        ("count".to_string(), JsonValue::Number("3".to_string())),
        (
            "list".to_string(),
            JsonValue::Array(vec![JsonValue::Str(b"plain".to_vec()), JsonValue::Str(b"curseforge".to_vec())]),
        ),
    ]);
    let n = rewrite_brand_values(&mut v);
    assert_eq!(n, 2);
    match &v {
        JsonValue::Object(m) => {
            assert!(matches!(&m[0].1, JsonValue::Str(s) if s == b"OpenForge App"));
            assert!(matches!(&m[1].1, JsonValue::Number(s) if s == "3"));
            match &m[2].1 {
                JsonValue::Array(xs) => {
                    assert!(matches!(&xs[0], JsonValue::Str(s) if s == b"plain"));
                    assert!(matches!(&xs[1], JsonValue::Str(s) if s == b"openforge"));
                }
                _ => panic!("expected an array"),
            }
        }
        _ => panic!("expected an object"),
    }
}

#[test]
fn the_rule_set_has_its_rules_in_order() {
    let rs = rules();
    assert_eq!(rs.len(), 31);
    assert_eq!(rs[0].name, "kill_owadview_double");
    assert_eq!(rs[3].name, "neuter_client_overrides");
    assert!(rs.iter().all(|r| r.min_hits <= r.max_hits));
    assert!(rs.iter().all(|r| !r.target_globs.is_empty()));
}

fn report() -> PatchReport {
    PatchReport { applied: Vec::new(), skipped: Vec::new(), failed: Vec::new() }
}

#[test]
fn rules_report_applied_skipped_and_failed() {
    let rs = vec![
        PatchRule {
            name: "swap",
            find: "old",
            replace: "new",
            is_regex: false,
            min_hits: 1,
            max_hits: 5,
            target_globs: vec!["a.js", "missing.js", "b.js"],
        },
        PatchRule {
            name: "optional",
            find: "zzz",
            replace: "",
            is_regex: false,
            min_hits: 0,
            max_hits: 1,
            target_globs: vec!["a.js"],
        },
        PatchRule {
            name: "needed",
            find: "qqq",
            replace: "",
            is_regex: false,
            min_hits: 2,
            max_hits: 9,
            target_globs: vec!["a.js"],
        },
        PatchRule {
            name: "greedy",
            find: "n",
            replace: "N",
            is_regex: false,
            min_hits: 0,
            max_hits: 1,
            target_globs: vec!["a.js", "b.js"],
        },
    ];
    let mut files = vec![("a.js".to_string(), b"old old".to_vec()), ("b.js".to_string(), b"old".to_vec())];
    let mut rep = report();
    assert_eq!(apply_rules(&rs, &mut files, &mut rep), Ok(()));
    assert_eq!(
        rep.applied,
        vec![("swap".to_string(), "a.js".to_string(), 2), ("swap".to_string(), "b.js".to_string(), 1)]
    );
    assert_eq!(rep.skipped, vec!["optional: 0 hits (optional)".to_string()]);
    assert_eq!(
        rep.failed,
        vec![
            "needed: required >= 2 hits, found 0".to_string(),
            "greedy: too many hits (3) - aborting to avoid over-patching".to_string(),
        ]
    );
    assert_eq!(files[0].1, b"New New".to_vec());
    assert_eq!(files[1].1, b"New".to_vec());
}

#[test]
fn regex_rules_count_and_replace() {
    let rs = vec![PatchRule {
        name: "digits",
        find: "[0-9]+",
        replace: "#",
        is_regex: true,
        min_hits: 1,
        max_hits: 10,
        target_globs: vec!["f.txt"],
    }];
    let mut files = vec![("f.txt".to_string(), b"a1b22c333".to_vec())];
    let mut rep = report();
    assert_eq!(apply_rules(&rs, &mut files, &mut rep), Ok(()));
    assert_eq!(rep.applied, vec![("digits".to_string(), "f.txt".to_string(), 3)]);
    assert_eq!(files[0].1, b"a#b#c#".to_vec());
}

#[test]
fn a_bad_regex_names_its_rule() {
    let rs = vec![PatchRule {
        name: "broken",
        find: "(",
        replace: "",
        is_regex: true,
        min_hits: 0,
        max_hits: 1,
        target_globs: vec!["f.txt"],
    }];
    let mut files = vec![("f.txt".to_string(), b"x".to_vec())];
    let mut rep = report();
    assert_eq!(apply_rules(&rs, &mut files, &mut rep), Err(PatchError::BadRegex("broken".to_string())));
}

#[test]
fn regex_rules_expand_capture_groups() {
    let rs = vec![PatchRule {
        name: "groups",
        find: "(a+)b",
        replace: "<$1>",
        is_regex: true,
        min_hits: 2,
        max_hits: 2,
        target_globs: vec!["f.txt"],
    }];
    let mut files = vec![("f.txt".to_string(), b"caaab aab".to_vec())];
    let mut rep = report();
    assert_eq!(apply_rules(&rs, &mut files, &mut rep), Ok(()));
    assert_eq!(rep.applied, vec![("groups".to_string(), "f.txt".to_string(), 2)]);
    assert_eq!(files[0].1, b"c<aaa> <aa>".to_vec());
}

#[test]
fn the_full_rule_set_on_no_files_fails_the_required_rules() {
    let mut files: Vec<(String, Vec<u8>)> = Vec::new();
    let rep = apply_all(&mut files).ok().unwrap();
    assert!(rep.applied.is_empty());
    assert!(rep.failed.iter().any(|l| l == "kill_owadview_double: required >= 1 hits, found 0"));
    assert_eq!(rep.failed.len() + rep.skipped.len(), 31);
}

#[test]
fn locale_branding_is_recorded() {
    let mut rep = report();
    record_locale_branding(&mut rep, false, &vec![]);
    assert_eq!(rep.skipped, vec!["rename_locale_values: _locales not found (optional)".to_string()]);
    let mut rep = report();
    record_locale_branding(&mut rep, true, &vec![0, 0]);
    assert_eq!(rep.skipped, vec!["rename_locale_values: 0 hits (optional)".to_string()]);
    let mut rep = report();
    record_locale_branding(&mut rep, true, &vec![2, 0, 3]);
    assert_eq!(rep.applied, vec![("rename_locale_values".to_string(), "_locales/*.json".to_string(), 5)]);
}

#[test]
fn rebranding_leaves_no_brand_behind() {
    let out = brand_bytes(b"CurseCurseForgeForge and curseCURSEFORGEforge");
    assert_eq!(out, b"CurseOpenForgeForge and curseOPENFORGEforge".to_vec());
    for word in [&b"CurseForge"[..], &b"curseforge"[..], &b"CURSEFORGE"[..]] {
        assert!(!out.windows(word.len()).any(|w| w == word));
    }
}

fn same_json(a: &JsonValue, b: &JsonValue) -> bool {
    match (a, b) {
        (JsonValue::Null, JsonValue::Null) => true,
        (JsonValue::Bool(x), JsonValue::Bool(y)) => x == y,
        (JsonValue::Number(x), JsonValue::Number(y)) => x == y,
        (JsonValue::Str(x), JsonValue::Str(y)) => x == y,
        (JsonValue::Array(xs), JsonValue::Array(ys)) => {
            xs.len() == ys.len() && xs.iter().zip(ys.iter()).all(|(x, y)| same_json(x, y))
        }
        (JsonValue::Object(xs), JsonValue::Object(ys)) => {
            xs.len() == ys.len() && xs.iter().zip(ys.iter()).all(|(x, y)| x.0 == y.0 && same_json(&x.1, &y.1))
        }
        _ => false,
    }
}

fn sample_locale() -> JsonValue {
    JsonValue::Object(vec![
        ("a".to_string(), JsonValue::Str(b"Ads support authors".to_vec())),
        ("b".to_string(), JsonValue::Str(b"Show Intro".to_vec())),
        ("c".to_string(), JsonValue::Array(vec![JsonValue::Str(b"CurseCurseForgeForge".to_vec())])),
    ])
}

#[test]
fn rebranding_twice_changes_nothing() {
    let mut v = sample_locale();
    assert_eq!(rewrite_brand_values(&mut v), 3);
    let mut again = sample_locale();
    assert_eq!(rewrite_brand_values(&mut again), 3);
    assert_eq!(rewrite_brand_values(&mut again), 0);
    assert!(same_json(&v, &again));
    assert!(!same_json(&v, &sample_locale()));
}
