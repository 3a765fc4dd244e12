use openforge::console::{console_origin, fitted_buffer_rows, frameless_style, without_mouse_input};
use openforge::chars::{str_equal, trimmed};
use openforge::icon::{
    icon_from_frames, prepare_icon, PrepareError, assign_icon_ids, collect_group_ids, group_icon_id, group_icon_resource, ico_sizes, parse_ico,
    png_square_sizes, IconError,
};
use openforge::inspect::{
    compile_patterns, file_hits, inspect_patterns, is_scanned_extension, render_report, report_path, snippet,
    span_snippets,
};
use openforge::patch::PatchReport;
use openforge::portable::{
    check_paths, check_source_asar, fuse_change_line, integrity_step, marker, patch_gate, report_lines,
    unix_stamp, IntegrityStep, PortableError, LAUNCHER_SCRIPT, UPDATE_STUB,
};
use openforge::setup::{
    install_dir_arg, is_patched_archive, needs_repatch, padded_line, progress_line, setup_flag_sets,
    setup_url_from_yml, shortcut_script, should_report, stale_shortcut_names,
};

fn ico_with(frames: &[(u8, &[u8])]) -> Vec<u8> {
    let mut out = vec![0, 0, 1, 0, frames.len() as u8, 0];
    let mut offset = 6 + 16 * frames.len();
    for (w, data) in frames {
        out.extend_from_slice(&[*w, *w, 0, 0, 1, 0, 32, 0]);
        out.extend_from_slice(&(data.len() as u32).to_le_bytes());
        out.extend_from_slice(&(offset as u32).to_le_bytes());
        offset += data.len();
    }
    for (_, data) in frames {
        out.extend_from_slice(data);
    }
    out
}

#[test]
fn ico_frames_are_read_with_their_data() {
    let ico = ico_with(&[(16, b"abc"), (32, b"defgh")]);
    let frames = parse_ico(&ico).ok().unwrap();
    assert_eq!(frames.len(), 2);
    assert_eq!(frames[0].width, 16);
    assert_eq!(frames[0].planes, 1);
    assert_eq!(frames[0].bitcount, 32);
    assert_eq!(frames[0].size, 3);
    assert_eq!(frames[0].data, b"abc".to_vec());
    assert_eq!(frames[1].offset, 6 + 32 + 3);
    assert_eq!(frames[1].data, b"defgh".to_vec());
}

#[test]
fn ico_containers_are_checked() {
    assert_eq!(parse_ico(&[0, 0, 1]).err(), Some(IconError::Truncated));
    assert_eq!(parse_ico(&[0, 0, 2, 0, 1, 0]).err(), Some(IconError::BadHeader));
    assert_eq!(parse_ico(&[0, 0, 1, 0, 0, 0]).err(), Some(IconError::NoFrames));
    assert_eq!(parse_ico(&[0, 0, 1, 0, 1, 0, 1, 2]).err(), Some(IconError::Truncated));
    let mut ico = ico_with(&[(16, b"abc")]);
    ico.truncate(ico.len() - 1);
    assert_eq!(parse_ico(&ico).err(), Some(IconError::Truncated));
}

#[test]
fn icon_ids_reuse_then_fill_gaps() {
    assert_eq!(assign_icon_ids(&vec![5, 1, 9], 5), vec![5, 1, 9, 2, 3]);
    assert_eq!(assign_icon_ids(&vec![], 3), vec![1, 2, 3]);
    assert_eq!(assign_icon_ids(&vec![2, 3, 4, 5], 2), vec![2, 3]);
    assert_eq!(assign_icon_ids(&vec![7], 3), vec![7, 1, 2]);
}

#[test]
fn group_icon_ids_are_collected_once() {
    let mut res = vec![0, 0, 1, 0, 3, 0];
    for id in [4u16, 7, 4] {
        res.extend_from_slice(&[16, 16, 0, 0, 1, 0, 32, 0, 0, 1, 0, 0]);
        res.extend_from_slice(&id.to_le_bytes());
    }
    let mut ids = vec![7];
    collect_group_ids(&res, &mut ids);
    assert_eq!(ids, vec![7, 4]);
    let mut ids = Vec::new();
    collect_group_ids(&res[0..20], &mut ids);
    assert_eq!(ids, vec![4]);
    let mut ids = Vec::new();
    collect_group_ids(&res[0..4], &mut ids);
    assert!(ids.is_empty());
}

#[test]
fn group_icon_resources_list_the_frames() {
    let ico = ico_with(&[(16, b"abc"), (0, b"defgh")]);
    let frames = parse_ico(&ico).ok().unwrap();
    let res = group_icon_resource(&frames, &vec![3, 70000]);
    assert_eq!(res.len(), 6 + 14 * 2);
    assert_eq!(&res[0..6], &[0, 0, 1, 0, 2, 0]);
    assert_eq!(&res[6..20], &[16, 16, 0, 0, 1, 0, 32, 0, 3, 0, 0, 0, 3, 0]);
    assert_eq!(&res[20..34], &[0, 0, 0, 0, 1, 0, 32, 0, 5, 0, 0, 0, 0x70, 0x11]);
    assert_eq!(group_icon_id(&vec![]), 1);
    assert_eq!(group_icon_id(&vec![9, 3, 12]), 3);
}

#[test]
fn icon_tables_hold_the_sizes() {
    assert_eq!(ico_sizes(), vec![16, 20, 24, 32, 40, 48, 64, 96, 128, 256]);
    let pngs = png_square_sizes();
    assert_eq!(pngs.len(), 3);
    assert_eq!(pngs[2], (256, "assets/images/taskbar_icon.png"));
}

#[test]
fn scanned_extensions_are_text_files() {
    for e in ["js", "mjs", "cjs", "json", "html", "htm", "css", "txt", "yml", "yaml"] {
        assert!(is_scanned_extension(e));
    }
    assert!(!is_scanned_extension("png"));
    assert!(!is_scanned_extension("JS"));
    assert_eq!(report_path("dist\\desktop\\a.js"), "dist/desktop/a.js");
}

#[test]
fn the_pattern_table_is_sorted_and_compiles() {
    let pats = inspect_patterns();
    assert_eq!(pats.len(), 20);
    for w in pats.windows(2) {
        assert!(w[0].0 < w[1].0);
    }
    let compiled = compile_patterns(&pats).ok().unwrap();
    assert_eq!(compiled.len(), 20);
    assert_eq!(compile_patterns(&vec![("good", "a+"), ("bad", "("), ("worse", "[")]).err(), Some("bad"));
}

#[test]
fn snippets_take_context_and_clean_control_characters() {
    let text = "0123456789abcdefghij\tKEY\u{1}xyz\nend";
    let start = text.find("KEY").unwrap();
    let s = snippet(text, (start, start + 3), 0);
    assert_eq!(s, "KEY");
    let s = snippet(text, (start, start + 3), 1);
    assert_eq!(s, "123456789abcdefghij KEY xyz\nend");
    let long = "x".repeat(500);
    assert_eq!(snippet(&long, (250, 251), 20).chars().count(), 180);
}

#[test]
fn snippet_windows_stop_on_character_boundaries() {
    let text = "ééééééééééééééééééééééé KEY";
    let start = text.find("KEY").unwrap();
    let s = snippet(text, (start, start + 3), 1);
    assert!(s.ends_with("KEY"));
    assert!(s.starts_with('é'));
}

#[test]
fn file_hits_keep_three_matches_per_pattern() {
    let pats = compile_patterns(&vec![("p", "ad"), ("q", "zzz")]).ok().unwrap();
    let text = "ad ad ad ad";
    let hits = file_hits(&pats, text, 0);
    assert_eq!(hits.len(), 2);
    assert_eq!(hits[0], vec!["ad".to_string(), "ad".to_string(), "ad".to_string()]);
    assert!(hits[1].is_empty());
    assert_eq!(span_snippets(text, &vec![(3, 5)], 0), vec!["ad".to_string()]);
}

#[test]
fn reports_group_hits_and_drop_repeats() {
    let names = vec!["A", "B", "C"];
    let hits = vec![
        vec![
            ("f.js".to_string(), "  some snippet  ".to_string()),
            ("f.js".to_string(), "some snippet".to_string()),
            ("g.js".to_string(), "other".to_string()),
        ],
        vec![],
        vec![("h.js".to_string(), "x".to_string())],
    ];
    let lines = render_report(&names, &hits);
    assert_eq!(
        lines,
        vec![
            "##### A  (3 hits)",
            "  f.js",
            "    ... some snippet ...",
            "  f.js",
            "    ... some snippet ...",
            "  g.js",
            "    ... other ...",
            "",
            "##### C  (1 hit)",
            "  h.js",
            "    ... x ...",
            "",
        ]
    );
    let none = render_report(&names, &vec![vec![], vec![], vec![]]);
    assert_eq!(none, vec!["(no matches across any pattern - that's surprising; CF may compress strings)"]);
}

#[test]
fn repeated_snippets_of_a_file_are_shown_once() {
    let names = vec!["A"];
    let hits = vec![vec![
        ("f.js".to_string(), "same".to_string()),
        ("f.js".to_string(), "same".to_string()),
    ]];
    let lines = render_report(&names, &hits);
    assert_eq!(lines, vec!["##### A  (2 hits)", "  f.js", "    ... same ...", ""]);
}

#[test]
fn portable_builds_check_their_paths() {
    assert_eq!(check_paths(false, false, true, false), Err(PortableError::SourceMissing));
    assert_eq!(check_paths(true, true, false, false), Err(PortableError::DestNotEmpty));
    assert_eq!(check_paths(true, true, false, true), Ok(false));
    assert_eq!(check_paths(true, true, true, false), Ok(false));
    assert_eq!(check_paths(true, false, true, false), Ok(true));
    assert_eq!(check_source_asar(false), Err(PortableError::AsarMissing));
    assert_eq!(check_source_asar(true), Ok(()));
}

#[test]
fn failed_patches_stop_a_real_build_only() {
    let rep = PatchReport { applied: Vec::new(), skipped: Vec::new(), failed: vec!["x".to_string()] };
    assert_eq!(patch_gate(&rep, false), Err(PortableError::PatchesFailed));
    assert_eq!(patch_gate(&rep, true), Ok(()));
    let ok = PatchReport { applied: Vec::new(), skipped: Vec::new(), failed: Vec::new() };
    assert_eq!(patch_gate(&ok, false), Ok(()));
}

#[test]
fn the_integrity_hash_is_rewritten_only_when_it_changed() {
    assert_eq!(integrity_step(true, "aa", "bb"), IntegrityStep::Rewrite);
    assert_eq!(integrity_step(true, "aa", "aa"), IntegrityStep::Unchanged);
    assert_eq!(integrity_step(false, "aa", "aa"), IntegrityStep::Unchanged);
    assert_eq!(integrity_step(false, "aa", "bb"), IntegrityStep::NoExecutable);
}

#[test]
fn patch_reports_are_printed_in_columns() {
    let rep = PatchReport {
        applied: vec![("rule".to_string(), "dist/a.js".to_string(), 3)],
        skipped: vec!["s: 0 hits (optional)".to_string()],
        failed: vec!["f: bad".to_string()],
    };
    let lines = report_lines("      ", &rep);
    assert_eq!(lines.len(), 3);
    assert_eq!(lines[0], format!("      OK  {:32} {:42} x{}", "rule", "dist/a.js", 3));
    assert_eq!(lines[1], "      ..  s: 0 hits (optional)");
    assert_eq!(lines[2], "      !!  f: bad");
    let plain = report_lines("", &rep);
    assert_eq!(plain[0], format!("OK  {:32} {:42} x{}", "rule", "dist/a.js", 3));
}

#[test]
fn fuse_changes_are_described() {
    assert_eq!(
        fuse_change_line(4, 0x32, 0x31),
        format!("      fuse[4] 0x32 -> 0x31 ({})", openforge::fuses::describe(4, 0x31))
    );
}

#[test]
fn builds_leave_a_marker_and_scripts() {
    assert_eq!(unix_stamp(1700000000), "unix:1700000000");
    let m = marker("unix:5", "C:\\CF");
    assert!(m.starts_with("OpenForge portable build\r\nbuilt: unix:5\r\nsource: C:\\CF\r\npatches: kill_owadview"));
    assert!(m.ends_with("(rename back to disable patches)\r\n"));
    assert_eq!(LAUNCHER_SCRIPT, "@echo off\r\nstart \"\" \"%~dp0CurseForge.exe\" %*\r\n");
    assert!(UPDATE_STUB.contains("url: about:blank"));
}

#[test]
fn the_setup_url_is_the_first_http_url_line() {
    let yml = "version: 1.0\r\nfiles:\r\n  - url: CurseForge Setup.exe\r\n    sha512: x\r\npath: x\r\nurl: https://example.com/setup.exe\r\n";
    assert_eq!(setup_url_from_yml(yml), Some("https://example.com/setup.exe".to_string()));
    let yml2 = "files:\n  - url:   http://a/b.exe  \nurl: https://c/d.exe";
    assert_eq!(setup_url_from_yml(yml2), Some("http://a/b.exe".to_string()));
    assert_eq!(setup_url_from_yml("url: ftp://x\n"), None);
    assert_eq!(setup_url_from_yml(""), None);
    assert_eq!(setup_url_from_yml("url: https://last"), Some("https://last".to_string()));
}

#[test]
fn installer_lines_are_padded_to_the_field() {
    let l = padded_line("Installing");
    assert_eq!(l.len(), 2 + 64);
    assert!(l.starts_with("  Installing "));
    let long = "y".repeat(100);
    assert_eq!(padded_line(&long), format!("  {}", "y".repeat(64)));
    assert_eq!(progress_line(5, "Paths ready"), "  5%  Paths ready");
    assert_eq!(progress_line(100, "Done"), "100%  Done");
}

#[test]
fn progress_is_reported_on_change() {
    assert!(should_report(10, "a", 10, "b"));
    assert!(!should_report(11, "a", 10, "a"));
    assert!(should_report(12, "a", 10, "a"));
    assert!(should_report(100, "a", 100, "a"));
    assert!(!should_report(0, "a", 0, "a"));
}

#[test]
fn shortcut_scripts_escape_quotes() {
    let s = shortcut_script("C:\\a\"b.lnk", "C:\\t.exe", "C:\\", "C:\\i.png");
    assert_eq!(
        s,
        "$W=New-Object -ComObject WScript.Shell; $S=$W.CreateShortcut(\"C:\\a`\"b.lnk\"); $S.TargetPath=\"C:\\t.exe\"; $S.WorkingDirectory=\"C:\\\"; $S.IconLocation=\"C:\\i.png,0\"; $S.Save()"
    );
    assert_eq!(install_dir_arg("C:\\CF"), "/D=C:\\CF");
    assert_eq!(setup_flag_sets()[1], vec!["/S", "--silent", "--no-launch"]);
    assert_eq!(stale_shortcut_names().len(), 4);
}

#[test]
fn text_helpers_trim_and_compare() {
    let cs: Vec<char> = "\u{3000} \tmid dle\r\n".chars().collect();
    assert_eq!(trimmed(&cs), "mid dle");
    assert!(str_equal("abc", "abc"));
    assert!(!str_equal("abc", "abd"));
}

#[test]
fn the_console_window_is_centred_and_frameless() {
    assert_eq!(console_origin(1920, 1080), (680, 360));
    assert_eq!(console_origin(0, 0), (-280, -180));
    assert_eq!(console_origin(561, 361), (0, 0));
    assert_eq!(frameless_style(0x00CF_0000 | 0x1000_0001), 0x1000_0001);
    assert_eq!(frameless_style(0), 0);
    assert_eq!(without_mouse_input(0x01F7), 0x01E7);
    assert_eq!(fitted_buffer_rows(9001, 0, 29), Some(30));
    assert_eq!(fitted_buffer_rows(30, 0, 29), None);
}

#[test]
fn the_launcher_repatches_only_unpatched_archives() {
    assert!(is_patched_archive(b"....<title>OpenForge</title>...."));
    assert!(!is_patched_archive(b"....<title>CurseForge</title>...."));
    assert!(!is_patched_archive(b"OpenForg"));
    assert!(needs_repatch(true, Some(false)));
    assert!(!needs_repatch(true, Some(true)));
    assert!(!needs_repatch(true, None));
    assert!(!needs_repatch(false, Some(false)));
}

fn sample_png() -> Vec<u8> {
    let img = image::RgbaImage::from_fn(40, 30, |x, y| image::Rgba([(x * 6) as u8, (y * 8) as u8, 90, 255]));
    let mut out = Vec::new();
    image::DynamicImage::ImageRgba8(img)
        .write_to(&mut std::io::Cursor::new(&mut out), image::ImageFormat::Png)
        .unwrap();
    out
}

#[test]
fn an_icon_has_ten_frames_and_a_256_pixel_picture() {
    let p = prepare_icon(&sample_png()).ok().unwrap();
    let frames = parse_ico(&p.ico_bytes).ok().unwrap();
    assert_eq!(frames.len(), 10);
    let widths: Vec<u8> = frames.iter().map(|f| f.width).collect();
    assert_eq!(widths, vec![16, 20, 24, 32, 40, 48, 64, 96, 128, 0]);
    let big = image::load_from_memory_with_format(&p.png_256, image::ImageFormat::Png).unwrap();
    assert_eq!((big.width(), big.height()), (256, 256));
}

#[test]
fn icons_fail_on_what_is_not_a_png() {
    assert_eq!(prepare_icon(b"not a png").err(), Some(PrepareError::Frame { size: 16 }));
    assert_eq!(icon_from_frames(vec![b"junk".to_vec()]).err(), Some(PrepareError::Container));
}
