//! The decisions and texts of a portable build: whether the source and
//! destination may be used, when patching stops the build, whether the
//! executable's integrity hash is rewritten, and the lines and files the
//! build writes.
use vstd::prelude::*;
use vstd::utf8::encode_utf8;
use vstd::string::StrSliceExecFns;
use crate::chars::{append_str, decimal_chars, push_char, push_decimal_chars};
use crate::fuses::{describe, describe_bytes};
use crate::patch::PatchReport;
use crate::text::{decimal, hex2_upper, lemma_empty_valid, push_decimal, push_hex2, push_str, push_string, utf8_string};

verus! {

/// A portable build: the installed client to copy, where the copy goes,
/// whether an existing non-empty destination may be written over, whether
/// the build only reports, and the picture to make the icon from.
pub struct PortableBuild {
    pub install_root: String,
    pub out: String,
    pub force: bool,
    pub dry_run: bool,
    pub icon: Option<String>,
}

/// Why a portable build stopped.
#[derive(Debug, PartialEq, Eq)]
pub enum PortableError {
    /// The installed client is not where the build was told to look.
    SourceMissing,
    /// The destination holds files and overwriting was not allowed.
    DestNotEmpty,
    /// The installed client has no `resources/app.asar`.
    AsarMissing,
    /// A required patch did not apply.
    PatchesFailed,
}

/// Whether the build may start, and if so whether the destination has to
/// be made: the source must exist, and an existing destination must be
/// empty unless overwriting is allowed.
pub fn check_paths(source_exists: bool, dest_exists: bool, dest_empty: bool, force: bool) -> (r: Result<
    bool,
    PortableError,
>)
    ensures
        !source_exists ==> r == Err::<bool, PortableError>(PortableError::SourceMissing),
        source_exists && dest_exists && !dest_empty && !force ==> r == Err::<bool, PortableError>(
            PortableError::DestNotEmpty,
        ),
        source_exists && dest_exists && (dest_empty || force) ==> r == Ok::<bool, PortableError>(false),
        source_exists && !dest_exists ==> r == Ok::<bool, PortableError>(true),
{
    if !source_exists {
        return Err(PortableError::SourceMissing);
    }
    if dest_exists {
        if !dest_empty && !force {
            return Err(PortableError::DestNotEmpty);
        }
        Ok(false)
    } else {
        Ok(true)
    }
}

/// The archive must be in the source before anything is hashed.
pub fn check_source_asar(asar_is_file: bool) -> (r: Result<(), PortableError>)
    ensures
        asar_is_file <==> r is Ok,
        !asar_is_file ==> r == Err::<(), PortableError>(PortableError::AsarMissing),
{
    if asar_is_file {
        Ok(())
    } else {
        Err(PortableError::AsarMissing)
    }
}

/// After patching: a build that writes stops when a required patch failed;
/// a dry run goes on.
pub fn patch_gate(report: &PatchReport, dry_run: bool) -> (r: Result<(), PortableError>)
    ensures
        report.failed@.len() > 0 && !dry_run ==> r == Err::<(), PortableError>(PortableError::PatchesFailed),
        !(report.failed@.len() > 0 && !dry_run) ==> r is Ok,
{
    if report.failed.len() > 0 && !dry_run {
        Err(PortableError::PatchesFailed)
    } else {
        Ok(())
    }
}

/// What happens to the executable's embedded integrity hash once the
/// archive is repacked.
#[derive(Debug, PartialEq, Eq)]
pub enum IntegrityStep {
    /// The header changed and the executable is there: rewrite the hash.
    Rewrite,
    /// The header bytes did not change: nothing to rewrite.
    Unchanged,
    /// The header changed but there is no executable to patch.
    NoExecutable,
}

/// Decides the integrity step from whether the executable exists and the
/// header hashes before and after.
pub fn integrity_step(exe_is_file: bool, old_hash: &str, new_hash: &str) -> (r: IntegrityStep)
    ensures
        old_hash@ == new_hash@ ==> r == IntegrityStep::Unchanged,
        old_hash@ != new_hash@ && exe_is_file ==> r == IntegrityStep::Rewrite,
        old_hash@ != new_hash@ && !exe_is_file ==> r == IntegrityStep::NoExecutable,
{
    let same = crate::chars::str_equal(old_hash, new_hash);
    if !same && exe_is_file {
        IntegrityStep::Rewrite
    } else if same {
        IntegrityStep::Unchanged
    } else {
        IntegrityStep::NoExecutable
    }
}

/// `s` followed by as many spaces as make it `width` characters long.
pub open spec fn pad_chars(s: Seq<char>, width: nat) -> Seq<char> {
    if s.len() >= width {
        s
    } else {
        s + Seq::new((width - s.len()) as nat, |i: int| ' ')
    }
}

/// Appends `t` padded with spaces to `width` characters.
pub fn push_padded_chars(s: &mut String, t: &str, width: usize)
    ensures
        final(s)@ == old(s)@ + pad_chars(t@, width as nat),
{
    append_str(s, t);
    let n = t.unicode_len();
    if n < width {
        let mut k = n;
        while k < width
            invariant
                n == t@.len(),
                n <= k <= width,
                s@ == old(s)@ + t@ + Seq::new((k - n) as nat, |i: int| ' '),
            decreases width - k,
        {
            push_char(s, ' ');
            k = k + 1;
            assert(s@ =~= old(s)@ + t@ + Seq::new((k - n) as nat, |i: int| ' '));
        }
        assert(s@ =~= old(s)@ + pad_chars(t@, width as nat));
    } else {
        assert(s@ =~= old(s)@ + pad_chars(t@, width as nat));
    }
}

/// The line reporting a rule that applied.
pub open spec fn applied_line(indent: Seq<char>, rule: Seq<char>, file: Seq<char>, hits: nat) -> Seq<char> {
    indent + "OK  "@ + pad_chars(rule, 32) + " "@ + pad_chars(file, 42) + " x"@ + decimal_chars(hits)
}

/// The lines reporting the rules that applied.
pub open spec fn applied_lines(indent: Seq<char>, a: Seq<(String, String, usize)>) -> Seq<Seq<char>> {
    Seq::new(a.len(), |k: int| applied_line(indent, a[k].0@, a[k].1@, a[k].2 as nat))
}

/// The lines reporting plain messages after a marker.
pub open spec fn marked_lines(indent: Seq<char>, mark: Seq<char>, m: Seq<String>) -> Seq<Seq<char>> {
    Seq::new(m.len(), |k: int| indent + mark + m[k]@)
}

/// Strings as plain values.
pub open spec fn string_views(v: Seq<String>) -> Seq<Seq<char>> {
    Seq::new(v.len(), |k: int| v[k]@)
}

/// The lines reporting what patching did: one per rule that applied, then
/// one per rule skipped, then one per rule that failed, each after `indent`.
pub open spec fn report_text(indent: Seq<char>, report: PatchReport) -> Seq<Seq<char>> {
    applied_lines(indent, report.applied@) + marked_lines(indent, "..  "@, report.skipped@) + marked_lines(
        indent,
        "!!  "@,
        report.failed@,
    )
}

proof fn lemma_string_views_push(v: Seq<String>, x: String)
    ensures
        string_views(v.push(x)) == string_views(v).push(x@),
{
    assert(string_views(v.push(x)) =~= string_views(v).push(x@));
}

/// The lines reporting `report`, each after `indent`.
pub fn report_lines(indent: &str, report: &PatchReport) -> (r: Vec<String>)
    ensures
        string_views(r@) == report_text(indent@, *report),
{
    let mut out: Vec<String> = Vec::new();
    let mut i: usize = 0;
    while i < report.applied.len()
        invariant
            i <= report.applied@.len(),
            string_views(out@) == applied_lines(indent@, report.applied@.take(i as int)),
        decreases report.applied@.len() - i,
    {
        let a = &report.applied[i];
        let mut l = String::new();
        append_str(&mut l, indent);
        append_str(&mut l, "OK  ");
        push_padded_chars(&mut l, a.0.as_str(), 32);
        append_str(&mut l, " ");
        push_padded_chars(&mut l, a.1.as_str(), 42);
        append_str(&mut l, " x");
        push_decimal_chars(&mut l, a.2 as u64);
        assert(l@ =~= applied_line(indent@, a.0@, a.1@, a.2 as nat));
        let ghost prev = out@;
        let ghost lv = l@;
        out.push(l);
        proof {
            lemma_string_views_push(prev, out@.last());
            assert(applied_lines(indent@, report.applied@.take(i + 1)) =~= applied_lines(
                indent@,
                report.applied@.take(i as int),
            ).push(lv));
        }
        i = i + 1;
    }
    assert(report.applied@.take(report.applied@.len() as int) =~= report.applied@);
    let mut j: usize = 0;
    while j < report.skipped.len()
        invariant
            j <= report.skipped@.len(),
            string_views(out@) == applied_lines(indent@, report.applied@) + marked_lines(
                indent@,
                "..  "@,
                report.skipped@.take(j as int),
            ),
        decreases report.skipped@.len() - j,
    {
        let mut l = String::new();
        append_str(&mut l, indent);
        append_str(&mut l, "..  ");
        append_str(&mut l, report.skipped[j].as_str());
        assert(l@ =~= indent@ + "..  "@ + report.skipped@[j as int]@);
        let ghost prev = out@;
        let ghost lv = l@;
        out.push(l);
        proof {
            lemma_string_views_push(prev, out@.last());
            assert(marked_lines(indent@, "..  "@, report.skipped@.take(j + 1)) =~= marked_lines(
                indent@,
                "..  "@,
                report.skipped@.take(j as int),
            ).push(lv));
            assert(string_views(out@) =~= applied_lines(indent@, report.applied@) + marked_lines(
                indent@,
                "..  "@,
                report.skipped@.take(j + 1),
            ));
        }
        j = j + 1;
    }
    assert(report.skipped@.take(report.skipped@.len() as int) =~= report.skipped@);
    let mut k: usize = 0;
    while k < report.failed.len()
        invariant
            k <= report.failed@.len(),
            string_views(out@) == applied_lines(indent@, report.applied@) + marked_lines(
                indent@,
                "..  "@,
                report.skipped@,
            ) + marked_lines(indent@, "!!  "@, report.failed@.take(k as int)),
        decreases report.failed@.len() - k,
    {
        let mut l = String::new();
        append_str(&mut l, indent);
        append_str(&mut l, "!!  ");
        append_str(&mut l, report.failed[k].as_str());
        assert(l@ =~= indent@ + "!!  "@ + report.failed@[k as int]@);
        let ghost prev = out@;
        let ghost lv = l@;
        out.push(l);
        proof {
            lemma_string_views_push(prev, out@.last());
            assert(marked_lines(indent@, "!!  "@, report.failed@.take(k + 1)) =~= marked_lines(
                indent@,
                "!!  "@,
                report.failed@.take(k as int),
            ).push(lv));
            assert(string_views(out@) =~= applied_lines(indent@, report.applied@) + marked_lines(
                indent@,
                "..  "@,
                report.skipped@,
            ) + marked_lines(indent@, "!!  "@, report.failed@.take(k + 1)));
        }
        k = k + 1;
    }
    assert(report.failed@.take(report.failed@.len() as int) =~= report.failed@);
    out
}

/// The line reporting that fuse `idx` went from `before` to `after`.
pub open spec fn fuse_change_bytes(idx: nat, before: u8, after: u8) -> Seq<u8> {
    encode_utf8("      fuse["@) + decimal(idx) + encode_utf8("] 0x"@) + hex2_upper(before) + encode_utf8(
        " -> 0x"@,
    ) + hex2_upper(after) + encode_utf8(" ("@) + describe_bytes(idx, after) + encode_utf8(")"@)
}

/// The line reporting one fuse change of a portable build.
pub fn fuse_change_line(idx: usize, before: u8, after: u8) -> (r: String)
    ensures
        encode_utf8(r@) == fuse_change_bytes(idx as nat, before, after),
{
    let mut out: Vec<u8> = Vec::new();
    proof {
        lemma_empty_valid();
    }
    push_str(&mut out, "      fuse[");
    push_decimal(&mut out, idx as u64);
    push_str(&mut out, "] 0x");
    push_hex2(&mut out, before);
    push_str(&mut out, " -> 0x");
    push_hex2(&mut out, after);
    push_str(&mut out, " (");
    let d = describe(idx, after);
    push_string(&mut out, &d);
    push_str(&mut out, ")");
    utf8_string(out)
}

/// The time stamp a build records: `unix:` and the seconds since 1970.
pub open spec fn unix_stamp_text(secs: nat) -> Seq<char> {
    "unix:"@ + decimal_chars(secs)
}

/// The time stamp for `secs` seconds since 1970.
pub fn unix_stamp(secs: u64) -> (r: String)
    ensures
        r@ == unix_stamp_text(secs as nat),
{
    let mut s = String::new();
    append_str(&mut s, "unix:");
    push_decimal_chars(&mut s, secs);
    s
}

/// The note a portable build leaves beside the executable.
pub open spec fn marker_text(built: Seq<char>, source: Seq<char>) -> Seq<char> {
    "OpenForge portable build\r\nbuilt: "@ + built + "\r\nsource: "@ + source
        + "\r\npatches: kill_owadview, neuter_client_overrides, neuter_updater_endpoint, openforge_branding, freezer_intro_splash, unlock_premium_themes, ads_support_israel_text\r\nresources/app.asar.original is the pristine asar (rename back to disable patches)\r\n"@
}

/// The note a portable build leaves, given when it was built and from where.
pub fn marker(built: &str, source: &str) -> (r: String)
    ensures
        r@ == marker_text(built@, source@),
{
    let mut s = String::new();
    append_str(&mut s, "OpenForge portable build\r\nbuilt: ");
    append_str(&mut s, built);
    append_str(&mut s, "\r\nsource: ");
    append_str(&mut s, source);
    append_str(
        &mut s,
        "\r\npatches: kill_owadview, neuter_client_overrides, neuter_updater_endpoint, openforge_branding, freezer_intro_splash, unlock_premium_themes, ads_support_israel_text\r\nresources/app.asar.original is the pristine asar (rename back to disable patches)\r\n",
    );
    s
}

/// The script that starts the patched client from its own directory.
pub const LAUNCHER_SCRIPT: &'static str = "@echo off\r\nstart \"\" \"%~dp0CurseForge.exe\" %*\r\n";

/// The updater configuration that points the auto-updater nowhere.
pub const UPDATE_STUB: &'static str = "provider: generic\r\nurl: about:blank\r\nupdaterCacheDirName: openforge-updater\r\n";

} // verus!
