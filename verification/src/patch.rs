//! Applying the patch rules to the text files of the extracted application
//! and reporting, rule by rule, what was applied, skipped or failed.
use vstd::prelude::*;
use vstd::utf8::encode_utf8;
use vstd::string::StringSliceAdditionalSpecFns;
use crate::literal::{count_matches, replace_all, replace_literal};
use crate::pattern::{Pattern, regex_compiles, regex_match_count, regex_replace_all};
use crate::rules::{PatchRule, RuleView, rule_view, rules, rule_table, rule_well_formed, law_rules_well_formed};
use crate::text::{decimal, push_decimal, push_str, utf8_string, lemma_valid_concat, lemma_encoded_valid, lemma_decimal_valid, string_of};

verus! {

/// What applying the rules did: (rule, file, hits) for each file a rule
/// changed, and a line for each rule skipped or failed.
pub struct PatchReport {
    pub applied: Vec<(String, String, usize)>,
    pub skipped: Vec<String>,
    pub failed: Vec<String>,
}

/// Why the rules could not be applied.
#[derive(Debug, PartialEq, Eq)]
pub enum PatchError {
    /// The regular expression of the named rule does not compile.
    BadRegex(String),
}

/// A text file by its path relative to the application root, and its bytes.
pub type FileView = (Seq<char>, Seq<u8>);

/// The plain values of the files being patched.
pub open spec fn files_view(files: Seq<(String, Vec<u8>)>) -> Seq<FileView> {
    files.map_values(|f: (String, Vec<u8>)| (f.0@, f.1@))
}

/// The report as plain values: applied (rule, file, hits) and the UTF-8
/// bytes of the skipped and failed lines.
pub type ReportView = (Seq<(Seq<char>, Seq<char>, usize)>, Seq<Seq<u8>>, Seq<Seq<u8>>);

/// The plain values of a report.
pub open spec fn report_view(r: PatchReport) -> ReportView {
    (
        r.applied@.map_values(|a: (String, String, usize)| (a.0@, a.1@, a.2)),
        r.skipped@.map_values(|s: String| encode_utf8(s@)),
        r.failed@.map_values(|s: String| encode_utf8(s@)),
    )
}

/// The first file whose path is `path`.
pub open spec fn find_file(files: Seq<FileView>, path: Seq<char>) -> Option<int>
    decreases files.len(),
{
    if files.len() == 0 {
        None
    } else {
        match find_file(files.drop_last(), path) {
            Some(k) => Some(k),
            None => if files.last().0 == path {
                Some(files.len() - 1)
            } else {
                None
            },
        }
    }
}

/// The number of hits of a rule in `text` and the text it leaves.
pub open spec fn rule_effect(rule: RuleView, text: Seq<u8>) -> (nat, Seq<u8>) {
    if rule.3 {
        (
            regex_match_count(rule.1, text),
            regex_replace_all(rule.1, encode_utf8(rule.2), text),
        )
    } else {
        (
            count_matches(text, encode_utf8(rule.1)),
            replace_all(text, encode_utf8(rule.1), encode_utf8(rule.2)),
        )
    }
}

/// `a + b`, capped at `usize::MAX`.
pub open spec fn sat_add(a: nat, b: nat) -> nat {
    if a + b > usize::MAX {
        usize::MAX as nat
    } else {
        a + b
    }
}

/// The state after a rule has visited its first `t` targets: the files,
/// the total number of hits, and (file, hits) for each file it changed; an
/// error where a regular expression does not compile.
pub open spec fn scan_targets(rule: RuleView, files: Seq<FileView>, t: nat) -> Result<
    (Seq<FileView>, nat, Seq<(Seq<char>, nat)>),
    (),
>
    decreases t,
{
    if t == 0 {
        Ok((files, 0, Seq::empty()))
    } else {
        match scan_targets(rule, files, (t - 1) as nat) {
            Err(e) => Err(e),
            Ok((fs, total, hits)) => {
                let path = rule.6[t - 1];
                match find_file(fs, path) {
                    None => Ok((fs, total, hits)),
                    Some(k) => if rule.3 && !regex_compiles(rule.1) {
                        Err(())
                    } else {
                        let (n, text) = rule_effect(rule, fs[k].1);
                        if n == 0 {
                            Ok((fs, total, hits))
                        } else {
                            Ok((fs.update(k, (fs[k].0, text)), sat_add(total, n), hits.push((path, n))))
                        }
                    },
                }
            },
        }
    }
}

/// The line for a rule with too few hits.
pub open spec fn too_few_line(rule: RuleView, total: nat) -> Seq<u8> {
    encode_utf8(rule.0) + encode_utf8(": required >= "@) + decimal(rule.4 as nat) + encode_utf8(
        " hits, found "@,
    ) + decimal(total)
}

/// The line for a rule with too many hits.
pub open spec fn too_many_line(rule: RuleView, total: nat) -> Seq<u8> {
    encode_utf8(rule.0) + encode_utf8(": too many hits ("@) + decimal(total) + encode_utf8(
        ") - aborting to avoid over-patching"@,
    )
}

/// The line for a rule that found nothing and needed nothing.
pub open spec fn optional_line(rule: RuleView) -> Seq<u8> {
    encode_utf8(rule.0) + encode_utf8(": 0 hits (optional)"@)
}

/// The report after a rule with `total` hits in the files `hits`: failed
/// below `min_hits` or above `max_hits`, skipped at zero, else one applied
/// entry per file.
pub open spec fn record_rule(
    report: ReportView,
    rule: RuleView,
    total: nat,
    hits: Seq<(Seq<char>, nat)>,
) -> ReportView {
    if total < rule.4 {
        (report.0, report.1, report.2.push(too_few_line(rule, total)))
    } else if total > rule.5 {
        (report.0, report.1, report.2.push(too_many_line(rule, total)))
    } else if total == 0 {
        (report.0, report.1.push(optional_line(rule)), report.2)
    } else {
        (
            report.0 + hits.map_values(|h: (Seq<char>, nat)| (rule.0, h.0, h.1 as usize)),
            report.1,
            report.2,
        )
    }
}

/// The files and report after the first `n` rules of `rules`, or the index
/// of the rule whose regular expression does not compile.
pub open spec fn apply_rules_spec(rules: Seq<RuleView>, files: Seq<FileView>, report: ReportView, n: nat) -> Result<
    (Seq<FileView>, ReportView),
    int,
>
    decreases n,
{
    if n == 0 {
        Ok((files, report))
    } else {
        match apply_rules_spec(rules, files, report, (n - 1) as nat) {
            Err(i) => Err(i),
            Ok((fs, rep)) => {
                let rule = rules[n - 1];
                match scan_targets(rule, fs, rule.6.len()) {
                    Err(_) => Err(n - 1),
                    Ok((fs2, total, hits)) => Ok((fs2, record_rule(rep, rule, total, hits))),
                }
            },
        }
    }
}

/// A hit count as a report records it.
pub open spec fn recorded(m: nat) -> usize {
    m as usize
}

/// `x` records a positive number of hits.
pub open spec fn records_hits(x: usize) -> bool {
    exists|m: nat| m > 0 && x == #[trigger] recorded(m)
}

/// Law: a rule's scan records a file only where the rule matched in it:
/// each recorded (file, hits) has at least one hit and names one of the
/// targets visited, so a target without a match leaves no record.
pub proof fn law_scan_records_only_hits(rule: RuleView, files: Seq<FileView>, t: nat)
    requires
        scan_targets(rule, files, t) is Ok,
    ensures
        ({
            let hits = scan_targets(rule, files, t)->Ok_0.2;
            &&& hits.len() <= t
            &&& forall|i: int| 0 <= i < hits.len() ==> (#[trigger] hits[i]).1 > 0
            &&& forall|i: int| 0 <= i < hits.len() ==> exists|j: int| 0 <= j < t && (#[trigger] hits[i]).0 == rule.6[j]
        }),
    decreases t,
{
    if t > 0 {
        law_scan_records_only_hits(rule, files, (t - 1) as nat);
        let prev = scan_targets(rule, files, (t - 1) as nat)->Ok_0.2;
        let hits = scan_targets(rule, files, t)->Ok_0.2;
        assert forall|i: int| 0 <= i < hits.len() implies exists|j: int| 0 <= j < t && (#[trigger] hits[i]).0 == rule.6[j] by {
            if i < prev.len() {
                assert(hits[i] == prev[i]);
                let j = choose|j: int| 0 <= j < t - 1 && (#[trigger] prev[i]).0 == rule.6[j];
            } else {
                assert(hits[i].0 == rule.6[t - 1]);
            }
        }
        assert forall|i: int| 0 <= i < hits.len() implies (#[trigger] hits[i]).1 > 0 by {
            if i < prev.len() {
                assert(hits[i] == prev[i]);
            }
        }
    }
}

/// `rep` keeps the applied entries of `report` in front, and each applied
/// entry it adds records a positive number of hits.
pub open spec fn adds_only_hits(report: ReportView, rep: ReportView) -> bool {
    &&& report.0.len() <= rep.0.len()
    &&& rep.0.take(report.0.len() as int) == report.0
    &&& forall|i: int|
        report.0.len() <= i < rep.0.len() ==> records_hits((#[trigger] rep.0[i]).2)
}

/// Law: every entry that rules add to the "applied" part of a report has
/// a positive hit count (the count of a file the rule changed), and what
/// the report held before is kept in front. Over the whole rule set,
/// starting from an empty report, every applied entry has hits.
pub proof fn law_applied_entries_have_hits(rules: Seq<RuleView>, files: Seq<FileView>, report: ReportView, n: nat)
    requires
        apply_rules_spec(rules, files, report, n) is Ok,
    ensures
        adds_only_hits(report, apply_rules_spec(rules, files, report, n)->Ok_0.1),
    decreases n,
{
    if n > 0 {
        law_applied_entries_have_hits(rules, files, report, (n - 1) as nat);
        let (fs, rep0) = apply_rules_spec(rules, files, report, (n - 1) as nat)->Ok_0;
        let rule = rules[n - 1];
        let (fs2, total, hits) = scan_targets(rule, fs, rule.6.len())->Ok_0;
        law_scan_records_only_hits(rule, fs, rule.6.len());
        let rep = record_rule(rep0, rule, total, hits);
        let added = hits.map_values(|h: (Seq<char>, nat)| (rule.0, h.0, h.1 as usize));
        assert(rep.0 == rep0.0 || rep.0 == rep0.0 + added);
        assert(apply_rules_spec(rules, files, report, n)->Ok_0.1 == rep);
        assert forall|i: int| report.0.len() <= i < rep.0.len() implies records_hits((#[trigger] rep.0[i]).2) by {
            if i < rep0.0.len() {
                assert(rep.0[i] == rep0.0[i]);
            } else {
                assert(rep.0 == rep0.0 + added);
                assert(rep.0[i] == added[i - rep0.0.len()]);
                let m = hits[i - rep0.0.len()].1;
                assert(m > 0 && rep.0[i].2 == recorded(m));
            }
        }
        assert(rep.0.take(report.0.len() as int) =~= report.0) by {
            assert forall|k: int| 0 <= k < report.0.len() implies rep.0[k] == report.0[k] by {
                assert(rep.0[k] == rep0.0[k]);
                assert(rep0.0.take(report.0.len() as int)[k] == report.0[k]);
            }
        }
        assert(adds_only_hits(report, rep));
    } else {
        assert(report.0.take(report.0.len() as int) =~= report.0);
        assert(apply_rules_spec(rules, files, report, n)->Ok_0.1 == report);
        assert(adds_only_hits(report, report));
    }
}

/// Law: in the report of the whole rule set, every applied entry records a
/// positive number of hits in its file.
pub proof fn law_report_applies_only_where_rules_hit(files: Seq<FileView>)
    requires
        apply_rules_spec(rule_table(), files, (Seq::empty(), Seq::empty(), Seq::empty()), rule_table().len()) is Ok,
    ensures
        ({
            let rep = apply_rules_spec(rule_table(), files, (Seq::empty(), Seq::empty(), Seq::empty()), rule_table().len())->Ok_0.1;
            forall|i: int| 0 <= i < rep.0.len() ==> records_hits((#[trigger] rep.0[i]).2)
        }),
{
    law_applied_entries_have_hits(rule_table(), files, (Seq::empty(), Seq::empty(), Seq::empty()), rule_table().len());
}

proof fn lemma_find_file_paths(a: Seq<FileView>, b: Seq<FileView>, path: Seq<char>)
    requires
        a.len() == b.len(),
        forall|j: int| 0 <= j < a.len() ==> (#[trigger] a[j]).0 == b[j].0,
    ensures
        find_file(a, path) == find_file(b, path),
        find_file(a, path) matches Some(k) ==> 0 <= k < a.len() && a[k].0 == path,
    decreases a.len(),
{
    if a.len() > 0 {
        assert forall|j: int| 0 <= j < a.drop_last().len() implies (#[trigger] a.drop_last()[j]).0 == b.drop_last()[j].0 by {
            assert(a.drop_last()[j] == a[j] && b.drop_last()[j] == b[j]);
        }
        lemma_find_file_paths(a.drop_last(), b.drop_last(), path);
        if let Some(k) = find_file(a.drop_last(), path) {
            assert(a.drop_last()[k] == a[k]);
        }
    }
}

/// After a scan of the first `t` targets, the files keep their paths, and
/// a file no visited target names keeps its contents.
proof fn lemma_scan_keeps_untouched(rule: RuleView, files: Seq<FileView>, t: nat)
    requires
        scan_targets(rule, files, t) is Ok,
    ensures
        ({
            let fs = scan_targets(rule, files, t)->Ok_0.0;
            &&& fs.len() == files.len()
            &&& forall|j: int| 0 <= j < files.len() ==> (#[trigger] fs[j]).0 == files[j].0
            &&& forall|j: int|
                0 <= j < files.len() && (forall|u: int| 0 <= u < t ==> find_file(files, #[trigger] rule.6[u]) != Some(j))
                    ==> #[trigger] fs[j] == files[j]
        }),
    decreases t,
{
    if t > 0 {
        lemma_scan_keeps_untouched(rule, files, (t - 1) as nat);
        let fs0 = scan_targets(rule, files, (t - 1) as nat)->Ok_0.0;
        let path = rule.6[t - 1];
        lemma_find_file_paths(fs0, files, path);
        let fs = scan_targets(rule, files, t)->Ok_0.0;
        assert forall|j: int| 0 <= j < files.len() implies (#[trigger] fs[j]).0 == files[j].0 by {
            assert(fs0[j].0 == files[j].0);
        }
        assert forall|j: int|
            0 <= j < files.len() && (forall|u: int| 0 <= u < t ==> find_file(files, #[trigger] rule.6[u]) != Some(j))
                implies #[trigger] fs[j] == files[j] by {
            assert(find_file(files, rule.6[t - 1]) != Some(j));
            assert(forall|u: int| 0 <= u < t - 1 ==> find_file(files, #[trigger] rule.6[u]) != Some(j));
            assert(fs0[j] == files[j]);
        }
    }
}

/// The number of matches of a rule in a text: of its regular expression,
/// or of its literal find text.
pub open spec fn match_count(rule: RuleView, text: Seq<u8>) -> nat {
    if rule.3 {
        regex_match_count(rule.1, text)
    } else {
        count_matches(text, encode_utf8(rule.1))
    }
}

/// Law: where a rule names each target once, every (file, hits) its scan
/// records gives the number of the rule's matches in that file as it was
/// given: the file named by a visited target, the first of that path.
pub proof fn law_scan_counts_matches(rule: RuleView, files: Seq<FileView>, t: nat)
    requires
        scan_targets(rule, files, t) is Ok,
        t <= rule.6.len(),
        rule.6.no_duplicates(),
    ensures
        ({
            let hits = scan_targets(rule, files, t)->Ok_0.2;
            forall|i: int| 0 <= i < hits.len() ==> exists|u: int, k: int|
                #![trigger rule.6[u], files[k]]
                0 <= u < t && 0 <= k < files.len() && (#[trigger] hits[i]).0 == rule.6[u]
                    && find_file(files, rule.6[u]) == Some(k) && hits[i].1 == match_count(rule, files[k].1)
        }),
    decreases t,
{
    if t > 0 {
        law_scan_counts_matches(rule, files, (t - 1) as nat);
        lemma_scan_keeps_untouched(rule, files, (t - 1) as nat);
        let prev = scan_targets(rule, files, (t - 1) as nat)->Ok_0;
        let fs0 = prev.0;
        let hits = scan_targets(rule, files, t)->Ok_0.2;
        let path = rule.6[t - 1];
        lemma_find_file_paths(fs0, files, path);
        assert forall|i: int| 0 <= i < hits.len() implies exists|u: int, k: int|
            #![trigger rule.6[u], files[k]]
            0 <= u < t && 0 <= k < files.len() && (#[trigger] hits[i]).0 == rule.6[u]
                && find_file(files, rule.6[u]) == Some(k) && hits[i].1 == match_count(rule, files[k].1) by {
            if i < prev.2.len() {
                assert(hits[i] == prev.2[i]);
            } else {
                let k = find_file(fs0, path)->Some_0;
                assert(find_file(files, path) == Some(k));
                assert forall|u: int| 0 <= u < t - 1 implies find_file(files, #[trigger] rule.6[u]) != Some(k) by {
                    if find_file(files, rule.6[u]) == Some(k) {
                        lemma_find_file_paths(files, files, rule.6[u]);
                        assert(rule.6[u] == files[k].0 && path == files[k].0);
                        assert(rule.6[u] == rule.6[t - 1]);
                    }
                }
                assert(fs0[k] == files[k]);
                assert(hits[i].0 == rule.6[t - 1]);
                assert(hits[i].1 == match_count(rule, files[k].1));
            }
        }
    }
}

proof fn lemma_scan_err_stays(rule: RuleView, files: Seq<FileView>, t: nat, m: nat)
    requires
        t <= m,
        scan_targets(rule, files, t) is Err,
    ensures
        scan_targets(rule, files, m) is Err,
    decreases m - t,
{
    if t < m {
        lemma_scan_err_stays(rule, files, t + 1, m);
    }
}

proof fn lemma_apply_err_stays(rules: Seq<RuleView>, files: Seq<FileView>, report: ReportView, n: nat, m: nat)
    requires
        n <= m,
        apply_rules_spec(rules, files, report, n) is Err,
    ensures
        apply_rules_spec(rules, files, report, m) == apply_rules_spec(rules, files, report, n),
    decreases m - n,
{
    if n < m {
        lemma_apply_err_stays(rules, files, report, n + 1, m);
    }
}

proof fn lemma_apply_err_index(rules: Seq<RuleView>, files: Seq<FileView>, report: ReportView, n: nat)
    requires
        apply_rules_spec(rules, files, report, n) is Err,
    ensures
        0 <= apply_rules_spec(rules, files, report, n)->Err_0 < n,
    decreases n,
{
    if n > 0 {
        if apply_rules_spec(rules, files, report, (n - 1) as nat) is Err {
            lemma_apply_err_index(rules, files, report, (n - 1) as nat);
        }
    }
}

proof fn lemma_find_file_extend(files: Seq<FileView>, path: Seq<char>, m: int)
    requires
        0 <= m <= files.len(),
        find_file(files.take(m), path) is Some,
    ensures
        find_file(files, path) == find_file(files.take(m), path),
    decreases files.len() - m,
{
    if m < files.len() {
        assert(files.take(m + 1).drop_last() =~= files.take(m));
        lemma_find_file_extend(files, path, m + 1);
    } else {
        assert(files.take(m) =~= files);
    }
}

proof fn lemma_find_file_range(files: Seq<FileView>, path: Seq<char>)
    ensures
        find_file(files, path) matches Some(k) ==> 0 <= k < files.len(),
    decreases files.len(),
{
    if files.len() > 0 {
        lemma_find_file_range(files.drop_last(), path);
    }
}

proof fn lemma_find_file_none(files: Seq<FileView>, path: Seq<char>)
    requires
        forall|j: int| 0 <= j < files.len() ==> files[j].0 != path,
    ensures
        find_file(files, path) is None,
    decreases files.len(),
{
    if files.len() > 0 {
        lemma_find_file_none(files.drop_last(), path);
    }
}

fn find_file_index(files: &Vec<(String, Vec<u8>)>, path: &str) -> (r: Option<usize>)
    ensures
        r matches Some(k) ==> k < files@.len(),
        match find_file(files_view(files@), path@) {
            Some(k) => 0 <= k < files@.len() && (r matches Some(j) && j == k),
            None => r is None,
        },
{
    let p = string_of(path);
    let ghost fv = files_view(files@);
    proof {
        lemma_find_file_range(fv, path@);
    }
    let mut j: usize = 0;
    while j < files.len()
        invariant
            j <= files@.len(),
            fv == files_view(files@),
            p@ == path@,
            forall|i: int| 0 <= i < j ==> fv[i].0 != path@,
        decreases files@.len() - j,
    {
        if files[j].0 == p {
            proof {
                assert(fv[j as int].0 == path@);
                lemma_find_file_none(fv.take(j as int), path@);
                assert(fv.take(j + 1).drop_last() =~= fv.take(j as int));
                lemma_find_file_extend(fv, path@, j + 1);
            }
            return Some(j);
        }
        j = j + 1;
    }
    proof {
        lemma_find_file_none(fv, path@);
    }
    None
}

/// The hits of a rule in `text` and, where there are any, the text it leaves.
fn rule_effect_on(rule: &PatchRule, text: &[u8]) -> (r: Result<(usize, Option<Vec<u8>>), ()>)
    ensures
        r is Err <==> (rule.is_regex && !regex_compiles(rule.find@)),
        r matches Ok((n, t)) ==> n == rule_effect(rule_view(*rule), text@).0 && (n > 0 ==> (t matches Some(
            v,
        ) && v@ == rule_effect(rule_view(*rule), text@).1)),
{
    if rule.is_regex {
        match Pattern::compile(rule.find) {
            None => Err(()),
            Some(re) => {
                let n = re.count_matches(text);
                if n == 0 {
                    Ok((0, None))
                } else {
                    Ok((n, Some(re.replace_all(text, rule.replace.as_bytes()))))
                }
            },
        }
    } else {
        let (n, t) = replace_literal(text, rule.find.as_bytes(), rule.replace.as_bytes());
        Ok((n, Some(t)))
    }
}

/// The plain values of the (file, hits) pairs of a rule.
pub open spec fn hits_view(h: Seq<(String, usize)>) -> Seq<(Seq<char>, nat)> {
    h.map_values(|x: (String, usize)| (x.0@, x.1 as nat))
}

fn scan_rule(rule: &PatchRule, files: &mut Vec<(String, Vec<u8>)>) -> (r: Result<
    (usize, Vec<(String, usize)>),
    (),
>)
    ensures
        match scan_targets(rule_view(*rule), files_view(old(files)@), rule.target_globs@.len()) {
            Ok((fs, total, hits)) => r matches Ok((t, h)) && t == total && hits_view(h@) == hits
                && files_view(final(files)@) == fs,
            Err(_) => r is Err,
        },
{
    let ghost rv = rule_view(*rule);
    let ghost f0 = files_view(files@);
    let mut total: usize = 0;
    let mut hits: Vec<(String, usize)> = Vec::new();
    let mut t: usize = 0;
    assert(hits_view(hits@) =~= Seq::<(Seq<char>, nat)>::empty());
    while t < rule.target_globs.len()
        invariant
            t <= rule.target_globs@.len(),
            rv == rule_view(*rule),
            f0 == files_view(old(files)@),
            scan_targets(rv, f0, t as nat) == Ok::<(Seq<FileView>, nat, Seq<(Seq<char>, nat)>), ()>(
                (files_view(files@), total as nat, hits_view(hits@)),
            ),
        decreases rule.target_globs@.len() - t,
    {
        let glob = rule.target_globs[t];
        assert(glob@ == rv.6[t as int]);
        match find_file_index(files, glob) {
            None => {},
            Some(k) => {
                let res = rule_effect_on(rule, files[k].1.as_slice());
                match res {
                    Err(_) => {
                        proof {
                            assert(scan_targets(rv, f0, (t + 1) as nat) is Err);
                            lemma_scan_err_stays(rv, f0, (t + 1) as nat, rule.target_globs@.len());
                        }
                        return Err(());
                    },
                    Ok((n, text)) => {
                        if n > 0 {
                            let new_text = match text {
                                Some(v) => v,
                                None => {
                                    proof { assert(false); }
                                    Vec::new()
                                },
                            };
                            let key = files[k].0.clone();
                            let ghost before = files_view(files@);
                            files.set(k, (key, new_text));
                            proof {
                                assert(files_view(files@) =~= before.update(
                                    k as int,
                                    (before[k as int].0, new_text@),
                                ));
                            }
                            let ghost t0 = total;
                            total = total.saturating_add(n);
                            let ghost hb = hits@;
                            hits.push((string_of(glob), n));
                            assert(hits_view(hits@) =~= hits_view(hb).push((glob@, n as nat)));
                            proof {
                                let prev = scan_targets(rv, f0, t as nat);
                                assert(prev == Ok::<(Seq<FileView>, nat, Seq<(Seq<char>, nat)>), ()>((before, t0 as nat, hits_view(hb))));
                                assert(find_file(before, rv.6[t as int]) == Some(k as int));
                                assert(!(rv.3 && !regex_compiles(rv.1)));
                                assert(rule_effect(rv, before[k as int].1).0 == n);
                                assert(total == sat_add(t0 as nat, n as nat));
                                assert(scan_targets(rv, f0, (t + 1) as nat) == Ok::<(Seq<FileView>, nat, Seq<(Seq<char>, nat)>), ()>((files_view(files@), total as nat, hits_view(hits@))));
                            }
                        }
                    },
                }
            },
        }
        t = t + 1;
    }
    Ok((total, hits))
}

fn line_too_few(rule: &PatchRule, total: usize) -> (r: String)
    ensures
        encode_utf8(r@) == too_few_line(rule_view(*rule), total as nat),
{
    let mut out: Vec<u8> = Vec::new();
    push_str(&mut out, rule.name);
    push_str(&mut out, ": required >= ");
    push_decimal(&mut out, rule.min_hits as u64);
    push_str(&mut out, " hits, found ");
    push_decimal(&mut out, total as u64);
    proof {
        lemma_encoded_valid(rule.name@);
        lemma_encoded_valid(": required >= "@);
        lemma_encoded_valid(" hits, found "@);
        lemma_decimal_valid(rule.min_hits as nat);
        lemma_decimal_valid(total as nat);
        let a = encode_utf8(rule.name@);
        let b = encode_utf8(": required >= "@);
        let c = decimal(rule.min_hits as nat);
        let d = encode_utf8(" hits, found "@);
        let e = decimal(total as nat);
        lemma_valid_concat(a, b);
        lemma_valid_concat(a + b, c);
        lemma_valid_concat(a + b + c, d);
        lemma_valid_concat(a + b + c + d, e);
        assert(out@ =~= a + b + c + d + e);
    }
    utf8_string(out)
}

fn line_too_many(rule: &PatchRule, total: usize) -> (r: String)
    ensures
        encode_utf8(r@) == too_many_line(rule_view(*rule), total as nat),
{
    let mut out: Vec<u8> = Vec::new();
    push_str(&mut out, rule.name);
    push_str(&mut out, ": too many hits (");
    push_decimal(&mut out, total as u64);
    push_str(&mut out, ") - aborting to avoid over-patching");
    proof {
        lemma_encoded_valid(rule.name@);
        lemma_encoded_valid(": too many hits ("@);
        lemma_encoded_valid(") - aborting to avoid over-patching"@);
        lemma_decimal_valid(total as nat);
        let a = encode_utf8(rule.name@);
        let b = encode_utf8(": too many hits ("@);
        let c = decimal(total as nat);
        let d = encode_utf8(") - aborting to avoid over-patching"@);
        lemma_valid_concat(a, b);
        lemma_valid_concat(a + b, c);
        lemma_valid_concat(a + b + c, d);
        assert(out@ =~= a + b + c + d);
    }
    utf8_string(out)
}

fn line_optional(rule: &PatchRule) -> (r: String)
    ensures
        encode_utf8(r@) == optional_line(rule_view(*rule)),
{
    let mut out: Vec<u8> = Vec::new();
    push_str(&mut out, rule.name);
    push_str(&mut out, ": 0 hits (optional)");
    proof {
        lemma_encoded_valid(rule.name@);
        lemma_encoded_valid(": 0 hits (optional)"@);
        lemma_valid_concat(encode_utf8(rule.name@), encode_utf8(": 0 hits (optional)"@));
    }
    utf8_string(out)
}

fn record(report: &mut PatchReport, rule: &PatchRule, total: usize, hits: Vec<(String, usize)>)
    ensures
        report_view(*final(report)) == record_rule(
            report_view(*old(report)),
            rule_view(*rule),
            total as nat,
            hits_view(hits@),
        ),
{
    let ghost rv = rule_view(*rule);
    let ghost r0 = report_view(*report);
    if total < rule.min_hits {
        let line = line_too_few(rule, total);
        report.failed.push(line);
        assert(report_view(*report).2 =~= r0.2.push(too_few_line(rv, total as nat)));
        assert(report_view(*report).0 =~= r0.0);
        assert(report_view(*report).1 =~= r0.1);
    } else if total > rule.max_hits {
        let line = line_too_many(rule, total);
        report.failed.push(line);
        assert(report_view(*report).2 =~= r0.2.push(too_many_line(rv, total as nat)));
        assert(report_view(*report).0 =~= r0.0);
        assert(report_view(*report).1 =~= r0.1);
    } else if total == 0 {
        let line = line_optional(rule);
        report.skipped.push(line);
        assert(report_view(*report).1 =~= r0.1.push(optional_line(rv)));
        assert(report_view(*report).0 =~= r0.0);
        assert(report_view(*report).2 =~= r0.2);
    } else {
        let ghost hv = hits_view(hits@);
        let mut i: usize = 0;
        while i < hits.len()
            invariant
                i <= hits@.len(),
                hv == hits_view(hits@),
                rv == rule_view(*rule),
                report_view(*report).0 == r0.0 + hv.take(i as int).map_values(
                    |h: (Seq<char>, nat)| (rv.0, h.0, h.1 as usize),
                ),
                report_view(*report).1 == r0.1,
                report_view(*report).2 == r0.2,
            decreases hits@.len() - i,
        {
            let ghost a0 = report_view(*report).0;
            report.applied.push((string_of(rule.name), hits[i].0.clone(), hits[i].1));
            proof {
                assert(report_view(*report).0 =~= a0.push((rv.0, hits@[i as int].0@, hits@[i as int].1)));
                assert(hv.take(i + 1) =~= hv.take(i as int).push(hv[i as int]));
                assert(report_view(*report).0 =~= r0.0 + hv.take(i + 1).map_values(
                    |h: (Seq<char>, nat)| (rv.0, h.0, h.1 as usize),
                ));
                assert(report_view(*report).1 =~= r0.1);
                assert(report_view(*report).2 =~= r0.2);
            }
            i = i + 1;
        }
        assert(hv.take(hv.len() as int) =~= hv);
    }
}

/// The plain values of a rule list.
pub open spec fn rules_view(rules: Seq<PatchRule>) -> Seq<RuleView> {
    rules.map_values(|r: PatchRule| rule_view(r))
}

/// Applies `rules` in order to `files`, adding a line per rule to `report`;
/// fails, naming the rule, where a regular expression does not compile.
pub fn apply_rules(rules: &Vec<PatchRule>, files: &mut Vec<(String, Vec<u8>)>, report: &mut PatchReport) -> (r: Result<(), PatchError>)
    requires
        forall|i: int| 0 <= i < rules@.len() ==> (#[trigger] rules@[i]).find@.len() > 0,
    ensures
        match apply_rules_spec(rules_view(rules@), files_view(old(files)@), report_view(*old(report)), rules@.len()) {
            Ok((fs, rep)) => r is Ok && files_view(final(files)@) == fs && report_view(*final(report)) == rep,
            Err(i) => 0 <= i < rules@.len() && (r matches Err(PatchError::BadRegex(name)) && name@ == rules@[i].name@),
        },
{
    let ghost rv = rules_view(rules@);
    let ghost f0 = files_view(files@);
    let ghost r0 = report_view(*report);
    let mut i: usize = 0;
    while i < rules.len()
        invariant
            i <= rules@.len(),
            rv == rules_view(rules@),
            f0 == files_view(old(files)@),
            r0 == report_view(*old(report)),
            apply_rules_spec(rv, f0, r0, i as nat) == Ok::<(Seq<FileView>, ReportView), int>(
                (files_view(files@), report_view(*report)),
            ),
        decreases rules@.len() - i,
    {
        let rule = &rules[i];
        assert(rv[i as int] == rule_view(*rule));
        match scan_rule(rule, files) {
            Err(_) => {
                proof {
                    assert(apply_rules_spec(rv, f0, r0, (i + 1) as nat) == Err::<(Seq<FileView>, ReportView), int>(i as int));
                    lemma_apply_err_stays(rv, f0, r0, (i + 1) as nat, rules@.len());
                }
                return Err(PatchError::BadRegex(string_of(rule.name)));
            },
            Ok((total, hits)) => {
                record(report, rule, total, hits);
            },
        }
        i = i + 1;
    }
    Ok(())
}

/// Applies the rule set to `files` and reports what each rule did.
pub fn apply_all(files: &mut Vec<(String, Vec<u8>)>) -> (r: Result<PatchReport, PatchError>)
    ensures
        match apply_rules_spec(rule_table(), files_view(old(files)@), (Seq::empty(), Seq::empty(), Seq::empty()), rule_table().len()) {
            Ok((fs, rep)) => r matches Ok(report) && files_view(final(files)@) == fs && report_view(report) == rep,
            Err(i) => r matches Err(PatchError::BadRegex(name)) && name@ == rule_table()[i].0,
        },
{
    let rs = rules();
    let mut report = PatchReport { applied: Vec::new(), skipped: Vec::new(), failed: Vec::new() };
    assert(report_view(report).0 =~= Seq::empty());
    assert(report_view(report).1 =~= Seq::empty());
    assert(report_view(report).2 =~= Seq::empty());
    assert(rules_view(rs@) == rule_table());
    let ghost f0 = files_view(files@);
    proof {
        law_rules_well_formed();
        assert forall|i: int| 0 <= i < rs@.len() implies (#[trigger] rs@[i]).find@.len() > 0 by {
            assert(rules_view(rs@)[i] == rule_view(rs@[i]));
            assert(rule_well_formed(rule_table()[i]));
        }
    }
    let res = apply_rules(&rs, files, &mut report);
    proof {
        if apply_rules_spec(rule_table(), f0, report_view(report), rule_table().len()) is Err {
        }
        let e = apply_rules_spec(rule_table(), f0, (Seq::empty(), Seq::empty(), Seq::empty()), rule_table().len());
        if e is Err {
            lemma_apply_err_index(rule_table(), f0, (Seq::empty(), Seq::empty(), Seq::empty()), rule_table().len());
            assert(rs@[e->Err_0].name@ == rule_table()[e->Err_0].0);
        }
    }
    match res {
        Ok(()) => Ok(report),
        Err(e) => Err(e),
    }
}

/// How many of the per-file hit counts are not zero.
pub open spec fn changed_files(hits: Seq<usize>) -> nat
    decreases hits.len(),
{
    if hits.len() == 0 {
        0
    } else {
        changed_files(hits.drop_last()) + if hits.last() > 0 {
            1nat
        } else {
            0nat
        }
    }
}

/// The sum of the per-file hit counts, capped at `usize::MAX`.
pub open spec fn changed_values(hits: Seq<usize>) -> nat
    decreases hits.len(),
{
    if hits.len() == 0 {
        0
    } else {
        sat_add(changed_values(hits.drop_last()), hits.last() as nat)
    }
}

/// The report after rebranding the locale files: skipped where there is no
/// locale directory or no file changed, else one applied entry with the
/// number of strings changed.
pub open spec fn record_locales(report: ReportView, found: bool, hits: Seq<usize>) -> ReportView {
    if !found {
        (report.0, report.1.push(encode_utf8("rename_locale_values: _locales not found (optional)"@)), report.2)
    } else if changed_files(hits) == 0 {
        (report.0, report.1.push(encode_utf8("rename_locale_values: 0 hits (optional)"@)), report.2)
    } else {
        (
            report.0.push(("rename_locale_values"@, "_locales/*.json"@, changed_values(hits) as usize)),
            report.1,
            report.2,
        )
    }
}

/// Records the rebranding of the locale files, given whether the locale
/// directory exists and the number of strings changed in each JSON file.
pub fn record_locale_branding(report: &mut PatchReport, locales_found: bool, file_hits: &Vec<usize>)
    ensures
        report_view(*final(report)) == record_locales(report_view(*old(report)), locales_found, file_hits@),
{
    let ghost r0 = report_view(*report);
    if !locales_found {
        report.skipped.push(string_of("rename_locale_values: _locales not found (optional)"));
        assert(report_view(*report).1 =~= r0.1.push(encode_utf8("rename_locale_values: _locales not found (optional)"@)));
        assert(report_view(*report).0 =~= r0.0);
        assert(report_view(*report).2 =~= r0.2);
        return;
    }
    let mut files: usize = 0;
    let mut values: usize = 0;
    let mut i: usize = 0;
    while i < file_hits.len()
        invariant
            i <= file_hits@.len(),
            files == changed_files(file_hits@.take(i as int)),
            values == changed_values(file_hits@.take(i as int)),
            files <= i,
        decreases file_hits@.len() - i,
    {
        assert(file_hits@.take(i + 1).drop_last() =~= file_hits@.take(i as int));
        if file_hits[i] > 0 {
            files = files + 1;
        }
        values = values.saturating_add(file_hits[i]);
        i = i + 1;
    }
    assert(file_hits@.take(file_hits@.len() as int) =~= file_hits@);
    if files == 0 {
        report.skipped.push(string_of("rename_locale_values: 0 hits (optional)"));
        assert(report_view(*report).1 =~= r0.1.push(encode_utf8("rename_locale_values: 0 hits (optional)"@)));
        assert(report_view(*report).0 =~= r0.0);
        assert(report_view(*report).2 =~= r0.2);
    } else {
        report.applied.push((string_of("rename_locale_values"), string_of("_locales/*.json"), values));
        assert(report_view(*report).0 =~= r0.0.push(("rename_locale_values"@, "_locales/*.json"@, values)));
        assert(report_view(*report).1 =~= r0.1);
        assert(report_view(*report).2 =~= r0.2);
    }
}

} // verus!
