//! The installer and launcher modes: finding the setup download in the
//! update feed, the progress lines shown while installing, and the
//! PowerShell command that makes a shortcut.
use vstd::prelude::*;
use vstd::utf8::encode_utf8;
use crate::chars::{
    append_str, decimal_chars, has_prefix, push_char, push_decimal_chars, starts_with, str_chars,
    str_equal, string_of_chars, trim, trim_range,
};
use crate::inspect::at_most;
use crate::search::{find_subslice, occurs_in};

verus! {

/// The pieces of `s` between line feeds, in order (an empty piece after a
/// final line feed included).
pub open spec fn segments(s: Seq<char>) -> Seq<Seq<char>>
    decreases s.len(),
{
    if s.len() == 0 {
        seq![Seq::empty()]
    } else {
        let p = segments(s.drop_last());
        if s.last() == '\n' {
            p.push(Seq::empty())
        } else {
            p.update(p.len() - 1, p.last().push(s.last()))
        }
    }
}

/// A download address: it starts with `http://` or `https://`.
pub open spec fn is_http_url(u: Seq<char>) -> bool {
    starts_with(u, "http://"@) || starts_with(u, "https://"@)
}

/// The setup address a feed line gives, if any: after trimming, the line
/// starts with `- url:` or `url:` and the trimmed rest is a download address.
pub open spec fn line_url(line: Seq<char>) -> Option<Seq<char>> {
    let t = trim(line);
    if starts_with(t, "- url:"@) && is_http_url(trim(t.skip("- url:"@.len() as int))) {
        Some(trim(t.skip("- url:"@.len() as int)))
    } else if starts_with(t, "url:"@) && is_http_url(trim(t.skip("url:"@.len() as int))) {
        Some(trim(t.skip("url:"@.len() as int)))
    } else {
        None
    }
}

/// The address of the first line of `lines` that gives one.
pub open spec fn first_url(lines: Seq<Seq<char>>) -> Option<Seq<char>>
    decreases lines.len(),
{
    if lines.len() == 0 {
        None
    } else {
        match first_url(lines.drop_last()) {
            Some(u) => Some(u),
            None => line_url(lines.last()),
        }
    }
}

/// The setup download that an update feed (`latest.yml`) names: the first
/// `- url:` or `url:` line with an http(s) address. Each line is trimmed,
/// so `\r\n` and `\n` line ends read alike.
pub open spec fn feed_setup_url(yml: Seq<char>) -> Option<Seq<char>> {
    first_url(segments(yml))
}

proof fn lemma_first_url_http(lines: Seq<Seq<char>>)
    ensures
        first_url(lines) matches Some(u) ==> is_http_url(u),
    decreases lines.len(),
{
    if lines.len() > 0 {
        lemma_first_url_http(lines.drop_last());
    }
}

/// Law: the setup address found in a feed is always an http or https address.
pub proof fn law_feed_url_is_http(yml: Seq<char>)
    ensures
        feed_setup_url(yml) matches Some(u) ==> is_http_url(u),
{
    lemma_first_url_http(segments(yml));
}

fn line_url_of(cs: &Vec<char>) -> (r: Option<String>)
    ensures
        match line_url(cs@) {
            Some(u) => r matches Some(s) && s@ == u,
            None => r is None,
        },
{
    let (a, b) = trim_range(cs, 0, cs.len());
    let ghost t = trim(cs@);
    assert(cs@.subrange(0, cs@.len() as int) =~= cs@);
    let dash = str_chars("- url:");
    let plain = str_chars("url:");
    if has_prefix(cs, a, b, "- url:") {
        let (c, d) = trim_range(cs, a + dash.len(), b);
        proof {
            assert(t.skip("- url:"@.len() as int) =~= cs@.subrange(a + dash@.len(), b as int));
        }
        if has_prefix(cs, c, d, "http://") || has_prefix(cs, c, d, "https://") {
            return Some(string_of_chars(cs, c, d));
        }
    }
    if has_prefix(cs, a, b, "url:") {
        let (c, d) = trim_range(cs, a + plain.len(), b);
        proof {
            assert(t.skip("url:"@.len() as int) =~= cs@.subrange(a + plain@.len(), b as int));
        }
        if has_prefix(cs, c, d, "http://") || has_prefix(cs, c, d, "https://") {
            return Some(string_of_chars(cs, c, d));
        }
    }
    None
}

proof fn lemma_segments_step(s: Seq<char>, i: int)
    requires
        0 <= i < s.len(),
    ensures
        segments(s.take(i + 1)) == if s[i] == '\n' {
            segments(s.take(i)).push(Seq::empty())
        } else {
            segments(s.take(i)).update(
                segments(s.take(i)).len() - 1,
                segments(s.take(i)).last().push(s[i]),
            )
        },
{
    assert(s.take(i + 1).drop_last() =~= s.take(i));
}

proof fn lemma_segments_nonempty(s: Seq<char>)
    ensures
        segments(s).len() >= 1,
    decreases s.len(),
{
    if s.len() > 0 {
        lemma_segments_nonempty(s.drop_last());
    }
}

/// The setup download an update feed names (see `feed_setup_url`).
pub fn setup_url_from_yml(yml: &str) -> (r: Option<String>)
    ensures
        match feed_setup_url(yml@) {
            Some(u) => r matches Some(s) && s@ == u,
            None => r is None,
        },
{
    let cs = str_chars(yml);
    let mut line: Vec<char> = Vec::new();
    let mut i: usize = 0;
    while i < cs.len()
        invariant
            cs@ == yml@,
            i <= cs@.len(),
            segments(cs@.take(i as int)).len() >= 1,
            line@ == segments(cs@.take(i as int)).last(),
            first_url(segments(cs@.take(i as int)).drop_last()) is None,
        decreases cs@.len() - i,
    {
        let c = cs[i];
        proof {
            lemma_segments_step(cs@, i as int);
            lemma_segments_nonempty(cs@.take(i as int));
        }
        if c == '\n' {
            let found = line_url_of(&line);
            proof {
                let p = segments(cs@.take(i as int));
                assert(p.push(Seq::empty()).drop_last() =~= p);
                assert(p.drop_last().push(p.last()) =~= p);
                assert(first_url(p) == line_url(p.last()));
            }
            match found {
                Some(u) => {
                    proof {
                        let p = segments(cs@.take(i as int));
                        assert(segments(cs@.take(i + 1)).drop_last() =~= p);
                        lemma_first_url_stays(cs@, i + 1);
                    }
                    return Some(u);
                },
                None => {},
            }
            line = Vec::new();
        } else {
            line.push(c);
            proof {
                let p = segments(cs@.take(i as int));
                let q = p.update(p.len() - 1, p.last().push(c));
                assert(q.drop_last() =~= p.drop_last());
            }
        }
        i = i + 1;
    }
    assert(cs@.take(cs@.len() as int) =~= cs@);
    let found = line_url_of(&line);
    proof {
        let p = segments(cs@);
        assert(p.drop_last().push(p.last()) =~= p);
    }
    found
}

proof fn lemma_first_url_stays(s: Seq<char>, i: int)
    requires
        0 <= i <= s.len(),
        segments(s.take(i)).len() >= 1,
        first_url(segments(s.take(i)).drop_last()) is Some,
    ensures
        first_url(segments(s)) == first_url(segments(s.take(i)).drop_last()),
    decreases s.len() - i,
{
    let p = segments(s.take(i));
    if i == s.len() {
        assert(s.take(i) =~= s);
        assert(p.drop_last().push(p.last()) =~= p);
    } else {
        lemma_segments_step(s, i);
        if s[i] == '\n' {
            assert(p.push(Seq::empty()).drop_last() =~= p);
            assert(p.drop_last().push(p.last()) =~= p);
        } else {
            let q = p.update(p.len() - 1, p.last().push(s[i]));
            assert(q.drop_last() =~= p.drop_last());
        }
        lemma_first_url_stays(s, i + 1);
    }
}

/// `s` shown in a field of width 64: at most 64 characters of it, then
/// spaces up to 64 bytes, after a two-space margin.
pub open spec fn padded_line_text(msg: Seq<char>) -> Seq<char> {
    let t = at_most(msg, 64);
    let n = encode_utf8(t).len();
    "  "@ + t + if n < 64 {
        Seq::new((64 - n) as nat, |i: int| ' ')
    } else {
        Seq::empty()
    }
}

proof fn lemma_encode_len(s: Seq<char>)
    ensures
        encode_utf8(s).len() <= 4 * s.len(),
    decreases s.len(),
{
    if s.len() > 0 {
        lemma_encode_len(s.drop_first());
    }
}

/// The line the installer prints for `msg` (see `padded_line_text`).
pub fn padded_line(msg: &str) -> (r: String)
    ensures
        r@ == padded_line_text(msg@),
{
    let cs = str_chars(msg);
    let k = if cs.len() < 64 {
        cs.len()
    } else {
        64
    };
    let t = string_of_chars(&cs, 0, k);
    assert(t@ =~= at_most(msg@, 64));
    proof {
        lemma_encode_len(t@);
    }
    let n = t.as_str().len();
    assert(n == encode_utf8(at_most(msg@, 64)).len());
    let mut out = String::new();
    append_str(&mut out, "  ");
    append_str(&mut out, t.as_str());
    assert(out@ =~= "  "@ + t@);
    if n < 64 {
        let mut j = n;
        while j < 64
            invariant
                n <= j <= 64,
                out@ == "  "@ + t@ + Seq::new((j - n) as nat, |i: int| ' '),
            decreases 64 - j,
        {
            push_char(&mut out, ' ');
            j = j + 1;
            assert(out@ =~= "  "@ + t@ + Seq::new((j - n) as nat, |i: int| ' '));
        }
        assert(out@ =~= padded_line_text(msg@));
    } else {
        assert(out@ =~= padded_line_text(msg@));
    }
    out
}

/// `s` right-aligned in a field of `width` characters.
pub open spec fn pad_left(s: Seq<char>, width: nat) -> Seq<char> {
    if s.len() >= width {
        s
    } else {
        Seq::new((width - s.len()) as nat, |i: int| ' ') + s
    }
}

/// The progress line for `pct` percent: the number right-aligned in three
/// columns, a percent sign, two spaces and the message.
pub open spec fn progress_text(pct: nat, msg: Seq<char>) -> Seq<char> {
    pad_left(decimal_chars(pct), 3) + "%  "@ + msg
}

/// The progress line for `pct` percent and `msg`.
pub fn progress_line(pct: u64, msg: &str) -> (r: String)
    ensures
        r@ == progress_text(pct as nat, msg@),
{
    let mut digits = String::new();
    push_decimal_chars(&mut digits, pct);
    let n = digits.as_str().unicode_len();
    let mut out = String::new();
    let mut j = n;
    while j < 3
        invariant
            n == digits@.len(),
            n <= j <= 3 || (j == n && n >= 3),
            out@ == Seq::new((j - n) as nat, |i: int| ' '),
        decreases 3 - j,
    {
        push_char(&mut out, ' ');
        j = j + 1;
        assert(out@ =~= Seq::new((j - n) as nat, |i: int| ' '));
    }
    append_str(&mut out, digits.as_str());
    append_str(&mut out, "%  ");
    append_str(&mut out, msg);
    proof {
        if n >= 3 {
            assert(Seq::new(0nat, |i: int| ' ') + digits@ =~= digits@);
        }
        assert(out@ =~= progress_text(pct as nat, msg@));
    }
    out
}

/// Whether a progress report is printed: when the message changed, when
/// the percentage moved by two or more, or at 100.
pub fn should_report(pct: u64, msg: &str, last_pct: u64, last_msg: &str) -> (r: bool)
    ensures
        r == (msg@ != last_msg@ || pct >= last_pct + 2 || pct == 100),
{
    !str_equal(msg, last_msg) || (pct >= 2 && pct - 2 >= last_pct) || pct == 100
}

/// `s` with each double quote escaped for PowerShell as a back-tick and a quote.
pub open spec fn ps_escape(s: Seq<char>) -> Seq<char>
    decreases s.len(),
{
    if s.len() == 0 {
        Seq::empty()
    } else {
        ps_escape(s.drop_last()) + if s.last() == '"' {
            seq!['`', '"']
        } else {
            seq![s.last()]
        }
    }
}

fn push_escaped(out: &mut String, s: &str)
    ensures
        final(out)@ == old(out)@ + ps_escape(s@),
{
    let cs = str_chars(s);
    let mut i: usize = 0;
    while i < cs.len()
        invariant
            cs@ == s@,
            i <= cs@.len(),
            out@ == old(out)@ + ps_escape(s@.take(i as int)),
        decreases cs@.len() - i,
    {
        assert(s@.take(i + 1).drop_last() =~= s@.take(i as int));
        if cs[i] == '"' {
            push_char(out, '`');
            push_char(out, '"');
        } else {
            push_char(out, cs[i]);
        }
        i = i + 1;
        assert(out@ =~= old(out)@ + ps_escape(s@.take(i as int)));
    }
    assert(s@.take(cs@.len() as int) =~= s@);
}

/// The PowerShell command that writes a shortcut at `link` to `target`,
/// started in `workdir`, with the icon of `icon`.
pub open spec fn shortcut_script_text(link: Seq<char>, target: Seq<char>, workdir: Seq<char>, icon: Seq<char>) -> Seq<
    char,
> {
    "$W=New-Object -ComObject WScript.Shell; $S=$W.CreateShortcut(\""@ + ps_escape(link)
        + "\"); $S.TargetPath=\""@ + ps_escape(target) + "\"; $S.WorkingDirectory=\""@ + ps_escape(workdir)
        + "\"; $S.IconLocation=\""@ + ps_escape(icon) + ",0\"; $S.Save()"@
}

/// The PowerShell command for a shortcut (see `shortcut_script_text`).
pub fn shortcut_script(link: &str, target: &str, workdir: &str, icon: &str) -> (r: String)
    ensures
        r@ == shortcut_script_text(link@, target@, workdir@, icon@),
{
    let mut out = String::new();
    append_str(&mut out, "$W=New-Object -ComObject WScript.Shell; $S=$W.CreateShortcut(\"");
    push_escaped(&mut out, link);
    append_str(&mut out, "\"); $S.TargetPath=\"");
    push_escaped(&mut out, target);
    append_str(&mut out, "\"; $S.WorkingDirectory=\"");
    push_escaped(&mut out, workdir);
    append_str(&mut out, "\"; $S.IconLocation=\"");
    push_escaped(&mut out, icon);
    append_str(&mut out, ",0\"; $S.Save()");
    assert(out@ =~= shortcut_script_text(link@, target@, workdir@, icon@));
    out
}

/// The argument that tells the setup program where to install.
pub fn install_dir_arg(target: &str) -> (r: String)
    ensures
        r@ == "/D="@ + target@,
{
    let mut out = String::new();
    append_str(&mut out, "/D=");
    append_str(&mut out, target);
    assert(out@ =~= "/D="@ + target@);
    out
}

/// The flags the setup program is tried with, in order, before it is run
/// interactively.
pub fn setup_flag_sets() -> (r: Vec<Vec<&'static str>>)
    ensures
        r@.len() == 3,
        r@[0]@.len() == 2 && r@[0]@[0]@ == "/S"@ && r@[0]@[1]@ == "--silent"@,
        r@[1]@.len() == 3 && r@[1]@[0]@ == "/S"@ && r@[1]@[1]@ == "--silent"@ && r@[1]@[2]@ == "--no-launch"@,
        r@[2]@.len() == 1 && r@[2]@[0]@ == "/S"@,
{
    vec![vec!["/S", "--silent"], vec!["/S", "--silent", "--no-launch"], vec!["/S"]]
}

/// Whether an archive has already been patched: the patched client's
/// branding puts the bytes `OpenForge` into it.
pub fn is_patched_archive(data: &[u8]) -> (r: bool)
    ensures
        r == occurs_in(data@, encode_utf8("OpenForge"@)),
{
    let marker = crate::text::bytes_of("OpenForge");
    find_subslice(data, marker.as_slice()).is_some()
}

/// Whether the launcher re-patches the install before starting the client:
/// when the archive is there and was read and found unpatched.
pub fn needs_repatch(asar_is_file: bool, patched: Option<bool>) -> (r: bool)
    ensures
        r == (asar_is_file && patched == Some(false)),
{
    asar_is_file && match patched {
        Some(p) => !p,
        None => false,
    }
}

/// The shortcut names removed from a directory before new shortcuts are made.
pub fn stale_shortcut_names() -> (r: Vec<&'static str>)
    ensures
        r@.len() == 4,
        r@[0]@ == "OpenForge.lnk"@,
        r@[1]@ == "CurseForge.lnk"@,
        r@[2]@ == "OpenForge.lnk"@,
        r@[3]@ == "OpenForge Installer.lnk"@,
{
    vec!["OpenForge.lnk", "CurseForge.lnk", "OpenForge.lnk", "OpenForge Installer.lnk"]
}

} // verus!
