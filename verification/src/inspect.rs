//! Scanning extracted text files for ad, telemetry and endpoint patterns:
//! the pattern table, which files are scanned, the snippet shown around a
//! match, and the report grouped by pattern.
use vstd::prelude::*;
use vstd::utf8::{
    decode_utf8, encode_utf8, encode_utf8_valid_utf8, is_char_boundary,
    is_char_boundary_iff_not_is_continuation_byte, is_char_boundary_start_end_of_seq, valid_utf8,
    valid_utf8_split,
};
use vstd::string::StringSliceAdditionalSpecFns;
use crate::chars::{
    append_str, decimal_chars, push_char, push_decimal_chars, str_chars, str_equal, trim, trimmed,
};
use crate::text::{lemma_empty_valid, string_from_utf8};

verus! {

#[verifier::external_type_specification]
#[verifier::external_body]
pub struct ExTextRegex(regex::Regex);

/// Whether `pattern` is a regular expression that `regex::Regex::new` accepts.
pub uninterp spec fn text_regex_compiles(pattern: Seq<char>) -> bool;

/// The byte spans of the successive non-overlapping matches of `pattern`
/// in `text`, as `regex::Regex::find_iter` yields them.
pub uninterp spec fn text_match_spans(pattern: Seq<char>, text: Seq<char>) -> Seq<(usize, usize)>;

/// `sp` is a span of the UTF-8 bytes of `text` that starts and ends on
/// character boundaries.
pub open spec fn is_span(text: Seq<char>, sp: (usize, usize)) -> bool {
    &&& sp.0 <= sp.1 <= encode_utf8(text).len()
    &&& is_char_boundary(encode_utf8(text), sp.0 as int)
    &&& is_char_boundary(encode_utf8(text), sp.1 as int)
}

/// A compiled regular expression over text, with the pattern it was
/// compiled from; only `compile` makes one.
pub struct TextPattern {
    re: regex::Regex,
    source: String,
}

impl TextPattern {
    /// The pattern this expression was compiled from.
    pub closed spec fn source(&self) -> Seq<char> {
        self.source@
    }

    /// `regex::Regex::new`: compiles `pattern`, or `None` where the crate
    /// rejects it.
    #[verifier::external_body]
    pub(crate) fn compile(pattern: &str) -> (r: Option<TextPattern>)
        ensures
            r is Some <==> text_regex_compiles(pattern@),
            r matches Some(p) ==> p.source() == pattern@,
    {
        match regex::Regex::new(pattern) {
            Ok(re) => Some(TextPattern { re, source: pattern.to_string() }),
            Err(_) => None,
        }
    }

    /// `regex::Regex::find_iter`: the spans of the matches in `text`. The
    /// crate documents that each starts no later than it ends and that both
    /// ends fall on character boundaries.
    #[verifier::external_body]
    pub(crate) fn match_spans(&self, text: &str) -> (r: Vec<(usize, usize)>)
        ensures
            r@ == text_match_spans(self.source(), text@),
            forall|k: int| 0 <= k < r@.len() ==> is_span(text@, #[trigger] r@[k]),
    {
        self.re.find_iter(text).map(|m| (m.start(), m.end())).collect()
    }
}

/// Compiles the patterns of `table` in order; fails with the name of the
/// first one that the `regex` crate rejects.
pub fn compile_patterns(table: &Vec<(&'static str, &'static str)>) -> (r: Result<Vec<TextPattern>, &'static str>)
    ensures
        match r {
            Ok(ps) => ps@.len() == table@.len() && forall|k: int|
                0 <= k < table@.len() ==> text_regex_compiles(table@[k].1@) && (#[trigger] ps@[k]).source()
                    == table@[k].1@,
            Err(name) => exists|k: int|
                0 <= k < table@.len() && !text_regex_compiles(#[trigger] table@[k].1@) && name@ == table@[k].0@
                    && forall|j: int| 0 <= j < k ==> text_regex_compiles(#[trigger] table@[j].1@),
        },
{
    let mut out: Vec<TextPattern> = Vec::new();
    let mut k: usize = 0;
    while k < table.len()
        invariant
            k <= table@.len(),
            out@.len() == k,
            forall|j: int| 0 <= j < k ==> text_regex_compiles(#[trigger] table@[j].1@),
            forall|j: int| 0 <= j < k ==> (#[trigger] out@[j]).source() == table@[j].1@,
        decreases table@.len() - k,
    {
        let entry = table[k];
        assert(entry == table@[k as int]);
        match TextPattern::compile(entry.1) {
            Some(p) => {
                let ghost before = out@;
                out.push(p);
                assert forall|j: int| 0 <= j < k + 1 implies (#[trigger] out@[j]).source() == table@[j].1@ by {
                    if j < k {
                        assert(out@[j] == before[j]);
                    }
                }
            },
            None => {
                assert(!text_regex_compiles(table@[k as int].1@));
                return Err(entry.0);
            },
        }
        k = k + 1;
    }
    Ok(out)
}

/// The patterns a scan looks for, by name, in the order of their names.
pub fn inspect_patterns() -> (r: Vec<(&'static str, &'static str)>)
    ensures
        r@.len() == 20,
        r@[0].0@ == "AD_HOST_adsbygoogle"@ && r@[0].1@ == "(?i)adsbygoogle"@,
        r@[1].0@ == "AD_HOST_amazon_adsystem"@ && r@[1].1@ == "(?i)amazon-adsystem\\.com"@,
        r@[2].0@ == "AD_HOST_doubleclick"@ && r@[2].1@ == "(?i)doubleclick\\.net"@,
        r@[3].0@ == "AD_HOST_generic"@ && r@[3].1@
            == "(?i)\\bads?[-_.]?(server|service|sdk|provider|manager|module)\\b"@,
        r@[4].0@ == "AD_HOST_googleadservices"@ && r@[4].1@ == "(?i)googleadservices\\.com"@,
        r@[5].0@ == "AD_HOST_googlesyndication"@ && r@[5].1@ == "(?i)googlesyndication\\.com"@,
        r@[6].0@ == "AD_HOST_overwolf"@ && r@[6].1@ == "(?i)content[-.]ads?\\.overwolf\\.com"@,
        r@[7].0@ == "ENDPOINT_curseforge_api"@ && r@[7].1@ == "https?://[A-Za-z0-9.\\-]*curseforge\\.com"@,
        r@[8].0@ == "ENDPOINT_overwolf_api"@ && r@[8].1@ == "https?://[A-Za-z0-9.\\-]*overwolf\\.com"@,
        r@[9].0@ == "FEATURE_ad_iframe"@ && r@[9].1@ == "(?i)<iframe[^>]*\\bads?\\b"@,
        r@[10].0@ == "FEATURE_consent"@ && r@[10].1@ == "(?i)consent|gdpr|cookieconsent"@,
        r@[11].0@ == "OW_SDK_ads"@ && r@[11].1@
            == "overwolf\\.windows\\.openUrl|owadview|OwAdView|owAdSdk|adManager"@,
        r@[12].0@ == "OW_SDK_track"@ && r@[12].1@
            == "overwolf\\.utils\\.openUrlInDefaultBrowser|overwolfPlugin|owLogger"@,
        r@[13].0@ == "TELEMETRY_amplitude"@ && r@[13].1@ == "(?i)amplitude"@,
        r@[14].0@ == "TELEMETRY_datadog"@ && r@[14].1@ == "(?i)datadoghq"@,
        r@[15].0@ == "TELEMETRY_ga"@ && r@[15].1@ == "(?i)google[-_.]?analytics|gtag|gtm\\.js"@,
        r@[16].0@ == "TELEMETRY_mixpanel"@ && r@[16].1@ == "(?i)mixpanel"@,
        r@[17].0@ == "TELEMETRY_overwolf"@ && r@[17].1@
            == "(?i)analytics\\.overwolf\\.com|telemetry\\.overwolf\\.com"@,
        r@[18].0@ == "TELEMETRY_segment"@ && r@[18].1@ == "(?i)segment\\.(io|com)"@,
        r@[19].0@ == "TELEMETRY_sentry"@ && r@[19].1@ == "(?i)sentry\\.io"@,
{
    vec![
        ("AD_HOST_adsbygoogle", "(?i)adsbygoogle"),
        ("AD_HOST_amazon_adsystem", "(?i)amazon-adsystem\\.com"),
        ("AD_HOST_doubleclick", "(?i)doubleclick\\.net"),
        ("AD_HOST_generic", "(?i)\\bads?[-_.]?(server|service|sdk|provider|manager|module)\\b"),
        ("AD_HOST_googleadservices", "(?i)googleadservices\\.com"),
        ("AD_HOST_googlesyndication", "(?i)googlesyndication\\.com"),
        ("AD_HOST_overwolf", "(?i)content[-.]ads?\\.overwolf\\.com"),
        ("ENDPOINT_curseforge_api", "https?://[A-Za-z0-9.\\-]*curseforge\\.com"),
        ("ENDPOINT_overwolf_api", "https?://[A-Za-z0-9.\\-]*overwolf\\.com"),
        ("FEATURE_ad_iframe", "(?i)<iframe[^>]*\\bads?\\b"),
        ("FEATURE_consent", "(?i)consent|gdpr|cookieconsent"),
        ("OW_SDK_ads", "overwolf\\.windows\\.openUrl|owadview|OwAdView|owAdSdk|adManager"),
        ("OW_SDK_track", "overwolf\\.utils\\.openUrlInDefaultBrowser|overwolfPlugin|owLogger"),
        ("TELEMETRY_amplitude", "(?i)amplitude"),
        ("TELEMETRY_datadog", "(?i)datadoghq"),
        ("TELEMETRY_ga", "(?i)google[-_.]?analytics|gtag|gtm\\.js"),
        ("TELEMETRY_mixpanel", "(?i)mixpanel"),
        ("TELEMETRY_overwolf", "(?i)analytics\\.overwolf\\.com|telemetry\\.overwolf\\.com"),
        ("TELEMETRY_segment", "(?i)segment\\.(io|com)"),
        ("TELEMETRY_sentry", "(?i)sentry\\.io"),
    ]
}

/// The file extensions whose files are scanned.
pub open spec fn is_scanned_ext(ext: Seq<char>) -> bool {
    ||| ext == "js"@
    ||| ext == "mjs"@
    ||| ext == "cjs"@
    ||| ext == "json"@
    ||| ext == "html"@
    ||| ext == "htm"@
    ||| ext == "css"@
    ||| ext == "txt"@
    ||| ext == "yml"@
    ||| ext == "yaml"@
}

/// Whether a file with extension `ext` is scanned.
pub fn is_scanned_extension(ext: &str) -> (r: bool)
    ensures
        r == is_scanned_ext(ext@),
{
    str_equal(ext, "js") || str_equal(ext, "mjs") || str_equal(ext, "cjs") || str_equal(ext, "json")
        || str_equal(ext, "html") || str_equal(ext, "htm") || str_equal(ext, "css") || str_equal(ext, "txt")
        || str_equal(ext, "yml") || str_equal(ext, "yaml")
}

/// `path` with every backslash turned into a slash.
pub open spec fn forward_slashes(path: Seq<char>) -> Seq<char> {
    path.map_values(|c: char| if c == '\\' { '/' } else { c })
}

/// The path as the report shows it: separators written as slashes.
pub fn report_path(path: &str) -> (r: String)
    ensures
        r@ == forward_slashes(path@),
{
    let cs = str_chars(path);
    let mut out = String::new();
    let mut i: usize = 0;
    while i < cs.len()
        invariant
            cs@ == path@,
            i <= cs@.len(),
            out@ == forward_slashes(path@.take(i as int)),
        decreases cs@.len() - i,
    {
        let c = cs[i];
        push_char(&mut out, if c == '\\' { '/' } else { c });
        i = i + 1;
        assert(out@ =~= forward_slashes(path@.take(i as int)));
    }
    assert(path@.take(cs@.len() as int) =~= path@);
    out
}

/// The control characters (`char::is_control`).
pub open spec fn is_control(c: char) -> bool {
    c <= '\u{1f}' || ('\u{7f}' <= c && c <= '\u{9f}')
}

/// A character as a snippet shows it: control characters other than the
/// line feed become spaces.
pub open spec fn clean_char(c: char) -> char {
    if is_control(c) && c != '\n' {
        ' '
    } else {
        c
    }
}

/// The first character boundary of `b` at or after `i`, or the end.
pub open spec fn next_boundary(b: Seq<u8>, i: int) -> int
    decreases b.len() - i,
{
    if i >= b.len() || is_char_boundary(b, i) {
        i
    } else {
        next_boundary(b, i + 1)
    }
}

/// At most the first `n` elements of `s`.
pub open spec fn at_most<A>(s: Seq<A>, n: nat) -> Seq<A> {
    if s.len() <= n {
        s
    } else {
        s.take(n as int)
    }
}

/// Where the snippet around the span `sp` starts and ends in the bytes `b`:
/// `20 * context` bytes to either side, clipped to the text and moved
/// forward to character boundaries.
pub open spec fn snippet_bounds(b: Seq<u8>, sp: (usize, usize), context: nat) -> (int, int) {
    let reach = 20 * context;
    let s0 = if sp.0 >= reach {
        sp.0 - reach
    } else {
        0
    };
    let e0 = if sp.1 + reach <= b.len() {
        sp.1 + reach
    } else {
        b.len() as int
    };
    (next_boundary(b, s0), next_boundary(b, e0))
}

/// The snippet shown for the span `sp` of `text`: the text around it, with
/// control characters made spaces, at most 180 characters of it.
pub open spec fn snippet_of(text: Seq<char>, sp: (usize, usize), context: nat) -> Seq<char> {
    let b = encode_utf8(text);
    let w = snippet_bounds(b, sp, context);
    at_most(decode_utf8(b.subrange(w.0, w.1)).map_values(|c: char| clean_char(c)), 180)
}

/// Law: a snippet is never longer than 180 characters.
pub proof fn law_snippet_bounded(text: Seq<char>, sp: (usize, usize), context: nat)
    ensures
        snippet_of(text, sp, context).len() <= 180,
{
}

proof fn lemma_next_boundary_le(b: Seq<u8>, i: int, j: int)
    requires
        i <= j,
        j >= b.len() || is_char_boundary(b, j),
    ensures
        i <= next_boundary(b, i) <= j,
    decreases j - i,
{
    if i < j && !(i >= b.len() || is_char_boundary(b, i)) {
        lemma_next_boundary_le(b, i + 1, j);
    }
}

proof fn lemma_piece_valid(b: Seq<u8>, s: int, e: int)
    requires
        valid_utf8(b),
        0 <= s <= e <= b.len(),
        s == b.len() || is_char_boundary(b, s),
        is_char_boundary(b, e),
    ensures
        valid_utf8(b.subrange(s, e)),
{
    valid_utf8_split(b, e);
    let p = b.subrange(0, e);
    if s == e {
        assert(b.subrange(s, e) =~= Seq::<u8>::empty());
        lemma_empty_valid();
    } else {
        is_char_boundary_iff_not_is_continuation_byte(b, s);
        is_char_boundary_iff_not_is_continuation_byte(p, s);
        assert(p[s] == b[s]);
        valid_utf8_split(p, s);
        assert(p.subrange(s, p.len() as int) =~= b.subrange(s, e));
    }
}

fn copy_range(b: &[u8], s: usize, e: usize) -> (r: Vec<u8>)
    requires
        s <= e <= b@.len(),
    ensures
        r@ == b@.subrange(s as int, e as int),
{
    let mut out: Vec<u8> = Vec::new();
    let mut p = s;
    while p < e
        invariant
            s <= p <= e <= b@.len(),
            out@ == b@.subrange(s as int, p as int),
        decreases e - p,
    {
        out.push(b[p]);
        p = p + 1;
        assert(out@ =~= b@.subrange(s as int, p as int));
    }
    out
}

/// The snippet shown for the match `span` of `text` (see `snippet_of`).
pub fn snippet(text: &str, span: (usize, usize), context: usize) -> (r: String)
    requires
        is_span(text@, span),
        20 * context + encode_utf8(text@).len() <= usize::MAX,
    ensures
        r@ == snippet_of(text@, span, context as nat),
{
    let ghost b = encode_utf8(text@);
    let bytes = text.as_bytes();
    let len = bytes.len();
    proof {
        encode_utf8_valid_utf8(text@);
        is_char_boundary_start_end_of_seq(b);
    }
    let reach = 20 * context;
    let s0 = if span.0 >= reach {
        span.0 - reach
    } else {
        0
    };
    let e0 = if span.1 + reach <= len {
        span.1 + reach
    } else {
        len
    };
    let mut s = s0;
    while s < len && !text.is_char_boundary(s)
        invariant
            len == b.len(),
            b == encode_utf8(text@),
            s0 <= s <= len,
            next_boundary(b, s as int) == next_boundary(b, s0 as int),
        decreases len - s,
    {
        s = s + 1;
    }
    let mut e = e0;
    while e < len && !text.is_char_boundary(e)
        invariant
            len == b.len(),
            b == encode_utf8(text@),
            e0 <= e <= len,
            next_boundary(b, e as int) == next_boundary(b, e0 as int),
        decreases len - e,
    {
        e = e + 1;
    }
    proof {
        lemma_next_boundary_le(b, s0 as int, span.0 as int);
        assert(s as int == next_boundary(b, s0 as int));
        assert(e as int == next_boundary(b, e0 as int));
        lemma_piece_valid(b, s as int, e as int);
    }
    let piece = copy_range(bytes, s, e);
    let sub = match string_from_utf8(piece) {
        Some(t) => t,
        None => {
            return String::new();
        },
    };
    let cs = str_chars(sub.as_str());
    let ghost cleaned = cs@.map_values(|c: char| clean_char(c));
    let mut out = String::new();
    let mut k: usize = 0;
    while k < cs.len() && k < 180
        invariant
            cleaned == cs@.map_values(|c: char| clean_char(c)),
            k <= cs@.len(),
            k <= 180,
            out@ == cleaned.take(k as int),
        decreases cs@.len() - k,
    {
        let c = cs[k];
        let shown = if (c <= '\u{1f}' || ('\u{7f}' <= c && c <= '\u{9f}')) && c != '\n' {
            ' '
        } else {
            c
        };
        push_char(&mut out, shown);
        k = k + 1;
        assert(out@ =~= cleaned.take(k as int));
    }
    assert(cleaned.len() <= 180 ==> cleaned.take(k as int) =~= cleaned);
    out
}

/// The spans a report takes of a pattern's matches in one file: the first three.
pub open spec fn reported_spans(spans: Seq<(usize, usize)>) -> Seq<(usize, usize)> {
    at_most(spans, 3)
}

/// The snippets of the first three spans of `spans` in `text`.
pub fn span_snippets(text: &str, spans: &Vec<(usize, usize)>, context: usize) -> (r: Vec<String>)
    requires
        forall|k: int| 0 <= k < spans@.len() ==> is_span(text@, #[trigger] spans@[k]),
        20 * context + encode_utf8(text@).len() <= usize::MAX,
    ensures
        r@.map_values(|s: String| s@) == reported_spans(spans@).map_values(
            |sp: (usize, usize)| snippet_of(text@, sp, context as nat),
        ),
{
    let ghost want = reported_spans(spans@).map_values(|sp: (usize, usize)| snippet_of(text@, sp, context as nat));
    let mut out: Vec<String> = Vec::new();
    let mut k: usize = 0;
    while k < spans.len() && k < 3
        invariant
            forall|j: int| 0 <= j < spans@.len() ==> is_span(text@, #[trigger] spans@[j]),
            20 * context + encode_utf8(text@).len() <= usize::MAX,
            want == reported_spans(spans@).map_values(|sp: (usize, usize)| snippet_of(text@, sp, context as nat)),
            k <= spans@.len(),
            k <= 3,
            out@.len() == k,
            forall|j: int| 0 <= j < k ==> (#[trigger] out@[j])@ == snippet_of(text@, spans@[j], context as nat),
        decreases spans@.len() - k,
    {
        let sn = snippet(text, spans[k], context);
        out.push(sn);
        k = k + 1;
    }
    assert(out@.map_values(|s: String| s@) =~= want);
    out
}

/// For each pattern, the snippets of its first three matches in `text`.
pub fn file_hits(patterns: &Vec<TextPattern>, text: &str, context: usize) -> (r: Vec<Vec<String>>)
    requires
        20 * context + encode_utf8(text@).len() <= usize::MAX,
    ensures
        r@.len() == patterns@.len(),
        forall|k: int|
            0 <= k < patterns@.len() ==> (#[trigger] r@[k])@.map_values(|s: String| s@) == reported_spans(
                text_match_spans(patterns@[k].source(), text@),
            ).map_values(|sp: (usize, usize)| snippet_of(text@, sp, context as nat)),
{
    let mut out: Vec<Vec<String>> = Vec::new();
    let mut k: usize = 0;
    while k < patterns.len()
        invariant
            20 * context + encode_utf8(text@).len() <= usize::MAX,
            k <= patterns@.len(),
            out@.len() == k,
            forall|j: int|
                0 <= j < k ==> (#[trigger] out@[j])@.map_values(|s: String| s@) == reported_spans(
                    text_match_spans(patterns@[j].source(), text@),
                ).map_values(|sp: (usize, usize)| snippet_of(text@, sp, context as nat)),
        decreases patterns@.len() - k,
    {
        let spans = patterns[k].match_spans(text);
        let snippets = span_snippets(text, &spans, context);
        out.push(snippets);
        k = k + 1;
    }
    out
}

/// The last character boundary of `b` at or before `i`.
pub open spec fn prev_boundary(b: Seq<u8>, i: int) -> int
    decreases i,
{
    if i <= 0 || is_char_boundary(b, i) {
        i
    } else {
        prev_boundary(b, i - 1)
    }
}

/// What tells two hits apart in a report: the file and the first 40 bytes
/// of the snippet (cut back to a character boundary).
pub open spec fn dedup_key(hit: (Seq<char>, Seq<char>)) -> Seq<char> {
    let b = encode_utf8(hit.1);
    let cap = if b.len() < 40 {
        b.len() as int
    } else {
        40
    };
    hit.0 + "::"@ + decode_utf8(b.subrange(0, prev_boundary(b, cap)))
}

/// Hit `i` of `list` is the first with its key.
pub open spec fn first_with_key(list: Seq<(Seq<char>, Seq<char>)>, i: int) -> bool {
    forall|j: int| 0 <= j < i ==> dedup_key(#[trigger] list[j]) != dedup_key(list[i])
}

/// The lines a report shows for the hits `list` of one pattern: for each
/// hit that is the first with its key, its file and its trimmed snippet.
pub open spec fn entry_lines(list: Seq<(Seq<char>, Seq<char>)>) -> Seq<Seq<char>>
    decreases list.len(),
{
    if list.len() == 0 {
        Seq::empty()
    } else {
        let i = list.len() - 1;
        entry_lines(list.drop_last()) + if first_with_key(list, i) {
            seq!["  "@ + list[i].0, "    ... "@ + trim(list[i].1) + " ..."@]
        } else {
            Seq::empty()
        }
    }
}

/// The heading of a pattern's group: its name and the number of hits.
pub open spec fn group_heading(name: Seq<char>, n: nat) -> Seq<char> {
    "##### "@ + name + "  ("@ + decimal_chars(n) + " hit"@ + (if n == 1 {
        ""@
    } else {
        "s"@
    }) + ")"@
}

/// The lines of a pattern's group: heading, hits, an empty line.
pub open spec fn group_lines(name: Seq<char>, list: Seq<(Seq<char>, Seq<char>)>) -> Seq<Seq<char>> {
    seq![group_heading(name, list.len())] + entry_lines(list) + seq![""@]
}

/// The groups of the patterns that have hits, in order.
pub open spec fn report_groups(names: Seq<Seq<char>>, hits: Seq<Seq<(Seq<char>, Seq<char>)>>) -> Seq<Seq<char>>
    decreases hits.len(),
{
    if hits.len() == 0 {
        Seq::empty()
    } else {
        report_groups(names.drop_last(), hits.drop_last()) + if hits.last().len() > 0 {
            group_lines(names.last(), hits.last())
        } else {
            Seq::empty()
        }
    }
}

/// The line a report ends with when nothing matched.
pub open spec fn no_match_line() -> Seq<char> {
    "(no matches across any pattern - that's surprising; CF may compress strings)"@
}

/// The report for the hits of each pattern: the groups, or the no-match
/// line where no pattern has a hit.
pub open spec fn report(names: Seq<Seq<char>>, hits: Seq<Seq<(Seq<char>, Seq<char>)>>) -> Seq<Seq<char>> {
    report_groups(names, hits) + if forall|k: int| 0 <= k < hits.len() ==> (#[trigger] hits[k]).len() == 0 {
        seq![no_match_line()]
    } else {
        Seq::empty()
    }
}

/// The hits of a report as plain values.
pub open spec fn hits_view(hits: Seq<Vec<(String, String)>>) -> Seq<Seq<(Seq<char>, Seq<char>)>> {
    hits.map_values(|l: Vec<(String, String)>| l@.map_values(|h: (String, String)| (h.0@, h.1@)))
}

/// Lines as plain values.
pub open spec fn lines_view(v: Seq<String>) -> Seq<Seq<char>> {
    v.map_values(|s: String| s@)
}

fn key_of(file: &String, snip: &String) -> (r: String)
    ensures
        r@ == dedup_key((file@, snip@)),
{
    let t = snip.as_str();
    let bytes = t.as_bytes();
    let ghost b = encode_utf8(snip@);
    proof {
        encode_utf8_valid_utf8(snip@);
        is_char_boundary_start_end_of_seq(b);
    }
    let mut cap: usize = if bytes.len() < 40 {
        bytes.len()
    } else {
        40
    };
    let ghost cap0 = cap as int;
    while cap > 0 && !t.is_char_boundary(cap)
        invariant
            cap <= bytes@.len(),
            bytes@ == b,
            t@ == snip@,
            b == encode_utf8(snip@),
            prev_boundary(b, cap as int) == prev_boundary(b, cap0),
        decreases cap,
    {
        cap = cap - 1;
    }
    proof {
        assert(cap as int == prev_boundary(b, cap0));
        if cap > 0 {
            lemma_piece_valid(b, 0, cap as int);
        } else {
            assert(b.subrange(0, 0) =~= Seq::<u8>::empty());
            lemma_empty_valid();
        }
    }
    let piece = copy_range(bytes, 0, cap);
    let mut key = String::new();
    append_str(&mut key, file.as_str());
    append_str(&mut key, "::");
    match string_from_utf8(piece) {
        Some(p) => append_str(&mut key, p.as_str()),
        None => {},
    }
    key
}

fn has_key(keys: &Vec<String>, key: &String) -> (r: bool)
    ensures
        r == exists|j: int| 0 <= j < keys@.len() && (#[trigger] keys@[j])@ == key@,
{
    let mut j: usize = 0;
    while j < keys.len()
        invariant
            j <= keys@.len(),
            forall|i: int| 0 <= i < j ==> (#[trigger] keys@[i])@ != key@,
        decreases keys@.len() - j,
    {
        if keys[j] == *key {
            return true;
        }
        j = j + 1;
    }
    false
}

fn push_group(lines: &mut Vec<String>, name: &str, list: &Vec<(String, String)>)
    requires
        list@.len() > 0,
    ensures
        lines_view(final(lines)@) == lines_view(old(lines)@) + group_lines(
            name@,
            list@.map_values(|h: (String, String)| (h.0@, h.1@)),
        ),
{
    let ghost hv = list@.map_values(|h: (String, String)| (h.0@, h.1@));
    let mut head = String::new();
    append_str(&mut head, "##### ");
    append_str(&mut head, name);
    append_str(&mut head, "  (");
    push_decimal_chars(&mut head, list.len() as u64);
    append_str(&mut head, " hit");
    if list.len() == 1 {
        append_str(&mut head, "");
    } else {
        append_str(&mut head, "s");
    }
    append_str(&mut head, ")");
    lines.push(head);
    proof {
        assert(lines_view(lines@) =~= lines_view(old(lines)@) + seq![group_heading(name@, hv.len())]);
    }
    let ghost base = lines_view(lines@);
    let mut keys: Vec<String> = Vec::new();
    let mut i: usize = 0;
    while i < list.len()
        invariant
            hv == list@.map_values(|h: (String, String)| (h.0@, h.1@)),
            i <= list@.len(),
            keys@.len() == i,
            forall|j: int| 0 <= j < i ==> (#[trigger] keys@[j])@ == dedup_key(hv[j]),
            lines_view(lines@) == base + entry_lines(hv.take(i as int)),
        decreases list@.len() - i,
    {
        let key = key_of(&list[i].0, &list[i].1);
        let seen = has_key(&keys, &key);
        let ghost before = lines_view(lines@);
        proof {
            assert(hv.take(i + 1).drop_last() =~= hv.take(i as int));
            assert(hv[i as int] == (list@[i as int].0@, list@[i as int].1@));
            assert(seen <==> !first_with_key(hv.take(i + 1), i as int)) by {
                if seen {
                    let j = choose|j: int| 0 <= j < keys@.len() && (#[trigger] keys@[j])@ == key@;
                    assert(hv.take(i + 1)[j] == hv[j]);
                } else {
                    assert forall|j: int| 0 <= j < i implies dedup_key(#[trigger] hv.take(i + 1)[j]) != dedup_key(
                        hv.take(i + 1)[i as int],
                    ) by {
                        assert(hv.take(i + 1)[j] == hv[j]);
                        assert(keys@[j]@ == dedup_key(hv[j]));
                    }
                }
            }
        }
        if !seen {
            let mut l1 = String::new();
            append_str(&mut l1, "  ");
            append_str(&mut l1, list[i].0.as_str());
            let cs = str_chars(list[i].1.as_str());
            let t = trimmed(&cs);
            let mut l2 = String::new();
            append_str(&mut l2, "    ... ");
            append_str(&mut l2, t.as_str());
            append_str(&mut l2, " ...");
            lines.push(l1);
            lines.push(l2);
            proof {
                assert(lines_view(lines@) =~= before + seq![
                    "  "@ + hv[i as int].0,
                    "    ... "@ + trim(hv[i as int].1) + " ..."@,
                ]);
            }
        }
        keys.push(key);
        i = i + 1;
        proof {
            assert(lines_view(lines@) =~= base + entry_lines(hv.take(i as int)));
        }
    }
    assert(hv.take(list@.len() as int) =~= hv);
    assert(lines_view(lines@) == base + entry_lines(hv));
    assert(base == lines_view(old(lines)@) + seq![group_heading(name@, hv.len())]);
    let ghost pre = lines@;
    let mut blank = String::new();
    append_str(&mut blank, "");
    assert(blank@ =~= ""@);
    lines.push(blank);
    proof {
        assert(lines_view(lines@) =~= lines_view(pre) + seq![""@]);
        assert(lines_view(lines@) =~= lines_view(old(lines)@) + group_lines(name@, hv));
    }
}

/// The report lines for the hits of each pattern, `names[k]` being the
/// name of the `k`-th pattern (see `report`).
pub fn render_report(names: &Vec<&str>, hits: &Vec<Vec<(String, String)>>) -> (r: Vec<String>)
    requires
        names@.len() == hits@.len(),
    ensures
        lines_view(r@) == report(names@.map_values(|n: &str| n@), hits_view(hits@)),
{
    let ghost nv = names@.map_values(|n: &str| n@);
    let ghost hv = hits_view(hits@);
    let mut lines: Vec<String> = Vec::new();
    let mut any = false;
    let mut k: usize = 0;
    while k < hits.len()
        invariant
            names@.len() == hits@.len(),
            nv == names@.map_values(|n: &str| n@),
            hv == hits_view(hits@),
            k <= hits@.len(),
            lines_view(lines@) == report_groups(nv.take(k as int), hv.take(k as int)),
            any <==> exists|j: int| 0 <= j < k && (#[trigger] hv[j]).len() > 0,
        decreases hits@.len() - k,
    {
        proof {
            assert(nv.take(k + 1).drop_last() =~= nv.take(k as int));
            assert(hv.take(k + 1).drop_last() =~= hv.take(k as int));
            assert(hv[k as int] == hits@[k as int]@.map_values(|h: (String, String)| (h.0@, h.1@)));
        }
        if hits[k].len() > 0 {
            push_group(&mut lines, names[k], &hits[k]);
            any = true;
        }
        k = k + 1;
        proof {
            assert(lines_view(lines@) =~= report_groups(nv.take(k as int), hv.take(k as int)));
        }
    }
    proof {
        assert(nv.take(hits@.len() as int) =~= nv);
        assert(hv.take(hits@.len() as int) =~= hv);
    }
    if !any {
        let mut l = String::new();
        append_str(&mut l, "(no matches across any pattern - that's surprising; CF may compress strings)");
        lines.push(l);
        proof {
            assert(lines_view(lines@) =~= report(nv, hv));
        }
    } else {
        proof {
            let j = choose|j: int| 0 <= j < hits@.len() && (#[trigger] hv[j]).len() > 0;
            assert(!(forall|k: int| 0 <= k < hv.len() ==> (#[trigger] hv[k]).len() == 0));
            assert(lines_view(lines@) =~= report(nv, hv));
        }
    }
    lines
}

} // verus!
