//! The mod-hosting services the client talks to: request URLs, the
//! decisions taken on their answers, and the records they return.
use vstd::prelude::*;
use vstd::utf8::{encode_utf8, valid_utf8};
use vstd::string::StringSliceAdditionalSpecFns;
use crate::models::{ModFile, ModInfo};
use crate::search::occurs_at;
use crate::text::{all_ascii, ascii_string, decimal, decimal_pad3, push_decimal, push_decimal_pad3, push_str, utf8_string, string_of, lemma_valid_concat, lemma_encoded_valid, lemma_decimal_valid, lemma_ascii_valid_utf8};

verus! {

/// Why a request to a service failed.
#[derive(Debug, PartialEq, Eq)]
pub enum ApiError {
    /// The HTTP exchange failed; the message describes how.
    Http(String),
    /// The service answered with a non-success status and this body.
    Status(u16, String),
    /// The answer was not the JSON expected; the message describes how.
    Json(String),
    /// The request cannot be served, for the reason given.
    Rejected(String),
    /// The service offers no such request.
    NotImplemented,
}

/// The message a service error shows.
pub open spec fn api_error_message(e: ApiError) -> Seq<char> {
    match e {
        ApiError::Http(m) => "http: "@ + m@,
        ApiError::Status(s, body) => "status "@ + crate::chars::decimal_chars(s as nat) + ": "@ + body@,
        ApiError::Json(m) => "json: "@ + m@,
        ApiError::Rejected(m) => "backend rejected request: "@ + m@,
        ApiError::NotImplemented => "not implemented for this backend"@,
    }
}

impl ApiError {
    /// The message this error shows (see `api_error_message`).
    pub fn message(&self) -> (r: String)
        ensures
            r@ == api_error_message(*self),
    {
        let mut s = String::new();
        match self {
            ApiError::Http(m) => {
                crate::chars::append_str(&mut s, "http: ");
                crate::chars::append_str(&mut s, m.as_str());
            },
            ApiError::Status(code, body) => {
                crate::chars::append_str(&mut s, "status ");
                crate::chars::push_decimal_chars(&mut s, *code as u64);
                crate::chars::append_str(&mut s, ": ");
                crate::chars::append_str(&mut s, body.as_str());
            },
            ApiError::Json(m) => {
                crate::chars::append_str(&mut s, "json: ");
                crate::chars::append_str(&mut s, m.as_str());
            },
            ApiError::Rejected(m) => {
                crate::chars::append_str(&mut s, "backend rejected request: ");
                crate::chars::append_str(&mut s, m.as_str());
            },
            ApiError::NotImplemented => {
                crate::chars::append_str(&mut s, "not implemented for this backend");
            },
        }
        assert(s@ =~= api_error_message(*self));
        s
    }
}

/// Why a search cannot be run without the REST API key.
pub fn search_needs_key() -> (r: ApiError)
    ensures
        r matches ApiError::Rejected(m) && m@
            == "search requires Eternal API key (set eternal_api_key in config) or a cfwidget search route"@,
{
    ApiError::Rejected(
        string_of("search requires Eternal API key (set eternal_api_key in config) or a cfwidget search route"),
    )
}

/// A search for projects.
#[derive(Debug, Clone, Default)]
pub struct SearchQuery {
    pub game_id: u64,
    pub category_id: Option<u64>,
    pub search: Option<String>,
    pub sort_field: Option<u8>,
    pub mod_loader: Option<u8>,
    pub game_version: Option<String>,
    pub index: u32,
    pub page_size: u32,
}

/// The base URL of the CurseForge REST API.
pub const ETERNAL_BASE: &'static str = "https://api.curseforge.com/v1";

/// The base URL of the CurseForge website API.
pub const WEB_API_BASE: &'static str = "https://www.curseforge.com/api/v1";

/// The base URL of the CFWidget service.
pub const CFWIDGET_BASE: &'static str = "https://api.cfwidget.com";

/// The base URL of the CurseForge file CDN.
pub const FORGECDN_BASE: &'static str = "https://edge.forgecdn.net";

/// The key that the CDN expects with each request.
pub const FORGECDN_API_KEY: &'static str = "267C6CA3";

/// The version of this client.
pub const CLIENT_VERSION: &'static str = "0.1.0";

/// `b` may stand in a URL unescaped: ASCII letters, digits and `-_.~`.
pub open spec fn is_unreserved(b: u8) -> bool {
    (0x41 <= b <= 0x5a) || (0x61 <= b <= 0x7a) || (0x30 <= b <= 0x39) || b == 0x2d || b == 0x5f
        || b == 0x2e || b == 0x7e
}

/// The percent-encoding of `s`: unreserved bytes kept, every other byte
/// written `%XX` in upper-case hex.
pub open spec fn url_encoded(s: Seq<u8>) -> Seq<u8>
    decreases s.len(),
{
    if s.len() == 0 {
        Seq::empty()
    } else {
        url_encoded(s.drop_last()) + if is_unreserved(s.last()) {
            seq![s.last()]
        } else {
            seq![0x25u8] + crate::text::hex2_upper(s.last())
        }
    }
}

proof fn lemma_url_encoded_ascii(s: Seq<u8>)
    ensures
        all_ascii(url_encoded(s)),
    decreases s.len(),
{
    if s.len() > 0 {
        lemma_url_encoded_ascii(s.drop_last());
    }
}

/// Law: text made only of unreserved bytes is its own encoding.
pub proof fn law_unreserved_text_is_unchanged(s: Seq<u8>)
    requires
        forall|i: int| 0 <= i < s.len() ==> is_unreserved(#[trigger] s[i]),
    ensures
        url_encoded(s) == s,
    decreases s.len(),
{
    if s.len() > 0 {
        law_unreserved_text_is_unchanged(s.drop_last());
        assert(is_unreserved(s[s.len() - 1]));
        assert(s.drop_last().push(s.last()) =~= s);
    }
}

fn push_url_encoded(out: &mut Vec<u8>, s: &[u8])
    ensures
        final(out)@ == old(out)@ + url_encoded(s@),
        valid_utf8(old(out)@) ==> valid_utf8(final(out)@),
{
    let mut i: usize = 0;
    while i < s.len()
        invariant
            i <= s@.len(),
            out@ == old(out)@ + url_encoded(s@.take(i as int)),
        decreases s@.len() - i,
    {
        let b = s[i];
        assert(s@.take(i + 1).drop_last() =~= s@.take(i as int));
        if (0x41 <= b && b <= 0x5a) || (0x61 <= b && b <= 0x7a) || (0x30 <= b && b <= 0x39) || b == 0x2d
            || b == 0x5f || b == 0x2e || b == 0x7e {
            out.push(b);
        } else {
            out.push(0x25);
            crate::text::push_hex2(out, b);
        }
        i = i + 1;
        assert(out@ =~= old(out)@ + url_encoded(s@.take(i as int)));
    }
    assert(s@.take(s@.len() as int) =~= s@);
    proof {
        if valid_utf8(old(out)@) {
            lemma_url_encoded_ascii(s@);
            lemma_ascii_valid_utf8(url_encoded(s@));
            lemma_valid_concat(old(out)@, url_encoded(s@));
        }
    }
}

/// `s` percent-encoded for a URL query.
pub fn urlencoding(s: &str) -> (r: String)
    ensures
        encode_utf8(r@) == url_encoded(s.spec_bytes()),
{
    let mut out: Vec<u8> = Vec::new();
    push_url_encoded(&mut out, s.as_bytes());
    proof {
        assert(out@ =~= url_encoded(s.spec_bytes()));
        lemma_url_encoded_ascii(s.spec_bytes());
    }
    ascii_string(out)
}

/// The User-Agent the client sends: `OpenForge/` and its version.
pub fn default_user_agent() -> (r: String)
    ensures
        r@ == "OpenForge/"@ + CLIENT_VERSION@,
{
    let mut s = string_of("OpenForge/");
    vstd::string::StringExecFns::append(&mut s, CLIENT_VERSION);
    s
}

/// The CDN URL of a file: `files/<id / 1000>/<id % 1000, three digits>/<name>`
/// with the API key as query.
pub open spec fn cdn_url(file_id: u64, file_name: Seq<char>) -> Seq<u8> {
    encode_utf8(FORGECDN_BASE@) + encode_utf8("/files/"@) + decimal((file_id / 1000) as nat) + encode_utf8("/"@)
        + decimal_pad3((file_id % 1000) as nat) + encode_utf8("/"@) + encode_utf8(file_name) + encode_utf8("?api-key="@)
        + encode_utf8(FORGECDN_API_KEY@)
}

proof fn lemma_pad3_valid(n: nat)
    ensures
        valid_utf8(decimal_pad3(n)),
{
    crate::text::lemma_decimal_ascii(n);
    let d = decimal_pad3(n);
    assert(all_ascii(d));
    lemma_ascii_valid_utf8(d);
}

/// The CDN client.
pub struct ForgeCdn;

impl ForgeCdn {
    /// The CDN URL of file `file_id` named `file_name`.
    pub fn url_for(file_id: u64, file_name: &str) -> (r: String)
        ensures
            encode_utf8(r@) == cdn_url(file_id, file_name@),
    {
        let mut out: Vec<u8> = Vec::new();
        push_str(&mut out, FORGECDN_BASE);
        push_str(&mut out, "/files/");
        push_decimal(&mut out, file_id / 1000);
        push_str(&mut out, "/");
        push_decimal_pad3(&mut out, file_id % 1000);
        push_str(&mut out, "/");
        push_str(&mut out, file_name);
        push_str(&mut out, "?api-key=");
        push_str(&mut out, FORGECDN_API_KEY);
        proof {
            let p1 = encode_utf8(FORGECDN_BASE@);
            let p2 = encode_utf8("/files/"@);
            let p3 = decimal((file_id / 1000) as nat);
            let p4 = encode_utf8("/"@);
            let p5 = decimal_pad3((file_id % 1000) as nat);
            let p6 = encode_utf8(file_name@);
            let p7 = encode_utf8("?api-key="@);
            let p8 = encode_utf8(FORGECDN_API_KEY@);
            lemma_encoded_valid(FORGECDN_BASE@);
            lemma_encoded_valid("/files/"@);
            lemma_decimal_valid((file_id / 1000) as nat);
            lemma_encoded_valid("/"@);
            lemma_pad3_valid((file_id % 1000) as nat);
            lemma_encoded_valid(file_name@);
            lemma_encoded_valid("?api-key="@);
            lemma_encoded_valid(FORGECDN_API_KEY@);
            lemma_valid_concat(p1, p2);
            lemma_valid_concat(p1 + p2, p3);
            lemma_valid_concat(p1 + p2 + p3, p4);
            lemma_valid_concat(p1 + p2 + p3 + p4, p5);
            lemma_valid_concat(p1 + p2 + p3 + p4 + p5, p4);
            lemma_valid_concat(p1 + p2 + p3 + p4 + p5 + p4, p6);
            lemma_valid_concat(p1 + p2 + p3 + p4 + p5 + p4 + p6, p7);
            lemma_valid_concat(p1 + p2 + p3 + p4 + p5 + p4 + p6 + p7, p8);
            assert(out@ =~= cdn_url(file_id, file_name@));
        }
        utf8_string(out)
    }
}

/// `key` and the decimal `v`, where `v` is present.
pub open spec fn opt_num(key: Seq<char>, v: Option<u64>) -> Seq<u8> {
    match v {
        Some(x) => encode_utf8(key) + decimal(x as nat),
        None => Seq::empty(),
    }
}

/// `key` and the percent-encoded `v`, where `v` is present.
pub open spec fn opt_text(key: Seq<char>, v: Option<String>) -> Seq<u8> {
    match v {
        Some(x) => encode_utf8(key) + url_encoded(encode_utf8(x@)),
        None => Seq::empty(),
    }
}

/// A byte-sized option widened to 64 bits.
pub open spec fn widened(v: Option<u8>) -> Option<u64> {
    match v {
        Some(x) => Some(x as u64),
        None => None,
    }
}

/// The REST API URL of a project search: game, index and page size, then
/// each filter that the query sets.
pub open spec fn search_url(q: SearchQuery) -> Seq<u8> {
    encode_utf8(ETERNAL_BASE@) + encode_utf8("/mods/search?gameId="@) + decimal(q.game_id as nat)
        + encode_utf8("&index="@) + decimal(q.index as nat) + encode_utf8("&pageSize="@) + decimal(
        q.page_size as nat,
    ) + opt_text("&searchFilter="@, q.search) + opt_num("&categoryId="@, q.category_id)
        + opt_num("&sortField="@, widened(q.sort_field)) + opt_num(
        "&modLoaderType="@,
        widened(q.mod_loader),
    ) + opt_text("&gameVersion="@, q.game_version)
}

proof fn lemma_suffix_occurs(a: Seq<u8>, b: Seq<u8>)
    ensures
        occurs_at(a + b, b, a.len() as int),
{
    assert((a + b).subrange(a.len() as int, (a.len() + b.len()) as int) =~= b);
}

proof fn lemma_pair_occurs(a: Seq<u8>, k: Seq<u8>, v: Seq<u8>)
    ensures
        occurs_at(a + k + v, k + v, a.len() as int),
{
    assert(a + k + v =~= a + (k + v));
    lemma_suffix_occurs(a, k + v);
}

proof fn lemma_extend_occurs(x: Seq<u8>, b: Seq<u8>, i: int, c: Seq<u8>)
    requires
        occurs_at(x, b, i),
    ensures
        occurs_at(x + c, b, i),
{
    assert((x + c).subrange(i, i + b.len()) =~= x.subrange(i, i + b.len()));
}

/// Law: a search URL asks for what the query says. It starts with the
/// search endpoint and the game, and it holds the index and page size and,
/// for each filter the query sets, that filter's key followed by its value:
/// the decimal number, or the percent-encoded text.
#[verifier::spinoff_prover]
pub proof fn law_search_url_carries_the_query(q: SearchQuery)
    ensures
        occurs_at(search_url(q), encode_utf8(ETERNAL_BASE@) + encode_utf8("/mods/search?gameId="@), 0),
        occurs_at(
            search_url(q),
            encode_utf8("/mods/search?gameId="@) + decimal(q.game_id as nat),
            encode_utf8(ETERNAL_BASE@).len() as int,
        ),
        exists|i: int| occurs_at(search_url(q), encode_utf8("&index="@) + decimal(q.index as nat), i),
        exists|i: int| occurs_at(search_url(q), encode_utf8("&pageSize="@) + decimal(q.page_size as nat), i),
        q.search matches Some(t) ==> exists|i: int|
            occurs_at(search_url(q), encode_utf8("&searchFilter="@) + url_encoded(encode_utf8(t@)), i),
        q.category_id matches Some(c) ==> exists|i: int|
            occurs_at(search_url(q), encode_utf8("&categoryId="@) + decimal(c as nat), i),
        q.sort_field matches Some(f) ==> exists|i: int|
            occurs_at(search_url(q), encode_utf8("&sortField="@) + decimal(f as nat), i),
        q.mod_loader matches Some(m) ==> exists|i: int|
            occurs_at(search_url(q), encode_utf8("&modLoaderType="@) + decimal(m as nat), i),
        q.game_version matches Some(v) ==> exists|i: int|
            occurs_at(search_url(q), encode_utf8("&gameVersion="@) + url_encoded(encode_utf8(v@)), i),
{
    let base = encode_utf8(ETERNAL_BASE@);
    let p1 = encode_utf8("/mods/search?gameId="@);
    let g = decimal(q.game_id as nat);
    let ki = encode_utf8("&index="@);
    let di = decimal(q.index as nat);
    let kp = encode_utf8("&pageSize="@);
    let dp = decimal(q.page_size as nat);
    let fs = opt_text("&searchFilter="@, q.search);
    let fc = opt_num("&categoryId="@, q.category_id);
    let fo = opt_num("&sortField="@, widened(q.sort_field));
    let fm = opt_num("&modLoaderType="@, widened(q.mod_loader));
    let fv = opt_text("&gameVersion="@, q.game_version);
    let c1 = base + p1;
    let c2 = c1 + g;
    let c3 = c2 + ki;
    let c4 = c3 + di;
    let c5 = c4 + kp;
    let c6 = c5 + dp;
    let c7 = c6 + fs;
    let c8 = c7 + fc;
    let c9 = c8 + fo;
    let c10 = c9 + fm;
    let url = c10 + fv;
    assert(url == search_url(q));
    assert(occurs_at(url, base + p1, 0)) by {
        lemma_suffix_occurs(Seq::<u8>::empty(), base + p1);
        assert(Seq::<u8>::empty() + (base + p1) =~= c1);
        lemma_extend_occurs(c1, c1, 0, g);
        lemma_extend_occurs(c2, c1, 0, ki);
        lemma_extend_occurs(c3, c1, 0, di);
        lemma_extend_occurs(c4, c1, 0, kp);
        lemma_extend_occurs(c5, c1, 0, dp);
        lemma_extend_occurs(c6, c1, 0, fs);
        lemma_extend_occurs(c7, c1, 0, fc);
        lemma_extend_occurs(c8, c1, 0, fo);
        lemma_extend_occurs(c9, c1, 0, fm);
        lemma_extend_occurs(c10, c1, 0, fv);
    }
    assert(occurs_at(url, p1 + g, base.len() as int)) by {
        lemma_pair_occurs(base, p1, g);
        lemma_extend_occurs(c2, p1 + g, base.len() as int, ki);
        lemma_extend_occurs(c3, p1 + g, base.len() as int, di);
        lemma_extend_occurs(c4, p1 + g, base.len() as int, kp);
        lemma_extend_occurs(c5, p1 + g, base.len() as int, dp);
        lemma_extend_occurs(c6, p1 + g, base.len() as int, fs);
        lemma_extend_occurs(c7, p1 + g, base.len() as int, fc);
        lemma_extend_occurs(c8, p1 + g, base.len() as int, fo);
        lemma_extend_occurs(c9, p1 + g, base.len() as int, fm);
        lemma_extend_occurs(c10, p1 + g, base.len() as int, fv);
    }
    assert(occurs_at(url, ki + di, c2.len() as int)) by {
        lemma_pair_occurs(c2, ki, di);
        lemma_extend_occurs(c4, ki + di, c2.len() as int, kp);
        lemma_extend_occurs(c5, ki + di, c2.len() as int, dp);
        lemma_extend_occurs(c6, ki + di, c2.len() as int, fs);
        lemma_extend_occurs(c7, ki + di, c2.len() as int, fc);
        lemma_extend_occurs(c8, ki + di, c2.len() as int, fo);
        lemma_extend_occurs(c9, ki + di, c2.len() as int, fm);
        lemma_extend_occurs(c10, ki + di, c2.len() as int, fv);
    }
    assert(occurs_at(url, kp + dp, c4.len() as int)) by {
        lemma_pair_occurs(c4, kp, dp);
        lemma_extend_occurs(c6, kp + dp, c4.len() as int, fs);
        lemma_extend_occurs(c7, kp + dp, c4.len() as int, fc);
        lemma_extend_occurs(c8, kp + dp, c4.len() as int, fo);
        lemma_extend_occurs(c9, kp + dp, c4.len() as int, fm);
        lemma_extend_occurs(c10, kp + dp, c4.len() as int, fv);
    }
    assert(occurs_at(url, fs, c6.len() as int)) by {
        lemma_suffix_occurs(c6, fs);
        lemma_extend_occurs(c7, fs, c6.len() as int, fc);
        lemma_extend_occurs(c8, fs, c6.len() as int, fo);
        lemma_extend_occurs(c9, fs, c6.len() as int, fm);
        lemma_extend_occurs(c10, fs, c6.len() as int, fv);
    }
    assert(occurs_at(url, fc, c7.len() as int)) by {
        lemma_suffix_occurs(c7, fc);
        lemma_extend_occurs(c8, fc, c7.len() as int, fo);
        lemma_extend_occurs(c9, fc, c7.len() as int, fm);
        lemma_extend_occurs(c10, fc, c7.len() as int, fv);
    }
    assert(occurs_at(url, fo, c8.len() as int)) by {
        lemma_suffix_occurs(c8, fo);
        lemma_extend_occurs(c9, fo, c8.len() as int, fm);
        lemma_extend_occurs(c10, fo, c8.len() as int, fv);
    }
    assert(occurs_at(url, fm, c9.len() as int)) by {
        lemma_suffix_occurs(c9, fm);
        lemma_extend_occurs(c10, fm, c9.len() as int, fv);
    }
    assert(occurs_at(url, fv, c10.len() as int)) by {
        lemma_suffix_occurs(c10, fv);
    }
}

fn push_opt_num(out: &mut Vec<u8>, key: &str, v: Option<u64>)
    ensures
        final(out)@ == old(out)@ + opt_num(key@, v),
        valid_utf8(old(out)@) ==> valid_utf8(final(out)@),
{
    match v {
        Some(x) => {
            push_str(out, key);
            push_decimal(out, x);
            assert(out@ =~= old(out)@ + opt_num(key@, v));
        },
        None => {
            assert(out@ =~= old(out)@ + opt_num(key@, v));
        },
    }
}

fn push_opt_text(out: &mut Vec<u8>, key: &str, v: &Option<String>)
    ensures
        final(out)@ == old(out)@ + opt_text(key@, *v),
        valid_utf8(old(out)@) ==> valid_utf8(final(out)@),
{
    match v {
        Some(x) => {
            push_str(out, key);
            push_url_encoded(out, x.as_str().as_bytes());
            assert(out@ =~= old(out)@ + opt_text(key@, *v));
        },
        None => {
            assert(out@ =~= old(out)@ + opt_text(key@, *v));
        },
    }
}

fn widen(v: Option<u8>) -> (r: Option<u64>)
    ensures
        r == widened(v),
{
    match v {
        Some(x) => Some(x as u64),
        None => None,
    }
}

/// The REST API URL that runs the search `q`.
pub fn eternal_search_url(q: &SearchQuery) -> (r: String)
    ensures
        encode_utf8(r@) == search_url(*q),
{
    let mut out: Vec<u8> = Vec::new();
    push_str(&mut out, ETERNAL_BASE);
    push_str(&mut out, "/mods/search?gameId=");
    push_decimal(&mut out, q.game_id);
    push_str(&mut out, "&index=");
    push_decimal(&mut out, q.index as u64);
    push_str(&mut out, "&pageSize=");
    push_decimal(&mut out, q.page_size as u64);
    push_opt_text(&mut out, "&searchFilter=", &q.search);
    push_opt_num(&mut out, "&categoryId=", q.category_id);
    push_opt_num(&mut out, "&sortField=", widen(q.sort_field));
    push_opt_num(&mut out, "&modLoaderType=", widen(q.mod_loader));
    push_opt_text(&mut out, "&gameVersion=", &q.game_version);
    assert(out@ =~= search_url(*q));
    utf8_string(out)
}

/// The REST API URL of project `mod_id`.
pub open spec fn mod_url(mod_id: u64) -> Seq<u8> {
    encode_utf8(ETERNAL_BASE@) + encode_utf8("/mods/"@) + decimal(mod_id as nat)
}

/// The REST API URL of project `mod_id`.
pub fn eternal_mod_url(mod_id: u64) -> (r: String)
    ensures
        encode_utf8(r@) == mod_url(mod_id),
{
    let mut out: Vec<u8> = Vec::new();
    push_str(&mut out, ETERNAL_BASE);
    push_str(&mut out, "/mods/");
    push_decimal(&mut out, mod_id);
    utf8_string(out)
}

/// The REST API URL of file `file_id` of project `mod_id`.
pub open spec fn file_url(mod_id: u64, file_id: u64) -> Seq<u8> {
    mod_url(mod_id) + encode_utf8("/files/"@) + decimal(file_id as nat)
}

/// The REST API URL of file `file_id` of project `mod_id`.
pub fn eternal_file_url(mod_id: u64, file_id: u64) -> (r: String)
    ensures
        encode_utf8(r@) == file_url(mod_id, file_id),
{
    let mut out: Vec<u8> = Vec::new();
    push_str(&mut out, ETERNAL_BASE);
    push_str(&mut out, "/mods/");
    push_decimal(&mut out, mod_id);
    push_str(&mut out, "/files/");
    push_decimal(&mut out, file_id);
    utf8_string(out)
}

/// The REST API URL that gives the download URL of a file.
pub fn eternal_download_url_url(mod_id: u64, file_id: u64) -> (r: String)
    ensures
        encode_utf8(r@) == file_url(mod_id, file_id) + encode_utf8("/download-url"@),
{
    let mut out: Vec<u8> = Vec::new();
    push_str(&mut out, ETERNAL_BASE);
    push_str(&mut out, "/mods/");
    push_decimal(&mut out, mod_id);
    push_str(&mut out, "/files/");
    push_decimal(&mut out, file_id);
    push_str(&mut out, "/download-url");
    utf8_string(out)
}

/// The website API URL of a page of the files of a project.
pub open spec fn web_files_url(mod_id: u64, index: u32, page_size: u32) -> Seq<u8> {
    encode_utf8(WEB_API_BASE@) + encode_utf8("/mods/"@) + decimal(mod_id as nat) + encode_utf8(
        "/files?pageIndex="@,
    ) + decimal(index as nat) + encode_utf8("&pageSize="@) + decimal(page_size as nat)
}

/// The website API URL of a page of the files of a project.
pub fn web_list_files_url(mod_id: u64, index: u32, page_size: u32) -> (r: String)
    ensures
        encode_utf8(r@) == web_files_url(mod_id, index, page_size),
{
    let mut out: Vec<u8> = Vec::new();
    push_str(&mut out, WEB_API_BASE);
    push_str(&mut out, "/mods/");
    push_decimal(&mut out, mod_id);
    push_str(&mut out, "/files?pageIndex=");
    push_decimal(&mut out, index as u64);
    push_str(&mut out, "&pageSize=");
    push_decimal(&mut out, page_size as u64);
    utf8_string(out)
}

/// The website URL that redirects to the download of a file.
pub open spec fn web_download_url(mod_id: u64, file_id: u64) -> Seq<u8> {
    encode_utf8(WEB_API_BASE@) + encode_utf8("/mods/"@) + decimal(mod_id as nat) + encode_utf8("/files/"@)
        + decimal(file_id as nat) + encode_utf8("/download"@)
}

/// The website URL that redirects to the download of a file.
pub fn web_download_redirect_url(mod_id: u64, file_id: u64) -> (r: String)
    ensures
        encode_utf8(r@) == web_download_url(mod_id, file_id),
{
    let mut out: Vec<u8> = Vec::new();
    push_str(&mut out, WEB_API_BASE);
    push_str(&mut out, "/mods/");
    push_decimal(&mut out, mod_id);
    push_str(&mut out, "/files/");
    push_decimal(&mut out, file_id);
    push_str(&mut out, "/download");
    utf8_string(out)
}

/// The CFWidget URL of a project, by id or slug.
pub fn widget_project_url(id_or_slug: &str) -> (r: String)
    ensures
        encode_utf8(r@) == encode_utf8(CFWIDGET_BASE@) + encode_utf8("/"@) + encode_utf8(id_or_slug@),
{
    let mut out: Vec<u8> = Vec::new();
    push_str(&mut out, CFWIDGET_BASE);
    push_str(&mut out, "/");
    push_str(&mut out, id_or_slug);
    utf8_string(out)
}

/// What the website's answer to a download request gives.
#[derive(Debug, PartialEq, Eq)]
pub enum DownloadAnswer {
    /// A redirect whose `Location` names the file.
    Location(String),
    /// A redirect whose `Location` header is not text (the reason given).
    BadLocation(String),
    /// A success: the URL that was finally fetched is the file's.
    FinalUrl,
    /// Neither: the request failed with this status.
    Failed(u16),
}

/// `status` is a redirect the client follows by hand: 301, 302 or 307.
pub open spec fn is_redirect(status: u16) -> bool {
    status == 301 || status == 302 || status == 307
}

/// `status` is a success.
pub open spec fn is_success(status: u16) -> bool {
    200 <= status <= 299
}

/// How a download-URL request is answered: a redirect with a `Location`
/// gives it (or fails where the header is not text), a success gives the
/// final URL, anything else fails with its status.
pub fn decide_download_answer(status: u16, location: Option<Result<String, String>>) -> (r: DownloadAnswer)
    ensures
        is_redirect(status) ==> match location {
            Some(Ok(l)) => r == DownloadAnswer::Location(l),
            Some(Err(e)) => r == DownloadAnswer::BadLocation(e),
            None => true,
        },
        !(is_redirect(status) && location is Some) && is_success(status) ==> r == DownloadAnswer::FinalUrl,
        !(is_redirect(status) && location is Some) && !is_success(status) ==> r == DownloadAnswer::Failed(status),
{
    if status == 307 || status == 302 || status == 301 {
        match location {
            Some(Ok(l)) => return DownloadAnswer::Location(l),
            Some(Err(e)) => return DownloadAnswer::BadLocation(e),
            None => {},
        }
    }
    if 200 <= status && status <= 299 {
        DownloadAnswer::FinalUrl
    } else {
        DownloadAnswer::Failed(status)
    }
}

/// The message of a length mismatch.
pub open spec fn mismatch_message(expected: u64, got: u64) -> Seq<u8> {
    encode_utf8("length mismatch: expected "@) + decimal(expected as nat) + encode_utf8(", got "@) + decimal(
        got as nat,
    )
}

/// Checks the length of a finished download against the expected one.
pub fn check_download_length(expected_len: Option<u64>, written: u64) -> (r: Result<u64, ApiError>)
    ensures
        match expected_len {
            Some(e) => if e != written {
                r matches Err(ApiError::Rejected(m)) && encode_utf8(m@) == mismatch_message(e, written)
            } else {
                r == Ok::<u64, ApiError>(written)
            },
            None => r == Ok::<u64, ApiError>(written),
        },
{
    match expected_len {
        Some(e) => {
            if e != written {
                let mut out: Vec<u8> = Vec::new();
                push_str(&mut out, "length mismatch: expected ");
                push_decimal(&mut out, e);
                push_str(&mut out, ", got ");
                push_decimal(&mut out, written);
                return Err(ApiError::Rejected(utf8_string(out)));
            }
        },
        None => {},
    }
    Ok(written)
}

/// The message for a file missing from the first page.
pub open spec fn not_in_page_message(file_id: u64) -> Seq<u8> {
    encode_utf8("file "@) + decimal(file_id as nat) + encode_utf8(
        " not in first page; provide Eternal key for direct lookup"@,
    )
}

/// The first file of `files` with id `file_id`, or a rejection where the
/// page holds none.
#[verifier::loop_isolation(false)]
pub fn find_file_in_page(files: Vec<ModFile>, file_id: u64) -> (r: Result<ModFile, ApiError>)
    ensures
        match r {
            Ok(f) => exists|i: int| 0 <= i < files@.len() && files@[i] == f && f.id == file_id && forall|j: int|
                0 <= j < i ==> (#[trigger] files@[j]).id != file_id,
            Err(e) => (forall|j: int| 0 <= j < files@.len() ==> (#[trigger] files@[j]).id != file_id) && (e matches ApiError::Rejected(m) && encode_utf8(m@) == not_in_page_message(file_id)),
        },
{
    let ghost all = files@;
    let n: usize = files.len();
    let mut rest = files;
    let mut i: usize = 0;
    while rest.len() > 0
        invariant
            i <= all.len(),
            all.len() == n,
            all.len() == i + rest@.len(),
            rest@ == all.skip(i as int),
            forall|j: int| 0 <= j < i ==> (#[trigger] all[j]).id != file_id,
        decreases rest@.len(),
    {
        let f = rest.remove(0);
        assert(f == all[i as int]);
        if f.id == file_id {
            return Ok(f);
        }
        i = i + 1;
        assert(rest@ =~= all.skip(i as int));
    }
    let mut out: Vec<u8> = Vec::new();
    push_str(&mut out, "file ");
    push_decimal(&mut out, file_id);
    push_str(&mut out, " not in first page; provide Eternal key for direct lookup");
    Err(ApiError::Rejected(utf8_string(out)))
}

/// A file as CFWidget lists it.
pub struct WidgetFile {
    pub id: u64,
    pub url: Option<String>,
    pub display: Option<String>,
    pub name: Option<String>,
    pub kind: Option<String>,
    pub version: Option<String>,
    pub uploaded_at: Option<String>,
    pub versions: Vec<String>,
    pub downloads: Option<u64>,
}

/// A project as CFWidget describes it (the free-form `urls` and `download`
/// fields stay with the caller).
pub struct WidgetProject {
    pub id: u64,
    pub title: String,
    pub summary: Option<String>,
    pub description: Option<String>,
    pub thumbnail: Option<String>,
    pub files: Vec<WidgetFile>,
    pub categories: Vec<String>,
    pub game: Option<String>,
}

/// The project record made from a CFWidget description: id, title as
/// name and summary; the rest unknown.
pub fn mod_info_from_widget(w: WidgetProject) -> (r: ModInfo)
    ensures
        r.id == w.id,
        r.game_id == 0,
        r.name == w.title,
        r.slug@ == Seq::<char>::empty(),
        r.summary == w.summary,
        r.download_count is None,
        r.categories@.len() == 0,
        r.latest_files@.len() == 0,
        r.logo is None,
{
    ModInfo {
        id: w.id,
        game_id: 0,
        name: w.title,
        slug: String::new(),
        summary: w.summary,
        download_count: None,
        categories: Vec::new(),
        latest_files: Vec::new(),
        logo: None,
    }
}

} // verus!
