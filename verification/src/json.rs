//! A JSON document as plain values, and the rebranding of the text it
//! holds.
use vstd::prelude::*;
use vstd::utf8::encode_utf8;
use vstd::string::StringSliceAdditionalSpecFns;
use crate::literal::{
    count_matches, replace_all, replace_literal, no_continuation, no_start_inside, agree, law_replace_leaves_no_occurrence,
    law_replace_without_effect, lemma_replace_keeps_byte, lemma_replace_shows_rep,
};
use crate::search::bytes_equal;

verus! {

/// A JSON value; strings hold their UTF-8 bytes, numbers their text, and
/// objects their members in document order.
pub enum JsonValue {
    Null,
    Bool(bool),
    Number(String),
    Str(Vec<u8>),
    Array(Vec<JsonValue>),
    Object(Vec<(String, JsonValue)>),
}

/// The UTF-8 bytes of a text.
pub open spec fn utf8(s: Seq<char>) -> Seq<u8> {
    encode_utf8(s)
}

/// A string value after rebranding: two phrases are rewritten whole, then
/// every CurseForge, curseforge and CURSEFORGE becomes OpenForge,
/// openforge and OPENFORGE.
pub open spec fn brand_text(s: Seq<u8>) -> Seq<u8> {
    let first = if s == utf8("Ads support authors"@) {
        utf8("Ads support Israel"@)
    } else if s == utf8("Show Intro"@) {
        utf8("Watch the best video ever"@)
    } else {
        s
    };
    replace_all(
        replace_all(
            replace_all(first, utf8("CurseForge"@), utf8("OpenForge"@)),
            utf8("curseforge"@),
            utf8("openforge"@),
        ),
        utf8("CURSEFORGE"@),
        utf8("OPENFORGE"@),
    )
}

/// `b` is `a` with every string rebranded and everything else kept.
pub open spec fn branded(a: JsonValue, b: JsonValue) -> bool
    decreases a,
{
    match a {
        JsonValue::Null => b is Null,
        JsonValue::Bool(x) => b == JsonValue::Bool(x),
        JsonValue::Number(x) => b matches JsonValue::Number(y) && y@ == x@,
        JsonValue::Str(x) => b matches JsonValue::Str(y) && y@ == brand_text(x@),
        JsonValue::Array(xs) => b matches JsonValue::Array(ys) && ys@.len() == xs@.len() && forall|i: int|
            0 <= i < xs@.len() ==> branded(#[trigger] xs@[i], ys@[i]),
        JsonValue::Object(xs) => b matches JsonValue::Object(ys) && ys@.len() == xs@.len() && forall|i: int|
            0 <= i < xs@.len() ==> #[trigger] xs@[i].0@ == ys@[i].0@ && branded(xs@[i].1, ys@[i].1),
    }
}

/// The number of strings that rebranding changes in `v`.
pub open spec fn brand_hits(v: JsonValue) -> nat
    decreases v, 1int,
{
    match v {
        JsonValue::Str(x) => if brand_text(x@) == x@ {
            0
        } else {
            1
        },
        JsonValue::Array(xs) => brand_hits_all(xs@, xs@.len() as int),
        JsonValue::Object(xs) => brand_hits_members(xs@, xs@.len() as int),
        _ => 0,
    }
}

/// The changed strings among the first `n` values of `xs`.
pub open spec fn brand_hits_all(xs: Seq<JsonValue>, n: int) -> nat
    decreases xs, 0int, n,
{
    if n <= 0 || n > xs.len() {
        0
    } else {
        brand_hits_all(xs, n - 1) + brand_hits(xs[n - 1])
    }
}

/// The changed strings among the first `n` member values of `xs`.
pub open spec fn brand_hits_members(xs: Seq<(String, JsonValue)>, n: int) -> nat
    decreases xs, 0int, n,
{
    if n <= 0 || n > xs.len() {
        0
    } else {
        brand_hits_members(xs, n - 1) + brand_hits(xs[n - 1].1)
    }
}

/// `n`, capped at `usize::MAX`.
pub open spec fn sat(n: nat) -> nat {
    if n > usize::MAX {
        usize::MAX as nat
    } else {
        n
    }
}

/// A string value after rebranding.
pub fn brand_bytes(s: &[u8]) -> (r: Vec<u8>)
    ensures
        r@ == brand_text(s@),
{
    let first: Vec<u8> = if bytes_equal(s, "Ads support authors".as_bytes()) {
        crate::text::bytes_of("Ads support Israel")
    } else if bytes_equal(s, "Show Intro".as_bytes()) {
        crate::text::bytes_of("Watch the best video ever")
    } else {
        crate::text::copy_bytes(s)
    };
    let (_, a) = replace_literal(first.as_slice(), "CurseForge".as_bytes(), "OpenForge".as_bytes());
    let (_, b) = replace_literal(a.as_slice(), "curseforge".as_bytes(), "openforge".as_bytes());
    let (_, c) = replace_literal(b.as_slice(), "CURSEFORGE".as_bytes(), "OPENFORGE".as_bytes());
    c
}

#[verifier::loop_isolation(false)]
fn brand_owned(v: JsonValue) -> (r: (JsonValue, usize))
    ensures
        branded(v, r.0),
        r.1 == sat(brand_hits(v)),
    decreases v,
{
    let ghost gv = v;
    match v {
        JsonValue::Null => {
            assert(gv is Null);
            assert(branded(gv, JsonValue::Null));
            (JsonValue::Null, 0)
        },
        JsonValue::Bool(b) => {
            assert(branded(gv, JsonValue::Bool(b)));
            (JsonValue::Bool(b), 0)
        },
        JsonValue::Number(n) => {
            assert(branded(gv, JsonValue::Number(n)));
            (JsonValue::Number(n), 0)
        },
        JsonValue::Str(x) => {
            let y = brand_bytes(x.as_slice());
            let changed = !bytes_equal(y.as_slice(), x.as_slice());
            assert(branded(gv, JsonValue::Str(y)));
            (JsonValue::Str(y), if changed { 1 } else { 0 })
        },
        JsonValue::Array(xs) => {
            let ghost gxs = xs;
            let ghost xs0 = xs@;
            let len = xs.len();
            let mut rest = xs;
            let mut ys: Vec<JsonValue> = Vec::new();
            let mut hits: usize = 0;
            let mut i: usize = 0;
            while rest.len() > 0
                invariant
                    gv == JsonValue::Array(gxs),
                    xs0 == gxs@,
                    len == xs0.len(),
                    i <= len,
                    rest@ == xs0.skip(i as int),
                    ys@.len() == i,
                    forall|j: int| 0 <= j < i ==> branded(#[trigger] xs0[j], ys@[j]),
                    hits == sat(brand_hits_all(xs0, i as int)),
                decreases rest@.len(),
            {
                let x = rest.remove(0);
                assert(x == xs0[i as int]);
                proof {
                    assert(gv->Array_0 == gxs);
                    assert(decreases_to!(gv => gv->Array_0));
                    assert(decreases_to!(gxs => gxs@));
                    assert(decreases_to!(gxs@ => gxs@[i as int]));
                }
                let (y, n) = brand_owned(x);
                ys.push(y);
                hits = hits.saturating_add(n);
                i = i + 1;
                assert(rest@ =~= xs0.skip(i as int));
            }
            assert(i == len);
            assert(branded(gv, JsonValue::Array(ys)));
            (JsonValue::Array(ys), hits)
        },
        JsonValue::Object(xs) => {
            let ghost gxs = xs;
            let ghost xs0 = xs@;
            let len = xs.len();
            let mut rest = xs;
            let mut ys: Vec<(String, JsonValue)> = Vec::new();
            let mut hits: usize = 0;
            let mut i: usize = 0;
            while rest.len() > 0
                invariant
                    gv == JsonValue::Object(gxs),
                    xs0 == gxs@,
                    len == xs0.len(),
                    i <= len,
                    rest@ == xs0.skip(i as int),
                    ys@.len() == i,
                    forall|j: int| 0 <= j < i ==> #[trigger] xs0[j].0@ == ys@[j].0@ && branded(xs0[j].1, ys@[j].1),
                    hits == sat(brand_hits_members(xs0, i as int)),
                decreases rest@.len(),
            {
                let (k, x) = rest.remove(0);
                assert(x == xs0[i as int].1);
                proof {
                    assert(gv->Object_0 == gxs);
                    assert(decreases_to!(gv => gv->Object_0));
                    assert(decreases_to!(gxs => gxs@));
                    assert(decreases_to!(gxs@ => gxs@[i as int]));
                    assert(decreases_to!(gxs@[i as int] => gxs@[i as int].1));
                }
                let (y, n) = brand_owned(x);
                ys.push((k, y));
                hits = hits.saturating_add(n);
                i = i + 1;
                assert(rest@ =~= xs0.skip(i as int));
            }
            assert(i == len);
            assert(branded(gv, JsonValue::Object(ys)));
            (JsonValue::Object(ys), hits)
        },
    }
}

/// Rebrands every string of `value` in place and returns how many changed
/// (capped at `usize::MAX`).
pub fn rewrite_brand_values(value: &mut JsonValue) -> (r: usize)
    ensures
        branded(*old(value), *final(value)),
        r == sat(brand_hits(*old(value))),
{
    let mut taken = JsonValue::Null;
    std::mem::swap(&mut taken, value);
    let (new_value, hits) = brand_owned(taken);
    *value = new_value;
    hits
}

proof fn lemma_ascii_word(w: Seq<char>)
    requires
        vstd::utf8::is_ascii_chars(w),
    ensures
        utf8(w).len() == w.len(),
        forall|i: int| 0 <= i < w.len() ==> #[trigger] utf8(w)[i] == w[i] as u8,
{
    vstd::utf8::is_ascii_chars_encode_utf8(w);
}

proof fn lemma_brand_words()
    ensures
        utf8("CurseForge"@) == seq![0x43u8, 0x75, 0x72, 0x73, 0x65, 0x46, 0x6f, 0x72, 0x67, 0x65],
        utf8("curseforge"@) == seq![0x63u8, 0x75, 0x72, 0x73, 0x65, 0x66, 0x6f, 0x72, 0x67, 0x65],
        utf8("CURSEFORGE"@) == seq![0x43u8, 0x55, 0x52, 0x53, 0x45, 0x46, 0x4f, 0x52, 0x47, 0x45],
        utf8("OpenForge"@) == seq![0x4fu8, 0x70, 0x65, 0x6e, 0x46, 0x6f, 0x72, 0x67, 0x65],
        utf8("openforge"@) == seq![0x6fu8, 0x70, 0x65, 0x6e, 0x66, 0x6f, 0x72, 0x67, 0x65],
        utf8("OPENFORGE"@) == seq![0x4fu8, 0x50, 0x45, 0x4e, 0x46, 0x4f, 0x52, 0x47, 0x45],
{
    reveal_strlit("CurseForge");
    reveal_strlit("curseforge");
    reveal_strlit("CURSEFORGE");
    reveal_strlit("OpenForge");
    reveal_strlit("openforge");
    reveal_strlit("OPENFORGE");
    lemma_ascii_word("CurseForge"@);
    lemma_ascii_word("curseforge"@);
    lemma_ascii_word("CURSEFORGE"@);
    lemma_ascii_word("OpenForge"@);
    lemma_ascii_word("openforge"@);
    lemma_ascii_word("OPENFORGE"@);
    assert(utf8("CurseForge"@) =~= seq![0x43u8, 0x75, 0x72, 0x73, 0x65, 0x46, 0x6f, 0x72, 0x67, 0x65]);
    assert(utf8("curseforge"@) =~= seq![0x63u8, 0x75, 0x72, 0x73, 0x65, 0x66, 0x6f, 0x72, 0x67, 0x65]);
    assert(utf8("CURSEFORGE"@) =~= seq![0x43u8, 0x55, 0x52, 0x53, 0x45, 0x46, 0x4f, 0x52, 0x47, 0x45]);
    assert(utf8("OpenForge"@) =~= seq![0x4fu8, 0x70, 0x65, 0x6e, 0x46, 0x6f, 0x72, 0x67, 0x65]);
    assert(utf8("openforge"@) =~= seq![0x6fu8, 0x70, 0x65, 0x6e, 0x66, 0x6f, 0x72, 0x67, 0x65]);
    assert(utf8("OPENFORGE"@) =~= seq![0x4fu8, 0x50, 0x45, 0x4e, 0x46, 0x4f, 0x52, 0x47, 0x45]);
}

/// `rep` neither holds the start of `x` nor carries on a begun `x`, shown
/// through the first two bytes at each place.
proof fn lemma_word_apart(x: Seq<u8>, rep: Seq<u8>)
    requires
        x.len() >= 2,
        rep.len() >= 2,
        forall|p: int| 0 <= p < rep.len() ==> #[trigger] rep[p] != x[0],
        forall|j: int| 1 <= j < x.len() ==> #[trigger] x[j] != rep[0] || (j + 1 < x.len() && x[j + 1] != rep[1]),
    ensures
        no_continuation(x, rep),
        no_start_inside(x, rep),
{
    assert forall|j: int| 1 <= j < x.len() implies !#[trigger] agree(rep, x.skip(j)) by {
        if agree(rep, x.skip(j)) {
            assert(rep[0] == x.skip(j)[0]);
            if j + 1 < x.len() {
                assert(rep[1] == x.skip(j)[1]);
            }
        }
    }
    assert forall|p: int| 0 <= p < rep.len() implies !#[trigger] agree(rep.skip(p), x) by {
        if agree(rep.skip(p), x) {
            assert(rep.skip(p)[0] == x[0]);
        }
    }
}

/// Law: a rebranded string holds no CurseForge, curseforge or CURSEFORGE.
pub proof fn law_branding_leaves_no_brand(s: Seq<u8>)
    ensures
        count_matches(brand_text(s), utf8("CurseForge"@)) == 0,
        count_matches(brand_text(s), utf8("curseforge"@)) == 0,
        count_matches(brand_text(s), utf8("CURSEFORGE"@)) == 0,
{
    lemma_brand_words();
    let n1 = utf8("CurseForge"@);
    let n2 = utf8("curseforge"@);
    let n3 = utf8("CURSEFORGE"@);
    let r1 = utf8("OpenForge"@);
    let r2 = utf8("openforge"@);
    let r3 = utf8("OPENFORGE"@);
    lemma_word_apart(n1, r1);
    lemma_word_apart(n1, r2);
    lemma_word_apart(n1, r3);
    lemma_word_apart(n2, r2);
    lemma_word_apart(n2, r3);
    lemma_word_apart(n3, r3);
    let first = if s == utf8("Ads support authors"@) {
        utf8("Ads support Israel"@)
    } else if s == utf8("Show Intro"@) {
        utf8("Watch the best video ever"@)
    } else {
        s
    };
    let a = replace_all(first, n1, r1);
    let b = replace_all(a, n2, r2);
    let c = replace_all(b, n3, r3);
    assert(c == brand_text(s));
    law_replace_leaves_no_occurrence(first, n1, n1, r1);
    law_replace_leaves_no_occurrence(a, n1, n2, r2);
    law_replace_leaves_no_occurrence(b, n1, n3, r3);
    law_replace_leaves_no_occurrence(a, n2, n2, r2);
    law_replace_leaves_no_occurrence(b, n2, n3, r3);
    law_replace_leaves_no_occurrence(b, n3, n3, r3);
}

proof fn lemma_phrases()
    ensures
        utf8("Ads support authors"@).len() == 19,
        utf8("Show Intro"@).len() == 10,
        utf8("Ads support Israel"@).len() == 18,
        utf8("Watch the best video ever"@).len() == 25,
        !utf8("Ads support authors"@).contains(0x46u8),
        !utf8("Ads support authors"@).contains(0x66u8),
        !utf8("Show Intro"@).contains(0x46u8),
        !utf8("Show Intro"@).contains(0x66u8),
{
    reveal_strlit("Ads support authors");
    reveal_strlit("Show Intro");
    reveal_strlit("Ads support Israel");
    reveal_strlit("Watch the best video ever");
    lemma_ascii_word("Ads support authors"@);
    lemma_ascii_word("Show Intro"@);
    lemma_ascii_word("Ads support Israel"@);
    lemma_ascii_word("Watch the best video ever"@);
    let a = utf8("Ads support authors"@);
    let b = utf8("Show Intro"@);
    assert forall|i: int| 0 <= i < a.len() implies a[i] != 0x46u8 && a[i] != 0x66u8 by {
        assert(a[i] == ("Ads support authors"@)[i] as u8);
    }
    assert forall|i: int| 0 <= i < b.len() implies b[i] != 0x46u8 && b[i] != 0x66u8 by {
        assert(b[i] == ("Show Intro"@)[i] as u8);
    }
}

/// A rebranded string is never one of the two phrases rewritten whole.
pub(crate) proof fn lemma_branded_not_phrase(s: Seq<u8>)
    ensures
        brand_text(s) != utf8("Ads support authors"@),
        brand_text(s) != utf8("Show Intro"@),
{
    lemma_brand_words();
    lemma_phrases();
    let n1 = utf8("CurseForge"@);
    let n2 = utf8("curseforge"@);
    let n3 = utf8("CURSEFORGE"@);
    let r1 = utf8("OpenForge"@);
    let r2 = utf8("openforge"@);
    let r3 = utf8("OPENFORGE"@);
    let pa = utf8("Ads support authors"@);
    let pb = utf8("Show Intro"@);
    let first = if s == pa {
        utf8("Ads support Israel"@)
    } else if s == pb {
        utf8("Watch the best video ever"@)
    } else {
        s
    };
    let a = replace_all(first, n1, r1);
    let b = replace_all(a, n2, r2);
    let y = replace_all(b, n3, r3);
    assert(y == brand_text(s));
    assert(!n2.contains(0x46u8)) by {
        assert forall|i: int| 0 <= i < n2.len() implies n2[i] != 0x46u8 by {}
    }
    assert(!n3.contains(0x66u8)) by {
        assert forall|i: int| 0 <= i < n3.len() implies n3[i] != 0x66u8 by {}
    }
    assert(r3[4] == 0x46u8);
    assert(r3.contains(0x46u8));
    if count_matches(first, n1) > 0 {
        lemma_replace_shows_rep(first, n1, r1, 4);
        assert(r1[4] == 0x46u8);
        lemma_replace_keeps_byte(a, n2, r2, 0x46u8);
        lemma_replace_keeps_byte(b, n3, r3, 0x46u8);
    } else {
        law_replace_without_effect(first, n1, r1);
        if count_matches(a, n2) > 0 {
            lemma_replace_shows_rep(a, n2, r2, 4);
            assert(r2[4] == 0x66u8);
            lemma_replace_keeps_byte(b, n3, r3, 0x66u8);
        } else {
            law_replace_without_effect(a, n2, r2);
            if count_matches(b, n3) > 0 {
                lemma_replace_shows_rep(b, n3, r3, 4);
            } else {
                law_replace_without_effect(b, n3, r3);
                assert(y == first);
            }
        }
    }
}

/// Rebranding a rebranded string changes nothing.
pub proof fn lemma_brand_text_idempotent(s: Seq<u8>)
    ensures
        brand_text(brand_text(s)) == brand_text(s),
{
    let y = brand_text(s);
    law_branding_leaves_no_brand(s);
    lemma_branded_not_phrase(s);
    law_replace_without_effect(y, utf8("CurseForge"@), utf8("OpenForge"@));
    law_replace_without_effect(y, utf8("curseforge"@), utf8("openforge"@));
    law_replace_without_effect(y, utf8("CURSEFORGE"@), utf8("OPENFORGE"@));
}

/// `a` and `b` hold the same JSON value: the same kinds, texts, keys and
/// order throughout.
pub open spec fn same_json(a: JsonValue, b: JsonValue) -> bool
    decreases a,
{
    match a {
        JsonValue::Null => b is Null,
        JsonValue::Bool(x) => b == JsonValue::Bool(x),
        JsonValue::Number(x) => b matches JsonValue::Number(y) && y@ == x@,
        JsonValue::Str(x) => b matches JsonValue::Str(y) && y@ == x@,
        JsonValue::Array(xs) => b matches JsonValue::Array(ys) && ys@.len() == xs@.len() && forall|i: int|
            0 <= i < xs@.len() ==> same_json(#[trigger] xs@[i], ys@[i]),
        JsonValue::Object(xs) => b matches JsonValue::Object(ys) && ys@.len() == xs@.len() && forall|i: int|
            0 <= i < xs@.len() ==> #[trigger] xs@[i].0@ == ys@[i].0@ && same_json(xs@[i].1, ys@[i].1),
    }
}

proof fn lemma_hits_all_zero(xs: Seq<JsonValue>, n: int)
    requires
        forall|i: int| 0 <= i < xs.len() ==> brand_hits(#[trigger] xs[i]) == 0,
    ensures
        brand_hits_all(xs, n) == 0,
    decreases n,
{
    if n > 0 && n <= xs.len() {
        lemma_hits_all_zero(xs, n - 1);
    }
}

proof fn lemma_hits_members_zero(xs: Seq<(String, JsonValue)>, n: int)
    requires
        forall|i: int| 0 <= i < xs.len() ==> brand_hits(#[trigger] xs[i].1) == 0,
    ensures
        brand_hits_members(xs, n) == 0,
    decreases n,
{
    if n > 0 && n <= xs.len() {
        lemma_hits_members_zero(xs, n - 1);
    }
}

/// Law: rebranding is idempotent. In a rebranded value no string changes
/// when rebranded again, so a second `rewrite_brand_values` returns 0, and
/// what it leaves is the same value.
pub proof fn law_rebranding_is_idempotent(v: JsonValue, w: JsonValue, w2: JsonValue)
    requires
        branded(v, w),
        branded(w, w2),
    ensures
        brand_hits(w) == 0,
        same_json(w, w2),
    decreases v,
{
    match v {
        JsonValue::Str(x) => {
            lemma_brand_text_idempotent(x@);
        },
        JsonValue::Array(xs) => {
            let ws = w->Array_0;
            let ws2 = w2->Array_0;
            assert forall|i: int| 0 <= i < ws@.len() implies brand_hits(#[trigger] ws@[i]) == 0 && same_json(
                ws@[i],
                ws2@[i],
            ) by {
                assert(decreases_to!(v => v->Array_0));
                assert(decreases_to!(xs => xs@));
                assert(decreases_to!(xs@ => xs@[i]));
                assert(branded(xs@[i], ws@[i]));
                assert(branded(ws@[i], ws2@[i]));
                law_rebranding_is_idempotent(xs@[i], ws@[i], ws2@[i]);
            }
            lemma_hits_all_zero(ws@, ws@.len() as int);
        },
        JsonValue::Object(xs) => {
            assert(w is Object);
            let ws = w->Object_0;
            assert(w2 is Object);
            let ws2 = w2->Object_0;
            assert(ws@.len() == xs@.len());
            assert(branded(v, w));
            assert(w == JsonValue::Object(ws));
            assert(forall|k: int| 0 <= k < xs@.len() ==> #[trigger] xs@[k].0@ == ws@[k].0@);
            assert forall|i: int| 0 <= i < ws@.len() implies brand_hits(#[trigger] ws@[i].1) == 0 && ws@[i].0@
                == ws2@[i].0@ && same_json(ws@[i].1, ws2@[i].1) by {
                assert(decreases_to!(v => v->Object_0));
                assert(decreases_to!(xs => xs@));
                assert(decreases_to!(xs@ => xs@[i]));
                assert(decreases_to!(xs@[i] => xs@[i].1));
                assert(xs@[i].0@ == ws@[i].0@);
                assert(branded(xs@[i].1, ws@[i].1));
                assert(ws@[i].0@ == ws2@[i].0@ && branded(ws@[i].1, ws2@[i].1));
                law_rebranding_is_idempotent(xs@[i].1, ws@[i].1, ws2@[i].1);
            }
            lemma_hits_members_zero(ws@, ws@.len() as int);
        },
        _ => {},
    }
}

} // verus!
