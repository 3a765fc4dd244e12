//! What rebranding leaves in a whole JSON document: no brand word in any
//! string, and none of the phrases that are rewritten whole.
use vstd::prelude::*;
use crate::json::{JsonValue, branded, utf8, law_branding_leaves_no_brand, lemma_branded_not_phrase};
use crate::literal::count_matches;

verus! {

/// A string with no brand left: no CurseForge, curseforge or CURSEFORGE in
/// it, and neither of the two phrases that are rewritten whole.
pub open spec fn brand_free_text(t: Seq<u8>) -> bool {
    &&& count_matches(t, utf8("CurseForge"@)) == 0
    &&& count_matches(t, utf8("curseforge"@)) == 0
    &&& count_matches(t, utf8("CURSEFORGE"@)) == 0
    &&& t != utf8("Ads support authors"@)
    &&& t != utf8("Show Intro"@)
}

/// Every string anywhere in `v` has no brand left (see `brand_free_text`).
pub open spec fn brand_free(v: JsonValue) -> bool
    decreases v,
{
    match v {
        JsonValue::Str(x) => brand_free_text(x@),
        JsonValue::Array(xs) => forall|i: int| 0 <= i < xs@.len() ==> brand_free(#[trigger] xs@[i]),
        JsonValue::Object(xs) => forall|i: int| 0 <= i < xs@.len() ==> brand_free(#[trigger] xs@[i].1),
        _ => true,
    }
}

/// Law: after rebranding no string anywhere in the value holds a brand
/// word or is one of the two phrases rewritten whole.
pub proof fn law_rebranded_tree_is_brand_free(v: JsonValue, w: JsonValue)
    requires
        branded(v, w),
    ensures
        brand_free(w),
    decreases v,
{
    match v {
        JsonValue::Str(x) => {
            law_branding_leaves_no_brand(x@);
            lemma_branded_not_phrase(x@);
        },
        JsonValue::Array(xs) => {
            let ws = w->Array_0;
            assert forall|i: int| 0 <= i < ws@.len() implies brand_free(#[trigger] ws@[i]) by {
                assert(decreases_to!(v => v->Array_0));
                assert(decreases_to!(xs => xs@));
                assert(decreases_to!(xs@ => xs@[i]));
                assert(branded(xs@[i], ws@[i]));
                law_rebranded_tree_is_brand_free(xs@[i], ws@[i]);
            }
        },
        JsonValue::Object(xs) => {
            assert(w is Object);
            let ws = w->Object_0;
            assert(branded(v, w));
            assert(w == JsonValue::Object(ws));
            assert forall|i: int| 0 <= i < ws@.len() implies brand_free(#[trigger] ws@[i].1) by {
                assert(decreases_to!(v => v->Object_0));
                assert(decreases_to!(xs => xs@));
                assert(decreases_to!(xs@ => xs@[i]));
                assert(decreases_to!(xs@[i] => xs@[i].1));
                assert(xs@[i].0@ == ws@[i].0@);
                assert(branded(xs@[i].1, ws@[i].1));
                law_rebranded_tree_is_brand_free(xs@[i].1, ws@[i].1);
            }
        },
        _ => {},
    }
}

} // verus!
