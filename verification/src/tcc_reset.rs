//! When to clear stale macOS privacy grants: only when the app's code-signing
//! identity changes (the ad-hoc → certificate switch), never on a guess.
//!
//! The shell runs `codesign -dvvv` on its own binary and hands the metadata
//! it printed to [`signing_identity`]; [`needs_reset`] compares the result
//! with the identity recorded at the last launch.

use vstd::prelude::*;

use crate::postprocess;
use crate::shell::lines_spec;
use crate::text;

verus! {

/// The signing identity in `codesign` metadata: the first `Authority=` line
/// (trimmed), else "adhoc" when the metadata says `Signature=adhoc`, else
/// empty (unknown).
pub open spec fn signing_spec(meta: Seq<char>) -> Seq<char> {
    let ls = lines_spec(meta);
    let pre = "Authority="@;
    if exists|i: int| 0 <= i < ls.len() && text::starts_with(#[trigger] ls[i], pre) {
        let i = choose|i: int|
            0 <= i < ls.len() && text::starts_with(#[trigger] ls[i], pre) && forall|j: int|
                0 <= j < i ==> !text::starts_with(#[trigger] ls[j], pre);
        text::trim(ls[i].subrange(pre.len() as int, ls[i].len() as int))
    } else if postprocess::contains(meta, "Signature=adhoc"@) {
        "adhoc"@
    } else {
        seq![]
    }
}

/// The signing identity `codesign` reported.
pub fn signing_identity(meta: &str) -> (r: String)
    ensures
        r@ == signing_spec(meta@),
{
    let ls = crate::shell::lines(meta);
    let ghost lv = ls@.map_values(|l: Vec<char>| l@);
    let pre = text::chars_of("Authority=");
    let mut i: usize = 0;
    while i < ls.len()
        invariant
            lv == ls@.map_values(|l: Vec<char>| l@),
            lv == lines_spec(meta@),
            pre@ == "Authority="@,
            0 <= i <= lv.len(),
            forall|j: int| 0 <= j < i ==> !text::starts_with(#[trigger] lv[j], "Authority="@),
        decreases ls.len() - i,
    {
        assert(ls@[i as int]@ == lv[i as int]);
        if text::slice_starts_with(ls[i].as_slice(), pre.as_slice()) {
            proof {
                let p = "Authority="@;
                assert(0 <= i < lv.len() && text::starts_with(lv[i as int], p) && forall|j: int|
                    0 <= j < i ==> !text::starts_with(#[trigger] lv[j], p));
                let k = choose|k: int|
                    0 <= k < lv.len() && text::starts_with(#[trigger] lv[k], p) && forall|j: int|
                        0 <= j < k ==> !text::starts_with(#[trigger] lv[j], p);
                assert(k == i as int) by {
                    if k > i {
                        assert(!text::starts_with(lv[i as int], p));
                    }
                }
            }
            let (b, e) = text::trim_range(ls[i].as_slice(), pre.len(), ls[i].len());
            return text::string_of_range(ls[i].as_slice(), b, e);
        }
        i = i + 1;
    }
    if postprocess::str_contains(meta, "Signature=adhoc") {
        String::from_str("adhoc")
    } else {
        String::new()
    }
}

/// Reset the grants only when the identity is known and differs from the one
/// recorded last time; an unreadable identity never triggers a reset.
pub fn needs_reset(saved: &str, signing_id: &str) -> (b: bool)
    ensures
        b == (signing_id@.len() > 0 && saved@ != signing_id@),
{
    text::chars_of(signing_id).len() > 0 && !text::str_eq(saved, signing_id)
}

} // verus!
