//! Strips known Whisper silence-hallucinations from raw speech-to-text output.
//!
//! On silence Whisper emits phantom captions learnt from Russian subtitle
//! boilerplate — overwhelmingly "Продолжение следует..." — either as the whole
//! "transcript" or tacked onto the end of a real dictation. They are cut here,
//! on the raw text, before the editor or the vocabulary pass runs.

use vstd::prelude::*;

use crate::text;

verus! {

/// The phrase Whisper invents on silence, lowercase, without trailing dots.
pub const PHANTOM: &'static str = "продолжение следует";

/// Phrases Whisper invents on silence (lowercase, no trailing dots).
pub open spec fn phantoms() -> Seq<Seq<char>> {
    seq![PHANTOM@]
}

/// The same list, to iterate over.
pub fn phantom_list() -> (v: Vec<&'static str>)
    ensures
        v@.len() == phantoms().len(),
        forall|i: int| 0 <= i < v@.len() ==> (#[trigger] v@[i])@ == phantoms()[i],
{
    let mut v: Vec<&'static str> = Vec::new();
    v.push(PHANTOM);
    v
}

/// Trailing separators a phantom drags along: ellipsis, dots, whitespace.
pub open spec fn is_tail(c: char) -> bool {
    c == '.' || c == '…' || c == ' ' || c == '\t' || c == '\n' || c == '\r'
}

/// `s` without its trailing separators.
pub open spec fn trim_tail(s: Seq<char>) -> Seq<char>
    decreases s.len(),
{
    if s.len() > 0 && is_tail(s.last()) {
        trim_tail(s.drop_last())
    } else {
        s
    }
}

/// How many characters of `cleaned` remain once a phantom of `plen`
/// characters is dropped from its end. Lowercasing keeps Cyrillic one
/// character per character, so the phantom covers as many characters of
/// `cleaned` as it has; should lowercasing have lengthened the text so that
/// the phantom is longer than `cleaned` itself, nothing is cut.
pub open spec fn kept(clen: nat, plen: nat) -> int {
    if clen >= plen {
        clen - plen
    } else {
        clen as int
    }
}

/// The result of checking phantoms `ps[k..]` against `t`.
pub open spec fn strip_from(t: Seq<char>, ps: Seq<Seq<char>>, k: int) -> Seq<char>
    decreases ps.len() - k,
{
    if k < 0 || k >= ps.len() {
        t
    } else {
        let cleaned = trim_tail(t);
        let probe = text::lowercase(cleaned);
        let p = ps[k];
        if probe == p {
            seq![]
        } else if text::ends_with(probe, p) {
            text::trim_end(cleaned.subrange(0, kept(cleaned.len(), p.len())))
        } else {
            strip_from(t, ps, k + 1)
        }
    }
}

/// What [`strip`] returns for `t`.
pub open spec fn strip_spec(t: Seq<char>) -> Seq<char> {
    strip_from(t, phantoms(), 0)
}

/// `trim_tail` keeps a prefix.
pub proof fn lemma_trim_tail_prefix(s: Seq<char>)
    ensures
        trim_tail(s).len() <= s.len(),
        trim_tail(s) == s.subrange(0, trim_tail(s).len() as int),
    decreases s.len(),
{
    if s.len() > 0 && is_tail(s.last()) {
        lemma_trim_tail_prefix(s.drop_last());
        assert(s.drop_last().subrange(0, trim_tail(s).len() as int) =~= s.subrange(
            0,
            trim_tail(s).len() as int,
        ));
    } else {
        assert(s.subrange(0, s.len() as int) =~= s);
    }
}

fn char_is_tail(c: char) -> (b: bool)
    ensures
        b == is_tail(c),
{
    c == '.' || c == '…' || c == ' ' || c == '\t' || c == '\n' || c == '\r'
}

/// The end index of `trim_tail(v)`.
fn trim_tail_index(v: &[char]) -> (k: usize)
    ensures
        k <= v@.len(),
        v@.subrange(0, k as int) == trim_tail(v@),
{
    let mut k = v.len();
    assert(v@.subrange(0, k as int) =~= v@);
    while k > 0 && char_is_tail(v[k - 1])
        invariant
            k <= v@.len(),
            trim_tail(v@.subrange(0, k as int)) == trim_tail(v@),
        decreases k,
    {
        assert(v@.subrange(0, k as int).drop_last() =~= v@.subrange(0, k - 1));
        k = k - 1;
    }
    k
}

/// Remove a trailing phantom phrase, or return "" when the text is nothing
/// but one. Returns the text unchanged when no phantom is present.
/// Matching is case-insensitive and ignores trailing dots, ellipses and
/// whitespace; after the cut only whitespace is trimmed, so the real
/// sentence's own period survives.
pub fn strip(t: &str) -> (r: String)
    ensures
        r@ == strip_spec(t@),
{
    let v = text::chars_of(t);
    let e = trim_tail_index(&v);
    let cleaned = text::string_of_range(&v, 0, e);
    let probe = text::to_lowercase(cleaned.as_str());
    let pv = text::chars_of(probe.as_str());
    let ps = phantom_list();
    let mut k: usize = 0;
    while k < ps.len()
        invariant
            ps@.len() == phantoms().len(),
            forall|i: int| 0 <= i < ps@.len() ==> (#[trigger] ps@[i])@ == phantoms()[i],
            v@ == t@,
            v@.subrange(0, e as int) == trim_tail(t@),
            e <= v@.len(),
            pv@ == text::lowercase(trim_tail(t@)),
            k <= ps@.len(),
            strip_from(t@, phantoms(), k as int) == strip_spec(t@),
        decreases ps.len() - k,
    {
        let p = text::chars_of(ps[k]);
        assert(p@ == phantoms()[k as int]);
        if pv.len() == p.len() && text::slice_starts_with(&pv, &p) {
            assert(pv@ =~= p@) by {
                assert(pv@.subrange(0, p@.len() as int) =~= pv@);
            }
            return String::new();
        }
        if text::slice_ends_with(&pv, &p) {
            let keep = if e >= p.len() {
                e - p.len()
            } else {
                e
            };
            let h = text::trim_end_index(&v, 0, keep);
            assert(v@.subrange(0, e as int).subrange(0, keep as int) =~= v@.subrange(
                0,
                keep as int,
            ));
            return text::string_of_range(&v, 0, h);
        }
        proof {
            if pv@ == p@ {
                assert(pv@.subrange(0, p@.len() as int) =~= pv@);
            }
        }
        k = k + 1;
    }
    text::string_of(&v)
}

/// Stripping only ever cuts the end of the text: the result is always a
/// prefix of the input.
pub proof fn law_strip_keeps_a_prefix(t: Seq<char>)
    ensures
        strip_spec(t).len() <= t.len(),
        strip_spec(t) == t.subrange(0, strip_spec(t).len() as int),
{
    lemma_trim_tail_prefix(t);
    let cleaned = trim_tail(t);
    let probe = text::lowercase(cleaned);
    let p = phantoms()[0];
    if probe == p {
        assert(strip_spec(t) =~= t.subrange(0, 0));
    } else if text::ends_with(probe, p) {
        let head = cleaned.subrange(0, kept(cleaned.len(), p.len()));
        text::lemma_trim_end_prefix(head);
        let r = text::trim_end(head);
        assert(r =~= t.subrange(0, r.len() as int));
    } else {
        assert(strip_from(t, phantoms(), 1) == t);
        assert(t.subrange(0, t.len() as int) =~= t);
    }
}

/// Text whose end (case-insensitively, past trailing dots and whitespace)
/// is no phantom comes back exactly as it went in.
pub proof fn law_clean_text_is_untouched(t: Seq<char>)
    requires
        forall|i: int|
            0 <= i < phantoms().len() ==> !text::ends_with(
                text::lowercase(trim_tail(t)),
                #[trigger] phantoms()[i],
            ),
    ensures
        strip_spec(t) == t,
{
    let probe = text::lowercase(trim_tail(t));
    assert(!text::ends_with(probe, phantoms()[0]));
    if probe == phantoms()[0] {
        assert(probe.subrange(0, probe.len() as int) =~= probe);
    }
    assert(strip_from(t, phantoms(), 1) == t);
}

} // verus!
