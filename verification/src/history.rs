//! The transcript history on disk: one JSON-lines file per day, kept for a
//! rolling window of days, read back newest first.
//!
//! The shell lists the files, reads the lines and parses them; which files
//! go, and in which order the entries come back, is decided here.

use vstd::prelude::*;

use crate::text;

verus! {

/// How many day-files the window keeps: today and the `days - 1` before it,
/// and never fewer than today.
pub fn window_days(days: i64) -> (n: i64)
    ensures
        n == (if days < 1 {
            1
        } else {
            days
        }),
{
    if days < 1 {
        1
    } else {
        days
    }
}

/// A file in the log folder goes when it is a day-file (`.jsonl`) that starts
/// with none of the kept dates.
pub open spec fn expired_spec(name: Seq<char>, keep: Seq<Seq<char>>) -> bool {
    text::ends_with(name, ".jsonl"@) && forall|i: int| 0 <= i < keep.len() ==> !text::starts_with(name, #[trigger] keep[i])
}

/// Whether the file `name` falls outside the retention window.
pub fn is_expired_log(name: &str, keep: &Vec<String>) -> (b: bool)
    ensures
        b == expired_spec(name@, keep@.map_values(|k: String| k@)),
{
    let ghost kv = keep@.map_values(|k: String| k@);
    let n = text::chars_of(name);
    let ext = text::chars_of(".jsonl");
    if !text::slice_ends_with(n.as_slice(), ext.as_slice()) {
        return false;
    }
    let mut i: usize = 0;
    while i < keep.len()
        invariant
            kv == keep@.map_values(|k: String| k@),
            n@ == name@,
            0 <= i <= kv.len(),
            forall|j: int| 0 <= j < i ==> !text::starts_with(name@, #[trigger] kv[j]),
        decreases keep.len() - i,
    {
        let k = text::chars_of(keep[i].as_str());
        assert(k@ == kv[i as int]);
        if text::slice_starts_with(n.as_slice(), k.as_slice()) {
            return false;
        }
        i = i + 1;
    }
    true
}

/// A day-file of a kept date is never deleted, whichever of the kept dates it
/// is (the oldest of the window as much as today); a day-file of no kept date
/// always is.
pub proof fn law_kept_days_stay(name: Seq<char>, keep: Seq<Seq<char>>)
    ensures
        (exists|i: int| 0 <= i < keep.len() && text::starts_with(name, #[trigger] keep[i]))
            ==> !expired_spec(name, keep),
        forall|i: int| 0 <= i < keep.len() ==> !expired_spec(#[trigger] keep[i] + ".jsonl"@, keep),
        (text::ends_with(name, ".jsonl"@) && forall|i: int| 0 <= i < keep.len() ==> !text::starts_with(name, #[trigger] keep[i]))
            ==> expired_spec(name, keep),
{
    assert forall|i: int| 0 <= i < keep.len() implies !expired_spec(#[trigger] keep[i] + ".jsonl"@, keep) by {
        let f = keep[i] + ".jsonl"@;
        assert(f.subrange(0, keep[i].len() as int) =~= keep[i]);
        assert(text::starts_with(f, keep[i]));
    }
}

/// `a` sorts strictly before `b`, character by character (the order `str`
/// comparison gives: UTF-8 preserves the order of code points).
pub open spec fn lex_lt(a: Seq<char>, b: Seq<char>) -> bool
    decreases a.len(),
{
    if a.len() == 0 {
        b.len() > 0
    } else if b.len() == 0 {
        false
    } else if a[0] != b[0] {
        (a[0] as u32) < (b[0] as u32)
    } else {
        lex_lt(a.drop_first(), b.drop_first())
    }
}

fn str_lt(a: &str, b: &str) -> (r: bool)
    ensures
        r == lex_lt(a@, b@),
{
    let x = text::chars_of(a);
    let y = text::chars_of(b);
    let mut i: usize = 0;
    assert(a@.subrange(0, a@.len() as int) =~= a@);
    assert(b@.subrange(0, b@.len() as int) =~= b@);
    while i < x.len() && i < y.len() && x[i] == y[i]
        invariant
            x@ == a@,
            y@ == b@,
            0 <= i <= x@.len(),
            i <= y@.len(),
            lex_lt(a@, b@) == lex_lt(a@.subrange(i as int, a@.len() as int), b@.subrange(i as int, b@.len() as int)),
        decreases x.len() - i,
    {
        let ghost sa = a@.subrange(i as int, a@.len() as int);
        let ghost sb = b@.subrange(i as int, b@.len() as int);
        assert(sa.drop_first() =~= a@.subrange(i + 1, a@.len() as int));
        assert(sb.drop_first() =~= b@.subrange(i + 1, b@.len() as int));
        i = i + 1;
    }
    let ghost sa = a@.subrange(i as int, a@.len() as int);
    let ghost sb = b@.subrange(i as int, b@.len() as int);
    if i == x.len() {
        i < y.len()
    } else if i == y.len() {
        false
    } else {
        assert(sa[0] == x@[i as int] && sb[0] == y@[i as int]);
        (x[i] as u32) < (y[i] as u32)
    }
}

/// Where entry `x`'s timestamp goes in an order that is newest first: after
/// every entry at least as new (entries with equal timestamps keep their file
/// order).
pub open spec fn newer_prefix(order: Seq<int>, ts: Seq<Seq<char>>, x: Seq<char>) -> nat
    decreases order.len(),
{
    if order.len() == 0 {
        0
    } else if !lex_lt(ts[order[0]], x) {
        1 + newer_prefix(order.drop_first(), ts, x)
    } else {
        0
    }
}

/// The positions of the entries of `ts`, newest timestamp first; equal
/// timestamps keep their order.
pub open spec fn newest_first_spec(ts: Seq<Seq<char>>) -> Seq<int>
    decreases ts.len(),
{
    if ts.len() == 0 {
        seq![]
    } else {
        let o = newest_first_spec(ts.drop_last());
        o.insert(newer_prefix(o, ts, ts.last()) as int, ts.len() - 1)
    }
}

proof fn lemma_newer_prefix_le(order: Seq<int>, ts: Seq<Seq<char>>, x: Seq<char>)
    ensures
        newer_prefix(order, ts, x) <= order.len(),
    decreases order.len(),
{
    if order.len() > 0 {
        lemma_newer_prefix_le(order.drop_first(), ts, x);
    }
}

/// `ts[i]` depends only on the first `n` timestamps for the positions the
/// order over them holds.
proof fn lemma_newer_prefix_take(order: Seq<int>, ts: Seq<Seq<char>>, n: int, x: Seq<char>)
    requires
        0 <= n <= ts.len(),
        forall|k: int| 0 <= k < order.len() ==> 0 <= #[trigger] order[k] < n,
    ensures
        newer_prefix(order, ts, x) == newer_prefix(order, ts.take(n), x),
    decreases order.len(),
{
    if order.len() > 0 {
        lemma_newer_prefix_take(order.drop_first(), ts, n, x);
    }
}

proof fn lemma_newest_first_range(ts: Seq<Seq<char>>)
    ensures
        newest_first_spec(ts).len() == ts.len(),
        forall|k: int| 0 <= k < ts.len() ==> 0 <= #[trigger] newest_first_spec(ts)[k] < ts.len(),
    decreases ts.len(),
{
    if ts.len() > 0 {
        lemma_newest_first_range(ts.drop_last());
        let o = newest_first_spec(ts.drop_last());
        lemma_newer_prefix_le(o, ts, ts.last());
        let p = newer_prefix(o, ts, ts.last()) as int;
        let r = o.insert(p, ts.len() - 1);
        assert forall|k: int| 0 <= k < ts.len() implies 0 <= #[trigger] r[k] < ts.len() by {
            if k < p {
                assert(r[k] == o[k]);
            } else if k > p {
                assert(r[k] == o[k - 1]);
            }
        }
    }
}

/// The order in which history entries are shown: newest timestamp first (a
/// stable sort, so entries with equal timestamps keep their file order), at
/// most `limit` of them. Returns positions into `ts`.
pub fn newest_first(ts: &Vec<String>, limit: usize) -> (r: Vec<usize>)
    ensures
        ({
            let o = newest_first_spec(ts@.map_values(|t: String| t@));
            &&& r@.len() == if limit < o.len() {
                limit as int
            } else {
                o.len() as int
            }
            &&& forall|k: int| 0 <= k < r@.len() ==> r@[k] as int == #[trigger] o[k]
        }),
{
    let ghost tv = ts@.map_values(|t: String| t@);
    let mut order: Vec<usize> = Vec::new();
    let mut k: usize = 0;
    while k < ts.len()
        invariant
            tv == ts@.map_values(|t: String| t@),
            0 <= k <= tv.len(),
            order@.len() == k,
            order@.map_values(|i: usize| i as int) == newest_first_spec(tv.take(k as int)),
        decreases ts.len() - k,
    {
        let ghost ov = order@.map_values(|i: usize| i as int);
        let ghost tk = tv.take(k + 1);
        assert(tk.drop_last() =~= tv.take(k as int));
        assert(tk.last() == tv[k as int]);
        proof {
            lemma_newest_first_range(tv.take(k as int));
            lemma_newer_prefix_take(ov, tk, k as int, tv[k as int]);
            assert(tk.take(k as int) =~= tv.take(k as int));
        }
        let mut p: usize = 0;
        assert(ov.subrange(0, ov.len() as int) =~= ov);
        while p < order.len() && !str_lt(ts[order[p]].as_str(), ts[k].as_str())
            invariant
                tv == ts@.map_values(|t: String| t@),
                0 <= k < tv.len(),
                ov == order@.map_values(|i: usize| i as int),
                forall|j: int| 0 <= j < ov.len() ==> 0 <= #[trigger] ov[j] < k,
                0 <= p <= order@.len(),
                newer_prefix(ov, tk, tv[k as int]) == p + newer_prefix(ov.subrange(p as int, ov.len() as int), tk, tv[k as int]),
                tk == tv.take(k + 1),
            decreases order.len() - p,
        {
            let ghost rest = ov.subrange(p as int, ov.len() as int);
            assert(rest.drop_first() =~= ov.subrange(p + 1, ov.len() as int));
            assert(rest[0] == ov[p as int]);
            assert(tk[ov[p as int]] == tv[ov[p as int]]);
            assert(ts@[order@[p as int] as int]@ == tv[ov[p as int]]);
            p = p + 1;
        }
        proof {
            let rest = ov.subrange(p as int, ov.len() as int);
            if p < order@.len() {
                assert(rest[0] == ov[p as int]);
                assert(tk[ov[p as int]] == tv[ov[p as int]]);
                assert(ts@[order@[p as int] as int]@ == tv[ov[p as int]]);
            }
        }
        order.insert(p, k);
        assert(order@.map_values(|i: usize| i as int) =~= ov.insert(p as int, k as int));
        k = k + 1;
    }
    assert(tv.take(k as int) =~= tv);
    let n = if limit < order.len() {
        limit
    } else {
        order.len()
    };
    let mut r: Vec<usize> = Vec::new();
    let mut i: usize = 0;
    while i < n
        invariant
            0 <= i <= n <= order@.len(),
            r@.len() == i,
            forall|j: int| 0 <= j < i ==> r@[j] == order@[j],
        decreases n - i,
    {
        r.push(order[i]);
        i = i + 1;
    }
    proof {
        let o = newest_first_spec(tv);
        assert forall|j: int| 0 <= j < r@.len() implies r@[j] as int == #[trigger] o[j] by {
            assert(order@.map_values(|i: usize| i as int)[j] == order@[j] as int);
        }
    }
    r
}

proof fn lemma_lex_asym(a: Seq<char>, b: Seq<char>)
    ensures
        lex_lt(a, b) ==> !lex_lt(b, a),
    decreases a.len(),
{
    if a.len() > 0 && b.len() > 0 && a[0] == b[0] {
        lemma_lex_asym(a.drop_first(), b.drop_first());
    }
}

proof fn lemma_lex_trans(a: Seq<char>, b: Seq<char>, c: Seq<char>)
    ensures
        lex_lt(a, b) && lex_lt(b, c) ==> lex_lt(a, c),
    decreases a.len(),
{
    if a.len() > 0 && b.len() > 0 && c.len() > 0 {
        lemma_lex_trans(a.drop_first(), b.drop_first(), c.drop_first());
    }
}

proof fn lemma_lex_total(a: Seq<char>, b: Seq<char>)
    ensures
        a != b ==> lex_lt(a, b) || lex_lt(b, a),
    decreases a.len(),
{
    if a.len() > 0 && b.len() > 0 {
        if a[0] == b[0] {
            lemma_lex_total(a.drop_first(), b.drop_first());
            if a.drop_first() == b.drop_first() {
                assert(a =~= seq![a[0]] + a.drop_first());
                assert(b =~= seq![b[0]] + b.drop_first());
            }
        } else {
            vstd::utf8::char_u32_cast(a[0], a[0] as u32);
            vstd::utf8::char_u32_cast(b[0], b[0] as u32);
            assert((a[0] as u32) != (b[0] as u32));
        }
    } else if a.len() == 0 && b.len() == 0 {
        assert(a =~= b);
    }
}

/// Entries ordered newest first: no entry is older than one after it.
pub open spec fn newest_first_ordered(order: Seq<int>, ts: Seq<Seq<char>>) -> bool {
    forall|j: int, k: int| 0 <= j < k < order.len() ==> !lex_lt(ts[#[trigger] order[j]], ts[#[trigger] order[k]])
}

proof fn lemma_newer_prefix_props(order: Seq<int>, ts: Seq<Seq<char>>, x: Seq<char>)
    ensures
        newer_prefix(order, ts, x) <= order.len(),
        forall|i: int| 0 <= i < newer_prefix(order, ts, x) ==> !lex_lt(ts[#[trigger] order[i]], x),
        newer_prefix(order, ts, x) < order.len() ==> lex_lt(ts[order[newer_prefix(order, ts, x) as int]], x),
    decreases order.len(),
{
    if order.len() > 0 && !lex_lt(ts[order[0]], x) {
        lemma_newer_prefix_props(order.drop_first(), ts, x);
        assert forall|i: int| 0 <= i < newer_prefix(order, ts, x) implies !lex_lt(ts[#[trigger] order[i]], x) by {
            if i > 0 {
                assert(order[i] == order.drop_first()[i - 1]);
            }
        }
        if newer_prefix(order, ts, x) < order.len() {
            assert(order[newer_prefix(order, ts, x) as int] == order.drop_first()[newer_prefix(order, ts, x) - 1]);
        }
    }
}

/// The history is shown newest first: [`newest_first`] lists every entry
/// once, each no older than the ones after it.
pub proof fn law_history_is_newest_first(ts: Seq<Seq<char>>)
    ensures
        newest_first_spec(ts).len() == ts.len(),
        newest_first_ordered(newest_first_spec(ts), ts),
    decreases ts.len(),
{
    lemma_newest_first_range(ts);
    if ts.len() > 0 {
        let prev = ts.drop_last();
        law_history_is_newest_first(prev);
        lemma_newest_first_range(prev);
        let o = newest_first_spec(prev);
        let x = ts.last();
        lemma_newer_prefix_take(o, ts, prev.len() as int, x);
        assert(ts.take(prev.len() as int) =~= prev);
        lemma_newer_prefix_props(o, ts, x);
        let p = newer_prefix(o, ts, x) as int;
        let r = o.insert(p, ts.len() - 1);
        assert forall|i: int| 0 <= i < o.len() implies ts[#[trigger] o[i]] == prev[o[i]] by {
        }
        assert forall|j: int, k: int| 0 <= j < k < r.len() implies !lex_lt(ts[#[trigger] r[j]], ts[#[trigger] r[k]]) by {
            if k < p {
                assert(r[j] == o[j] && r[k] == o[k]);
                assert(!lex_lt(prev[o[j]], prev[o[k]]));
            } else if k == p {
                assert(r[j] == o[j] && r[k] == ts.len() - 1);
            } else if j > p {
                assert(r[j] == o[j - 1] && r[k] == o[k - 1]);
                assert(!lex_lt(prev[o[j - 1]], prev[o[k - 1]]));
            } else if j == p {
                assert(r[j] == ts.len() - 1 && r[k] == o[k - 1]);
                let a = ts[o[p]];
                let c = ts[o[k - 1]];
                assert(lex_lt(a, x));
                if k - 1 > p {
                    assert(!lex_lt(prev[o[p]], prev[o[k - 1]]));
                    lemma_lex_total(a, c);
                    lemma_lex_trans(c, a, x);
                }
                lemma_lex_asym(c, x);
            } else {
                assert(r[j] == o[j] && r[k] == o[k - 1]);
                assert(!lex_lt(prev[o[j]], prev[o[k - 1]]));
            }
        }
    }
}

} // verus!
