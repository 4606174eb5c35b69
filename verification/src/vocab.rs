//! The user's vocabulary: a mandatory replacement table of the form
//! `target → [alias, ...]`, applied to every transcript.
//!
//! Aliases match case-insensitively and on whole words. Multi-word aliases
//! (those with a space) are replaced first, longest first, as phrases; then
//! every word is looked up among the single-word aliases. The replacement
//! takes the case pattern of the text it replaces ("Деф" → "Dev").
//!
//! Positions are character positions: where lowercasing the whole text would
//! change its number of characters ("İ" lowercases to two), the phrases are
//! searched in the text lowercased one character at a time instead.

use vstd::prelude::*;

use crate::text;

verus! {

/// One vocabulary entry: the canonical spelling and the ways it gets misheard.
#[derive(Debug, Clone)]
pub struct VocabEntry {
    pub target: String,
    pub aliases: Vec<String>,
}

/// The vocabulary as plain values: (target, aliases) per entry, in order.
pub open spec fn vocab_view(v: Seq<VocabEntry>) -> Seq<(Seq<char>, Seq<Seq<char>>)> {
    v.map_values(|e: VocabEntry| (e.target@, e.aliases@.map_values(|a: String| a@)))
}

/// One row of the inverted table: lowercase alias → target.
#[derive(Debug, Clone)]
pub struct Alias {
    pub key: String,
    pub target: String,
}

pub open spec fn alias_view(a: Alias) -> (Seq<char>, Seq<char>) {
    (a.key@, a.target@)
}

pub open spec fn aliases_view(l: Seq<Alias>) -> Seq<(Seq<char>, Seq<char>)> {
    l.map_values(|a: Alias| alias_view(a))
}

// ---------------------------------------------------------------------------
// Case transfer.
// ---------------------------------------------------------------------------

/// Every character is uppercase or not a letter at all.
pub open spec fn all_caps(s: Seq<char>) -> bool {
    forall|i: int| 0 <= i < s.len() ==> text::is_uppercase(#[trigger] s[i]) || !text::is_alphabetic(s[i])
}

/// `target` with the case pattern of `source`: ALL CAPS, Title case, or as
/// written.
pub open spec fn match_case_spec(source: Seq<char>, target: Seq<char>) -> Seq<char> {
    if all_caps(source) {
        text::uppercase(target)
    } else if source.len() > 0 && text::is_uppercase(source[0]) {
        if target.len() == 0 {
            seq![]
        } else {
            text::char_uppercase(target[0]) + target.drop_first()
        }
    } else {
        target
    }
}

/// Transfer the case pattern of `source` onto `target`:
/// "Деф" → "Dev", "ДЕФ" → "DEV", "деф" → "dev".
pub fn match_case(source: &str, target: &str) -> (r: String)
    ensures
        r@ == match_case_spec(source@, target@),
{
    let s = text::chars_of(source);
    let mut caps = true;
    let mut i: usize = 0;
    while i < s.len()
        invariant
            s@ == source@,
            0 <= i <= s@.len(),
            caps == (forall|j: int|
                0 <= j < i ==> text::is_uppercase(#[trigger] s@[j]) || !text::is_alphabetic(s@[j])),
        decreases s.len() - i,
    {
        let c = s[i];
        if !(text::char_is_uppercase(c) || !text::char_is_alphabetic(c)) {
            caps = false;
        }
        i = i + 1;
    }
    if caps {
        text::to_uppercase(target)
    } else if s.len() > 0 && text::char_is_uppercase(s[0]) {
        let t = text::chars_of(target);
        if t.len() == 0 {
            String::new()
        } else {
            let mut r = text::char_to_uppercase(t[0]);
            text::push_range(&mut r, &t, 1, t.len());
            assert(t@.subrange(1, t@.len() as int) =~= target@.drop_first());
            r
        }
    } else {
        String::from_str(target)
    }
}

// ---------------------------------------------------------------------------
// The inverted table.
// ---------------------------------------------------------------------------

/// Every (alias, target) pair of the vocabulary, in order.
pub open spec fn alias_pairs(v: Seq<(Seq<char>, Seq<Seq<char>>)>) -> Seq<(Seq<char>, Seq<char>)>
    decreases v.len(),
{
    if v.len() == 0 {
        seq![]
    } else {
        alias_pairs(v.drop_last()) + v.last().1.map_values(|a: Seq<char>| (a, v.last().0))
    }
}

pub open spec fn has_key(l: Seq<(Seq<char>, Seq<char>)>, k: Seq<char>) -> bool {
    exists|i: int| 0 <= i < l.len() && (#[trigger] l[i]).0 == k
}

pub open spec fn unique_keys(l: Seq<(Seq<char>, Seq<char>)>) -> bool {
    forall|i: int, j: int| 0 <= i < l.len() && 0 <= j < l.len() && i != j ==> (#[trigger] l[i]).0 != (#[trigger] l[j]).0
}

/// Insert `k → t`, replacing the target of an existing `k`.
pub open spec fn insert_key(l: Seq<(Seq<char>, Seq<char>)>, k: Seq<char>, t: Seq<char>) -> Seq<(Seq<char>, Seq<char>)> {
    if has_key(l, k) {
        l.update(choose|i: int| 0 <= i < l.len() && (#[trigger] l[i]).0 == k, (k, t))
    } else {
        l.push((k, t))
    }
}

/// The table built from `pairs`: lowercase alias → target; a later pair for
/// the same alias wins.
pub open spec fn build(pairs: Seq<(Seq<char>, Seq<char>)>) -> Seq<(Seq<char>, Seq<char>)>
    decreases pairs.len(),
{
    if pairs.len() == 0 {
        seq![]
    } else {
        insert_key(build(pairs.drop_last()), text::lowercase(pairs.last().0), pairs.last().1)
    }
}

/// The inverted table of a vocabulary.
pub open spec fn lookup_spec(v: Seq<(Seq<char>, Seq<char>)>) -> Seq<(Seq<char>, Seq<char>)> {
    build(v)
}

proof fn lemma_insert_key_unique(l: Seq<(Seq<char>, Seq<char>)>, k: Seq<char>, t: Seq<char>)
    requires
        unique_keys(l),
    ensures
        unique_keys(insert_key(l, k, t)),
        has_key(insert_key(l, k, t), k),
{
    if has_key(l, k) {
        let i = choose|i: int| 0 <= i < l.len() && (#[trigger] l[i]).0 == k;
        let m = l.update(i, (k, t));
        assert(m[i].0 == k);
        assert forall|a: int, b: int| 0 <= a < m.len() && 0 <= b < m.len() && a != b implies (
        #[trigger] m[a]).0 != (#[trigger] m[b]).0 by {
            if a != i && b != i {
                assert(l[a].0 != l[b].0);
            } else if a == i {
                assert(l[i].0 != l[b].0);
            } else {
                assert(l[a].0 != l[i].0);
            }
        }
    } else {
        let m = l.push((k, t));
        assert(m[l.len() as int].0 == k);
        assert forall|a: int, b: int| 0 <= a < m.len() && 0 <= b < m.len() && a != b implies (
        #[trigger] m[a]).0 != (#[trigger] m[b]).0 by {
            if a < l.len() && b < l.len() {
                assert(l[a].0 != l[b].0);
            } else if a < l.len() {
                assert(l[a].0 != k);
            } else {
                assert(l[b].0 != k);
            }
        }
    }
}

proof fn lemma_build_unique(pairs: Seq<(Seq<char>, Seq<char>)>)
    ensures
        unique_keys(build(pairs)),
    decreases pairs.len(),
{
    if pairs.len() > 0 {
        lemma_build_unique(pairs.drop_last());
        lemma_insert_key_unique(build(pairs.drop_last()), text::lowercase(pairs.last().0), pairs.last().1);
    }
}

/// All (alias, target) pairs of `vocab`, in order.
fn collect_pairs(vocab: &[VocabEntry]) -> (r: Vec<Alias>)
    ensures
        aliases_view(r@) == alias_pairs(vocab_view(vocab@)),
{
    let mut r: Vec<Alias> = Vec::new();
    let ghost vv = vocab_view(vocab@);
    let mut i: usize = 0;
    while i < vocab.len()
        invariant
            vv == vocab_view(vocab@),
            0 <= i <= vocab@.len(),
            aliases_view(r@) == alias_pairs(vv.take(i as int)),
        decreases vocab.len() - i,
    {
        let e = &vocab[i];
        let ghost before = aliases_view(r@);
        let mut j: usize = 0;
        while j < e.aliases.len()
            invariant
                vv == vocab_view(vocab@),
                0 <= i < vocab@.len(),
                e == vocab@[i as int],
                0 <= j <= e.aliases@.len(),
                aliases_view(r@) == before + vv[i as int].1.take(j as int).map_values(
                    |a: Seq<char>| (a, vv[i as int].0),
                ),
            decreases e.aliases.len() - j,
        {
            let a = Alias { key: e.aliases[j].clone(), target: e.target.clone() };
            let ghost old_r = r@;
            r.push(a);
            assert(aliases_view(r@) =~= aliases_view(old_r).push(alias_view(a)));
            assert(vv[i as int].1.take(j + 1).map_values(|a: Seq<char>| (a, vv[i as int].0))
                =~= vv[i as int].1.take(j as int).map_values(|a: Seq<char>| (a, vv[i as int].0)).push(
                (vv[i as int].1[j as int], vv[i as int].0),
            ));
            j = j + 1;
        }
        assert(vv[i as int].1.take(j as int) =~= vv[i as int].1);
        assert(vv.take(i + 1).drop_last() =~= vv.take(i as int));
        i = i + 1;
    }
    assert(vv.take(i as int) =~= vv);
    r
}

/// The index of `key` in `l`, if it is there.
fn find_key(l: &Vec<Alias>, key: &String) -> (r: Option<usize>)
    requires
        unique_keys(aliases_view(l@)),
    ensures
        r is None ==> !has_key(aliases_view(l@), key@),
        r matches Some(i) ==> i < l@.len() && aliases_view(l@)[i as int].0 == key@ && i == (choose|
            i: int,
        | 0 <= i < aliases_view(l@).len() && (#[trigger] aliases_view(l@)[i]).0 == key@),
{
    let ghost lv = aliases_view(l@);
    let mut i: usize = 0;
    while i < l.len()
        invariant
            lv == aliases_view(l@),
            unique_keys(lv),
            0 <= i <= l@.len(),
            forall|j: int| 0 <= j < i ==> (#[trigger] lv[j]).0 != key@,
        decreases l.len() - i,
    {
        if l[i].key == *key {
            assert(lv[i as int].0 == key@);
            assert(has_key(lv, key@));
            let ghost c = choose|c: int| 0 <= c < lv.len() && (#[trigger] lv[c]).0 == key@;
            assert(c == i) by {
                if c != i {
                    assert(lv[c].0 != lv[i as int].0);
                }
            }
            return Some(i);
        }
        i = i + 1;
    }
    None
}

/// The inverted table: lowercase alias → target, later entries winning.
pub fn build_lookup(vocab: &[VocabEntry]) -> (r: Vec<Alias>)
    ensures
        aliases_view(r@) == lookup_spec(alias_pairs(vocab_view(vocab@))),
        unique_keys(aliases_view(r@)),
{
    let pairs = collect_pairs(vocab);
    let ghost pv = aliases_view(pairs@);
    let mut r: Vec<Alias> = Vec::new();
    let mut k: usize = 0;
    assert(aliases_view(r@) =~= build(pv.take(0)));
    while k < pairs.len()
        invariant
            pv == aliases_view(pairs@),
            0 <= k <= pairs@.len(),
            aliases_view(r@) == build(pv.take(k as int)),
            unique_keys(aliases_view(r@)),
        decreases pairs.len() - k,
    {
        let key = text::to_lowercase(pairs[k].key.as_str());
        let target = pairs[k].target.clone();
        let ghost lv = aliases_view(r@);
        assert(pv.take(k + 1).drop_last() =~= pv.take(k as int));
        assert(pv.take(k + 1).last() == pv[k as int]);
        proof {
            lemma_insert_key_unique(lv, key@, target@);
        }
        match find_key(&r, &key) {
            Some(i) => {
                let a = Alias { key, target };
                r.set(i, a);
                assert(aliases_view(r@) =~= lv.update(i as int, alias_view(a)));
            },
            None => {
                let a = Alias { key, target };
                r.push(a);
                assert(aliases_view(r@) =~= lv.push(alias_view(a)));
            },
        }
        k = k + 1;
    }
    assert(pv.take(k as int) =~= pv);
    r
}

// ---------------------------------------------------------------------------
// Splitting the table and ordering the phrases.
// ---------------------------------------------------------------------------

/// The number of bytes that `c` takes in UTF-8.
pub open spec fn char_width(c: char) -> nat {
    let u = c as u32;
    if u < 0x80 {
        1
    } else if u < 0x800 {
        2
    } else if u < 0x10000 {
        3
    } else {
        4
    }
}

/// The UTF-8 length of `s` in bytes (what `str::len` reports).
pub open spec fn byte_len(s: Seq<char>) -> nat
    decreases s.len(),
{
    if s.len() == 0 {
        0
    } else {
        byte_len(s.drop_last()) + char_width(s.last())
    }
}

pub open spec fn has_space(s: Seq<char>) -> bool {
    exists|i: int| 0 <= i < s.len() && s[i] == ' '
}

/// The rows whose alias is a phrase (holds a space), in table order.
pub open spec fn multi_of(l: Seq<(Seq<char>, Seq<char>)>) -> Seq<(Seq<char>, Seq<char>)>
    decreases l.len(),
{
    if l.len() == 0 {
        seq![]
    } else if has_space(l.last().0) {
        multi_of(l.drop_last()).push(l.last())
    } else {
        multi_of(l.drop_last())
    }
}

/// The rows whose alias is a single word (no space), in table order.
pub open spec fn single_of(l: Seq<(Seq<char>, Seq<char>)>) -> Seq<(Seq<char>, Seq<char>)>
    decreases l.len(),
{
    if l.len() == 0 {
        seq![]
    } else if has_space(l.last().0) {
        single_of(l.drop_last())
    } else {
        single_of(l.drop_last()).push(l.last())
    }
}

/// Where a row whose alias is `n` bytes long goes in a list ordered by
/// decreasing alias length: after every row at least as long.
pub open spec fn ins_pos(s: Seq<(Seq<char>, Seq<char>)>, n: nat) -> nat
    decreases s.len(),
{
    if s.len() == 0 {
        0
    } else if byte_len(s[0].0) >= n {
        1 + ins_pos(s.drop_first(), n)
    } else {
        0
    }
}

/// The rows ordered by decreasing alias length in bytes; rows of equal length
/// keep their order.
pub open spec fn sort_desc(l: Seq<(Seq<char>, Seq<char>)>) -> Seq<(Seq<char>, Seq<char>)>
    decreases l.len(),
{
    if l.len() == 0 {
        seq![]
    } else {
        let s = sort_desc(l.drop_last());
        s.insert(ins_pos(s, byte_len(l.last().0)) as int, l.last())
    }
}

proof fn lemma_ins_pos_le(s: Seq<(Seq<char>, Seq<char>)>, n: nat)
    ensures
        ins_pos(s, n) <= s.len(),
    decreases s.len(),
{
    if s.len() > 0 {
        lemma_ins_pos_le(s.drop_first(), n);
    }
}

/// The UTF-8 length of `s`.
fn utf8_len(s: &String) -> (n: u128)
    ensures
        n == byte_len(s@),
{
    let v = text::chars_of(s.as_str());
    let mut n: u128 = 0;
    let mut i: usize = 0;
    while i < v.len()
        invariant
            v@ == s@,
            0 <= i <= v@.len(),
            n == byte_len(v@.take(i as int)),
            n <= 4 * i,
        decreases v.len() - i,
    {
        let u = v[i] as u32;
        let w: u128 = if u < 0x80 {
            1
        } else if u < 0x800 {
            2
        } else if u < 0x10000 {
            3
        } else {
            4
        };
        assert(v@.take(i + 1).drop_last() =~= v@.take(i as int));
        assert(v@.take(i + 1).last() == v@[i as int]);
        n = n + w;
        i = i + 1;
    }
    assert(v@.take(i as int) =~= v@);
    n
}

fn contains_space(s: &String) -> (b: bool)
    ensures
        b == has_space(s@),
{
    let v = text::chars_of(s.as_str());
    let mut i: usize = 0;
    while i < v.len()
        invariant
            v@ == s@,
            0 <= i <= v@.len(),
            forall|j: int| 0 <= j < i ==> v@[j] != ' ',
        decreases v.len() - i,
    {
        if v[i] == ' ' {
            assert(v@[i as int] == ' ');
            return true;
        }
        i = i + 1;
    }
    false
}

/// The table split into phrase rows and word rows, each in table order.
fn split_table(lookup: &Vec<Alias>) -> (r: (Vec<Alias>, Vec<Alias>))
    ensures
        aliases_view(r.0@) == multi_of(aliases_view(lookup@)),
        aliases_view(r.1@) == single_of(aliases_view(lookup@)),
{
    let ghost lv = aliases_view(lookup@);
    let mut multi: Vec<Alias> = Vec::new();
    let mut single: Vec<Alias> = Vec::new();
    let mut i: usize = 0;
    while i < lookup.len()
        invariant
            lv == aliases_view(lookup@),
            0 <= i <= lookup@.len(),
            aliases_view(multi@) == multi_of(lv.take(i as int)),
            aliases_view(single@) == single_of(lv.take(i as int)),
        decreases lookup.len() - i,
    {
        let a = Alias { key: lookup[i].key.clone(), target: lookup[i].target.clone() };
        assert(alias_view(a) == lv[i as int]);
        assert(lv.take(i + 1).drop_last() =~= lv.take(i as int));
        assert(lv.take(i + 1).last() == lv[i as int]);
        if contains_space(&a.key) {
            let ghost before = multi@;
            multi.push(a);
            assert(aliases_view(multi@) =~= aliases_view(before).push(alias_view(a)));
        } else {
            let ghost before = single@;
            single.push(a);
            assert(aliases_view(single@) =~= aliases_view(before).push(alias_view(a)));
        }
        i = i + 1;
    }
    assert(lv.take(i as int) =~= lv);
    (multi, single)
}

/// The phrase rows ordered longest alias first (stable for equal lengths).
fn sort_by_len_desc(l: Vec<Alias>) -> (r: Vec<Alias>)
    ensures
        aliases_view(r@) == sort_desc(aliases_view(l@)),
{
    let ghost lv = aliases_view(l@);
    let mut sorted: Vec<Alias> = Vec::new();
    let mut lens: Vec<u128> = Vec::new();
    let mut k: usize = 0;
    while k < l.len()
        invariant
            lv == aliases_view(l@),
            0 <= k <= l@.len(),
            aliases_view(sorted@) == sort_desc(lv.take(k as int)),
            lens@.len() == sorted@.len(),
            forall|j: int| 0 <= j < lens@.len() ==> lens@[j] == byte_len(#[trigger] sorted@[j].key@),
        decreases l.len() - k,
    {
        let a = Alias { key: l[k].key.clone(), target: l[k].target.clone() };
        let n = utf8_len(&a.key);
        let ghost sv = aliases_view(sorted@);
        assert(lv.take(k + 1).drop_last() =~= lv.take(k as int));
        assert(lv.take(k + 1).last() == lv[k as int]);
        let mut i: usize = 0;
        assert(sv.subrange(0, sv.len() as int) =~= sv);
        while i < sorted.len() && lens[i] >= n
            invariant
                sv == aliases_view(sorted@),
                lens@.len() == sorted@.len(),
                forall|j: int| 0 <= j < lens@.len() ==> lens@[j] == byte_len(#[trigger] sorted@[j].key@),
                0 <= i <= sorted@.len(),
                n == byte_len(a.key@),
                ins_pos(sv, n as nat) == i + ins_pos(sv.subrange(i as int, sv.len() as int), n as nat),
            decreases sorted.len() - i,
        {
            let ghost t = sv.subrange(i as int, sv.len() as int);
            assert(t.drop_first() =~= sv.subrange(i + 1, sv.len() as int));
            assert(t[0] == sv[i as int]);
            assert(lens@[i as int] == byte_len(sorted@[i as int].key@));
            i = i + 1;
        }
        proof {
            let t = sv.subrange(i as int, sv.len() as int);
            if i < sorted.len() {
                assert(t[0] == sv[i as int]);
                assert(lens@[i as int] == byte_len(sorted@[i as int].key@));
            }
        }
        let ghost old_lens = lens@;
        let ghost old_sorted = sorted@;
        sorted.insert(i, a);
        lens.insert(i, n);
        assert(aliases_view(sorted@) =~= sv.insert(i as int, alias_view(a)));
        assert forall|j: int| 0 <= j < lens@.len() implies lens@[j] == byte_len(#[trigger] sorted@[j].key@) by {
            if j < i {
                assert(lens@[j] == old_lens[j]);
                assert(sorted@[j] == old_sorted[j]);
            } else if j > i {
                assert(lens@[j] == old_lens[j - 1]);
                assert(sorted@[j] == old_sorted[j - 1]);
            }
        }
        k = k + 1;
    }
    assert(lv.take(k as int) =~= lv);
    sorted
}

// ---------------------------------------------------------------------------
// The phrase pass.
// ---------------------------------------------------------------------------

/// A character that belongs to a word: alphanumeric or `_`.
pub open spec fn is_word_char(c: char) -> bool {
    text::is_alphanumeric(c) || c == '_'
}

/// The match `r[i..end]` stands alone: no word character touches it on
/// either side.
pub open spec fn boundary_ok(r: Seq<char>, i: int, end: int) -> bool {
    (i == 0 || !is_word_char(r[i - 1])) && (end >= r.len() || !is_word_char(r[end]))
}

/// The phrase pass for alias `a` from position `pos` on: occurrences of `a` in
/// `lower` are taken left to right without overlap; each one that stands
/// alone becomes `t` in the case of the text it covers, the others stay.
pub open spec fn scan(r: Seq<char>, lower: Seq<char>, a: Seq<char>, t: Seq<char>, pos: int) -> Seq<char>
    decreases r.len() - pos,
{
    if pos < 0 || pos >= r.len() {
        seq![]
    } else if a.len() > 0 && pos + a.len() <= r.len() && text::occurs_at(lower, a, pos) {
        let end = pos + a.len();
        if boundary_ok(r, pos, end) {
            match_case_spec(r.subrange(pos, end), t) + scan(r, lower, a, t, end)
        } else {
            r.subrange(pos, end) + scan(r, lower, a, t, end)
        }
    } else {
        seq![r[pos]] + scan(r, lower, a, t, pos + 1)
    }
}

/// `c` lowercased on its own, where that gives a single character; `c`
/// itself where it gives several.
pub open spec fn lower_char(c: char) -> char {
    let l = text::lowercase(seq![c]);
    if l.len() == 1 {
        l[0]
    } else {
        c
    }
}

/// The text the phrases are searched in, one character for each character
/// of `r`: the lowercased text, or, where lowercasing the whole text changes
/// its number of characters, each character lowercased on its own.
pub open spec fn search_text(r: Seq<char>) -> Seq<char> {
    let lower = text::lowercase(r);
    if lower.len() == r.len() {
        lower
    } else {
        Seq::new(r.len(), |k: int| lower_char(r[k]))
    }
}

/// One phrase replaced throughout `r`, searched for in [`search_text`].
pub open spec fn phrase_pass(r: Seq<char>, a: Seq<char>, t: Seq<char>) -> Seq<char> {
    scan(r, search_text(r), a, t, 0)
}

/// Every phrase row applied in turn, first row first.
pub open spec fn phase1(r: Seq<char>, l: Seq<(Seq<char>, Seq<char>)>) -> Seq<char>
    decreases l.len(),
{
    if l.len() == 0 {
        r
    } else {
        phrase_pass(phase1(r, l.drop_last()), l.last().0, l.last().1)
    }
}

fn char_is_word(c: char) -> (b: bool)
    ensures
        b == is_word_char(c),
{
    text::char_is_alphanumeric(c) || c == '_'
}

/// `out` gains the characters of `s`.
fn append_str(out: &mut Vec<char>, s: &str)
    ensures
        final(out)@ == old(out)@ + s@,
{
    let v = text::chars_of(s);
    let mut i: usize = 0;
    while i < v.len()
        invariant
            v@ == s@,
            0 <= i <= v@.len(),
            out@ == old(out)@ + v@.take(i as int),
        decreases v.len() - i,
    {
        out.push(v[i]);
        assert(out@ =~= old(out)@ + v@.take(i + 1));
        i = i + 1;
    }
    assert(v@.take(i as int) =~= v@);
}

/// `out` gains `r[lo..hi]`.
fn append_range(out: &mut Vec<char>, r: &Vec<char>, lo: usize, hi: usize)
    requires
        lo <= hi <= r@.len(),
    ensures
        final(out)@ == old(out)@ + r@.subrange(lo as int, hi as int),
{
    let mut i = lo;
    while i < hi
        invariant
            lo <= i <= hi <= r@.len(),
            out@ == old(out)@ + r@.subrange(lo as int, i as int),
        decreases hi - i,
    {
        out.push(r[i]);
        assert(out@ =~= old(out)@ + r@.subrange(lo as int, i + 1));
        i = i + 1;
    }
}

/// The characters of [`search_text`] for `r`.
fn search_chars(r: &Vec<char>) -> (lower: Vec<char>)
    ensures
        lower@ == search_text(r@),
        lower@.len() == r@.len(),
{
    let whole = text::string_of(r.as_slice());
    let lower = text::chars_of(text::to_lowercase(whole.as_str()).as_str());
    if lower.len() == r.len() {
        return lower;
    }
    let ghost want = Seq::new(r@.len(), |k: int| lower_char(r@[k]));
    let mut out: Vec<char> = Vec::new();
    let mut i: usize = 0;
    while i < r.len()
        invariant
            0 <= i <= r@.len(),
            out@ == want.take(i as int),
            want == Seq::new(r@.len(), |k: int| lower_char(r@[k])),
        decreases r.len() - i,
    {
        let one = text::string_of_range(r.as_slice(), i, i + 1);
        let l = text::chars_of(text::to_lowercase(one.as_str()).as_str());
        proof {
            assert(one@ =~= seq![r@[i as int]]);
        }
        if l.len() == 1 {
            out.push(l[0]);
        } else {
            out.push(r[i]);
        }
        assert(out@ =~= want.take(i + 1));
        i = i + 1;
    }
    assert(want.take(i as int) =~= want);
    out
}

/// One phrase replaced throughout `r`.
fn replace_phrase(r: &Vec<char>, a: &String, t: &String) -> (out: Vec<char>)
    ensures
        out@ == phrase_pass(r@, a@, t@),
{
    let lower = search_chars(r);
    let av = text::chars_of(a.as_str());
    let mut out: Vec<char> = Vec::new();
    let mut pos: usize = 0;
    while pos < r.len()
        invariant
            lower@ == search_text(r@),
            lower@.len() == r@.len(),
            av@ == a@,
            0 <= pos <= r@.len(),
            out@ + scan(r@, lower@, a@, t@, pos as int) == scan(r@, lower@, a@, t@, 0),
        decreases r.len() - pos,
    {
        let ghost before = out@;
        if av.len() > 0 && text::matches_at(lower.as_slice(), av.as_slice(), pos) {
            let end = pos + av.len();
            let before_ok = pos == 0 || !char_is_word(r[pos - 1]);
            let after_ok = end >= r.len() || !char_is_word(r[end]);
            if before_ok && after_ok {
                let src = text::string_of_range(r.as_slice(), pos, end);
                let m = match_case(src.as_str(), t.as_str());
                append_str(&mut out, m.as_str());
            } else {
                append_range(&mut out, r, pos, end);
            }
            assert(out@ + scan(r@, lower@, a@, t@, end as int) =~= before + scan(r@, lower@, a@, t@, pos as int));
            pos = end;
        } else {
            out.push(r[pos]);
            assert(out@ + scan(r@, lower@, a@, t@, pos + 1) =~= before + scan(r@, lower@, a@, t@, pos as int));
            pos = pos + 1;
        }
    }
    assert(scan(r@, lower@, a@, t@, pos as int) =~= seq![]);
    assert(out@ + seq![] =~= out@);
    out
}

/// Every phrase row applied in turn.
fn replace_phrases(r: Vec<char>, multi: &Vec<Alias>) -> (out: Vec<char>)
    ensures
        out@ == phase1(r@, aliases_view(multi@)),
{
    let ghost mv = aliases_view(multi@);
    let mut cur = r;
    let ghost r0 = cur@;
    let mut i: usize = 0;
    while i < multi.len()
        invariant
            mv == aliases_view(multi@),
            0 <= i <= multi@.len(),
            cur@ == phase1(r0, mv.take(i as int)),
        decreases multi.len() - i,
    {
        assert(mv.take(i + 1).drop_last() =~= mv.take(i as int));
        assert(mv.take(i + 1).last() == mv[i as int]);
        cur = replace_phrase(&cur, &multi[i].key, &multi[i].target);
        i = i + 1;
    }
    assert(mv.take(i as int) =~= mv);
    cur
}

// ---------------------------------------------------------------------------
// The word pass.
// ---------------------------------------------------------------------------

/// The end of the run of word characters that starts at `pos`.
pub open spec fn run_end(r: Seq<char>, pos: int) -> int
    decreases r.len() - pos,
{
    if 0 <= pos < r.len() && is_word_char(r[pos]) {
        run_end(r, pos + 1)
    } else {
        pos
    }
}

/// A run of word characters ends between its start and the end of the text,
/// and past its start when it has one.
pub proof fn lemma_run_end(r: Seq<char>, pos: int)
    requires
        0 <= pos <= r.len(),
    ensures
        pos <= run_end(r, pos) <= r.len(),
        pos < r.len() && is_word_char(r[pos]) ==> run_end(r, pos) > pos,
    decreases r.len() - pos,
{
    if pos < r.len() && is_word_char(r[pos]) {
        lemma_run_end(r, pos + 1);
    }
}

/// The target of the row whose alias is `k`, searching from the last row.
pub open spec fn find_target(l: Seq<(Seq<char>, Seq<char>)>, k: Seq<char>) -> Option<Seq<char>>
    decreases l.len(),
{
    if l.len() == 0 {
        None
    } else if l.last().0 == k {
        Some(l.last().1)
    } else {
        find_target(l.drop_last(), k)
    }
}

/// The word pass from `pos` on: each maximal run of word characters whose
/// lowercase form is a single-word alias becomes that alias's target, in the
/// case of the word it replaces; everything else is copied.
pub open spec fn scan_words(r: Seq<char>, single: Seq<(Seq<char>, Seq<char>)>, pos: int) -> Seq<char>
    decreases r.len() - pos,
{
    if pos < 0 || pos >= r.len() {
        seq![]
    } else if is_word_char(r[pos]) {
        let end = run_end(r, pos);
        proof {
            lemma_run_end(r, pos);
        }
        let w = r.subrange(pos, end);
        match find_target(single, text::lowercase(w)) {
            Some(t) => match_case_spec(w, t) + scan_words(r, single, end),
            None => w + scan_words(r, single, end),
        }
    } else {
        seq![r[pos]] + scan_words(r, single, pos + 1)
    }
}

/// The target for word `k`, if it is a single-word alias.
fn lookup_word(single: &Vec<Alias>, k: &String) -> (r: Option<String>)
    ensures
        match r {
            Some(t) => find_target(aliases_view(single@), k@) == Some(t@),
            None => find_target(aliases_view(single@), k@) is None,
        },
{
    let ghost sv = aliases_view(single@);
    let mut i = single.len();
    assert(sv.take(i as int) =~= sv);
    while i > 0
        invariant
            sv == aliases_view(single@),
            0 <= i <= sv.len(),
            find_target(sv, k@) == find_target(sv.take(i as int), k@),
        decreases i,
    {
        assert(sv.take(i as int).drop_last() =~= sv.take(i - 1));
        assert(sv.take(i as int).last() == sv[i - 1]);
        if text::str_eq(single[i - 1].key.as_str(), k.as_str()) {
            return Some(single[i - 1].target.clone());
        }
        i = i - 1;
    }
    None
}

/// Every whole word that is a single-word alias replaced by its target.
fn replace_words(r: &Vec<char>, single: &Vec<Alias>) -> (out: Vec<char>)
    ensures
        out@ == scan_words(r@, aliases_view(single@), 0),
{
    let ghost sv = aliases_view(single@);
    let mut out: Vec<char> = Vec::new();
    let mut pos: usize = 0;
    while pos < r.len()
        invariant
            sv == aliases_view(single@),
            0 <= pos <= r@.len(),
            out@ + scan_words(r@, sv, pos as int) == scan_words(r@, sv, 0),
        decreases r.len() - pos,
    {
        let ghost before = out@;
        if char_is_word(r[pos]) {
            let mut end = pos + 1;
            while end < r.len() && char_is_word(r[end])
                invariant
                    pos < end <= r@.len(),
                    run_end(r@, pos as int) == run_end(r@, end as int),
                decreases r.len() - end,
            {
                end = end + 1;
            }
            proof {
                lemma_run_end(r@, pos as int);
            }
            let word = text::string_of_range(r.as_slice(), pos, end);
            let lower = text::to_lowercase(word.as_str());
            match lookup_word(single, &lower) {
                Some(t) => {
                    let m = match_case(word.as_str(), t.as_str());
                    append_str(&mut out, m.as_str());
                },
                None => {
                    append_range(&mut out, r, pos, end);
                },
            }
            assert(out@ + scan_words(r@, sv, end as int) =~= before + scan_words(r@, sv, pos as int));
            pos = end;
        } else {
            out.push(r[pos]);
            assert(out@ + scan_words(r@, sv, pos + 1) =~= before + scan_words(r@, sv, pos as int));
            pos = pos + 1;
        }
    }
    assert(out@ + seq![] =~= out@);
    out
}

// ---------------------------------------------------------------------------
// The whole pass.
// ---------------------------------------------------------------------------

/// What the vocabulary does to `text`: phrases first, longest first, then
/// single words (only when the table has any).
pub open spec fn apply_spec(text: Seq<char>, vocab: Seq<(Seq<char>, Seq<Seq<char>>)>) -> Seq<char> {
    let lookup = lookup_spec(alias_pairs(vocab));
    let r1 = phase1(text, sort_desc(multi_of(lookup)));
    let single = single_of(lookup);
    if single.len() > 0 {
        scan_words(r1, single, 0)
    } else {
        r1
    }
}

/// Apply the vocabulary to a transcript: multi-word aliases are replaced as
/// phrases, longest first; then every whole word that is a single-word alias
/// is replaced. Matching ignores case; the replacement takes the case of the
/// text it replaces.
pub fn apply(text: &str, vocab: &[VocabEntry]) -> (r: String)
    ensures
        r@ == apply_spec(text@, vocab_view(vocab@)),
{
    let lookup = build_lookup(vocab);
    let (multi, single) = split_table(&lookup);
    let multi = sort_by_len_desc(multi);
    let chars = text::chars_of(text);
    let r1 = replace_phrases(chars, &multi);
    if single.len() > 0 {
        let r2 = replace_words(&r1, &single);
        text::string_of(r2.as_slice())
    } else {
        text::string_of(r1.as_slice())
    }
}

/// With no vocabulary, a transcript passes through unchanged.
pub proof fn law_empty_vocabulary_is_identity(text: Seq<char>)
    ensures
        apply_spec(text, seq![]) == text,
{
    let e: Seq<(Seq<char>, Seq<char>)> = seq![];
    assert(alias_pairs(seq![]) =~= e);
    assert(build(e) =~= e);
    assert(multi_of(e) =~= e);
    assert(sort_desc(e) =~= e);
    assert(single_of(e) =~= e);
}

// ---------------------------------------------------------------------------
// Editing the vocabulary.
// ---------------------------------------------------------------------------

/// The position of the entry for `target`, if there is one (the first).
pub open spec fn entry_index(v: Seq<(Seq<char>, Seq<Seq<char>>)>, target: Seq<char>) -> Option<int> {
    if exists|i: int| 0 <= i < v.len() && (#[trigger] v[i]).0 == target {
        Some(choose|i: int| 0 <= i < v.len() && (#[trigger] v[i]).0 == target && forall|j: int| 0 <= j < i ==> (#[trigger] v[j]).0 != target)
    } else {
        None
    }
}

/// Some alias in `aliases` equals `alias` ignoring case.
pub open spec fn has_alias(aliases: Seq<Seq<char>>, alias: Seq<char>) -> bool {
    exists|j: int| 0 <= j < aliases.len() && text::lowercase(#[trigger] aliases[j]) == text::lowercase(alias)
}

/// The vocabulary after teaching `alias` for `target`: the entry is created
/// if it is missing, and the alias is added unless the entry already has it
/// in some case.
pub open spec fn add_alias_spec(v: Seq<(Seq<char>, Seq<Seq<char>>)>, target: Seq<char>, alias: Seq<char>) -> Seq<(Seq<char>, Seq<Seq<char>>)> {
    let (v1, i) = match entry_index(v, target) {
        Some(i) => (v, i),
        None => (v.push((target, seq![])), v.len() as int),
    };
    if has_alias(v1[i].1, alias) {
        v1
    } else {
        v1.update(i, (target, v1[i].1.push(alias)))
    }
}

/// `aliases` without those equal to `alias` ignoring case.
pub open spec fn drop_alias(aliases: Seq<Seq<char>>, alias: Seq<char>) -> Seq<Seq<char>>
    decreases aliases.len(),
{
    if aliases.len() == 0 {
        seq![]
    } else if text::lowercase(aliases.last()) == text::lowercase(alias) {
        drop_alias(aliases.drop_last(), alias)
    } else {
        drop_alias(aliases.drop_last(), alias).push(aliases.last())
    }
}

/// The vocabulary after forgetting `alias` for `target`: every alias equal
/// to it ignoring case goes, and an entry left without aliases goes too.
pub open spec fn remove_alias_spec(v: Seq<(Seq<char>, Seq<Seq<char>>)>, target: Seq<char>, alias: Seq<char>) -> Seq<(Seq<char>, Seq<Seq<char>>)> {
    match entry_index(v, target) {
        None => v,
        Some(i) => {
            let kept = drop_alias(v[i].1, alias);
            if kept.len() == 0 {
                v.remove(i)
            } else {
                v.update(i, (target, kept))
            }
        },
    }
}

/// The vocabulary without the entry for `target`.
pub open spec fn remove_entry_spec(v: Seq<(Seq<char>, Seq<Seq<char>>)>, target: Seq<char>) -> Seq<(Seq<char>, Seq<Seq<char>>)> {
    match entry_index(v, target) {
        None => v,
        Some(i) => v.remove(i),
    }
}

fn find_entry(vocab: &Vec<VocabEntry>, target: &str) -> (r: Option<usize>)
    ensures
        match r {
            Some(i) => i < vocab@.len() && entry_index(vocab_view(vocab@), target@) == Some(i as int),
            None => entry_index(vocab_view(vocab@), target@) is None,
        },
{
    let ghost vv = vocab_view(vocab@);
    let mut i: usize = 0;
    while i < vocab.len()
        invariant
            vv == vocab_view(vocab@),
            0 <= i <= vv.len(),
            forall|j: int| 0 <= j < i ==> (#[trigger] vv[j]).0 != target@,
        decreases vocab.len() - i,
    {
        assert(vv[i as int].0 == vocab@[i as int].target@);
        if text::str_eq(vocab[i].target.as_str(), target) {
            proof {
                assert(0 <= i < vv.len() && vv[i as int].0 == target@ && forall|j: int| 0 <= j < i ==> (#[trigger] vv[j]).0 != target@);
                let k = choose|k: int| 0 <= k < vv.len() && (#[trigger] vv[k]).0 == target@ && forall|j: int| 0 <= j < k ==> (#[trigger] vv[j]).0 != target@;
                assert(k == i as int) by {
                    if k > i {
                        assert(vv[i as int].0 != target@);
                    }
                }
            }
            return Some(i);
        }
        i = i + 1;
    }
    None
}

fn clone_aliases(a: &Vec<String>) -> (r: Vec<String>)
    ensures
        r@.map_values(|s: String| s@) == a@.map_values(|s: String| s@),
{
    let mut r: Vec<String> = Vec::new();
    let mut i: usize = 0;
    while i < a.len()
        invariant
            0 <= i <= a@.len(),
            r@.map_values(|s: String| s@) == a@.take(i as int).map_values(|s: String| s@),
        decreases a.len() - i,
    {
        let ghost before = r@.map_values(|s: String| s@);
        let c = a[i].clone();
        assert(c@ == a@[i as int]@);
        r.push(c);
        assert(r@.map_values(|s: String| s@) =~= before.push(a@[i as int]@));
        assert(a@.take(i + 1).map_values(|s: String| s@) =~= a@.take(i as int).map_values(|s: String| s@).push(a@[i as int]@));
        i = i + 1;
    }
    assert(a@.take(i as int) =~= a@);
    r
}

/// Whether some alias equals `alias` ignoring case.
fn contains_alias(aliases: &Vec<String>, alias: &str) -> (b: bool)
    ensures
        b == has_alias(aliases@.map_values(|s: String| s@), alias@),
{
    let ghost av = aliases@.map_values(|s: String| s@);
    let low = text::to_lowercase(alias);
    let mut j: usize = 0;
    while j < aliases.len()
        invariant
            av == aliases@.map_values(|s: String| s@),
            low@ == text::lowercase(alias@),
            0 <= j <= av.len(),
            forall|k: int| 0 <= k < j ==> text::lowercase(#[trigger] av[k]) != text::lowercase(alias@),
        decreases aliases.len() - j,
    {
        let l = text::to_lowercase(aliases[j].as_str());
        if text::str_eq(l.as_str(), low.as_str()) {
            assert(text::lowercase(av[j as int]) == text::lowercase(alias@));
            return true;
        }
        j = j + 1;
    }
    false
}

/// Teach the vocabulary that `alias` means `target`.
pub fn add_alias(vocab: &mut Vec<VocabEntry>, target: &str, alias: &str)
    ensures
        vocab_view(final(vocab)@) == add_alias_spec(vocab_view(old(vocab)@), target@, alias@),
{
    let ghost v0 = vocab_view(vocab@);
    let i = match find_entry(vocab, target) {
        Some(i) => i,
        None => {
            let e = VocabEntry { target: String::from_str(target), aliases: Vec::new() };
            assert(e.aliases@.map_values(|a: String| a@) =~= Seq::<Seq<char>>::empty());
            vocab.push(e);
            assert(vocab_view(vocab@) =~= v0.push((target@, seq![])));
            vocab.len() - 1
        },
    };
    let ghost v1 = vocab_view(vocab@);
    assert(v1[i as int].1 == vocab@[i as int].aliases@.map_values(|s: String| s@));
    if contains_alias(&vocab[i].aliases, alias) {
        return;
    }
    let mut aliases = clone_aliases(&vocab[i].aliases);
    let ghost before = aliases@.map_values(|s: String| s@);
    aliases.push(String::from_str(alias));
    assert(aliases@.map_values(|s: String| s@) =~= before.push(alias@));
    let e = VocabEntry { target: String::from_str(target), aliases };
    vocab.set(i, e);
    assert(vocab_view(vocab@) =~= v1.update(i as int, (target@, v1[i as int].1.push(alias@))));
}

/// Forget `alias` (in any case) for `target`; an entry left without aliases
/// is removed.
pub fn remove_alias(vocab: &mut Vec<VocabEntry>, target: &str, alias: &str)
    ensures
        vocab_view(final(vocab)@) == remove_alias_spec(vocab_view(old(vocab)@), target@, alias@),
{
    let ghost v0 = vocab_view(vocab@);
    match find_entry(vocab, target) {
        None => {},
        Some(i) => {
            let low = text::to_lowercase(alias);
            let ghost av = v0[i as int].1;
            assert(av == vocab@[i as int].aliases@.map_values(|s: String| s@));
            let mut kept: Vec<String> = Vec::new();
            let mut j: usize = 0;
            while j < vocab[i].aliases.len()
                invariant
                    v0 == vocab_view(vocab@),
                    0 <= i < vocab@.len(),
                    av == vocab@[i as int].aliases@.map_values(|s: String| s@),
                    low@ == text::lowercase(alias@),
                    0 <= j <= av.len(),
                    kept@.map_values(|s: String| s@) == drop_alias(av.take(j as int), alias@),
                decreases vocab[i as int].aliases@.len() - j,
            {
                assert(av.take(j + 1).drop_last() =~= av.take(j as int));
                assert(av.take(j + 1).last() == av[j as int]);
                let a = vocab[i].aliases[j].clone();
                let l = text::to_lowercase(a.as_str());
                if !text::str_eq(l.as_str(), low.as_str()) {
                    let ghost before = kept@.map_values(|s: String| s@);
                    kept.push(a);
                    assert(kept@.map_values(|s: String| s@) =~= before.push(av[j as int]));
                }
                j = j + 1;
            }
            assert(av.take(j as int) =~= av);
            if kept.len() == 0 {
                vocab.remove(i);
                assert(vocab_view(vocab@) =~= v0.remove(i as int));
            } else {
                let ghost kv = kept@.map_values(|s: String| s@);
                let e = VocabEntry { target: String::from_str(target), aliases: kept };
                vocab.set(i, e);
                assert(vocab_view(vocab@) =~= v0.update(i as int, (target@, kv)));
            }
        },
    }
}

/// Remove the entry for `target` with all its aliases.
pub fn remove_entry(vocab: &mut Vec<VocabEntry>, target: &str)
    ensures
        vocab_view(final(vocab)@) == remove_entry_spec(vocab_view(old(vocab)@), target@),
{
    let ghost v0 = vocab_view(vocab@);
    match find_entry(vocab, target) {
        None => {},
        Some(i) => {
            vocab.remove(i);
            assert(vocab_view(vocab@) =~= v0.remove(i as int));
        },
    }
}

proof fn lemma_first_entry(v: Seq<(Seq<char>, Seq<Seq<char>>)>, target: Seq<char>, k: int)
    requires
        0 <= k < v.len(),
        v[k].0 == target,
    ensures
        exists|i: int| 0 <= i <= k && (#[trigger] v[i]).0 == target && forall|j: int| 0 <= j < i ==> (#[trigger] v[j]).0 != target,
    decreases k,
{
    if exists|j: int| 0 <= j < k && (#[trigger] v[j]).0 == target {
        let j = choose|j: int| 0 <= j < k && (#[trigger] v[j]).0 == target;
        lemma_first_entry(v, target, j);
    } else {
        assert(forall|j: int| 0 <= j < k ==> (#[trigger] v[j]).0 != target);
    }
}

/// Where [`entry_index`] points, the entry is the target's.
pub proof fn lemma_entry_index(v: Seq<(Seq<char>, Seq<Seq<char>>)>, target: Seq<char>)
    ensures
        match entry_index(v, target) {
            Some(i) => 0 <= i < v.len() && v[i].0 == target,
            None => forall|i: int| 0 <= i < v.len() ==> (#[trigger] v[i]).0 != target,
        },
{
    if exists|i: int| 0 <= i < v.len() && (#[trigger] v[i]).0 == target {
        let k = choose|i: int| 0 <= i < v.len() && (#[trigger] v[i]).0 == target;
        lemma_first_entry(v, target, k);
    }
}

/// Once taught, an alias is known: after [`add_alias`] the entry for the
/// target holds an alias equal to it ignoring case.
pub proof fn law_added_alias_is_known(v: Seq<(Seq<char>, Seq<Seq<char>>)>, target: Seq<char>, alias: Seq<char>)
    ensures
        ({
            let r = add_alias_spec(v, target, alias);
            exists|i: int| 0 <= i < r.len() && (#[trigger] r[i]).0 == target && has_alias(r[i].1, alias)
        }),
{
    lemma_entry_index(v, target);
    let r = add_alias_spec(v, target, alias);
    let (v1, i) = match entry_index(v, target) {
        Some(i) => (v, i),
        None => (v.push((target, seq![])), v.len() as int),
    };
    if has_alias(v1[i].1, alias) {
        assert(r[i].0 == target);
    } else {
        let a = v1[i].1.push(alias);
        assert(a[a.len() - 1] == alias);
        assert(r[i] == (target, a));
        assert(has_alias(r[i].1, alias));
    }
}

/// Forgetting an alias leaves no alias of the target equal to it ignoring
/// case.
pub proof fn law_removed_alias_is_gone(v: Seq<(Seq<char>, Seq<Seq<char>>)>, target: Seq<char>, alias: Seq<char>, i: int)
    requires
        entry_index(v, target) == Some(i),
    ensures
        ({
            let r = remove_alias_spec(v, target, alias);
            let kept = drop_alias(v[i].1, alias);
            &&& !has_alias(kept, alias)
            &&& (kept.len() == 0 ==> r == v.remove(i))
            &&& (kept.len() > 0 ==> r[i] == (target, kept))
        }),
{
    lemma_entry_index(v, target);
    lemma_drop_alias_drops(v[i].1, alias);
}

proof fn lemma_drop_alias_drops(a: Seq<Seq<char>>, alias: Seq<char>)
    ensures
        !has_alias(drop_alias(a, alias), alias),
    decreases a.len(),
{
    if a.len() > 0 {
        lemma_drop_alias_drops(a.drop_last(), alias);
        let d = drop_alias(a.drop_last(), alias);
        if text::lowercase(a.last()) != text::lowercase(alias) {
            let e = d.push(a.last());
            assert forall|j: int| 0 <= j < e.len() implies text::lowercase(#[trigger] e[j]) != text::lowercase(alias) by {
                if j < d.len() {
                    assert(e[j] == d[j]);
                }
            }
        }
    }
}

/// Rows ordered by decreasing alias length.
pub open spec fn longest_first(s: Seq<(Seq<char>, Seq<char>)>) -> bool {
    forall|j: int, k: int| 0 <= j < k < s.len() ==> byte_len((#[trigger] s[j]).0) >= byte_len((#[trigger] s[k]).0)
}

proof fn lemma_ins_pos(s: Seq<(Seq<char>, Seq<char>)>, n: nat)
    ensures
        ins_pos(s, n) <= s.len(),
        forall|i: int| 0 <= i < ins_pos(s, n) ==> byte_len((#[trigger] s[i]).0) >= n,
        ins_pos(s, n) < s.len() ==> byte_len(s[ins_pos(s, n) as int].0) < n,
    decreases s.len(),
{
    if s.len() > 0 && byte_len(s[0].0) >= n {
        lemma_ins_pos(s.drop_first(), n);
        assert forall|i: int| 0 <= i < ins_pos(s, n) implies byte_len((#[trigger] s[i]).0) >= n by {
            if i > 0 {
                assert(s[i] == s.drop_first()[i - 1]);
            }
        }
        if ins_pos(s, n) < s.len() {
            assert(s[ins_pos(s, n) as int] == s.drop_first()[ins_pos(s, n) - 1]);
        }
    }
}

/// Phrases are tried longest first: the phrase rows [`apply`] walks are
/// ordered by decreasing alias length, and none is lost or added.
pub proof fn law_phrases_longest_first(l: Seq<(Seq<char>, Seq<char>)>)
    ensures
        longest_first(sort_desc(l)),
        sort_desc(l).len() == l.len(),
    decreases l.len(),
{
    if l.len() > 0 {
        law_phrases_longest_first(l.drop_last());
        let s = sort_desc(l.drop_last());
        let x = l.last();
        let n = byte_len(x.0);
        lemma_ins_pos(s, n);
        let p = ins_pos(s, n) as int;
        let r = s.insert(p, x);
        assert forall|j: int, k: int| 0 <= j < k < r.len() implies byte_len((#[trigger] r[j]).0) >= byte_len((#[trigger] r[k]).0) by {
            if k < p {
                assert(r[j] == s[j] && r[k] == s[k]);
            } else if k == p {
                assert(r[j] == s[j] && r[k] == x);
            } else if j > p {
                assert(r[j] == s[j - 1] && r[k] == s[k - 1]);
            } else if j == p {
                assert(r[j] == x && r[k] == s[k - 1]);
                assert(byte_len(s[p].0) < n);
                if k - 1 > p {
                    assert(byte_len(s[p].0) >= byte_len(s[k - 1].0));
                }
            } else {
                assert(r[j] == s[j] && r[k] == s[k - 1]);
            }
        }
    }
}

/// A phrase found where the scan stands takes the case of the text it
/// covers, not of the lowercased text it was found in: "Куб нет" gives the
/// target in Title case, "КУБ НЕТ" in capitals. At the start of the text the
/// scan is the whole phrase pass.
pub proof fn law_phrase_takes_the_case_of_the_text(r: Seq<char>, a: Seq<char>, t: Seq<char>, pos: int)
    requires
        a.len() > 0,
        0 <= pos,
        pos + a.len() <= r.len(),
        text::occurs_at(search_text(r), a, pos),
        boundary_ok(r, pos, pos + a.len()),
    ensures
        ({
            let m = match_case_spec(r.subrange(pos, pos + a.len()), t);
            let out = scan(r, search_text(r), a, t, pos);
            &&& out.len() >= m.len()
            &&& out.subrange(0, m.len() as int) == m
            &&& pos == 0 ==> phrase_pass(r, a, t) == out
        }),
{
    let m = match_case_spec(r.subrange(pos, pos + a.len()), t);
    let rest = scan(r, search_text(r), a, t, pos + a.len());
    assert(scan(r, search_text(r), a, t, pos) == m + rest);
    assert((m + rest).subrange(0, m.len() as int) =~= m);
}

/// Where the phrase occurs nowhere in the search text, the scan copies the
/// text as it is, in its own case.
proof fn lemma_scan_copies(r: Seq<char>, a: Seq<char>, t: Seq<char>, pos: int)
    requires
        0 <= pos <= r.len(),
        forall|i: int| 0 <= i < r.len() ==> !text::occurs_at(search_text(r), a, i),
    ensures
        scan(r, search_text(r), a, t, pos) == r.subrange(pos, r.len() as int),
    decreases r.len() - pos,
{
    if pos >= r.len() {
        assert(r.subrange(pos, r.len() as int) =~= seq![]);
    } else {
        assert(!text::occurs_at(search_text(r), a, pos));
        lemma_scan_copies(r, a, t, pos + 1);
        assert(seq![r[pos]] + r.subrange(pos + 1, r.len() as int) =~= r.subrange(pos, r.len() as int));
    }
}

/// A text in which the phrase does not occur, in any case, comes out of the
/// phrase pass unchanged, keeping its own case.
pub proof fn law_phrase_pass_keeps_other_text(r: Seq<char>, a: Seq<char>, t: Seq<char>)
    requires
        forall|i: int| 0 <= i < r.len() ==> !text::occurs_at(search_text(r), a, i),
    ensures
        phrase_pass(r, a, t) == r,
{
    lemma_scan_copies(r, a, t, 0);
    assert(r.subrange(0, r.len() as int) =~= r);
}

/// A run of word characters never starts inside another: at `p` the text
/// starts, follows a non-word character, or holds one.
pub open spec fn at_word_start(r: Seq<char>, p: int) -> bool {
    p == 0 || p >= r.len() || !is_word_char(r[p - 1]) || !is_word_char(r[p])
}

/// No word of `r` is a single-word alias.
pub open spec fn no_alias_word(r: Seq<char>, single: Seq<(Seq<char>, Seq<char>)>) -> bool {
    forall|p: int|
        0 <= p < r.len() && is_word_char(r[p]) && (p == 0 || !is_word_char(r[p - 1])) ==> find_target(
            single,
            #[trigger] text::lowercase(r.subrange(p, run_end(r, p))),
        ) is None
}

/// The word pass copies a text none of whose words is an alias.
proof fn lemma_word_pass_keeps(r: Seq<char>, single: Seq<(Seq<char>, Seq<char>)>, p: int)
    requires
        0 <= p <= r.len(),
        at_word_start(r, p),
        no_alias_word(r, single),
    ensures
        scan_words(r, single, p) == r.subrange(p, r.len() as int),
    decreases r.len() - p,
{
    if p >= r.len() {
        assert(r.subrange(p, r.len() as int) =~= seq![]);
    } else if is_word_char(r[p]) {
        lemma_run_end(r, p);
        let end = run_end(r, p);
        assert(p == 0 || !is_word_char(r[p - 1]));
        assert(find_target(single, text::lowercase(r.subrange(p, end))) is None);
        lemma_run_end_stops(r, p);
        lemma_word_pass_keeps(r, single, end);
        assert(r.subrange(p, end) + r.subrange(end, r.len() as int) =~= r.subrange(p, r.len() as int));
    } else {
        lemma_word_pass_keeps(r, single, p + 1);
        assert(seq![r[p]] + r.subrange(p + 1, r.len() as int) =~= r.subrange(p, r.len() as int));
    }
}

/// A run ends at the end of the text or before a non-word character.
proof fn lemma_run_end_stops(r: Seq<char>, p: int)
    requires
        0 <= p <= r.len(),
    ensures
        run_end(r, p) >= r.len() || !is_word_char(r[run_end(r, p)]),
    decreases r.len() - p,
{
    if p < r.len() && is_word_char(r[p]) {
        lemma_run_end_stops(r, p + 1);
    }
}

/// The word pass works on what the phrase pass left: when no word of that is
/// a single-word alias, the transcript is exactly the phrase-replaced text,
/// whatever single-word aliases the vocabulary holds.
pub proof fn law_phrases_survive_the_word_pass(text: Seq<char>, vocab: Seq<(Seq<char>, Seq<Seq<char>>)>)
    requires
        no_alias_word(
            phase1(text, sort_desc(multi_of(lookup_spec(alias_pairs(vocab))))),
            single_of(lookup_spec(alias_pairs(vocab))),
        ),
    ensures
        apply_spec(text, vocab) == phase1(text, sort_desc(multi_of(lookup_spec(alias_pairs(vocab))))),
{
    let r1 = phase1(text, sort_desc(multi_of(lookup_spec(alias_pairs(vocab)))));
    let single = single_of(lookup_spec(alias_pairs(vocab)));
    lemma_word_pass_keeps(r1, single, 0);
    assert(r1.subrange(0, r1.len() as int) =~= r1);
}

} // verus!
