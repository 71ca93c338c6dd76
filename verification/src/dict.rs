//! Ordered key/value option store with text (de)serialization.
//!
//! A dictionary is an ordered multi-entry store of byte-string keys and
//! values; entries contain no NUL byte. Text form: entries are separated by
//! a one-character pairs separator, key and value are joined by a
//! one-character key/value separator. Rendering and re-parsing with the
//! same separators reconstructs an equal dictionary provided neither
//! separator occurs inside any key or value (a caller contract, not
//! internally enforced); `lemma_dict_round_trip` proves exactly that.

use vstd::prelude::*;

use crate::errors::AVERROR_EINVAL;

verus! {

/// Match existing keys case-sensitively.
pub const AV_DICT_MATCH_CASE: i32 = 1;

/// Do not replace the value of an entry whose key already exists.
pub const AV_DICT_DONT_OVERWRITE: i32 = 16;

/// Append the new value to the value of an entry whose key already exists.
pub const AV_DICT_APPEND: i32 = 32;

/// Store a new entry even when the key already exists.
pub const AV_DICT_MULTIKEY: i32 = 64;

/// The mathematical content of a dictionary: its entries in order, each a
/// key and a value.
pub type DictEntries = Seq<(Seq<u8>, Seq<u8>)>;

/// ASCII lower-casing of one byte.
pub open spec fn ascii_lower(b: u8) -> u8 {
    if 65 <= b && b <= 90 {
        (b + 32) as u8
    } else {
        b
    }
}

/// ASCII lower-casing of a byte string.
pub open spec fn lower_seq(s: Seq<u8>) -> Seq<u8> {
    s.map_values(|b: u8| ascii_lower(b))
}

/// Whether two keys match, case-sensitively or not.
pub open spec fn keys_match(a: Seq<u8>, b: Seq<u8>, match_case: bool) -> bool {
    if match_case {
        a == b
    } else {
        lower_seq(a) == lower_seq(b)
    }
}

/// Index of the first entry at or after `i` whose key matches `k`, or
/// `es.len()` if there is none.
pub open spec fn find_key_from(es: DictEntries, k: Seq<u8>, match_case: bool, i: int) -> int
    decreases es.len() - i,
{
    if 0 <= i < es.len() {
        if keys_match(es[i].0, k, match_case) {
            i
        } else {
            find_key_from(es, k, match_case, i + 1)
        }
    } else {
        es.len() as int
    }
}

/// What `set` does to the entries: honours the multi-key, don't-overwrite,
/// append and match-case flags; otherwise replaces the value of the first
/// entry with a matching key, or appends a new entry when no key matches.
pub open spec fn spec_set(es: DictEntries, k: Seq<u8>, v: Seq<u8>, flags: i32) -> DictEntries {
    let m = find_key_from(es, k, flags & AV_DICT_MATCH_CASE != 0, 0);
    if flags & AV_DICT_MULTIKEY != 0 || m == es.len() {
        es.push((k, v))
    } else if flags & AV_DICT_DONT_OVERWRITE != 0 {
        es
    } else if flags & AV_DICT_APPEND != 0 {
        es.update(m, (es[m].0, es[m].1 + v))
    } else {
        es.update(m, (es[m].0, v))
    }
}

/// `set` of every pair in order, as `parse_str` and `copy` perform it.
pub open spec fn set_all(es: DictEntries, pairs: DictEntries, flags: i32) -> DictEntries
    decreases pairs.len(),
{
    if pairs.len() == 0 {
        es
    } else {
        set_all(spec_set(es, pairs[0].0, pairs[0].1, flags), pairs.drop_first(), flags)
    }
}

/// Text form of one entry: key, separator, value.
pub open spec fn render_entry(k: Seq<u8>, v: Seq<u8>, kv_sep: u8) -> Seq<u8> {
    k + seq![kv_sep] + v
}

/// Text form of a dictionary: entries joined by the pairs separator.
pub open spec fn render_entries(es: DictEntries, kv_sep: u8, pairs_sep: u8) -> Seq<u8>
    decreases es.len(),
{
    if es.len() == 0 {
        Seq::empty()
    } else if es.len() == 1 {
        render_entry(es[0].0, es[0].1, kv_sep)
    } else {
        render_entry(es[0].0, es[0].1, kv_sep) + seq![pairs_sep] + render_entries(
            es.drop_first(),
            kv_sep,
            pairs_sep,
        )
    }
}

/// Index of the first occurrence of `c` in `s`, or `s.len()` if absent.
pub open spec fn idx_of(s: Seq<u8>, c: u8) -> int
    decreases s.len(),
{
    if s.len() == 0 {
        0
    } else if s[0] == c {
        0
    } else {
        1 + idx_of(s.drop_first(), c)
    }
}

/// One pair of the text form, split at the first key/value separator; a
/// pair without one is a key with an empty value.
pub open spec fn split_pair(p: Seq<u8>, kv_sep: u8) -> (Seq<u8>, Seq<u8>) {
    let i = idx_of(p, kv_sep);
    if i == p.len() {
        (p, Seq::<u8>::empty())
    } else {
        (p.subrange(0, i), p.subrange(i + 1, p.len() as int))
    }
}

/// The pairs of a text: pieces between pairs separators, empty pieces
/// skipped, each split at its first key/value separator.
pub open spec fn parse_pairs(text: Seq<u8>, kv_sep: u8, pairs_sep: u8) -> DictEntries
    decreases text.len(),
    via parse_pairs_decreases
{
    if text.len() == 0 {
        Seq::empty()
    } else {
        let i = idx_of(text, pairs_sep);
        let pair = text.subrange(0, i);
        let rest = if i == text.len() {
            Seq::<u8>::empty()
        } else {
            text.subrange(i + 1, text.len() as int)
        };
        let parsed_rest = parse_pairs(rest, kv_sep, pairs_sep);
        if pair.len() == 0 {
            parsed_rest
        } else {
            seq![split_pair(pair, kv_sep)] + parsed_rest
        }
    }
}

#[via_fn]
proof fn parse_pairs_decreases(text: Seq<u8>, kv_sep: u8, pairs_sep: u8) {
    lemma_idx_of_props(text, pairs_sep);
}

/// No key or value of `es` contains the byte `c`.
pub open spec fn sep_free(es: DictEntries, c: u8) -> bool {
    forall|i: int|
        0 <= i < es.len() ==> !(#[trigger] es[i]).0.contains(c) && !es[i].1.contains(c)
}

/// Basic facts about `idx_of`: it is the first occurrence.
pub proof fn lemma_idx_of_props(s: Seq<u8>, c: u8)
    ensures
        0 <= idx_of(s, c) <= s.len(),
        idx_of(s, c) < s.len() ==> s[idx_of(s, c)] == c,
        forall|j: int| 0 <= j < idx_of(s, c) ==> s[j] != c,
        idx_of(s, c) == s.len() ==> !s.contains(c),
    decreases s.len(),
{
    if s.len() == 0 {
    } else if s[0] == c {
    } else {
        lemma_idx_of_props(s.drop_first(), c);
        let d = s.drop_first();
        assert(forall|j: int| 0 <= j < d.len() ==> d[j] == s[j + 1]);
        assert forall|j: int| 0 <= j < idx_of(s, c) implies s[j] != c by {
            if j > 0 {
                assert(s[j] == d[j - 1]);
            }
        }
        if idx_of(d, c) == d.len() {
            assert forall|j: int| 0 <= j < s.len() implies s[j] != c by {
                if j > 0 {
                    assert(s[j] == d[j - 1]);
                    assert(!d.contains(c));
                }
            }
        }
    }
}

/// `idx_of` is pinned down by any witness to a first occurrence.
pub proof fn lemma_idx_of_unique(s: Seq<u8>, c: u8, i: int)
    requires
        0 <= i < s.len(),
        s[i] == c,
        forall|j: int| 0 <= j < i ==> s[j] != c,
    ensures
        idx_of(s, c) == i,
{
    lemma_idx_of_props(s, c);
    let m = idx_of(s, c);
    if m < i {
        assert(s[m] != c);
    }
    if m > i {
        assert(s.contains(c)) by {
            assert(s[i] == c);
        }
        assert(m < s.len());
        assert(s[i] != c);
    }
}

/// `idx_of` when the sought byte is absent.
pub proof fn lemma_idx_of_absent(s: Seq<u8>, c: u8)
    requires
        !s.contains(c),
    ensures
        idx_of(s, c) == s.len(),
{
    lemma_idx_of_props(s, c);
    if idx_of(s, c) < s.len() {
        assert(s.contains(c)) by {
            assert(s[idx_of(s, c)] == c);
        }
    }
}

/// `idx_of` skips over a prefix free of the sought byte.
pub proof fn lemma_idx_of_concat(a: Seq<u8>, b: Seq<u8>, c: u8)
    requires
        !a.contains(c),
    ensures
        idx_of(a + b, c) == a.len() + idx_of(b, c),
    decreases a.len(),
{
    if a.len() == 0 {
        assert(a + b =~= b);
    } else {
        assert((a + b)[0] == a[0]);
        assert(a[0] != c) by {
            if a[0] == c {
                assert(a.contains(c));
            }
        }
        assert(!a.drop_first().contains(c)) by {
            if a.drop_first().contains(c) {
                let j = choose|j: int|
                    0 <= j < a.drop_first().len() && a.drop_first()[j] == c;
                assert(a[j + 1] == c);
                assert(a.contains(c));
            }
        }
        assert((a + b).drop_first() =~= a.drop_first() + b);
        lemma_idx_of_concat(a.drop_first(), b, c);
    }
}

/// Parsing undoes rendering. For every dictionary content `es` and every
/// pair of distinct separator bytes that occur in no key and no value,
/// the pairs parsed back from the rendered text are exactly `es`.
pub proof fn lemma_parse_render(es: DictEntries, kv_sep: u8, pairs_sep: u8)
    requires
        kv_sep != pairs_sep,
        sep_free(es, kv_sep),
        sep_free(es, pairs_sep),
    ensures
        parse_pairs(render_entries(es, kv_sep, pairs_sep), kv_sep, pairs_sep) == es,
    decreases es.len(),
{
    if es.len() == 0 {
        assert(parse_pairs(render_entries(es, kv_sep, pairs_sep), kv_sep, pairs_sep) =~= es);
    } else {
        let k0 = es[0].0;
        let v0 = es[0].1;
        let e0 = render_entry(k0, v0, kv_sep);
        let text = render_entries(es, kv_sep, pairs_sep);
        assert(!k0.contains(kv_sep) && !k0.contains(pairs_sep));
        assert(!v0.contains(kv_sep) && !v0.contains(pairs_sep));
        assert forall|i: int| 0 <= i < e0.len() implies e0[i] != pairs_sep by {
            if i < k0.len() {
                assert(e0[i] == k0[i]);
                if k0[i] == pairs_sep {
                    assert(k0.contains(pairs_sep));
                }
            } else if i == k0.len() {
                assert(e0[i] == kv_sep);
            } else {
                assert(e0[i] == v0[i - k0.len() - 1]);
                if v0[i - k0.len() - 1] == pairs_sep {
                    assert(v0.contains(pairs_sep));
                }
            }
        }
        assert(!e0.contains(pairs_sep)) by {
            if e0.contains(pairs_sep) {
                let i = choose|i: int| 0 <= i < e0.len() && e0[i] == pairs_sep;
            }
        }
        // Splitting e0 at its first key/value separator gives (k0, v0) back.
        assert(idx_of(e0, kv_sep) == k0.len()) by {
            lemma_idx_of_concat(k0, seq![kv_sep] + v0, kv_sep);
            assert((seq![kv_sep] + v0)[0] == kv_sep);
            assert(e0 =~= k0 + (seq![kv_sep] + v0));
        }
        assert(e0[k0.len() as int] == kv_sep);
        assert(split_pair(e0, kv_sep) == (k0, v0)) by {
            assert(e0.subrange(0, k0.len() as int) =~= k0);
            assert(e0.subrange(k0.len() as int + 1, e0.len() as int) =~= v0);
        }
        if es.len() == 1 {
            assert(text == e0);
            lemma_idx_of_absent(text, pairs_sep);
            assert(text.subrange(0, text.len() as int) =~= e0);
            assert(e0.len() > 0);
            reveal_with_fuel(parse_pairs, 2);
            assert(parse_pairs(text, kv_sep, pairs_sep) =~= seq![split_pair(e0, kv_sep)]);
            assert((k0, v0) == es[0]);
            assert(parse_pairs(text, kv_sep, pairs_sep) =~= es);
        } else {
            let rest = render_entries(es.drop_first(), kv_sep, pairs_sep);
            assert(text == e0 + seq![pairs_sep] + rest);
            assert(idx_of(text, pairs_sep) == e0.len()) by {
                lemma_idx_of_concat(e0, seq![pairs_sep] + rest, pairs_sep);
                assert((seq![pairs_sep] + rest)[0] == pairs_sep);
                assert(text =~= e0 + (seq![pairs_sep] + rest));
            }
            assert(text.subrange(0, e0.len() as int) =~= e0);
            assert(idx_of(text, pairs_sep) < text.len());
            assert(text.subrange(e0.len() as int + 1, text.len() as int) =~= rest);
            assert(sep_free(es.drop_first(), kv_sep) && sep_free(es.drop_first(), pairs_sep))
                by {
                assert(forall|i: int|
                    0 <= i < es.drop_first().len() ==> #[trigger] es.drop_first()[i] == es[i
                        + 1]);
            }
            lemma_parse_render(es.drop_first(), kv_sep, pairs_sep);
            assert(parse_pairs(text, kv_sep, pairs_sep) =~= es);
        }
    }
}

/// Setting every pair in order under the multi-key flag appends the pairs
/// unchanged, in order.
pub proof fn lemma_set_all_multikey(es: DictEntries, pairs: DictEntries, flags: i32)
    requires
        flags & AV_DICT_MULTIKEY != 0,
    ensures
        set_all(es, pairs, flags) == es + pairs,
    decreases pairs.len(),
{
    if pairs.len() == 0 {
        assert(es + pairs =~= es);
    } else {
        assert(spec_set(es, pairs[0].0, pairs[0].1, flags) == es.push(pairs[0])) by {
            assert((pairs[0].0, pairs[0].1) == pairs[0]);
        }
        lemma_set_all_multikey(es.push(pairs[0]), pairs.drop_first(), flags);
        assert(es.push(pairs[0]) + pairs.drop_first() =~= es + pairs);
    }
}

/// Round trip: rendering a dictionary and parsing the text back under the
/// multi-key flag into an empty dictionary reconstructs the same entries,
/// for every content `es` and all distinct separator bytes that occur in
/// no key and no value.
pub proof fn lemma_dict_round_trip(es: DictEntries, kv_sep: u8, pairs_sep: u8, flags: i32)
    requires
        kv_sep != pairs_sep,
        sep_free(es, kv_sep),
        sep_free(es, pairs_sep),
        flags & AV_DICT_MULTIKEY != 0,
    ensures
        set_all(
            Seq::empty(),
            parse_pairs(render_entries(es, kv_sep, pairs_sep), kv_sep, pairs_sep),
            flags,
        ) == es,
{
    lemma_parse_render(es, kv_sep, pairs_sep);
    lemma_set_all_multikey(Seq::empty(), es, flags);
    assert(Seq::<(Seq<u8>, Seq<u8>)>::empty() + es =~= es);
}

/// One entry handed out by `get`: the key and value bytes and the entry's
/// position, which serves as the cursor for sequential multi-value lookup.
pub struct AVDictionaryEntry {
    pub key: Vec<u8>,
    pub val: Vec<u8>,
    pub index: usize,
}

/// Ordered key/value store of byte strings without embedded NUL bytes.
pub struct AVDictionary {
    entries: Vec<(Vec<u8>, Vec<u8>)>,
}

impl View for AVDictionary {
    type V = DictEntries;

    closed spec fn view(&self) -> DictEntries {
        self.entries@.map_values(|e: (Vec<u8>, Vec<u8>)| (e.0@, e.1@))
    }
}

/// Whether `s` contains a NUL byte.
pub(crate) fn contains_nul(s: &[u8]) -> (r: bool)
    ensures
        r == s@.contains(0u8),
{
    let n = s.len();
    let mut i: usize = 0;
    while i < n
        invariant
            n == s@.len(),
            0 <= i <= n,
            forall|j: int| 0 <= j < i ==> s@[j] != 0u8,
        decreases n - i,
    {
        if s[i] == 0 {
            assert(s@.contains(0u8)) by {
                assert(s@[i as int] == 0u8);
            }
            return true;
        }
        i += 1;
    }
    assert(!s@.contains(0u8)) by {
        if s@.contains(0u8) {
            let j = choose|j: int| 0 <= j < s@.len() && s@[j] == 0u8;
        }
    }
    false
}

/// First index at or after `from` and before `to` where `c` occurs, or
/// `to` when it does not.
fn find_byte_in(s: &[u8], from: usize, to: usize, c: u8) -> (r: usize)
    requires
        from <= to <= s@.len(),
    ensures
        from <= r <= to,
        r < to ==> s@[r as int] == c,
        forall|j: int| from <= j < r ==> s@[j] != c,
{
    let mut i: usize = from;
    while i < to
        invariant
            from <= i <= to <= s@.len(),
            forall|j: int| from <= j < i ==> s@[j] != c,
        decreases to - i,
    {
        if s[i] == c {
            return i;
        }
        i += 1;
    }
    to
}

/// An owned copy of `s[a..b]`.
pub(crate) fn copy_range(s: &[u8], a: usize, b: usize) -> (r: Vec<u8>)
    requires
        a <= b <= s@.len(),
    ensures
        r@ == s@.subrange(a as int, b as int),
{
    let mut out: Vec<u8> = Vec::new();
    let mut i: usize = a;
    while i < b
        invariant
            a <= i <= b <= s@.len(),
            out@ == s@.subrange(a as int, i as int),
        decreases b - i,
    {
        out.push(s[i]);
        assert(out@ =~= s@.subrange(a as int, i + 1));
        i += 1;
    }
    out
}

/// Appends all of `s` to `out`.
fn append_bytes(out: &mut Vec<u8>, s: &[u8])
    ensures
        final(out)@ == old(out)@ + s@,
{
    let n = s.len();
    let mut i: usize = 0;
    while i < n
        invariant
            n == s@.len(),
            0 <= i <= n,
            out@ == old(out)@ + s@.subrange(0, i as int),
        decreases n - i,
    {
        assert(out@ =~= old(out)@ + s@.subrange(0, i as int));
        out.push(s[i]);
        assert(out@ =~= old(out)@ + s@.subrange(0, i + 1));
        i += 1;
    }
    assert(out@ =~= old(out)@ + s@);
}

/// Whether two byte strings are equal.
pub fn bytes_eq(a: &[u8], b: &[u8]) -> (r: bool)
    ensures
        r == (a@ == b@),
{
    let na = a.len();
    if na != b.len() {
        return false;
    }
    let mut i: usize = 0;
    while i < na
        invariant
            na == a@.len() == b@.len(),
            0 <= i <= na,
            forall|j: int| 0 <= j < i ==> a@[j] == b@[j],
        decreases na - i,
    {
        if a[i] != b[i] {
            return false;
        }
        i += 1;
    }
    proof {
        assert(a@ =~= b@);
    }
    true
}

/// ASCII lower-casing of one byte.
fn lower_byte(b: u8) -> (r: u8)
    ensures
        r == ascii_lower(b),
{
    if 65 <= b && b <= 90 {
        b + 32
    } else {
        b
    }
}

/// Whether two byte strings match under the given case rule.
fn keys_match_exec(a: &[u8], b: &[u8], match_case: bool) -> (r: bool)
    ensures
        r == keys_match(a@, b@, match_case),
{
    let na = a.len();
    let nb = b.len();
    if na != nb {
        assert(!match_case ==> lower_seq(a@).len() != lower_seq(b@).len());
        return false;
    }
    let mut i: usize = 0;
    while i < na
        invariant
            na == a@.len() == b@.len(),
            0 <= i <= na,
            match_case ==> forall|j: int| 0 <= j < i ==> a@[j] == b@[j],
            !match_case ==> forall|j: int|
                0 <= j < i ==> ascii_lower(a@[j]) == ascii_lower(b@[j]),
        decreases na - i,
    {
        if match_case {
            if a[i] != b[i] {
                assert(a@ != b@);
                return false;
            }
        } else {
            if lower_byte(a[i]) != lower_byte(b[i]) {
                assert(lower_seq(a@)[i as int] != lower_seq(b@)[i as int]);
                return false;
            }
        }
        i += 1;
    }
    if match_case {
        assert(a@ =~= b@);
    } else {
        assert(lower_seq(a@) =~= lower_seq(b@));
    }
    true
}

/// `find_key_from` is pinned down by any witness to a first match.
proof fn lemma_find_key_pin(es: DictEntries, k: Seq<u8>, mc: bool, s: int, i: int)
    requires
        0 <= s <= i <= es.len(),
        forall|j: int| s <= j < i ==> !keys_match(#[trigger] es[j].0, k, mc),
        i < es.len() ==> keys_match(es[i].0, k, mc),
    ensures
        find_key_from(es, k, mc, s) == i,
    decreases i - s,
{
    if s < i {
        assert(!keys_match(es[s].0, k, mc));
        lemma_find_key_pin(es, k, mc, s + 1, i);
    }
}

/// Bounds and meaning of `find_key_from`.
pub proof fn lemma_find_key_props(es: DictEntries, k: Seq<u8>, mc: bool, s: int)
    requires
        0 <= s <= es.len(),
    ensures
        s <= find_key_from(es, k, mc, s) <= es.len(),
        find_key_from(es, k, mc, s) < es.len() ==> keys_match(
            es[find_key_from(es, k, mc, s)].0,
            k,
            mc,
        ),
        forall|j: int| s <= j < find_key_from(es, k, mc, s) ==> !keys_match(
            (#[trigger] es[j]).0,
            k,
            mc,
        ),
    decreases es.len() - s,
{
    if s < es.len() && !keys_match(es[s].0, k, mc) {
        lemma_find_key_props(es, k, mc, s + 1);
    }
}

/// `spec_set` keeps entries free of a byte that the new key and value are
/// also free of.
proof fn lemma_spec_set_free(es: DictEntries, k: Seq<u8>, v: Seq<u8>, flags: i32, c: u8)
    requires
        sep_free(es, c),
        !k.contains(c),
        !v.contains(c),
    ensures
        sep_free(spec_set(es, k, v, flags), c),
{
    let r = spec_set(es, k, v, flags);
    let m = find_key_from(es, k, flags & AV_DICT_MATCH_CASE != 0, 0);
    lemma_find_key_props(es, k, flags & AV_DICT_MATCH_CASE != 0, 0);
    if 0 <= m < es.len() {
        assert(!(es[m].1 + v).contains(c)) by {
            if (es[m].1 + v).contains(c) {
                let j = choose|j: int| 0 <= j < (es[m].1 + v).len() && (es[m].1 + v)[j] == c;
                if j < es[m].1.len() {
                    assert(es[m].1[j] == c);
                } else {
                    assert(v[j - es[m].1.len()] == c);
                }
            }
        }
    }
    assert forall|i: int| 0 <= i < r.len() implies !(#[trigger] r[i]).0.contains(c)
        && !r[i].1.contains(c) by {
        if flags & AV_DICT_MULTIKEY != 0 || m == es.len() {
            if i < es.len() {
                assert(r[i] == es[i]);
            } else {
                assert(r[i] == (k, v));
            }
        } else if flags & AV_DICT_DONT_OVERWRITE != 0 {
            assert(r[i] == es[i]);
        } else {
            if i != m {
                assert(r[i] == es[i]);
            } else {
                assert(!es[m].0.contains(c) && !es[m].1.contains(c));
            }
        }
    }
}

/// Setting the pairs one more at the end equals setting the last pair into
/// the result of setting the others.
proof fn lemma_set_all_snoc(es: DictEntries, pairs: DictEntries, p: (Seq<u8>, Seq<u8>), flags: i32)
    ensures
        set_all(es, pairs.push(p), flags) == spec_set(set_all(es, pairs, flags), p.0, p.1, flags),
    decreases pairs.len(),
{
    reveal_with_fuel(set_all, 2);
    if pairs.len() == 0 {
        assert(pairs.push(p)[0] == p);
        assert(pairs.push(p).drop_first() =~= Seq::<(Seq<u8>, Seq<u8>)>::empty());
    } else {
        assert(pairs.push(p)[0] == pairs[0]);
        assert(pairs.push(p).drop_first() =~= pairs.drop_first().push(p));
        lemma_set_all_snoc(spec_set(es, pairs[0].0, pairs[0].1, flags), pairs.drop_first(), p, flags);
    }
}

/// `set_all` preserves freedom from a byte that all pairs are free of.
proof fn lemma_set_all_free(es: DictEntries, pairs: DictEntries, flags: i32, c: u8)
    requires
        sep_free(es, c),
        sep_free(pairs, c),
    ensures
        sep_free(set_all(es, pairs, flags), c),
    decreases pairs.len(),
{
    if pairs.len() > 0 {
        assert(!pairs[0].0.contains(c) && !pairs[0].1.contains(c));
        lemma_spec_set_free(es, pairs[0].0, pairs[0].1, flags, c);
        assert(sep_free(pairs.drop_first(), c)) by {
            assert(forall|i: int|
                0 <= i < pairs.drop_first().len() ==> #[trigger] pairs.drop_first()[i]
                    == pairs[i + 1]);
        }
        lemma_set_all_free(spec_set(es, pairs[0].0, pairs[0].1, flags), pairs.drop_first(), flags, c);
    }
}

/// A subrange of a sequence free of `c` is free of `c`.
proof fn lemma_subrange_free(s: Seq<u8>, a: int, b: int, c: u8)
    requires
        !s.contains(c),
        0 <= a <= b <= s.len(),
    ensures
        !s.subrange(a, b).contains(c),
{
    if s.subrange(a, b).contains(c) {
        let j = choose|j: int| 0 <= j < b - a && s.subrange(a, b)[j] == c;
        assert(s[a + j] == c);
        assert(s.contains(c));
    }
}

impl AVDictionary {
    /// Well-formed: no key and no value contains a NUL byte.
    pub open spec fn wf(&self) -> bool {
        sep_free(self@, 0u8)
    }

    /// A new, empty dictionary.
    pub fn new() -> (d: Self)
        ensures
            d@ == Seq::<(Seq<u8>, Seq<u8>)>::empty(),
            d.wf(),
    {
        let d = AVDictionary { entries: Vec::new() };
        proof {
            assert(d@ =~= Seq::<(Seq<u8>, Seq<u8>)>::empty());
        }
        d
    }

    /// The number of entries.
    pub fn len(&self) -> (n: usize)
        ensures
            n == self@.len(),
    {
        self.entries.len()
    }

    /// Index of the first entry at or after `start` whose key matches.
    fn find_first(&self, key: &[u8], match_case: bool, start: usize) -> (m: usize)
        requires
            start <= self@.len(),
        ensures
            m == find_key_from(self@, key@, match_case, start as int),
    {
        let n = self.entries.len();
        let mut i: usize = start;
        while i < n
            invariant
                start <= i <= n,
                n == self@.len(),
                forall|j: int| start <= j < i ==> !keys_match(
                    (#[trigger] self@[j]).0,
                    key@,
                    match_case,
                ),
            decreases n - i,
        {
            if keys_match_exec(self.entries[i].0.as_slice(), key, match_case) {
                proof {
                    lemma_find_key_pin(self@, key@, match_case, start as int, i as int);
                }
                return i;
            }
            i += 1;
        }
        proof {
            lemma_find_key_pin(self@, key@, match_case, start as int, n as int);
        }
        n
    }

    /// Stores `value` under `key` without the NUL-byte boundary check; the
    /// flag semantics are exactly `spec_set`.
    fn set_nonul(&mut self, key: &[u8], value: &[u8], flags: i32)
        requires
            old(self).wf(),
            !key@.contains(0u8),
            !value@.contains(0u8),
        ensures
            final(self)@ == spec_set(old(self)@, key@, value@, flags),
            final(self).wf(),
    {
        let match_case = flags & AV_DICT_MATCH_CASE != 0;
        let n = self.entries.len();
        let m = self.find_first(key, match_case, 0);
        proof {
            lemma_find_key_props(self@, key@, match_case, 0);
            lemma_spec_set_free(self@, key@, value@, flags, 0u8);
        }
        if flags & AV_DICT_MULTIKEY != 0 || m == n {
            let k = copy_range(key, 0, key.len());
            let v = copy_range(value, 0, value.len());
            proof {
                assert(k@ =~= key@);
                assert(v@ =~= value@);
            }
            self.entries.push((k, v));
            proof {
                assert(self@ =~= old(self)@.push((key@, value@)));
            }
        } else if flags & AV_DICT_DONT_OVERWRITE != 0 {
            // Keep the existing entry.
        } else if flags & AV_DICT_APPEND != 0 {
            let k = copy_range(self.entries[m].0.as_slice(), 0, self.entries[m].0.len());
            let mut v = copy_range(self.entries[m].1.as_slice(), 0, self.entries[m].1.len());
            append_bytes(&mut v, value);
            proof {
                assert(k@ =~= old(self)@[m as int].0);
                assert(v@ =~= old(self)@[m as int].1 + value@);
            }
            self.entries.set(m, (k, v));
            proof {
                assert(self@ =~= old(self)@.update(
                    m as int,
                    (old(self)@[m as int].0, old(self)@[m as int].1 + value@),
                ));
            }
        } else {
            let k = copy_range(self.entries[m].0.as_slice(), 0, self.entries[m].0.len());
            let v = copy_range(value, 0, value.len());
            proof {
                assert(k@ =~= old(self)@[m as int].0);
                assert(v@ =~= value@);
            }
            self.entries.set(m, (k, v));
            proof {
                assert(self@ =~= old(self)@.update(m as int, (old(self)@[m as int].0, value@)));
            }
        }
    }

    /// Stores `value` under `key`. Fails with `AVERROR_EINVAL`, leaving the
    /// dictionary unchanged, exactly when the key or the value contains a
    /// NUL byte; otherwise updates the entries as `spec_set` describes.
    pub fn set(&mut self, key: &[u8], value: &[u8], flags: i32) -> (r: Result<i32, i32>)
        requires
            old(self).wf(),
        ensures
            final(self).wf(),
            r == Ok::<i32, i32>(0) <==> !key@.contains(0u8) && !value@.contains(0u8),
            r.is_ok() ==> final(self)@ == spec_set(old(self)@, key@, value@, flags),
            r.is_err() ==> final(self)@ == old(self)@ && r == Err::<i32, i32>(AVERROR_EINVAL),
    {
        if contains_nul(key) || contains_nul(value) {
            return Err(AVERROR_EINVAL);
        }
        self.set_nonul(key, value, flags);
        Ok(0)
    }

    /// Stores `value` formatted as its decimal byte string under `key`.
    /// Fails with `AVERROR_EINVAL`, leaving the dictionary unchanged,
    /// exactly when the key contains a NUL byte.
    pub fn set_int(&mut self, key: &[u8], value: i64, flags: i32) -> (r: Result<i32, i32>)
        requires
            old(self).wf(),
        ensures
            final(self).wf(),
            r == Ok::<i32, i32>(0) <==> !key@.contains(0u8),
            r.is_ok() ==> final(self)@ == spec_set(
                old(self)@,
                key@,
                dec_repr(value as int),
                flags,
            ),
            r.is_err() ==> final(self)@ == old(self)@ && r == Err::<i32, i32>(AVERROR_EINVAL),
    {
        if contains_nul(key) {
            return Err(AVERROR_EINVAL);
        }
        let digits = int_to_dec(value);
        proof {
            lemma_dec_repr_free(value as int);
        }
        self.set_nonul(key, digits.as_slice(), flags);
        Ok(0)
    }

    /// Looks `key` up, starting after the entry `prev` when one is given
    /// (sequential multi-value lookup); honours the match-case flag.
    /// Returns the first matching entry at or after the cursor, or nothing
    /// when no later entry matches.
    pub fn get(&self, key: &[u8], prev: Option<&AVDictionaryEntry>, flags: i32) -> (r: Option<
        AVDictionaryEntry,
    >)
        ensures
            ({
                let start: int = match prev {
                    Some(p) => p.index + 1,
                    None => 0,
                };
                let m = find_key_from(self@, key@, flags & AV_DICT_MATCH_CASE != 0, start);
                match r {
                    Some(e) => m < self@.len() && e.index == m && e.key@ == self@[m].0
                        && e.val@ == self@[m].1,
                    None => m == self@.len(),
                }
            }),
    {
        let match_case = flags & AV_DICT_MATCH_CASE != 0;
        let n = self.entries.len();
        let start: usize = match prev {
            Some(p) => if p.index >= n {
                n
            } else {
                p.index + 1
            },
            None => 0,
        };
        let m = self.find_first(key, match_case, start);
        proof {
            lemma_find_key_props(self@, key@, match_case, start as int);
        }
        if m < n {
            Some(
                AVDictionaryEntry {
                    key: copy_range(self.entries[m].0.as_slice(), 0, self.entries[m].0.len()),
                    val: copy_range(self.entries[m].1.as_slice(), 0, self.entries[m].1.len()),
                    index: m,
                },
            )
        } else {
            None
        }
    }

    /// Renders the entries to text: key, key/value separator, value, with
    /// entries joined by the pairs separator. Fails with `AVERROR_EINVAL`
    /// exactly when the separators are equal or one of them is NUL; it does
    /// not check that the separators stay out of keys and values (a caller
    /// contract: see `lemma_dict_round_trip`).
    pub fn get_string(&self, key_val_sep: u8, pairs_sep: u8) -> (r: Result<Vec<u8>, i32>)
        ensures
            r.is_err() <==> (key_val_sep == pairs_sep || key_val_sep == 0 || pairs_sep == 0),
            r.is_err() ==> r == Err::<Vec<u8>, i32>(AVERROR_EINVAL),
            r matches Ok(v) ==> v@ == render_entries(self@, key_val_sep, pairs_sep),
    {
        if key_val_sep == pairs_sep || key_val_sep == 0 || pairs_sep == 0 {
            return Err(AVERROR_EINVAL);
        }
        let n = self.entries.len();
        let mut out: Vec<u8> = Vec::new();
        let mut i: usize = 0;
        proof {
            assert(self@.subrange(0, 0) =~= Seq::<(Seq<u8>, Seq<u8>)>::empty());
        }
        while i < n
            invariant
                n == self@.len(),
                0 <= i <= n,
                out@ == render_entries(self@.subrange(0, i as int), key_val_sep, pairs_sep),
            decreases n - i,
        {
            let ghost pre_out = out@;
            if i > 0 {
                out.push(pairs_sep);
            }
            append_bytes(&mut out, self.entries[i].0.as_slice());
            out.push(key_val_sep);
            append_bytes(&mut out, self.entries[i].1.as_slice());
            proof {
                let pre = self@.subrange(0, i as int);
                let cur = self@.subrange(0, i + 1);
                lemma_render_snoc(cur, key_val_sep, pairs_sep);
                assert(cur.drop_last() =~= pre);
                assert(cur.last() == self@[i as int]);
                if i == 0 {
                    assert(out@ =~= render_entry(cur[0].0, cur[0].1, key_val_sep));
                } else {
                    assert(out@ =~= render_entries(pre, key_val_sep, pairs_sep) + seq![pairs_sep]
                        + render_entry(cur.last().0, cur.last().1, key_val_sep));
                }
            }
            i += 1;
        }
        proof {
            assert(self@.subrange(0, n as int) =~= self@);
        }
        Ok(out)
    }

    /// A new dictionary holding this one's entries, stored one by one in
    /// order under the given flags.
    pub fn copy(&self, flags: i32) -> (r: Result<AVDictionary, i32>)
        requires
            self.wf(),
        ensures
            r matches Ok(d) && d@ == set_all(Seq::empty(), self@, flags) && d.wf(),
    {
        let n = self.entries.len();
        let mut d = AVDictionary::new();
        let mut i: usize = 0;
        while i < n
            invariant
                n == self@.len(),
                0 <= i <= n,
                self.wf(),
                d.wf(),
                d@ == set_all(Seq::empty(), self@.subrange(0, i as int), flags),
            decreases n - i,
        {
            proof {
                assert(!self@[i as int].0.contains(0u8) && !self@[i as int].1.contains(0u8));
                lemma_set_all_snoc(
                    Seq::empty(),
                    self@.subrange(0, i as int),
                    self@[i as int],
                    flags,
                );
                assert(self@.subrange(0, i as int).push(self@[i as int]) =~= self@.subrange(
                    0,
                    i + 1,
                ));
            }
            d.set_nonul(self.entries[i].0.as_slice(), self.entries[i].1.as_slice(), flags);
            i += 1;
        }
        proof {
            assert(self@.subrange(0, n as int) =~= self@);
        }
        Ok(d)
    }

    /// The entry at position `i`.
    pub fn entry(&self, i: usize) -> (e: AVDictionaryEntry)
        requires
            i < self@.len(),
        ensures
            e.index == i,
            e.key@ == self@[i as int].0,
            e.val@ == self@[i as int].1,
    {
        AVDictionaryEntry {
            key: copy_range(self.entries[i].0.as_slice(), 0, self.entries[i].0.len()),
            val: copy_range(self.entries[i].1.as_slice(), 0, self.entries[i].1.len()),
            index: i,
        }
    }

    /// Splits `text` into entries and stores each in order under `flags`.
    /// The separators must each be a single non-NUL character: a
    /// multi-character separator is not a supported contract and is
    /// rejected at the boundary, as is text containing a NUL byte; either
    /// fails with `AVERROR_EINVAL` and leaves the dictionary unchanged.
    pub fn parse_str(&mut self, text: &[u8], key_val_sep: &[u8], pairs_sep: &[u8], flags: i32) -> (r:
        Result<i32, i32>)
        requires
            old(self).wf(),
        ensures
            final(self).wf(),
            ({
                let bad = key_val_sep@.len() != 1 || pairs_sep@.len() != 1 || key_val_sep@[0]
                    == 0 || pairs_sep@[0] == 0 || text@.contains(0u8);
                if bad {
                    r == Err::<i32, i32>(AVERROR_EINVAL) && final(self)@ == old(self)@
                } else {
                    r == Ok::<i32, i32>(0) && final(self)@ == set_all(
                        old(self)@,
                        parse_pairs(text@, key_val_sep@[0], pairs_sep@[0]),
                        flags,
                    )
                }
            }),
    {
        if key_val_sep.len() != 1 || pairs_sep.len() != 1 {
            return Err(AVERROR_EINVAL);
        }
        let kv = key_val_sep[0];
        let ps = pairs_sep[0];
        if kv == 0 || ps == 0 {
            return Err(AVERROR_EINVAL);
        }
        if contains_nul(text) {
            return Err(AVERROR_EINVAL);
        }
        let n = text.len();
        let ghost all = parse_pairs(text@, kv, ps);
        let ghost mut done: DictEntries = Seq::empty();
        let mut pos: usize = 0;
        let mut more: bool = true;
        proof {
            assert(text@.subrange(0, n as int) =~= text@);
            assert(done + parse_pairs(text@.subrange(0, n as int), kv, ps) =~= all);
        }
        while more
            invariant
                n == text@.len(),
                !text@.contains(0u8),
                kv != 0,
                ps != 0,
                0 <= pos <= n,
                old(self).wf(),
                self.wf(),
                self@ == set_all(old(self)@, done, flags),
                all == parse_pairs(text@, kv, ps),
                more ==> done + parse_pairs(text@.subrange(pos as int, n as int), kv, ps)
                    == all,
                !more ==> done == all,
            decreases n - pos + (if more { 1int } else { 0int }),
        {
            let ghost rem = text@.subrange(pos as int, n as int);
            let j = find_byte_in(text, pos, n, ps);
            proof {
                assert(forall|x: int| 0 <= x < rem.len() ==> rem[x] == text@[pos + x]);
                if j < n {
                    assert forall|x: int| 0 <= x < j - pos implies rem[x] != ps by {
                        assert(rem[x] == text@[pos + x]);
                    }
                    assert(rem[j - pos] == text@[j as int]);
                    lemma_idx_of_unique(rem, ps, j - pos);
                } else if rem.len() > 0 {
                    assert(!rem.contains(ps)) by {
                        if rem.contains(ps) {
                            let x = choose|x: int| 0 <= x < rem.len() && rem[x] == ps;
                            assert(text@[pos + x] == ps);
                        }
                    }
                    lemma_idx_of_absent(rem, ps);
                }
            }
            let ghost rest = if j == n {
                Seq::<u8>::empty()
            } else {
                text@.subrange(j + 1, n as int)
            };
            proof {
                if pos < n && j < n {
                    assert(rem.subrange(j - pos + 1, rem.len() as int) =~= rest);
                }
            }
            if j > pos {
                let ghost pair = rem.subrange(0, j - pos);
                proof {
                    assert(pair =~= text@.subrange(pos as int, j as int));
                }
                let j2 = find_byte_in(text, pos, j, kv);
                proof {
                    assert(forall|x: int| 0 <= x < pair.len() ==> pair[x] == text@[pos + x]);
                    if j2 < j {
                        assert forall|x: int| 0 <= x < j2 - pos implies pair[x] != kv by {
                            assert(pair[x] == text@[pos + x]);
                        }
                        assert(pair[j2 - pos] == text@[j2 as int]);
                        lemma_idx_of_unique(pair, kv, j2 - pos);
                    } else {
                        assert(!pair.contains(kv)) by {
                            if pair.contains(kv) {
                                let x = choose|x: int| 0 <= x < pair.len() && pair[x] == kv;
                                assert(text@[pos + x] == kv);
                            }
                        }
                        lemma_idx_of_absent(pair, kv);
                    }
                }
                let key = copy_range(text, pos, j2);
                let val = if j2 < j {
                    copy_range(text, j2 + 1, j)
                } else {
                    Vec::new()
                };
                proof {
                    if j2 < j {
                        assert(key@ =~= pair.subrange(0, j2 - pos));
                        assert(val@ =~= pair.subrange(j2 - pos + 1, pair.len() as int));
                    } else {
                        assert(key@ =~= pair);
                        assert(val@ =~= Seq::<u8>::empty());
                    }
                    assert(split_pair(pair, kv) == (key@, val@));
                    lemma_subrange_free(text@, pos as int, j2 as int, 0u8);
                    if j2 < j {
                        lemma_subrange_free(text@, j2 + 1, j as int, 0u8);
                    }
                    lemma_set_all_snoc(old(self)@, done, (key@, val@), flags);
                }
                self.set_nonul(key.as_slice(), val.as_slice(), flags);
                proof {
                    reveal_with_fuel(parse_pairs, 2);
                    assert(parse_pairs(rem, kv, ps) == seq![(key@, val@)] + parse_pairs(
                        rest,
                        kv,
                        ps,
                    ));
                    done = done.push((key@, val@));
                    assert(done + parse_pairs(rest, kv, ps) =~= all);
                }
            } else {
                proof {
                    reveal_with_fuel(parse_pairs, 2);
                    if pos < n {
                        assert(rem.subrange(0, 0) =~= Seq::<u8>::empty());
                        assert(parse_pairs(rem, kv, ps) == parse_pairs(rest, kv, ps));
                    } else {
                        assert(rem =~= Seq::<u8>::empty());
                        assert(rest =~= Seq::<u8>::empty());
                    }
                    assert(done + parse_pairs(rest, kv, ps) =~= all);
                }
            }
            if j == n {
                more = false;
                proof {
                    assert(parse_pairs(Seq::<u8>::empty(), kv, ps) =~= Seq::<(
                        Seq<u8>,
                        Seq<u8>,
                    )>::empty());
                    assert(done + parse_pairs(rest, kv, ps) =~= done);
                }
            } else {
                pos = j + 1;
                proof {
                    assert(text@.subrange(pos as int, n as int) =~= rest);
                }
            }
        }
        Ok(0)
    }
}

/// Decimal digit string of a natural number, most significant first.
pub open spec fn dec_digits(n: nat) -> Seq<u8>
    decreases n,
{
    if n < 10 {
        seq![(48 + n) as u8]
    } else {
        dec_digits(n / 10).push((48 + n % 10) as u8)
    }
}

/// Decimal byte string of an integer, with a leading minus sign when
/// negative.
pub open spec fn dec_repr(v: int) -> Seq<u8> {
    if v < 0 {
        seq![45u8] + dec_digits((-v) as nat)
    } else {
        dec_digits(v as nat)
    }
}

/// Decimal digits are the bytes 48 through 57.
pub proof fn lemma_dec_digits_range(n: nat)
    ensures
        dec_digits(n).len() >= 1,
        forall|i: int| 0 <= i < dec_digits(n).len() ==> 48 <= #[trigger] dec_digits(n)[i] <= 57,
    decreases n,
{
    if n >= 10 {
        lemma_dec_digits_range(n / 10);
    }
}

/// A decimal representation never contains a NUL byte.
pub proof fn lemma_dec_repr_free(v: int)
    ensures
        !dec_repr(v).contains(0u8),
{
    lemma_dec_digits_range(if v < 0 { (-v) as nat } else { v as nat });
    if dec_repr(v).contains(0u8) {
        let i = choose|i: int| 0 <= i < dec_repr(v).len() && dec_repr(v)[i] == 0u8;
        if v < 0 {
            if i > 0 {
                assert(dec_repr(v)[i] == dec_digits((-v) as nat)[i - 1]);
            }
        }
    }
}

/// Writes the decimal digits of `n` after the bytes already in `out`.
fn push_digits(n: u64, out: &mut Vec<u8>)
    ensures
        final(out)@ == old(out)@ + dec_digits(n as nat),
    decreases n,
{
    if n < 10 {
        out.push(48 + (n as u8));
        assert(out@ =~= old(out)@ + dec_digits(n as nat));
    } else {
        push_digits(n / 10, out);
        let d: u8 = (n % 10) as u8;
        out.push(48 + d);
        assert((n / 10) as nat == (n as nat) / 10);
        assert((n % 10) as nat == (n as nat) % 10);
        assert(out@ =~= old(out)@ + dec_digits(n as nat));
    }
}

/// The decimal byte string of `value`.
fn int_to_dec(value: i64) -> (r: Vec<u8>)
    ensures
        r@ == dec_repr(value as int),
{
    let mut out: Vec<u8> = Vec::new();
    if value < 0 {
        out.push(45);
        let mag: u64 = ((-(value + 1)) as u64) + 1;
        assert(mag as nat == (-(value as int)) as nat);
        push_digits(mag, &mut out);
        assert(out@ =~= seq![45u8] + dec_digits(mag as nat));
    } else {
        push_digits(value as u64, &mut out);
        assert(out@ =~= dec_digits((value as int) as nat));
    }
    out
}

/// Rendering one more entry at the end appends a separator and that
/// entry's text.
proof fn lemma_render_snoc(es: DictEntries, kv_sep: u8, pairs_sep: u8)
    requires
        es.len() >= 1,
    ensures
        render_entries(es, kv_sep, pairs_sep) == if es.len() == 1 {
            render_entry(es[0].0, es[0].1, kv_sep)
        } else {
            render_entries(es.drop_last(), kv_sep, pairs_sep) + seq![pairs_sep] + render_entry(
                es.last().0,
                es.last().1,
                kv_sep,
            )
        },
    decreases es.len(),
{
    reveal_with_fuel(render_entries, 3);
    if es.len() == 1 {
    } else if es.len() == 2 {
        assert(es.drop_first().len() == 1);
        assert(es.drop_first()[0] == es[1]);
        assert(es.drop_last().len() == 1);
        assert(es.drop_last()[0] == es[0]);
        assert(es.last() == es[1]);
    } else {
        let d = es.drop_first();
        lemma_render_snoc(d, kv_sep, pairs_sep);
        assert(d.drop_last() =~= es.drop_last().drop_first());
        assert(es.drop_last().len() >= 2);
        assert(es.drop_last()[0] == es[0]);
        assert(d.last() == es.last());
        assert(render_entries(es, kv_sep, pairs_sep) =~= render_entries(
            es.drop_last(),
            kv_sep,
            pairs_sep,
        ) + seq![pairs_sep] + render_entry(es.last().0, es.last().1, kv_sep));
    }
}

} // verus!
