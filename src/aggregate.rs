//! Per-language totals, summed from per-file counts in any order and any
//! grouping, and merged between workers.

use indexmap::IndexMap;
use vstd::prelude::*;
use vstd::utf8::encode_utf8;

use crate::types::{FileCounts, Tally};

verus! {

broadcast use vstd::seq_lib::group_to_multiset_ensures;

/// `indexmap::IndexMap`, an insertion-ordered hash map, held opaquely.
#[verifier::external_type_specification]
#[verifier::external_body]
#[verifier::reject_recursive_types(K)]
#[verifier::reject_recursive_types(V)]
#[verifier::reject_recursive_types(S)]
pub struct ExIndexMap<K, V, S>(IndexMap<K, V, S>);

/// The pairs of an insertion-ordered map from language name to counts, in order.
pub uninterp spec fn index_map_entries(m: IndexMap<String, FileCounts>) -> Seq<(Seq<char>, FileCounts)>;

/// The first position at or after `i` whose key is `key`.
pub open spec fn key_index_from(e: Seq<(Seq<char>, FileCounts)>, key: Seq<char>, i: int) -> Option<int>
    decreases e.len() - i,
{
    if i < 0 || i >= e.len() {
        None
    } else if e[i].0 == key {
        Some(i)
    } else {
        key_index_from(e, key, i + 1)
    }
}

/// The position of `key` among the pairs.
pub open spec fn key_index(e: Seq<(Seq<char>, FileCounts)>, key: Seq<char>) -> Option<int> {
    key_index_from(e, key, 0)
}

/// No key occurs twice.
pub open spec fn keys_unique(e: Seq<(Seq<char>, FileCounts)>) -> bool {
    forall|i: int, j: int| 0 <= i < j < e.len() ==> (#[trigger] e[i]).0 != (#[trigger] e[j]).0
}

/// The counts stored for `key`, or zero.
pub open spec fn value_of(e: Seq<(Seq<char>, FileCounts)>, key: Seq<char>) -> Tally {
    match key_index(e, key) {
        Some(i) => e[i].1@,
        None => Tally::zero(),
    }
}

/// Relies on `IndexMap::new`: a new map holds no pair.
#[verifier::external_body]
fn index_map_new() -> (r: IndexMap<String, FileCounts>)
    ensures
        index_map_entries(r) == Seq::<(Seq<char>, FileCounts)>::empty(),
{
    IndexMap::new()
}

/// Relies on `IndexMap::get`: the value stored under an equal key, if any.
#[verifier::external_body]
fn index_map_get(m: &IndexMap<String, FileCounts>, key: &String) -> (r: Option<FileCounts>)
    ensures
        r == match key_index(index_map_entries(*m), key@) {
            Some(i) => Some(index_map_entries(*m)[i].1),
            None => None,
        },
{
    m.get(key).copied()
}

/// Relies on `IndexMap::insert`: an equal key keeps its place and takes the
/// new value; a new key goes last. Keys stay unique.
#[verifier::external_body]
fn index_map_insert(m: &mut IndexMap<String, FileCounts>, key: String, value: FileCounts)
    ensures
        index_map_entries(*final(m)) == match key_index(index_map_entries(*old(m)), key@) {
            Some(i) => index_map_entries(*old(m)).update(i, (key@, value)),
            None => index_map_entries(*old(m)).push((key@, value)),
        },
{
    m.insert(key, value);
}

/// Relies on `IndexMap::iter`: the pairs, in the map's order.
#[verifier::external_body]
fn index_map_pairs(m: &IndexMap<String, FileCounts>) -> (r: Vec<(String, FileCounts)>)
    ensures
        r@.len() == index_map_entries(*m).len(),
        forall|i: int|
            0 <= i < r@.len() ==> (#[trigger] r@[i]).0@ == index_map_entries(*m)[i].0 && r@[i].1
                == index_map_entries(*m)[i].1,
{
    m.iter().map(|(k, v)| (k.clone(), *v)).collect()
}

/// The sum of the counts of the per-file results for language `lang`.
pub open spec fn lang_total(h: Seq<(Seq<char>, Tally)>, lang: Seq<char>) -> Tally
    decreases h.len(),
{
    if h.len() == 0 {
        Tally::zero()
    } else {
        lang_total(h.drop_last(), lang).plus(
            if h.last().0 == lang {
                h.last().1
            } else {
                Tally::zero()
            },
        )
    }
}

/// The sum of the counts of all per-file results.
pub open spec fn grand_total(h: Seq<(Seq<char>, Tally)>) -> Tally
    decreases h.len(),
{
    if h.len() == 0 {
        Tally::zero()
    } else {
        grand_total(h.drop_last()).plus(h.last().1)
    }
}

/// Some per-file result is for language `lang`.
pub open spec fn appears(h: Seq<(Seq<char>, Tally)>, lang: Seq<char>) -> bool {
    exists|j: int| 0 <= j < h.len() && (#[trigger] h[j]).0 == lang
}

/// Each field of `a` is at most that of `b`.
pub open spec fn tally_le(a: Tally, b: Tally) -> bool {
    a.files <= b.files && a.total <= b.total && a.code <= b.code && a.comment <= b.comment
        && a.blank <= b.blank
}

proof fn lemma_key_index_from(e: Seq<(Seq<char>, FileCounts)>, key: Seq<char>, i: int)
    requires
        0 <= i,
    ensures
        key_index_from(e, key, i) matches Some(k) ==> i <= k < e.len() && e[k].0 == key,
        key_index_from(e, key, i) is None ==> forall|t: int| i <= t < e.len() ==> (#[trigger] e[t]).0 != key,
    decreases e.len() - i,
{
    if i < e.len() && e[i].0 != key {
        lemma_key_index_from(e, key, i + 1);
    }
}

proof fn lemma_key_index(e: Seq<(Seq<char>, FileCounts)>, key: Seq<char>)
    ensures
        key_index(e, key) matches Some(k) ==> 0 <= k < e.len() && e[k].0 == key,
        key_index(e, key) is None ==> forall|t: int| 0 <= t < e.len() ==> (#[trigger] e[t]).0 != key,
{
    lemma_key_index_from(e, key, 0);
}

proof fn lemma_key_index_unique(e: Seq<(Seq<char>, FileCounts)>, k: int)
    requires
        keys_unique(e),
        0 <= k < e.len(),
    ensures
        key_index(e, e[k].0) == Some(k),
{
    lemma_key_index(e, e[k].0);
    if let Some(j) = key_index(e, e[k].0) {
        if j != k {
            if j < k {
                assert(e[j].0 != e[k].0);
            } else {
                assert(e[k].0 != e[j].0);
            }
        }
    }
}

/// Splitting the per-file results in two splits each language's sum.
pub proof fn lemma_lang_total_split(a: Seq<(Seq<char>, Tally)>, b: Seq<(Seq<char>, Tally)>, lang: Seq<char>)
    ensures
        lang_total(a + b, lang) == lang_total(a, lang).plus(lang_total(b, lang)),
    decreases b.len(),
{
    if b.len() == 0 {
        assert(a + b =~= a);
    } else {
        lemma_lang_total_split(a, b.drop_last(), lang);
        assert((a + b).drop_last() =~= a + b.drop_last());
    }
}

/// Splitting the per-file results in two splits the grand total.
pub proof fn lemma_grand_total_split(a: Seq<(Seq<char>, Tally)>, b: Seq<(Seq<char>, Tally)>)
    ensures
        grand_total(a + b) == grand_total(a).plus(grand_total(b)),
    decreases b.len(),
{
    if b.len() == 0 {
        assert(a + b =~= a);
    } else {
        lemma_grand_total_split(a, b.drop_last());
        assert((a + b).drop_last() =~= a + b.drop_last());
    }
}

proof fn lemma_lang_le_grand(h: Seq<(Seq<char>, Tally)>, lang: Seq<char>)
    ensures
        tally_le(lang_total(h, lang), grand_total(h)),
    decreases h.len(),
{
    if h.len() > 0 {
        lemma_lang_le_grand(h.drop_last(), lang);
    }
}

proof fn lemma_absent_zero(h: Seq<(Seq<char>, Tally)>, lang: Seq<char>)
    requires
        !appears(h, lang),
    ensures
        lang_total(h, lang) == Tally::zero(),
    decreases h.len(),
{
    if h.len() > 0 {
        assert(h.last() == h[h.len() - 1]);
        assert(!appears(h.drop_last(), lang)) by {
            if appears(h.drop_last(), lang) {
                let j = choose|j: int| 0 <= j < h.drop_last().len() && (#[trigger] h.drop_last()[j]).0 == lang;
                assert(h[j] == h.drop_last()[j]);
            }
        }
        lemma_absent_zero(h.drop_last(), lang);
    }
}

proof fn lemma_appears_push(h: Seq<(Seq<char>, Tally)>, x: (Seq<char>, Tally), lang: Seq<char>)
    ensures
        appears(h.push(x), lang) <==> appears(h, lang) || x.0 == lang,
{
    if appears(h, lang) {
        let j = choose|j: int| 0 <= j < h.len() && (#[trigger] h[j]).0 == lang;
        assert(h.push(x)[j] == h[j]);
    }
    if x.0 == lang {
        assert(h.push(x)[h.len() as int] == x);
    }
    if appears(h.push(x), lang) {
        let j = choose|j: int| 0 <= j < h.push(x).len() && (#[trigger] h.push(x)[j]).0 == lang;
        if j < h.len() {
            assert(h[j] == h.push(x)[j]);
        }
    }
}

proof fn lemma_appears_concat(a: Seq<(Seq<char>, Tally)>, b: Seq<(Seq<char>, Tally)>, lang: Seq<char>)
    ensures
        appears(a + b, lang) <==> appears(a, lang) || appears(b, lang),
{
    if appears(a, lang) {
        let j = choose|j: int| 0 <= j < a.len() && (#[trigger] a[j]).0 == lang;
        assert((a + b)[j] == a[j]);
    }
    if appears(b, lang) {
        let j = choose|j: int| 0 <= j < b.len() && (#[trigger] b[j]).0 == lang;
        assert((a + b)[a.len() + j] == b[j]);
    }
    if appears(a + b, lang) {
        let j = choose|j: int| 0 <= j < (a + b).len() && (#[trigger] (a + b)[j]).0 == lang;
        if j < a.len() {
            assert(a[j] == (a + b)[j]);
        } else {
            assert(b[j - a.len()] == (a + b)[j]);
        }
    }
}

proof fn lemma_bump(
    e0: Seq<(Seq<char>, FileCounts)>,
    e1: Seq<(Seq<char>, FileCounts)>,
    lang: Seq<char>,
    v: FileCounts,
    c: Tally,
    k: Seq<char>,
)
    requires
        keys_unique(e0),
        v@ == value_of(e0, lang).plus(c),
        e1 == match key_index(e0, lang) {
            Some(i) => e0.update(i, (lang, v)),
            None => e0.push((lang, v)),
        },
    ensures
        keys_unique(e1),
        value_of(e1, k) == value_of(e0, k).plus(
            if k == lang {
                c
            } else {
                Tally::zero()
            },
        ),
        key_index(e1, k) is Some <==> (key_index(e0, k) is Some || k == lang),
{
    lemma_key_index(e0, lang);
    lemma_key_index(e0, k);
    lemma_key_index(e1, k);
    match key_index(e0, lang) {
        Some(i) => {
            assert(e1 =~= e0.update(i, (lang, v)));
            assert(e1.len() == e0.len());
            assert(keys_unique(e1)) by {
                assert forall|a: int, b: int| 0 <= a < b < e1.len() implies (#[trigger] e1[a]).0 != (#[trigger] e1[b]).0 by {
                    assert(e0[a].0 != e0[b].0);
                }
            }
            assert forall|t: int| 0 <= t < e1.len() implies (#[trigger] e1[t]).0 == e0[t].0 by {}
            if key_index(e0, k) is Some {
                let t = key_index(e0, k)->Some_0;
                lemma_key_index_unique(e1, t);
                lemma_key_index_unique(e0, t);
            } else {
                assert forall|t: int| 0 <= t < e1.len() implies (#[trigger] e1[t]).0 != k by {
                    assert(e0[t].0 != k);
                }
                lemma_key_index_from(e1, k, 0);
                if key_index(e1, k) is Some {
                    let t = key_index(e1, k)->Some_0;
                    assert(e1[t].0 == k);
                }
            }
        },
        None => {
            assert(e1 =~= e0.push((lang, v)));
            assert(keys_unique(e1)) by {
                assert forall|a: int, b: int| 0 <= a < b < e1.len() implies (#[trigger] e1[a]).0 != (#[trigger] e1[b]).0 by {
                    if b < e0.len() {
                        assert(e0[a].0 != e0[b].0);
                    } else {
                        assert(e0[a].0 != lang);
                    }
                }
            }
            lemma_key_index_unique(e1, e0.len() as int);
            assert(e1[e0.len() as int] == (lang, v));
            if key_index(e0, k) is Some {
                let t = key_index(e0, k)->Some_0;
                lemma_key_index_unique(e1, t);
                lemma_key_index_unique(e0, t);
            } else if k != lang {
                assert forall|t: int| 0 <= t < e1.len() implies (#[trigger] e1[t]).0 != k by {
                    if t < e0.len() {
                        assert(e0[t].0 != k);
                    }
                }
                if key_index(e1, k) is Some {
                    let t = key_index(e1, k)->Some_0;
                    assert(e1[t].0 == k);
                }
            }
        },
    }
}

/// Summing per-file results does not depend on their order: any two
/// arrangements of the same multiset of results give the same per-language
/// and grand totals.
pub proof fn lemma_totals_order_independent(
    a: Seq<(Seq<char>, Tally)>,
    b: Seq<(Seq<char>, Tally)>,
    lang: Seq<char>,
)
    requires
        a.to_multiset() == b.to_multiset(),
    ensures
        lang_total(a, lang) == lang_total(b, lang),
        grand_total(a) == grand_total(b),
    decreases a.len(),
{
    broadcast use vstd::multiset::group_multiset_axioms;

    if a.len() == 0 {
        assert(b.to_multiset().len() == 0);
        assert(b =~= Seq::<(Seq<char>, Tally)>::empty());
    } else {
        let x = a.last();
        let a0 = a.drop_last();
        assert(a =~= a0.push(x));
        assert(a.to_multiset() == a0.to_multiset().insert(x));
        assert(a.to_multiset().count(x) > 0);
        assert(b.contains(x));
        let j = choose|j: int| 0 <= j < b.len() && b[j] == x;
        let b2 = b.remove(j);
        assert(b2.to_multiset() == b.to_multiset().remove(x));
        assert(a0.to_multiset() =~= a0.to_multiset().insert(x).remove(x));
        lemma_totals_order_independent(a0, b2, lang);
        let p = b.subrange(0, j);
        let q = b.subrange(j + 1, b.len() as int);
        assert(b =~= p + seq![x] + q);
        assert(b2 =~= p + q);
        lemma_lang_total_split(p + seq![x], q, lang);
        lemma_lang_total_split(p, seq![x], lang);
        lemma_lang_total_split(p, q, lang);
        lemma_grand_total_split(p + seq![x], q);
        lemma_grand_total_split(p, seq![x]);
        lemma_grand_total_split(p, q);
        assert(seq![x].drop_last() =~= Seq::<(Seq<char>, Tally)>::empty());
        assert(seq![x].last() == x);
        let cx = if x.0 == lang {
            x.1
        } else {
            Tally::zero()
        };
        assert(lang_total(Seq::<(Seq<char>, Tally)>::empty(), lang) == Tally::zero());
        assert(grand_total(Seq::<(Seq<char>, Tally)>::empty()) == Tally::zero());
        assert(seq![x].len() == 1);
        assert(lang_total(seq![x], lang) == lang_total(seq![x].drop_last(), lang).plus(cx));
        assert(lang_total(seq![x], lang) == Tally::zero().plus(cx));
        assert(grand_total(seq![x]) == Tally::zero().plus(x.1));
        assert(lang_total(a, lang) == lang_total(a0, lang).plus(cx));
        assert(grand_total(a) == grand_total(a0).plus(x.1));
        assert(lang_total(b, lang) == lang_total(p, lang).plus(lang_total(seq![x], lang)).plus(lang_total(q, lang)));
    }
}

/// The per-file results of several workers, one after another.
pub open spec fn concat_all(chunks: Seq<Seq<(Seq<char>, Tally)>>) -> Seq<(Seq<char>, Tally)>
    decreases chunks.len(),
{
    if chunks.len() == 0 {
        Seq::empty()
    } else {
        concat_all(chunks.drop_last()) + chunks.last()
    }
}

/// The sum over workers of each worker's total for `lang`.
pub open spec fn sum_of_lang_totals(chunks: Seq<Seq<(Seq<char>, Tally)>>, lang: Seq<char>) -> Tally
    decreases chunks.len(),
{
    if chunks.len() == 0 {
        Tally::zero()
    } else {
        sum_of_lang_totals(chunks.drop_last(), lang).plus(lang_total(chunks.last(), lang))
    }
}

/// The sum over workers of each worker's grand total.
pub open spec fn sum_of_grand_totals(chunks: Seq<Seq<(Seq<char>, Tally)>>) -> Tally
    decreases chunks.len(),
{
    if chunks.len() == 0 {
        Tally::zero()
    } else {
        sum_of_grand_totals(chunks.drop_last()).plus(grand_total(chunks.last()))
    }
}

/// Splitting the files among any number of workers, each summing its share,
/// and merging the workers' sums gives the totals of one sequential pass.
pub proof fn lemma_workers_match_sequential(chunks: Seq<Seq<(Seq<char>, Tally)>>, lang: Seq<char>)
    ensures
        lang_total(concat_all(chunks), lang) == sum_of_lang_totals(chunks, lang),
        grand_total(concat_all(chunks)) == sum_of_grand_totals(chunks),
    decreases chunks.len(),
{
    if chunks.len() > 0 {
        lemma_workers_match_sequential(chunks.drop_last(), lang);
        lemma_lang_total_split(concat_all(chunks.drop_last()), chunks.last(), lang);
        lemma_grand_total_split(concat_all(chunks.drop_last()), chunks.last());
    }
}

/// The sum of the per-language totals of the languages `langs`.
pub open spec fn sum_over_languages(h: Seq<(Seq<char>, Tally)>, langs: Seq<Seq<char>>) -> Tally
    decreases langs.len(),
{
    if langs.len() == 0 {
        Tally::zero()
    } else {
        sum_over_languages(h, langs.drop_last()).plus(lang_total(h, langs.last()))
    }
}

/// The counts of `x` where `k` is its language, zero elsewhere, summed over `langs`.
spec fn sum_of_share(x: (Seq<char>, Tally), langs: Seq<Seq<char>>) -> Tally
    decreases langs.len(),
{
    if langs.len() == 0 {
        Tally::zero()
    } else {
        sum_of_share(x, langs.drop_last()).plus(
            if langs.last() == x.0 {
                x.1
            } else {
                Tally::zero()
            },
        )
    }
}

proof fn lemma_sum_over_empty(langs: Seq<Seq<char>>)
    ensures
        sum_over_languages(Seq::empty(), langs) == Tally::zero(),
    decreases langs.len(),
{
    if langs.len() > 0 {
        lemma_sum_over_empty(langs.drop_last());
    }
}

proof fn lemma_sum_over_push(h: Seq<(Seq<char>, Tally)>, x: (Seq<char>, Tally), langs: Seq<Seq<char>>)
    ensures
        sum_over_languages(h.push(x), langs) == sum_over_languages(h, langs).plus(sum_of_share(x, langs)),
    decreases langs.len(),
{
    assert(h.push(x).drop_last() =~= h);
    if langs.len() > 0 {
        lemma_sum_over_push(h, x, langs.drop_last());
    }
}

proof fn lemma_share_once(x: (Seq<char>, Tally), langs: Seq<Seq<char>>)
    requires
        forall|i: int, j: int| 0 <= i < j < langs.len() ==> langs[i] != langs[j],
    ensures
        langs.contains(x.0) ==> sum_of_share(x, langs) == x.1,
        !langs.contains(x.0) ==> sum_of_share(x, langs) == Tally::zero(),
    decreases langs.len(),
{
    if langs.len() > 0 {
        let init = langs.drop_last();
        lemma_share_once(x, init);
        if langs.last() == x.0 {
            assert(!init.contains(x.0)) by {
                if init.contains(x.0) {
                    let i = choose|i: int| 0 <= i < init.len() && init[i] == x.0;
                    assert(langs[i] == langs[langs.len() - 1]);
                }
            }
        } else {
            assert(langs.contains(x.0) ==> init.contains(x.0)) by {
                if langs.contains(x.0) {
                    let i = choose|i: int| 0 <= i < langs.len() && langs[i] == x.0;
                    assert(init[i] == x.0);
                }
            }
            assert(init.contains(x.0) ==> langs.contains(x.0)) by {
                if init.contains(x.0) {
                    let i = choose|i: int| 0 <= i < init.len() && init[i] == x.0;
                    assert(langs[i] == x.0);
                }
            }
        }
    }
}

/// The grand total equals the sum of the per-language totals over any list
/// of distinct languages that holds every language with a result.
pub proof fn lemma_grand_total_is_sum_of_languages(h: Seq<(Seq<char>, Tally)>, langs: Seq<Seq<char>>)
    requires
        forall|i: int, j: int| 0 <= i < j < langs.len() ==> langs[i] != langs[j],
        forall|k: Seq<char>| appears(h, k) ==> langs.contains(k),
    ensures
        sum_over_languages(h, langs) == grand_total(h),
    decreases h.len(),
{
    if h.len() == 0 {
        assert(h =~= Seq::<(Seq<char>, Tally)>::empty());
        lemma_sum_over_empty(langs);
    } else {
        let init = h.drop_last();
        let x = h.last();
        assert(h =~= init.push(x));
        assert forall|k: Seq<char>| appears(init, k) implies langs.contains(k) by {
            lemma_appears_push(init, x, k);
        }
        lemma_grand_total_is_sum_of_languages(init, langs);
        lemma_sum_over_push(init, x, langs);
        lemma_appears_push(init, x, x.0);
        assert(appears(h, x.0));
        assert(langs.contains(x.0));
        lemma_share_once(x, langs);
        assert(grand_total(h) == grand_total(init).plus(x.1));
    }
}

/// Per-language totals of per-file results, plus their grand total.
pub struct LanguageTotals {
    map: IndexMap<String, FileCounts>,
    totals: FileCounts,
    history: Ghost<Seq<(Seq<char>, Tally)>>,
}

impl LanguageTotals {
    /// The per-file results summed so far, in the order they were added.
    pub closed spec fn history(&self) -> Seq<(Seq<char>, Tally)> {
        self.history@
    }

    /// The map holds, for each language with results, their sum; the
    /// grand total is the sum of all results.
    pub closed spec fn wf(&self) -> bool {
        let e = index_map_entries(self.map);
        let h = self.history@;
        &&& keys_unique(e)
        &&& forall|k: Seq<char>| #[trigger] value_of(e, k) == lang_total(h, k)
        &&& forall|k: Seq<char>| #[trigger] key_index(e, k) is Some <==> appears(h, k)
        &&& self.totals@ == grand_total(h)
        &&& grand_total(h).fits()
    }

    /// No results yet.
    pub fn new() -> (r: LanguageTotals)
        ensures
            r.wf(),
            r.history() == Seq::<(Seq<char>, Tally)>::empty(),
    {
        let r = LanguageTotals {
            map: index_map_new(),
            totals: FileCounts::default(),
            history: Ghost(Seq::empty()),
        };
        r
    }

    /// Adds `c` to the value stored for `lang`.
    fn bump(&mut self, lang: &String, c: &FileCounts)
        requires
            keys_unique(index_map_entries(old(self).map)),
            value_of(index_map_entries(old(self).map), lang@).plus(c@).fits(),
        ensures
            keys_unique(index_map_entries(final(self).map)),
            forall|k: Seq<char>|
                #[trigger] value_of(index_map_entries(final(self).map), k) == value_of(
                    index_map_entries(old(self).map),
                    k,
                ).plus(
                    if k == lang@ {
                        c@
                    } else {
                        Tally::zero()
                    },
                ),
            forall|k: Seq<char>|
                #[trigger] key_index(index_map_entries(final(self).map), k) is Some <==> (key_index(
                    index_map_entries(old(self).map),
                    k,
                ) is Some || k == lang@),
            final(self).totals == old(self).totals,
            final(self).history == old(self).history,
    {
        let ghost e0 = index_map_entries(self.map);
        proof {
            lemma_key_index(e0, lang@);
        }
        let mut v = match index_map_get(&self.map, lang) {
            Some(prev) => prev,
            None => FileCounts::default(),
        };
        v.merge(c);
        index_map_insert(&mut self.map, lang.clone(), v);
        proof {
            let e1 = index_map_entries(self.map);
            assert(keys_unique(e1)) by {
                lemma_bump(e0, e1, lang@, v, c@, lang@);
            }
            assert forall|k: Seq<char>|
                #[trigger] value_of(e1, k) == value_of(e0, k).plus(
                    if k == lang@ {
                        c@
                    } else {
                        Tally::zero()
                    },
                ) by {
                lemma_bump(e0, e1, lang@, v, c@, k);
            }
            assert forall|k: Seq<char>|
                #[trigger] key_index(e1, k) is Some <==> (key_index(e0, k) is Some || k == lang@) by {
                lemma_bump(e0, e1, lang@, v, c@, k);
            }
        }
    }

    /// Adds the counts of one file of language `lang`.
    pub fn add(&mut self, lang: &String, counts: &FileCounts)
        requires
            old(self).wf(),
            grand_total(old(self).history().push((lang@, counts@))).fits(),
        ensures
            final(self).wf(),
            final(self).history() == old(self).history().push((lang@, counts@)),
    {
        let ghost h0 = self.history@;
        let ghost h1 = h0.push((lang@, counts@));
        proof {
            assert(h1.drop_last() =~= h0);
            lemma_lang_le_grand(h1, lang@);
            assert(lang_total(h1, lang@) == lang_total(h0, lang@).plus(counts@));
        }
        self.bump(lang, counts);
        self.totals.merge(counts);
        proof {
            self.history@ = h1;
            assert forall|k: Seq<char>| #[trigger] key_index(index_map_entries(self.map), k) is Some <==> appears(h1, k) by {
                lemma_appears_push(h0, (lang@, counts@), k);
            }
            assert forall|k: Seq<char>| #[trigger] value_of(index_map_entries(self.map), k) == lang_total(h1, k) by {
                assert(lang_total(h1, k) == lang_total(h0, k).plus(
                    if k == lang@ {
                        counts@
                    } else {
                        Tally::zero()
                    },
                ));
            }
        }
    }

    /// Merges the results of `other` into `self`, as if its per-file results
    /// had been added after those of `self`.
    pub fn merge_from(&mut self, other: &LanguageTotals)
        requires
            old(self).wf(),
            other.wf(),
            grand_total(old(self).history() + other.history()).fits(),
        ensures
            final(self).wf(),
            final(self).history() == old(self).history() + other.history(),
    {
        let ghost h0 = self.history@;
        let ghost h2 = other.history@;
        let ghost e2 = index_map_entries(other.map);
        let ghost all = h0 + h2;
        let pairs = index_map_pairs(&other.map);
        proof {
            lemma_grand_total_split(h0, h2);
            assert forall|k: Seq<char>| #[trigger] value_of(index_map_entries(self.map), k) == lang_total(h0, k).plus(
                match key_index(e2, k) {
                    Some(i) => if i < 0 {
                        lang_total(h2, k)
                    } else {
                        Tally::zero()
                    },
                    None => Tally::zero(),
                },
            ) by {
                lemma_key_index(e2, k);
                assert(value_of(index_map_entries(self.map), k) == lang_total(h0, k));
            }
            assert forall|k: Seq<char>| #[trigger] key_index(index_map_entries(self.map), k) is Some <==> (appears(h0, k)
                || match key_index(e2, k) {
                Some(i) => i < 0,
                None => false,
            }) by {
                lemma_key_index(e2, k);
            }
        }
        let mut t: usize = 0;
        while t < pairs.len()
            invariant
                t <= pairs@.len(),
                pairs@.len() == e2.len(),
                e2 == index_map_entries(other.map),
                other.wf(),
                h2 == other.history(),
                self.history@ == h0,
                self.totals@ == grand_total(h0),
                all == h0 + h2,
                grand_total(all).fits(),
                keys_unique(e2),
                keys_unique(index_map_entries(self.map)),
                forall|i: int|
                    0 <= i < pairs@.len() ==> (#[trigger] pairs@[i]).0@ == e2[i].0 && pairs@[i].1
                        == e2[i].1,
                forall|k: Seq<char>|
                    #[trigger] value_of(index_map_entries(self.map), k) == lang_total(h0, k).plus(
                        match key_index(e2, k) {
                            Some(i) => if i < t {
                                lang_total(h2, k)
                            } else {
                                Tally::zero()
                            },
                            None => Tally::zero(),
                        },
                    ),
                forall|k: Seq<char>|
                    #[trigger] key_index(index_map_entries(self.map), k) is Some <==> (appears(h0, k)
                        || match key_index(e2, k) {
                        Some(i) => i < t,
                        None => false,
                    }),
            decreases pairs@.len() - t,
        {
            let ghost k = pairs@[t as int].0@;
            proof {
                lemma_key_index_unique(e2, t as int);
                assert(value_of(e2, k) == lang_total(h2, k));
                lemma_lang_total_split(h0, h2, k);
                lemma_lang_le_grand(all, k);
            }
            self.bump(&pairs[t].0, &pairs[t].1);
            proof {
                assert forall|k2: Seq<char>| #[trigger] value_of(index_map_entries(self.map), k2) == lang_total(h0, k2).plus(
                    match key_index(e2, k2) {
                        Some(i) => if i < t + 1 {
                            lang_total(h2, k2)
                        } else {
                            Tally::zero()
                        },
                        None => Tally::zero(),
                    },
                ) by {
                    lemma_key_index(e2, k2);
                }
                assert forall|k2: Seq<char>| #[trigger] key_index(index_map_entries(self.map), k2) is Some <==> (appears(h0, k2)
                    || match key_index(e2, k2) {
                    Some(i) => i < t + 1,
                    None => false,
                }) by {
                    lemma_key_index(e2, k2);
                }
            }
            t = t + 1;
        }
        self.totals.merge(&other.totals);
        proof {
            self.history@ = all;
            assert forall|k: Seq<char>| #[trigger] value_of(index_map_entries(self.map), k) == lang_total(all, k) by {
                lemma_lang_total_split(h0, h2, k);
                lemma_key_index(e2, k);
                if key_index(e2, k) is None {
                    assert(!appears(h2, k));
                    lemma_absent_zero(h2, k);
                }
            }
            assert forall|k: Seq<char>| #[trigger] key_index(index_map_entries(self.map), k) is Some <==> appears(all, k) by {
                lemma_appears_concat(h0, h2, k);
                lemma_key_index(e2, k);
            }
        }
    }

    /// The counts of language `lang`: zero when no file of it was added.
    pub fn get(&self, lang: &String) -> (r: FileCounts)
        requires
            self.wf(),
        ensures
            r@ == lang_total(self.history(), lang@),
    {
        assert(value_of(index_map_entries(self.map), lang@) == lang_total(self.history@, lang@));
        proof {
            lemma_key_index(index_map_entries(self.map), lang@);
        }
        match index_map_get(&self.map, lang) {
            Some(c) => c,
            None => FileCounts::default(),
        }
    }

    /// The counts of all files added, over all languages.
    pub fn totals(&self) -> (r: FileCounts)
        requires
            self.wf(),
        ensures
            r@ == grand_total(self.history()),
    {
        self.totals
    }
}

/// Byte-wise lexicographic order, as `str` orders.
pub open spec fn bytes_lt(a: Seq<u8>, b: Seq<u8>) -> bool
    decreases a.len(),
{
    if a.len() == 0 {
        b.len() > 0
    } else if b.len() == 0 {
        false
    } else if a[0] != b[0] {
        a[0] < b[0]
    } else {
        bytes_lt(a.drop_first(), b.drop_first())
    }
}

/// The presentation order of per-language rows: more code first, then a
/// larger total, then the name in ascending order.
pub open spec fn ranks_before(a: (Seq<char>, Tally), b: (Seq<char>, Tally)) -> bool {
    ||| a.1.code > b.1.code
    ||| a.1.code == b.1.code && a.1.total > b.1.total
    ||| a.1.code == b.1.code && a.1.total == b.1.total && bytes_lt(encode_utf8(a.0), encode_utf8(b.0))
}

/// A row as its mathematical model.
pub open spec fn row_view(r: (String, FileCounts)) -> (Seq<char>, Tally) {
    (r.0@, r.1@)
}

proof fn lemma_bytes_lt_total(a: Seq<u8>, b: Seq<u8>)
    requires
        a != b,
    ensures
        bytes_lt(a, b) || bytes_lt(b, a),
    decreases a.len(),
{
    if a.len() > 0 && b.len() > 0 && a[0] == b[0] {
        if a.drop_first() == b.drop_first() {
            assert(a =~= seq![a[0]] + a.drop_first());
            assert(b =~= seq![b[0]] + b.drop_first());
        }
        lemma_bytes_lt_total(a.drop_first(), b.drop_first());
    } else if a.len() == 0 && b.len() == 0 {
        assert(a =~= b);
    }
}

proof fn lemma_ranks_total(a: (Seq<char>, Tally), b: (Seq<char>, Tally))
    requires
        a.0 != b.0,
    ensures
        ranks_before(a, b) || ranks_before(b, a),
{
    broadcast use vstd::utf8::encode_utf8_decode_utf8;

    assert(encode_utf8(a.0) != encode_utf8(b.0)) by {
        if encode_utf8(a.0) == encode_utf8(b.0) {
            assert(vstd::utf8::decode_utf8(encode_utf8(a.0)) == a.0);
            assert(vstd::utf8::decode_utf8(encode_utf8(b.0)) == b.0);
        }
    }
    lemma_bytes_lt_total(encode_utf8(a.0), encode_utf8(b.0));
}

proof fn lemma_bytes_lt_transitive(a: Seq<u8>, b: Seq<u8>, c: Seq<u8>)
    requires
        bytes_lt(a, b),
        bytes_lt(b, c),
    ensures
        bytes_lt(a, c),
    decreases a.len(),
{
    if a.len() > 0 && b.len() > 0 && c.len() > 0 && a[0] == b[0] && b[0] == c[0] {
        lemma_bytes_lt_transitive(a.drop_first(), b.drop_first(), c.drop_first());
    }
}

proof fn lemma_bytes_lt_irreflexive(a: Seq<u8>, b: Seq<u8>)
    requires
        bytes_lt(a, b),
    ensures
        !bytes_lt(b, a),
    decreases a.len(),
{
    if a.len() > 0 && b.len() > 0 && a[0] == b[0] {
        lemma_bytes_lt_irreflexive(a.drop_first(), b.drop_first());
    }
}

proof fn lemma_ranks_transitive(a: (Seq<char>, Tally), b: (Seq<char>, Tally), c: (Seq<char>, Tally))
    requires
        ranks_before(a, b),
        ranks_before(b, c),
    ensures
        ranks_before(a, c),
{
    if a.1.code == b.1.code && b.1.code == c.1.code && a.1.total == b.1.total && b.1.total == c.1.total {
        lemma_bytes_lt_transitive(encode_utf8(a.0), encode_utf8(b.0), encode_utf8(c.0));
    }
}

proof fn lemma_ranks_asymmetric(a: (Seq<char>, Tally), b: (Seq<char>, Tally))
    requires
        ranks_before(a, b),
    ensures
        !ranks_before(b, a),
{
    if a.1.code == b.1.code && a.1.total == b.1.total {
        lemma_bytes_lt_irreflexive(encode_utf8(a.0), encode_utf8(b.0));
    }
}

/// Each row comes before the next.
pub open spec fn adjacent_sorted(r: Seq<(Seq<char>, Tally)>) -> bool {
    forall|i: int| 0 <= i < r.len() - 1 ==> ranks_before(#[trigger] r[i], r[i + 1])
}

proof fn lemma_sorted_globally(r: Seq<(Seq<char>, Tally)>, i: int, j: int)
    requires
        adjacent_sorted(r),
        0 <= i < j < r.len(),
    ensures
        ranks_before(r[i], r[j]),
    decreases j - i,
{
    if j > i + 1 {
        lemma_sorted_globally(r, i, j - 1);
        assert(ranks_before(r[j - 1], r[j]));
        lemma_ranks_transitive(r[i], r[j - 1], r[j]);
    }
}

/// Row order is fixed by the rows: two sequences that hold the same distinct
/// rows, each row before the next, are equal. So equal per-language totals
/// give equal presentation, whatever the order the files were counted in.
pub proof fn lemma_presentation_unique(r1: Seq<(Seq<char>, Tally)>, r2: Seq<(Seq<char>, Tally)>)
    requires
        adjacent_sorted(r1),
        adjacent_sorted(r2),
        r1.no_duplicates(),
        r2.no_duplicates(),
        forall|x: (Seq<char>, Tally)| r1.contains(x) <==> r2.contains(x),
    ensures
        r1 == r2,
    decreases r1.len(),
{
    if r1.len() == 0 {
        if r2.len() > 0 {
            assert(r2.contains(r2[0]));
        }
        assert(r1 =~= r2);
    } else if r2.len() == 0 {
        assert(r1.contains(r1[0]));
    } else {
        let a = r1[0];
        let b = r2[0];
        assert(r1.contains(a));
        assert(r2.contains(b));
        if a != b {
            let j = choose|j: int| 0 <= j < r2.len() && r2[j] == a;
            let i = choose|i: int| 0 <= i < r1.len() && r1[i] == b;
            lemma_sorted_globally(r2, 0, j);
            lemma_sorted_globally(r1, 0, i);
            lemma_ranks_asymmetric(a, b);
        }
        let t1 = r1.drop_first();
        let t2 = r2.drop_first();
        assert forall|i: int| 0 <= i < t1.len() - 1 implies ranks_before(#[trigger] t1[i], t1[i + 1]) by {
            assert(ranks_before(r1[i + 1], r1[i + 2]));
        }
        assert forall|i: int| 0 <= i < t2.len() - 1 implies ranks_before(#[trigger] t2[i], t2[i + 1]) by {
            assert(ranks_before(r2[i + 1], r2[i + 2]));
        }
        assert forall|x: (Seq<char>, Tally)| t1.contains(x) <==> t2.contains(x) by {
            if t1.contains(x) {
                let i = choose|i: int| 0 <= i < t1.len() && t1[i] == x;
                assert(r1[i + 1] == x);
                assert(r1.contains(x));
                let j = choose|j: int| 0 <= j < r2.len() && r2[j] == x;
                if j == 0 {
                    assert(r1[0] == r1[i + 1]);
                }
                assert(t2[j - 1] == x);
            }
            if t2.contains(x) {
                let j = choose|j: int| 0 <= j < t2.len() && t2[j] == x;
                assert(r2[j + 1] == x);
                assert(r2.contains(x));
                let i = choose|i: int| 0 <= i < r1.len() && r1[i] == x;
                if i == 0 {
                    assert(r2[0] == r2[j + 1]);
                }
                assert(t1[i - 1] == x);
            }
        }
        assert(t1.no_duplicates()) by {
            assert forall|i: int, j: int| 0 <= i < t1.len() && 0 <= j < t1.len() && i != j implies t1[i] != t1[j] by {
                assert(r1[i + 1] != r1[j + 1]);
            }
        }
        assert(t2.no_duplicates()) by {
            assert forall|i: int, j: int| 0 <= i < t2.len() && 0 <= j < t2.len() && i != j implies t2[i] != t2[j] by {
                assert(r2[i + 1] != r2[j + 1]);
            }
        }
        lemma_presentation_unique(t1, t2);
        assert(r1 =~= seq![a] + t1);
        assert(r2 =~= seq![b] + t2);
    }
}

/// `r` is the presentation of the results `h`: one row per language with
/// results, holding its total, in presentation order.
pub open spec fn presents(h: Seq<(Seq<char>, Tally)>, r: Seq<(Seq<char>, Tally)>) -> bool {
    &&& adjacent_sorted(r)
    &&& r.no_duplicates()
    &&& forall|x: (Seq<char>, Tally)|
        #[trigger] r.contains(x) <==> appears(h, x.0) && x.1 == lang_total(h, x.0)
}

/// The presentation of a scan does not depend on the order in which the
/// per-file results were added or grouped: any two arrangements of the same
/// multiset of results are presented identically.
pub proof fn lemma_presentation_order_independent(
    h1: Seq<(Seq<char>, Tally)>,
    h2: Seq<(Seq<char>, Tally)>,
    r1: Seq<(Seq<char>, Tally)>,
    r2: Seq<(Seq<char>, Tally)>,
)
    requires
        h1.to_multiset() == h2.to_multiset(),
        presents(h1, r1),
        presents(h2, r2),
    ensures
        r1 == r2,
{
    assert forall|x: (Seq<char>, Tally)| r1.contains(x) <==> r2.contains(x) by {
        lemma_totals_order_independent(h1, h2, x.0);
        assert(appears(h1, x.0) <==> appears(h2, x.0)) by {
            if appears(h1, x.0) {
                let j = choose|j: int| 0 <= j < h1.len() && (#[trigger] h1[j]).0 == x.0;
                assert(h1.contains(h1[j]));
                assert(h1.to_multiset().count(h1[j]) > 0);
                assert(h2.contains(h1[j]));
                let k = choose|k: int| 0 <= k < h2.len() && h2[k] == h1[j];
                assert(h2[k].0 == x.0);
            }
            if appears(h2, x.0) {
                let j = choose|j: int| 0 <= j < h2.len() && (#[trigger] h2[j]).0 == x.0;
                assert(h2.contains(h2[j]));
                assert(h2.to_multiset().count(h2[j]) > 0);
                assert(h1.contains(h2[j]));
                let k = choose|k: int| 0 <= k < h1.len() && h1[k] == h2[j];
                assert(h1[k].0 == x.0);
            }
        }
    }
    lemma_presentation_unique(r1, r2);
}

fn bytes_less(a: &[u8], b: &[u8]) -> (r: bool)
    ensures
        r == bytes_lt(a@, b@),
{
    assert(a@.subrange(0, a@.len() as int) =~= a@);
    assert(b@.subrange(0, b@.len() as int) =~= b@);
    let mut i: usize = 0;
    while i < a.len() && i < b.len() && a[i] == b[i]
        invariant
            i <= a@.len(),
            i <= b@.len(),
            bytes_lt(a@.subrange(i as int, a@.len() as int), b@.subrange(i as int, b@.len() as int))
                == bytes_lt(a@, b@),
        decreases a@.len() - i,
    {
        proof {
            let sa = a@.subrange(i as int, a@.len() as int);
            let sb = b@.subrange(i as int, b@.len() as int);
            assert(sa.drop_first() =~= a@.subrange(i + 1, a@.len() as int));
            assert(sb.drop_first() =~= b@.subrange(i + 1, b@.len() as int));
        }
        i = i + 1;
    }
    proof {
        assert(a@.subrange(i as int, a@.len() as int).len() == a@.len() - i);
        if i < a@.len() && i < b@.len() {
            assert(a@.subrange(i as int, a@.len() as int)[0] == a@[i as int]);
            assert(b@.subrange(i as int, b@.len() as int)[0] == b@[i as int]);
        }
    }
    if i == a.len() {
        i < b.len()
    } else if i == b.len() {
        false
    } else {
        a[i] < b[i]
    }
}

fn ranks_before_exec(a: &(String, FileCounts), b: &(String, FileCounts)) -> (r: bool)
    ensures
        r == ranks_before(row_view(*a), row_view(*b)),
{
    if a.1.code != b.1.code {
        a.1.code > b.1.code
    } else if a.1.total != b.1.total {
        a.1.total > b.1.total
    } else {
        bytes_less(a.0.as_str().as_bytes(), b.0.as_str().as_bytes())
    }
}

impl LanguageTotals {
    /// One row per language that has a per-file result, with its totals, in
    /// presentation order.
    #[verifier::rlimit(80)]
    pub fn sorted_languages(&self) -> (r: Vec<(String, FileCounts)>)
        requires
            self.wf(),
        ensures
            forall|i: int|
                0 <= i < r@.len() ==> appears(self.history(), (#[trigger] r@[i]).0@) && r@[i].1@
                    == lang_total(self.history(), r@[i].0@),
            forall|k: Seq<char>|
                appears(self.history(), k) ==> exists|i: int| 0 <= i < r@.len() && (#[trigger] r@[i]).0@ == k,
            forall|i: int, j: int| 0 <= i < j < r@.len() ==> (#[trigger] r@[i]).0@ != (#[trigger] r@[j]).0@,
            forall|i: int|
                0 <= i < r@.len() - 1 ==> ranks_before(row_view(#[trigger] r@[i]), row_view(r@[i + 1])),
            sum_over_languages(self.history(), r@.map_values(|x: (String, FileCounts)| x.0@))
                == grand_total(self.history()),
            presents(self.history(), r@.map_values(|x: (String, FileCounts)| row_view(x))),
    {
        let ghost e = index_map_entries(self.map);
        let ghost h = self.history@;
        let pairs = index_map_pairs(&self.map);
        let mut r: Vec<(String, FileCounts)> = Vec::new();
        let mut t: usize = 0;
        while t < pairs.len()
            invariant
                t <= pairs@.len(),
                pairs@.len() == e.len(),
                keys_unique(e),
                forall|i: int|
                    0 <= i < pairs@.len() ==> (#[trigger] pairs@[i]).0@ == e[i].0 && pairs@[i].1 == e[i].1,
                r@.to_multiset() == pairs@.subrange(0, t as int).to_multiset(),
                r@.len() == t,
                forall|i: int, j: int| 0 <= i < j < r@.len() ==> (#[trigger] r@[i]).0@ != (#[trigger] r@[j]).0@,
                forall|i: int|
                    0 <= i < r@.len() - 1 ==> ranks_before(row_view(#[trigger] r@[i]), row_view(r@[i + 1])),
            decreases pairs@.len() - t,
        {
            let x = (pairs[t].0.clone(), pairs[t].1);
            let ghost sub = pairs@.subrange(0, t as int);
            proof {
                assert forall|q: int| 0 <= q < r@.len() implies (#[trigger] r@[q]).0@ != x.0@ by {
                    assert(r@.to_multiset().count(r@[q]) > 0);
                    assert(sub.contains(r@[q]));
                    let j = choose|j: int| 0 <= j < sub.len() && sub[j] == r@[q];
                    assert(pairs@[j] == r@[q]);
                    assert(e[j].0 != e[t as int].0);
                }
            }
            let mut pos: usize = 0;
            while pos < r.len() && !ranks_before_exec(&x, &r[pos])
                invariant
                    pos <= r@.len(),
                    forall|q: int| 0 <= q < pos ==> !ranks_before(row_view(x), row_view(#[trigger] r@[q])),
                decreases r@.len() - pos,
            {
                pos = pos + 1;
            }
            let ghost r0 = r@;
            r.insert(pos, x);
            proof {
                assert(pairs@.subrange(0, t + 1) =~= sub.push(x));
                assert forall|i: int, j: int| 0 <= i < j < r@.len() implies (#[trigger] r@[i]).0@ != (#[trigger] r@[j]).0@ by {
                    if i < pos && j < pos {
                        assert(r0[i].0@ != r0[j].0@);
                    } else if i < pos && j > pos {
                        assert(r0[i].0@ != r0[j - 1].0@);
                    } else if i > pos {
                        assert(r0[i - 1].0@ != r0[j - 1].0@);
                    } else if i == pos {
                        assert(r0[j - 1].0@ != x.0@);
                    } else {
                        assert(r0[i].0@ != x.0@);
                    }
                }
                assert forall|i: int| 0 <= i < r@.len() - 1 implies ranks_before(row_view(#[trigger] r@[i]), row_view(r@[i + 1])) by {
                    if i + 1 < pos {
                        assert(ranks_before(row_view(r0[i]), row_view(r0[i + 1])));
                    } else if i + 1 == pos {
                        assert(!ranks_before(row_view(x), row_view(r0[i])));
                        lemma_ranks_total(row_view(x), row_view(r0[i]));
                    } else if i == pos {
                    } else {
                        assert(ranks_before(row_view(r0[i - 1]), row_view(r0[i])));
                    }
                }
            }
            t = t + 1;
        }
        proof {
            assert(pairs@.subrange(0, t as int) =~= pairs@);
            assert forall|i: int| 0 <= i < r@.len() implies appears(h, (#[trigger] r@[i]).0@) && r@[i].1@ == lang_total(h, r@[i].0@) by {
                assert(r@.to_multiset().count(r@[i]) > 0);
                assert(pairs@.contains(r@[i]));
                let j = choose|j: int| 0 <= j < pairs@.len() && pairs@[j] == r@[i];
                lemma_key_index_unique(e, j);
                assert(value_of(e, e[j].0) == lang_total(h, e[j].0));
                assert(key_index(e, e[j].0) is Some);
            }
            assert forall|k: Seq<char>| appears(h, k) implies exists|i: int| 0 <= i < r@.len() && (#[trigger] r@[i]).0@ == k by {
                assert(key_index(e, k) is Some);
                lemma_key_index(e, k);
                let j = key_index(e, k)->Some_0;
                assert(pairs@.to_multiset().count(pairs@[j]) > 0);
                assert(r@.contains(pairs@[j]));
                let i = choose|i: int| 0 <= i < r@.len() && r@[i] == pairs@[j];
                assert(r@[i].0@ == k);
            }
            let names = r@.map_values(|x: (String, FileCounts)| x.0@);
            assert forall|k: Seq<char>| appears(h, k) implies names.contains(k) by {
                let i = choose|i: int| 0 <= i < r@.len() && (#[trigger] r@[i]).0@ == k;
                assert(names[i] == k);
            }
            assert forall|i: int, j: int| 0 <= i < j < names.len() implies names[i] != names[j] by {
                assert(r@[i].0@ != r@[j].0@);
            }
            lemma_grand_total_is_sum_of_languages(h, names);
            let rows = r@.map_values(|x: (String, FileCounts)| row_view(x));
            assert forall|i: int| 0 <= i < rows.len() - 1 implies ranks_before(#[trigger] rows[i], rows[i + 1]) by {
                assert(ranks_before(row_view(r@[i]), row_view(r@[i + 1])));
            }
            assert(rows.no_duplicates()) by {
                assert forall|i: int, j: int| 0 <= i < rows.len() && 0 <= j < rows.len() && i != j implies rows[i] != rows[j] by {
                    if i < j {
                        assert(r@[i].0@ != r@[j].0@);
                    } else {
                        assert(r@[j].0@ != r@[i].0@);
                    }
                }
            }
            assert forall|x: (Seq<char>, Tally)| #[trigger] rows.contains(x) <==> appears(h, x.0) && x.1 == lang_total(h, x.0) by {
                if rows.contains(x) {
                    let i = choose|i: int| 0 <= i < rows.len() && rows[i] == x;
                    assert(appears(h, r@[i].0@));
                }
                if appears(h, x.0) && x.1 == lang_total(h, x.0) {
                    let i = choose|i: int| 0 <= i < r@.len() && (#[trigger] r@[i]).0@ == x.0;
                    assert(rows[i] == x);
                }
            }
        }
        r
    }
}

} // verus!
