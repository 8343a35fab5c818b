use vstd::prelude::*;
use vstd::pervasive::VecAdditionalExecFns;
use crate::series::{
    ValueSeries, count_of, distinct_of, max_value_of, lemma_count_le_len,
    lemma_count_zero_iff_absent, lemma_distinct_contains, lemma_distinct_no_duplicates,
    lemma_count_in_nodup,
};

verus! {

/// Mapping from observed value to its occurrence count, built once from a
/// value series.  Entries are kept in first-occurrence order of their keys,
/// so the keys double as the distinct-value list.
pub struct FrequencyTable {
    pub entries: Vec<(u32, usize)>,
}

impl View for FrequencyTable {
    type V = Seq<(u32, usize)>;

    open spec fn view(&self) -> Seq<(u32, usize)> {
        self.entries@
    }
}

/// The keys of a table, in entry order.
pub open spec fn table_keys(t: Seq<(u32, usize)>) -> Seq<u32> {
    t.map_values(|e: (u32, usize)| e.0)
}

/// `t` is the frequency table of the series `s`: its keys are exactly the
/// distinct values of `s` in first-occurrence order, and each entry carries
/// the occurrence count of its key.
pub open spec fn table_matches(t: Seq<(u32, usize)>, s: Seq<u32>) -> bool {
    &&& table_keys(t) == distinct_of(s)
    &&& forall|i: int| 0 <= i < t.len() ==> #[trigger] t[i].1 == count_of(s, t[i].0)
}

/// The count recorded for `v` in `t` (first entry wins), 0 when absent.
pub open spec fn table_lookup(t: Seq<(u32, usize)>, v: u32) -> nat
    decreases t.len(),
{
    if t.len() == 0 {
        0
    } else if t.first().0 == v {
        t.first().1 as nat
    } else {
        table_lookup(t.drop_first(), v)
    }
}

/// The sum of all occurrence counts recorded in `t`.
pub open spec fn sum_of_counts(t: Seq<(u32, usize)>) -> nat
    decreases t.len(),
{
    if t.len() == 0 {
        0
    } else {
        sum_of_counts(t.drop_last()) + t.last().1 as nat
    }
}

impl FrequencyTable {
    /// Occurrence count recorded for `v`; 0 when `v` has no entry.
    pub fn get(&self, v: u32) -> (r: usize)
        ensures
            r as nat == table_lookup(self@, v),
    {
        let mut k: usize = 0;
        proof {
            assert(self@.skip(0) =~= self@);
        }
        while k < self.entries.len()
            invariant
                k <= self.entries@.len(),
                table_lookup(self@, v) == table_lookup(self@.skip(k as int), v),
            decreases self.entries@.len() - k,
        {
            proof {
                assert(self@.skip(k as int).first() == self@[k as int]);
                assert(self@.skip(k as int).drop_first() =~= self@.skip(k as int + 1));
            }
            if self.entries[k].0 == v {
                return self.entries[k].1;
            }
            k = k + 1;
        }
        proof {
            assert(self@.skip(k as int).len() == 0);
        }
        0
    }
}

/// A found key's lookup result is the count stored with it, provided every
/// entry stores the count of its own key in `s`.
proof fn lemma_lookup_found(t: Seq<(u32, usize)>, s: Seq<u32>, v: u32)
    requires
        forall|i: int| 0 <= i < t.len() ==> #[trigger] t[i].1 == count_of(s, t[i].0),
        exists|i: int| 0 <= i < t.len() && #[trigger] t[i].0 == v,
    ensures
        table_lookup(t, v) == count_of(s, v),
    decreases t.len(),
{
    if t.first().0 == v {
        assert(t[0].1 == count_of(s, t[0].0));
    } else {
        let rest = t.drop_first();
        let i = choose|i: int| 0 <= i < t.len() && #[trigger] t[i].0 == v;
        assert(rest[i - 1] == t[i]);
        assert(forall|j: int| 0 <= j < rest.len() ==> rest[j] == t[j + 1]);
        lemma_lookup_found(rest, s, v);
    }
}

/// A key that appears in no entry looks up to 0.
proof fn lemma_lookup_absent(t: Seq<(u32, usize)>, v: u32)
    requires
        forall|i: int| 0 <= i < t.len() ==> #[trigger] t[i].0 != v,
    ensures
        table_lookup(t, v) == 0,
    decreases t.len(),
{
    if t.len() > 0 {
        let rest = t.drop_first();
        assert(forall|j: int| 0 <= j < rest.len() ==> rest[j] == t[j + 1]);
        lemma_lookup_absent(rest, v);
    }
}

/// In a table that matches `s`, looking any value up yields its occurrence
/// count in `s` — also for values that never occur, whose count is 0.
pub proof fn lemma_table_lookup_is_count(t: Seq<(u32, usize)>, s: Seq<u32>, v: u32)
    requires
        table_matches(t, s),
    ensures
        table_lookup(t, v) == count_of(s, v),
{
    if exists|i: int| 0 <= i < t.len() && #[trigger] t[i].0 == v {
        lemma_lookup_found(t, s, v);
    } else {
        assert(forall|i: int| 0 <= i < t.len() ==> #[trigger] t[i].0 != v);
        lemma_lookup_absent(t, v);
        assert(!distinct_of(s).contains(v)) by {
            if distinct_of(s).contains(v) {
                let j = choose|j: int|
                    0 <= j < distinct_of(s).len() && distinct_of(s)[j] == v;
                assert(table_keys(t)[j] == v);
                assert(t[j].0 == v);
            }
        }
        lemma_distinct_contains(s, v);
        lemma_count_zero_iff_absent(s, v);
    }
}

/// Appending one value to a series raises that value's count by one and
/// leaves every other count unchanged.
proof fn lemma_count_push(s: Seq<u32>, x: u32, v: u32)
    ensures
        count_of(s.push(x), v) == count_of(s, v) + (if v == x {
            1nat
        } else {
            0nat
        }),
{
    assert(s.push(x).drop_last() =~= s);
    assert(s.push(x).last() == x);
}

/// Sum over a key list of per-key counts in `s`.
spec fn sum_counts_keys(keys: Seq<u32>, s: Seq<u32>) -> nat
    decreases keys.len(),
{
    if keys.len() == 0 {
        0
    } else {
        sum_counts_keys(keys.drop_last(), s) + count_of(s, keys.last())
    }
}

/// A table's count sum equals the key-list count sum, provided every entry
/// stores the count of its own key.
proof fn lemma_sum_as_keys(t: Seq<(u32, usize)>, s: Seq<u32>)
    requires
        forall|i: int| 0 <= i < t.len() ==> #[trigger] t[i].1 == count_of(s, t[i].0),
    ensures
        sum_of_counts(t) == sum_counts_keys(table_keys(t), s),
    decreases t.len(),
{
    if t.len() > 0 {
        let rest = t.drop_last();
        assert(forall|j: int| 0 <= j < rest.len() ==> rest[j] == t[j]);
        lemma_sum_as_keys(rest, s);
        assert(table_keys(rest) =~= table_keys(t).drop_last());
        assert(table_keys(t).last() == t[t.len() - 1].0);
        assert(t[t.len() - 1].1 == count_of(s, t[t.len() - 1].0));
    }
}

/// Appending one value to the series adds `count_of(keys, x)` to a key-list
/// count sum: one for each time the appended value itself is a listed key.
proof fn lemma_sum_keys_push(keys: Seq<u32>, s: Seq<u32>, x: u32)
    ensures
        sum_counts_keys(keys, s.push(x)) == sum_counts_keys(keys, s) + count_of(keys, x),
    decreases keys.len(),
{
    if keys.len() > 0 {
        lemma_sum_keys_push(keys.drop_last(), s, x);
        lemma_count_push(s, x, keys.last());
    }
}

/// Summing, over the distinct values of `s`, each value's occurrence count
/// gives back the length of `s`.
proof fn lemma_distinct_counts_sum(s: Seq<u32>)
    ensures
        sum_counts_keys(distinct_of(s), s) == s.len(),
    decreases s.len(),
{
    if s.len() > 0 {
        let prefix = s.drop_last();
        let x = s.last();
        let d = distinct_of(prefix);
        lemma_distinct_counts_sum(prefix);
        assert(s =~= prefix.push(x));
        lemma_distinct_no_duplicates(prefix);
        lemma_distinct_contains(prefix, x);
        lemma_sum_keys_push(d, prefix, x);
        if prefix.contains(x) {
            assert(distinct_of(s) == d);
            lemma_count_in_nodup(d, x);
            assert(sum_counts_keys(d, s) == prefix.len() + 1);
        } else {
            assert(distinct_of(s) == d.push(x));
            lemma_count_zero_iff_absent(d, x);
            assert(sum_counts_keys(d, s) == prefix.len());
            assert(d.push(x).drop_last() =~= d);
            assert(sum_counts_keys(d.push(x), s) == sum_counts_keys(d, s) + count_of(s, x));
            lemma_count_push(prefix, x, x);
            lemma_count_zero_iff_absent(prefix, x);
            assert(count_of(s, x) == 1);
        }
    }
}

/// Law: the occurrence counts recorded in the frequency table of a series
/// sum to the length of that series.
pub proof fn lemma_counts_sum_to_len(t: Seq<(u32, usize)>, s: Seq<u32>)
    requires
        table_matches(t, s),
    ensures
        sum_of_counts(t) == s.len(),
{
    lemma_sum_as_keys(t, s);
    lemma_distinct_counts_sum(s);
}

/// One-pass frequency aggregation of a value series.
///
/// Returns the frequency table, the distinct-value list in first-occurrence
/// order, the maximum observed value (0 for an empty series), and the
/// highest single-value occurrence count (0 for an empty series).
pub fn aggregate(series: &ValueSeries) -> (r: (FrequencyTable, Vec<u32>, u32, usize))
    ensures
        table_matches(r.0@, series@),
        r.1@ == distinct_of(series@),
        r.2 == max_value_of(series@),
        forall|v: u32| count_of(series@, v) <= r.3,
        series@.len() == 0 ==> r.3 == 0,
        series@.len() > 0 ==> exists|v: u32|
            series@.contains(v) && count_of(series@, v) == r.3,
        sum_of_counts(r.0@) == series@.len(),
{
    let n = series.values.len();
    let mut entries: Vec<(u32, usize)> = Vec::new();
    let mut distinct: Vec<u32> = Vec::new();
    let mut max_v: u32 = 0;
    let mut idx: usize = 0;
    proof {
        assert(series@.take(0) =~= Seq::<u32>::empty());
        assert(table_keys(entries@) =~= distinct_of(series@.take(0)));
        assert(distinct@ =~= distinct_of(series@.take(0)));
    }
    while idx < n
        invariant
            n == series@.len(),
            idx <= n,
            table_matches(entries@, series@.take(idx as int)),
            distinct@ == distinct_of(series@.take(idx as int)),
            max_v == max_value_of(series@.take(idx as int)),
        decreases n - idx,
    {
        let ghost prefix = series@.take(idx as int);
        let ghost full = series@.take(idx as int + 1);
        let x = series.values[idx];
        proof {
            assert(full.drop_last() =~= prefix);
            assert(full.last() == series@[idx as int]);
        }
        if x >= max_v {
            max_v = x;
        }
        let mut k: usize = 0;
        while k < entries.len() && entries[k].0 != x
            invariant
                k <= entries@.len(),
                forall|j: int| 0 <= j < k ==> #[trigger] entries@[j].0 != x,
            decreases entries@.len() - k,
        {
            k = k + 1;
        }
        if k < entries.len() {
            let c = entries[k].1;
            proof {
                assert(entries@[k as int].0 == x);
                assert(c == count_of(prefix, x));
                lemma_count_le_len(prefix, x);
                lemma_distinct_no_duplicates(prefix);
                assert(table_keys(entries@)[k as int] == x);
                assert(distinct_of(prefix).contains(x)) by {
                    assert(distinct_of(prefix)[k as int] == x);
                }
                lemma_distinct_contains(prefix, x);
                assert(prefix.contains(x));
                assert(distinct_of(full) == distinct_of(prefix));
            }
            entries.set(k, (x, c + 1));
            proof {
                assert(table_keys(entries@) =~= distinct_of(full));
                assert forall|i: int| 0 <= i < entries@.len() implies #[trigger] entries@[i].1
                    == count_of(full, entries@[i].0) by {
                    lemma_count_push(prefix, x, entries@[i].0);
                    if i != k {
                        assert(distinct_of(prefix)[i] == entries@[i].0);
                        assert(distinct_of(prefix)[k as int] == x);
                        assert(entries@[i].0 != x);
                    }
                }
            }
        } else {
            proof {
                assert(!table_keys(entries@).contains(x)) by {
                    if table_keys(entries@).contains(x) {
                        let j = choose|j: int|
                            0 <= j < table_keys(entries@).len() && table_keys(entries@)[j] == x;
                        assert(entries@[j].0 == x);
                    }
                }
                lemma_distinct_contains(prefix, x);
                assert(!prefix.contains(x));
                assert(distinct_of(full) == distinct_of(prefix).push(x));
            }
            entries.push((x, 1));
            distinct.push(x);
            proof {
                assert(table_keys(entries@) =~= distinct_of(full));
                assert forall|i: int| 0 <= i < entries@.len() implies #[trigger] entries@[i].1
                    == count_of(full, entries@[i].0) by {
                    lemma_count_push(prefix, x, entries@[i].0);
                    if i < entries@.len() - 1 {
                        assert(entries@[i].0 != x);
                    } else {
                        lemma_count_zero_iff_absent(prefix, x);
                    }
                }
            }
        }
        idx = idx + 1;
    }
    proof {
        assert(series@.take(n as int) =~= series@);
    }
    let mut mbc: usize = 0;
    let mut k: usize = 0;
    while k < entries.len()
        invariant
            k <= entries@.len(),
            forall|j: int| 0 <= j < k ==> #[trigger] entries@[j].1 <= mbc,
            mbc == 0 || exists|j: int| 0 <= j < k && #[trigger] entries@[j].1 == mbc,
        decreases entries@.len() - k,
    {
        if entries[k].1 > mbc {
            mbc = entries[k].1;
        }
        k = k + 1;
    }
    proof {
        assert forall|v: u32| count_of(series@, v) <= mbc by {
            lemma_count_zero_iff_absent(series@, v);
            if series@.contains(v) {
                lemma_distinct_contains(series@, v);
                let j = choose|j: int|
                    0 <= j < distinct_of(series@).len() && distinct_of(series@)[j] == v;
                assert(table_keys(entries@)[j] == v);
                assert(entries@[j].0 == v);
                assert(entries@[j].1 == count_of(series@, v));
            }
        }
        if series@.len() > 0 {
            assert(series@.contains(series@.last()));
            lemma_distinct_contains(series@, series@.last());
            assert(distinct_of(series@).len() > 0);
            assert(entries@.len() > 0);
            assert(entries@[0].1 == count_of(series@, entries@[0].0));
            assert(distinct_of(series@)[0] == table_keys(entries@)[0]);
            lemma_distinct_contains(series@, entries@[0].0);
            assert(distinct_of(series@).contains(entries@[0].0)) by {
                assert(distinct_of(series@)[0] == entries@[0].0);
            }
            lemma_count_zero_iff_absent(series@, entries@[0].0);
            assert(entries@[0].1 >= 1);
            assert(mbc >= 1);
            let j = choose|j: int| 0 <= j < entries@.len() && #[trigger] entries@[j].1 == mbc;
            assert(series@.contains(entries@[j].0) && count_of(series@, entries@[j].0) == mbc)
                by {
                assert(entries@[j].1 == count_of(series@, entries@[j].0));
                assert(distinct_of(series@)[j] == entries@[j].0);
                assert(distinct_of(series@).contains(entries@[j].0));
                lemma_distinct_contains(series@, entries@[j].0);
            }
        }
        lemma_counts_sum_to_len(entries@, series@);
    }
    (FrequencyTable { entries }, distinct, max_v, mbc)
}

} // verus!
