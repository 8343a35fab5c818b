use vstd::prelude::*;
use crate::numeric::is_numeric;

verus! {

/// A loaded single-column dataset: an ordered sequence of non-negative
/// integers, immutable after load.  Every element is a `u32` by construction,
/// so the "every element parses as an unsigned integer" invariant is carried
/// by the type itself.
#[derive(Debug)]
pub struct ValueSeries {
    pub values: Vec<u32>,
}

impl View for ValueSeries {
    type V = Seq<u32>;

    open spec fn view(&self) -> Seq<u32> {
        self.values@
    }
}

/// Two parallel ordered sequences of scatter coordinates.  Each coordinate
/// is carried as the numeric text of its field, already checked against the
/// library's numeric grammar; the renderer turns the text into a number at
/// the drawing edge.
pub struct CoordinateSeries {
    pub xs: Vec<Vec<u8>>,
    pub ys: Vec<Vec<u8>>,
}

impl CoordinateSeries {
    /// The two columns are equal in length by construction, and every field
    /// is numeric text.
    pub open spec fn wf(&self) -> bool {
        &&& self.xs@.len() == self.ys@.len()
        &&& forall|i: int| 0 <= i < self.xs@.len() ==> is_numeric(#[trigger] self.xs@[i]@)
        &&& forall|i: int| 0 <= i < self.ys@.len() ==> is_numeric(#[trigger] self.ys@[i]@)
    }

    /// The pairs `(x[i], y[i])`, in row order.
    pub open spec fn pairs(&self) -> Seq<(Seq<u8>, Seq<u8>)> {
        Seq::new(self.xs@.len(), |i: int| (self.xs@[i]@, self.ys@[i]@))
    }
}

/// Number of occurrences of `v` in `s`.
pub open spec fn count_of(s: Seq<u32>, v: u32) -> nat
    decreases s.len(),
{
    if s.len() == 0 {
        0
    } else {
        count_of(s.drop_last(), v) + (if s.last() == v {
            1nat
        } else {
            0nat
        })
    }
}

/// The distinct values of `s`, each exactly once, in order of first
/// occurrence in `s`.
pub open spec fn distinct_of(s: Seq<u32>) -> Seq<u32>
    decreases s.len(),
{
    if s.len() == 0 {
        Seq::empty()
    } else {
        let d = distinct_of(s.drop_last());
        if s.drop_last().contains(s.last()) {
            d
        } else {
            d.push(s.last())
        }
    }
}

/// The maximum element of `s`, or 0 when `s` is empty.
pub open spec fn max_value_of(s: Seq<u32>) -> u32
    decreases s.len(),
{
    if s.len() == 0 {
        0u32
    } else if s.last() >= max_value_of(s.drop_last()) {
        s.last()
    } else {
        max_value_of(s.drop_last())
    }
}

/// A value occurs no more often than the series is long.
pub proof fn lemma_count_le_len(s: Seq<u32>, v: u32)
    ensures
        count_of(s, v) <= s.len(),
    decreases s.len(),
{
    if s.len() > 0 {
        lemma_count_le_len(s.drop_last(), v);
    }
}

/// A value has occurrence count zero exactly when it does not occur.
pub proof fn lemma_count_zero_iff_absent(s: Seq<u32>, v: u32)
    ensures
        count_of(s, v) == 0 <==> !s.contains(v),
    decreases s.len(),
{
    if s.len() > 0 {
        lemma_count_zero_iff_absent(s.drop_last(), v);
        if s.contains(v) {
            let i = choose|i: int| 0 <= i < s.len() && s[i] == v;
            if i < s.len() - 1 {
                assert(s.drop_last()[i] == v);
                assert(s.drop_last().contains(v));
            }
        } else {
            assert(forall|i: int| 0 <= i < s.len() - 1 ==> s.drop_last()[i] == s[i]);
            assert(!s.drop_last().contains(v));
        }
    }
}

/// The distinct-value list mentions exactly the values of the series.
pub proof fn lemma_distinct_contains(s: Seq<u32>, v: u32)
    ensures
        distinct_of(s).contains(v) <==> s.contains(v),
    decreases s.len(),
{
    if s.len() > 0 {
        let prefix = s.drop_last();
        let d = distinct_of(prefix);
        lemma_distinct_contains(prefix, v);
        if s.contains(v) {
            let i = choose|i: int| 0 <= i < s.len() && s[i] == v;
            if i < s.len() - 1 {
                assert(prefix[i] == v);
                assert(prefix.contains(v));
            } else {
                assert(s.last() == v);
            }
        }
        if distinct_of(s).contains(v) {
            if prefix.contains(s.last()) {
                let i = choose|i: int| 0 <= i < prefix.len() && prefix[i] == v;
                assert(s[i] == v);
            } else {
                let i = choose|i: int| 0 <= i < distinct_of(s).len() && distinct_of(s)[i] == v;
                if i < d.len() {
                    assert(d[i] == v);
                    assert(d.contains(v));
                    let j = choose|j: int| 0 <= j < prefix.len() && prefix[j] == v;
                    assert(s[j] == v);
                } else {
                    assert(v == s.last());
                    assert(s[s.len() - 1] == v);
                }
            }
        } else {
            if prefix.contains(v) {
                assert(d.contains(v));
                if !prefix.contains(s.last()) {
                    let i = choose|i: int| 0 <= i < d.len() && d[i] == v;
                    assert(distinct_of(s)[i] == v);
                }
            }
            if s.last() == v && !prefix.contains(v) {
                assert(distinct_of(s)[d.len() as int] == v);
            }
        }
    }
}

/// Each value appears at most once in the distinct-value list.
pub proof fn lemma_distinct_no_duplicates(s: Seq<u32>)
    ensures
        distinct_of(s).no_duplicates(),
    decreases s.len(),
{
    if s.len() > 0 {
        lemma_distinct_no_duplicates(s.drop_last());
        if !s.drop_last().contains(s.last()) {
            lemma_distinct_contains(s.drop_last(), s.last());
            assert(!distinct_of(s.drop_last()).contains(s.last()));
        }
    }
}

/// In a duplicate-free sequence, a value that occurs occurs exactly once.
pub proof fn lemma_count_in_nodup(keys: Seq<u32>, v: u32)
    requires
        keys.no_duplicates(),
        keys.contains(v),
    ensures
        count_of(keys, v) == 1,
    decreases keys.len(),
{
    let prefix = keys.drop_last();
    assert(prefix.no_duplicates());
    if keys.last() == v {
        assert(!prefix.contains(v)) by {
            if prefix.contains(v) {
                let i = choose|i: int| 0 <= i < prefix.len() && prefix[i] == v;
                assert(keys[i] == v && keys[keys.len() - 1] == v);
            }
        }
        lemma_count_zero_iff_absent(prefix, v);
    } else {
        assert(prefix.contains(v)) by {
            let i = choose|i: int| 0 <= i < keys.len() && keys[i] == v;
            assert(i < keys.len() - 1);
            assert(prefix[i] == v);
        }
        lemma_count_in_nodup(prefix, v);
    }
}

/// `max_value_of` bounds every element and, when the series is not empty, is
/// itself one of the elements.
pub proof fn lemma_max_value_of(s: Seq<u32>)
    ensures
        forall|i: int| 0 <= i < s.len() ==> s[i] <= max_value_of(s),
        s.len() > 0 ==> s.contains(max_value_of(s)),
    decreases s.len(),
{
    if s.len() > 0 {
        let prefix = s.drop_last();
        lemma_max_value_of(prefix);
        assert(forall|i: int| 0 <= i < s.len() - 1 ==> s[i] == prefix[i]);
        if s.last() >= max_value_of(prefix) {
            assert(s[s.len() - 1] == max_value_of(s));
        } else {
            assert(prefix.len() > 0) by {
                if prefix.len() == 0 {
                    assert(max_value_of(prefix) == 0);
                }
            }
            let j = choose|j: int| 0 <= j < prefix.len() && prefix[j] == max_value_of(prefix);
            assert(s[j] == max_value_of(s));
        }
    }
}

} // verus!
