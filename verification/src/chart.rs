use vstd::prelude::*;
use crate::aggregate::{aggregate, table_matches, lemma_table_lookup_is_count};
use crate::numeric::dec_chars;
use crate::palette::{Color, generate_random_colors};
use crate::series::{ValueSeries, CoordinateSeries, count_of, distinct_of, max_value_of};

verus! {

// The fixed, hard-coded chart windows, each in one authoritative location.

/// Histogram image dimensions, in pixels.
pub const HISTOGRAM_WIDTH: u32 = 640;

/// Histogram image dimensions, in pixels.
pub const HISTOGRAM_HEIGHT: u32 = 480;

/// Scatter image dimensions, in pixels.
pub const SCATTER_WIDTH: u32 = 800;

/// Scatter image dimensions, in pixels.
pub const SCATTER_HEIGHT: u32 = 600;

/// Fixed scatter window edge: the x axis runs from 20 to 50.
pub const SCATTER_X_MIN: u32 = 20;

/// Fixed scatter window edge: the x axis runs from 20 to 50.
pub const SCATTER_X_MAX: u32 = 50;

/// Fixed scatter window edge: the y axis runs from 0 to 10.
pub const SCATTER_Y_MIN: u32 = 0;

/// Fixed scatter window edge: the y axis runs from 0 to 10.
pub const SCATTER_Y_MAX: u32 = 10;

/// Pie image dimensions, in pixels.
pub const PIE_WIDTH: u32 = 950;

/// Pie image dimensions, in pixels.
pub const PIE_HEIGHT: u32 = 700;

/// Fixed pie radius, in pixels.
pub const PIE_RADIUS: u32 = 300;

/// Fixed pie start angle, in degrees; not data-derived.
pub const PIE_START_ANGLE: u32 = 66;

/// Lower edge of the fixed pie category window.
pub const PIE_WINDOW_MIN: u32 = 1;

/// Upper edge of the fixed pie category window.
pub const PIE_WINDOW_MAX: u32 = 10;

/// `v` lies inside the fixed pie category window.
pub open spec fn in_pie_window(v: u32) -> bool {
    PIE_WINDOW_MIN <= v <= PIE_WINDOW_MAX
}

/// The listed values that lie inside the pie category window, in order.
pub open spec fn window_values(keys: Seq<u32>) -> Seq<u32>
    decreases keys.len(),
{
    if keys.len() == 0 {
        Seq::empty()
    } else {
        let rest = window_values(keys.drop_last());
        if in_pie_window(keys.last()) {
            rest.push(keys.last())
        } else {
            rest
        }
    }
}

/// The distinct observed values inside the pie category window, in
/// first-occurrence order.
pub open spec fn window_distinct(s: Seq<u32>) -> Seq<u32> {
    window_values(distinct_of(s))
}

/// The geometric specification of the frequency histogram: one unit-width
/// bar per integer value from 0 through the maximum observed value, the bar
/// height being that value's occurrence count.
pub struct HistogramSpec {
    /// Upper edge of the segmented value axis, `0..=max_value`.
    pub max_value: u32,
    /// Upper edge of the count axis: the highest single bin count.
    pub max_bin_count: usize,
    /// Bin counts over the whole value range: `bins[v]` is the occurrence
    /// count of `v`.
    pub bins: Vec<usize>,
}

/// The geometric specification of the scatter plot: a fixed window — not
/// auto-scaled, a deliberate design — and the coordinate pairs.  Points
/// outside the window are still passed through; the renderer may clip them.
pub struct ScatterSpec {
    pub x_min: u32,
    pub x_max: u32,
    pub y_min: u32,
    pub y_max: u32,
    pub points: CoordinateSeries,
}

/// The geometric specification of the pie chart: center, radius, start
/// angle, and the parallel slice arrays.  Slice sizes cover only the
/// distinct values observed inside the fixed category window; labels and
/// colors cover every distinct value, zipped to it positionally.  When a
/// distinct value outside the window exists, the size list is shorter than
/// the label and color lists — a documented asymmetry of this pipeline,
/// preserved as designed rather than silently reconciled.
pub struct PieSpec {
    pub center_x: u32,
    pub center_y: u32,
    pub radius: u32,
    pub start_angle: u32,
    /// Occurrence counts of the in-window distinct values, in
    /// first-occurrence order.
    pub sizes: Vec<usize>,
    /// One label per distinct value, in first-occurrence order.
    pub labels: Vec<String>,
    /// One color per distinct value, in first-occurrence order.
    pub colors: Vec<Color>,
}

/// A fully resolved chart specification, discriminated by chart kind and
/// ready for a renderer; immutable once built.
pub enum ChartSpec {
    Histogram(HistogramSpec),
    Scatter(ScatterSpec),
    Pie(PieSpec),
}

/// The label text of pie category `v`.
pub open spec fn label_chars(v: u32) -> Seq<char> {
    "The frequency of "@ + dec_chars(v as nat)
}

/// Relies on the format! macro (std): renders the label prefix followed by
/// the decimal digits of `v`, most significant first, no leading zeros.
#[verifier::external_body]
fn format_frequency_label(v: u32) -> (r: String)
    ensures
        r@ == label_chars(v),
{
    format!("The frequency of {}", v)
}

/// Build the histogram specification.  An empty series degenerates to the
/// single empty bin of value 0 — it is not an error.  `None` only when the
/// dense bin table over `0..=max_value` cannot be addressed on this
/// machine.
pub fn build_histogram_spec(series: &ValueSeries) -> (r: Option<HistogramSpec>)
    ensures
        r is Some <==> max_value_of(series@) + 1 <= usize::MAX,
        match r {
            Some(h) => {
                &&& h.max_value == max_value_of(series@)
                &&& forall|v: u32| count_of(series@, v) <= h.max_bin_count
                &&& series@.len() == 0 ==> h.max_bin_count == 0
                &&& series@.len() > 0 ==> exists|v: u32|
                    series@.contains(v) && count_of(series@, v) == h.max_bin_count
                &&& h.bins@.len() == h.max_value + 1
                &&& forall|v: int|
                    0 <= v <= h.max_value ==> #[trigger] h.bins@[v] == count_of(
                        series@,
                        v as u32,
                    )
            },
            None => true,
        },
{
    let agg = aggregate(series);
    let table = agg.0;
    let max_v = agg.2;
    let mbc = agg.3;
    if max_v as u64 >= usize::MAX as u64 {
        return None;
    }
    let n_bins: usize = max_v as usize + 1;
    let mut bins: Vec<usize> = Vec::new();
    let mut v: usize = 0;
    while v < n_bins
        invariant
            n_bins == max_v as int + 1,
            table_matches(table@, series@),
            v <= n_bins,
            bins@.len() == v,
            forall|j: int| 0 <= j < v ==> #[trigger] bins@[j] == count_of(series@, j as u32),
        decreases n_bins - v,
    {
        let c = table.get(v as u32);
        proof {
            lemma_table_lookup_is_count(table@, series@, v as u32);
        }
        bins.push(c);
        v = v + 1;
    }
    Some(HistogramSpec { max_value: max_v, max_bin_count: mbc, bins })
}

/// Build the scatter specification: the fixed window, and every coordinate
/// pair passed through unchanged, in order.
pub fn build_scatter_spec(coords: CoordinateSeries) -> (r: ScatterSpec)
    requires
        coords.wf(),
    ensures
        r.x_min == SCATTER_X_MIN,
        r.x_max == SCATTER_X_MAX,
        r.y_min == SCATTER_Y_MIN,
        r.y_max == SCATTER_Y_MAX,
        r.points.wf(),
        r.points.pairs() == coords.pairs(),
{
    ScatterSpec {
        x_min: SCATTER_X_MIN,
        x_max: SCATTER_X_MAX,
        y_min: SCATTER_Y_MIN,
        y_max: SCATTER_Y_MAX,
        points: coords,
    }
}

/// Build the pie specification from a value series.  The center is the
/// image midpoint; radius and start angle are fixed.  Sizes are the
/// occurrence counts of the distinct values inside the category window, in
/// first-occurrence order; labels and one fresh random color each follow
/// the full distinct-value list positionally.
pub fn build_pie_spec(series: &ValueSeries) -> (r: PieSpec)
    ensures
        r.center_x == PIE_WIDTH / 2,
        r.center_y == PIE_HEIGHT / 2,
        r.radius == PIE_RADIUS,
        r.start_angle == PIE_START_ANGLE,
        r.sizes@.len() == window_distinct(series@).len(),
        forall|i: int| 0 <= i < r.sizes@.len() ==> #[trigger] r.sizes@[i] == count_of(
            series@,
            window_distinct(series@)[i],
        ),
        r.labels@.len() == distinct_of(series@).len(),
        forall|i: int| 0 <= i < r.labels@.len() ==> (#[trigger] r.labels@[i])@ == label_chars(
            distinct_of(series@)[i],
        ),
        r.colors@.len() == distinct_of(series@).len(),
{
    let agg = aggregate(series);
    let table = agg.0;
    let distinct = agg.1;
    let n = distinct.len();
    let mut sizes: Vec<usize> = Vec::new();
    let mut i: usize = 0;
    proof {
        assert(distinct@.take(0) =~= Seq::<u32>::empty());
    }
    while i < n
        invariant
            n == distinct@.len(),
            table_matches(table@, series@),
            distinct@ == distinct_of(series@),
            i <= n,
            sizes@.len() == window_values(distinct@.take(i as int)).len(),
            forall|j: int| 0 <= j < sizes@.len() ==> #[trigger] sizes@[j] == count_of(
                series@,
                window_values(distinct@.take(i as int))[j],
            ),
        decreases n - i,
    {
        let x = distinct[i];
        proof {
            assert(distinct@.take(i as int + 1).drop_last() =~= distinct@.take(i as int));
            assert(distinct@.take(i as int + 1).last() == distinct@[i as int]);
        }
        if PIE_WINDOW_MIN <= x && x <= PIE_WINDOW_MAX {
            let c = table.get(x);
            proof {
                lemma_table_lookup_is_count(table@, series@, x);
            }
            sizes.push(c);
        }
        i = i + 1;
    }
    proof {
        assert(distinct@.take(n as int) =~= distinct@);
    }
    let colors = generate_random_colors(distinct.len());
    let mut labels: Vec<String> = Vec::new();
    let mut k: usize = 0;
    while k < n
        invariant
            n == distinct@.len(),
            distinct@ == distinct_of(series@),
            k <= n,
            labels@.len() == k,
            forall|j: int| 0 <= j < k ==> (#[trigger] labels@[j])@ == label_chars(distinct@[j]),
        decreases n - k,
    {
        labels.push(format_frequency_label(distinct[k]));
        k = k + 1;
    }
    PieSpec {
        center_x: PIE_WIDTH / 2,
        center_y: PIE_HEIGHT / 2,
        radius: PIE_RADIUS,
        start_angle: PIE_START_ANGLE,
        sizes,
        labels,
        colors,
    }
}

} // verus!
