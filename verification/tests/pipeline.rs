use chart_pipeline::aggregate::aggregate;
use chart_pipeline::chart::{build_histogram_spec, build_pie_spec, build_scatter_spec};
use chart_pipeline::reader::{load_coordinate_series, load_value_series, ParseError};
use chart_pipeline::series::ValueSeries;

fn series(values: &[u32]) -> ValueSeries {
    ValueSeries { values: values.to_vec() }
}

#[test]
fn first_line_only_is_loaded() {
    let data = b"4,4,4,1,2,10,10\n9,9,9\n".to_vec();
    let s = load_value_series(&data).unwrap();
    assert_eq!(s.values, vec![4, 4, 4, 1, 2, 10, 10]);
}

#[test]
fn quoted_fields_are_unquoted() {
    let data = b"\"4\",2,\"10\"\n".to_vec();
    let s = load_value_series(&data).unwrap();
    assert_eq!(s.values, vec![4, 2, 10]);
}

#[test]
fn empty_input_is_a_missing_record() {
    let data = Vec::new();
    assert_eq!(load_value_series(&data).unwrap_err(), ParseError::MissingFirstRecord);
}

#[test]
fn one_bad_field_aborts_the_load() {
    let data = b"1,x,3\n".to_vec();
    assert_eq!(load_value_series(&data).unwrap_err(), ParseError::InvalidField);
}

#[test]
fn empty_field_aborts_the_load() {
    let data = b"1,,3\n".to_vec();
    assert_eq!(load_value_series(&data).unwrap_err(), ParseError::InvalidField);
}

#[test]
fn signed_field_is_not_an_unsigned_integer() {
    let data = b"+4,1\n".to_vec();
    assert_eq!(load_value_series(&data).unwrap_err(), ParseError::InvalidField);
}

#[test]
fn leading_zeros_are_accepted() {
    let data = b"0007,010\n".to_vec();
    let s = load_value_series(&data).unwrap();
    assert_eq!(s.values, vec![7, 10]);
}

#[test]
fn u32_boundary_is_exact() {
    let data = b"4294967295\n".to_vec();
    let s = load_value_series(&data).unwrap();
    assert_eq!(s.values, vec![u32::MAX]);
    let data = b"4294967296\n".to_vec();
    assert_eq!(load_value_series(&data).unwrap_err(), ParseError::InvalidField);
}

#[test]
fn counts_sum_to_series_length() {
    let s = series(&[4, 4, 4, 1, 2, 10, 10]);
    let (table, _, _, _) = aggregate(&s);
    let total: usize = table.entries.iter().map(|e| e.1).sum();
    assert_eq!(total, 7);
}

#[test]
fn max_bin_count_is_the_true_maximum_multiplicity() {
    let s = series(&[3, 3, 3, 1, 2]);
    let (_, _, max_value, max_bin_count) = aggregate(&s);
    assert_eq!(max_value, 3);
    assert_eq!(max_bin_count, 3);
}

#[test]
fn distinct_values_keep_first_occurrence_order() {
    let s = series(&[5, 2, 5, 2, 9]);
    let (_, distinct, _, _) = aggregate(&s);
    assert_eq!(distinct, vec![5, 2, 9]);
}

#[test]
fn table_lookup_counts_and_absent_values() {
    let s = series(&[3, 3, 3, 1, 2]);
    let (table, _, _, _) = aggregate(&s);
    assert_eq!(table.get(3), 3);
    assert_eq!(table.get(1), 1);
    assert_eq!(table.get(7), 0);
}

#[test]
fn bad_scatter_rows_are_skipped_without_gaps() {
    let data = b"30,5.0\nbad,row\n45,2.5\n".to_vec();
    let (coords, skipped) = load_coordinate_series(&data).unwrap();
    assert_eq!(skipped, 1);
    assert_eq!(coords.xs.len(), 2);
    assert_eq!(coords.ys.len(), 2);
    let x0: f64 = std::str::from_utf8(&coords.xs[0]).unwrap().parse().unwrap();
    let y0: f64 = std::str::from_utf8(&coords.ys[0]).unwrap().parse().unwrap();
    let x1: f64 = std::str::from_utf8(&coords.xs[1]).unwrap().parse().unwrap();
    let y1: f64 = std::str::from_utf8(&coords.ys[1]).unwrap().parse().unwrap();
    assert_eq!((x0, y0), (30.0, 5.0));
    assert_eq!((x1, y1), (45.0, 2.5));
}

#[test]
fn short_scatter_rows_are_skipped() {
    let data = b"30\n40,4.5\n".to_vec();
    let (coords, skipped) = load_coordinate_series(&data).unwrap();
    assert_eq!(skipped, 1);
    assert_eq!(coords.xs, vec![b"40".to_vec()]);
    assert_eq!(coords.ys, vec![b"4.5".to_vec()]);
}

#[test]
fn numeric_grammar_accepts_signs_fractions_exponents() {
    let data = b"+30,-5.0\n.5,5.\n1e3,2E-1\n".to_vec();
    let (coords, skipped) = load_coordinate_series(&data).unwrap();
    assert_eq!(skipped, 0);
    for field in coords.xs.iter().chain(coords.ys.iter()) {
        let text = std::str::from_utf8(field).unwrap();
        text.parse::<f64>().unwrap();
    }
}

#[test]
fn numeric_grammar_rejects_words() {
    let data = b"inf,1\n1,nan\n2,3\n".to_vec();
    let (coords, skipped) = load_coordinate_series(&data).unwrap();
    assert_eq!(skipped, 2);
    assert_eq!(coords.xs, vec![b"2".to_vec()]);
}

#[test]
fn extra_scatter_columns_are_ignored() {
    let data = b"30,5.0,extra,columns\n".to_vec();
    let (coords, skipped) = load_coordinate_series(&data).unwrap();
    assert_eq!(skipped, 0);
    assert_eq!(coords.xs, vec![b"30".to_vec()]);
    assert_eq!(coords.ys, vec![b"5.0".to_vec()]);
}

#[test]
fn histogram_of_empty_series_degenerates_cleanly() {
    let s = series(&[]);
    let h = build_histogram_spec(&s).unwrap();
    assert_eq!(h.max_value, 0);
    assert_eq!(h.max_bin_count, 0);
    assert_eq!(h.bins, vec![0]);
}

#[test]
fn histogram_bins_span_zero_through_max() {
    let s = series(&[3, 3, 3, 1, 2]);
    let h = build_histogram_spec(&s).unwrap();
    assert_eq!(h.max_value, 3);
    assert_eq!(h.max_bin_count, 3);
    assert_eq!(h.bins, vec![0, 1, 1, 3]);
}

#[test]
fn scatter_spec_has_the_fixed_window() {
    let data = b"30,5.0\n60,12.5\n".to_vec();
    let (coords, _) = load_coordinate_series(&data).unwrap();
    let spec = build_scatter_spec(coords);
    assert_eq!((spec.x_min, spec.x_max), (20, 50));
    assert_eq!((spec.y_min, spec.y_max), (0, 10));
    // The out-of-window point (60, 12.5) is still passed through.
    assert_eq!(spec.points.xs.len(), 2);
    assert_eq!(spec.points.xs[1], b"60".to_vec());
}

#[test]
fn palette_size_matches_request() {
    let none = chart_pipeline::palette::generate_random_colors(0);
    assert!(none.is_empty());
    let five = chart_pipeline::palette::generate_random_colors(5);
    assert_eq!(five.len(), 5);
}

#[test]
fn pie_sizes_cover_the_window_distinct_values() {
    let s = series(&[4, 4, 4, 1, 2, 10, 10]);
    let pie = build_pie_spec(&s);
    // Window-distinct values in first-occurrence order: 4, 1, 2, 10.
    assert_eq!(pie.sizes, vec![3, 1, 1, 2]);
    assert_eq!(pie.labels.len(), 4);
    assert_eq!(pie.colors.len(), 4);
    assert_eq!(pie.labels[0], "The frequency of 4");
    assert_eq!(pie.labels[3], "The frequency of 10");
}

#[test]
fn pie_size_list_ignores_values_outside_the_window() {
    let s = series(&[5, 20]);
    let pie = build_pie_spec(&s);
    // 20 is outside the 1..=10 window: one size, but two labels and colors.
    assert_eq!(pie.sizes, vec![1]);
    assert_eq!(pie.labels.len(), 2);
    assert_eq!(pie.colors.len(), 2);
    assert_eq!(pie.labels[1], "The frequency of 20");
}

#[test]
fn pie_geometry_is_fixed() {
    let s = series(&[1, 1, 2]);
    let pie = build_pie_spec(&s);
    assert_eq!((pie.center_x, pie.center_y), (475, 350));
    assert_eq!(pie.radius, 300);
    assert_eq!(pie.start_angle, 66);
}

#[test]
fn empty_series_aggregates_to_nothing() {
    let s = series(&[]);
    let (table, distinct, max_value, max_bin_count) = aggregate(&s);
    assert!(table.entries.is_empty());
    assert!(distinct.is_empty());
    assert_eq!(max_value, 0);
    assert_eq!(max_bin_count, 0);
}

#[test]
fn empty_series_gives_an_empty_pie() {
    let s = series(&[]);
    let pie = build_pie_spec(&s);
    assert!(pie.sizes.is_empty());
    assert!(pie.labels.is_empty());
    assert!(pie.colors.is_empty());
}
