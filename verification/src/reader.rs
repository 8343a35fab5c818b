use vstd::prelude::*;
use crate::numeric::{parse_u32_spec, parse_u32, is_numeric, check_numeric};
use crate::series::{ValueSeries, CoordinateSeries};

verus! {

/// Fatal failure of a dataset load.  Row-level scatter problems are not
/// errors: they are counted and the row is dropped.
#[derive(Clone, Copy, Debug, PartialEq, Eq, Structural)]
pub enum ParseError {
    /// The single-column source holds no readable first record.
    MissingFirstRecord,
    /// A field of the single-column source's first record is not an
    /// unsigned integer.
    InvalidField,
    /// The multi-column source could not be split into records.
    MalformedInput,
}

/// What reading the first delimited record of `data` yields: its fields in
/// order, or nothing when no record can be read.
pub uninterp spec fn csv_first_record_of(data: Seq<u8>) -> Option<Seq<Seq<u8>>>;

/// Relies on csv::ReaderBuilder and csv::Reader::byte_records
/// (has_headers(false)): reads only the first record of `data` and splits it
/// into fields; `None` when `data` holds no record or reading it fails.
/// The result is a function of the bytes alone.
#[verifier::external_body]
fn csv_first_record(data: &Vec<u8>) -> (r: Option<Vec<Vec<u8>>>)
    ensures
        r.deep_view() == csv_first_record_of(data@),
{
    let mut rdr = csv::ReaderBuilder::new().has_headers(false).from_reader(data.as_slice());
    match rdr.byte_records().next() {
        None => None,
        Some(Err(_)) => None,
        Some(Ok(rec)) => Some(rec.iter().map(|f| f.to_vec()).collect()),
    }
}

/// What splitting all of `data` into delimited records yields: every record
/// with its fields in order, or nothing when a record fails to read.
pub uninterp spec fn csv_records_of(data: Seq<u8>) -> Option<Seq<Seq<Seq<u8>>>>;

/// Relies on csv::ReaderBuilder and csv::Reader::into_byte_records
/// (has_headers(false), flexible(true)): splits `data` into records and
/// fields; `None` when any record fails to read.  The result is a function
/// of the bytes alone.
#[verifier::external_body]
fn csv_records(data: &Vec<u8>) -> (r: Option<Vec<Vec<Vec<u8>>>>)
    ensures
        r.deep_view() == csv_records_of(data@),
{
    let rdr = csv::ReaderBuilder::new()
        .has_headers(false)
        .flexible(true)
        .from_reader(data.as_slice());
    let mut out: Vec<Vec<Vec<u8>>> = Vec::new();
    for rec in rdr.into_byte_records() {
        match rec {
            Ok(r) => out.push(r.iter().map(|f| f.to_vec()).collect()),
            Err(_) => return None,
        }
    }
    Some(out)
}

/// The values of an all-integer record: defined exactly when every field
/// parses as a `u32`, in field order.
pub open spec fn parsed_values_of(fields: Seq<Seq<u8>>) -> Option<Seq<u32>>
    decreases fields.len(),
{
    if fields.len() == 0 {
        Some(Seq::empty())
    } else {
        match (parsed_values_of(fields.drop_last()), parse_u32_spec(fields.last())) {
            (Some(vs), Some(v)) => Some(vs.push(v)),
            _ => None,
        }
    }
}

/// One unparsable field poisons the whole record.
proof fn lemma_parsed_values_none(fields: Seq<Seq<u8>>, i: int)
    requires
        0 <= i < fields.len(),
        parse_u32_spec(fields[i]) is None,
    ensures
        parsed_values_of(fields) is None,
    decreases fields.len(),
{
    if i < fields.len() - 1 {
        assert(fields.drop_last()[i] == fields[i]);
        lemma_parsed_values_none(fields.drop_last(), i);
    }
}

/// Parse every field of the single-column source's first record as an
/// unsigned integer.  One bad field aborts the whole load: there is no
/// partial series.
pub fn parse_value_fields(fields: &Vec<Vec<u8>>) -> (r: Result<ValueSeries, ParseError>)
    ensures
        match parsed_values_of(fields.deep_view()) {
            Some(vs) => r matches Ok(s) && s@ == vs,
            None => r matches Err(e) && e == ParseError::InvalidField,
        },
{
    let ghost dv = fields.deep_view();
    let mut values: Vec<u32> = Vec::new();
    let n = fields.len();
    let mut i: usize = 0;
    proof {
        assert(dv.take(0) =~= Seq::<Seq<u8>>::empty());
    }
    while i < n
        invariant
            n == fields@.len(),
            dv == fields.deep_view(),
            dv.len() == n,
            i <= n,
            parsed_values_of(dv.take(i as int)) == Some(values@),
        decreases n - i,
    {
        proof {
            assert(dv.take(i as int + 1).drop_last() =~= dv.take(i as int));
            assert(dv.take(i as int + 1).last() == dv[i as int]);
            assert(dv[i as int] == fields@[i as int]@);
        }
        match parse_u32(&fields[i]) {
            None => {
                proof {
                    lemma_parsed_values_none(dv, i as int);
                }
                return Err(ParseError::InvalidField);
            },
            Some(v) => {
                values.push(v);
            },
        }
        i = i + 1;
    }
    proof {
        assert(dv.take(n as int) =~= dv);
    }
    Ok(ValueSeries { values })
}

/// Load the histogram / pie dataset from the raw bytes of its file: only
/// the first record is read — a deliberate, documented quirk of this data
/// format — and every field of that record must parse as an unsigned
/// integer.  Later records are ignored entirely.
pub fn load_value_series(data: &Vec<u8>) -> (r: Result<ValueSeries, ParseError>)
    ensures
        match csv_first_record_of(data@) {
            None => r matches Err(e) && e == ParseError::MissingFirstRecord,
            Some(fields) => match parsed_values_of(fields) {
                Some(vs) => r matches Ok(s) && s@ == vs,
                None => r matches Err(e) && e == ParseError::InvalidField,
            },
        },
{
    match csv_first_record(data) {
        None => Err(ParseError::MissingFirstRecord),
        Some(fields) => parse_value_fields(&fields),
    }
}

/// A candidate scatter row is kept when it has at least two fields and both
/// of its first two fields are numeric text; extra fields are ignored.
pub open spec fn row_kept(row: Seq<Seq<u8>>) -> bool {
    &&& row.len() >= 2
    &&& is_numeric(row[0])
    &&& is_numeric(row[1])
}

/// The coordinate pairs of the kept rows, in row order, with no gaps left
/// by skipped rows.
pub open spec fn kept_pairs(rows: Seq<Seq<Seq<u8>>>) -> Seq<(Seq<u8>, Seq<u8>)>
    decreases rows.len(),
{
    if rows.len() == 0 {
        Seq::empty()
    } else {
        let rest = kept_pairs(rows.drop_last());
        let row = rows.last();
        if row_kept(row) {
            rest.push((row[0], row[1]))
        } else {
            rest
        }
    }
}

/// Copy a field's bytes into an owned value.
fn copy_bytes(v: &Vec<u8>) -> (r: Vec<u8>)
    ensures
        r@ == v@,
{
    let mut r: Vec<u8> = Vec::new();
    let n = v.len();
    let mut i: usize = 0;
    while i < n
        invariant
            n == v@.len(),
            i <= n,
            r@ == v@.take(i as int),
        decreases n - i,
    {
        r.push(v[i]);
        proof {
            assert(v@.take(i as int + 1) =~= v@.take(i as int).push(v@[i as int]));
        }
        i = i + 1;
    }
    proof {
        assert(v@.take(n as int) =~= v@);
    }
    r
}

/// Extract the scatter coordinate series from candidate rows.  A row with
/// fewer than two fields, or whose first two fields do not both parse as
/// numbers, is skipped; processing continues.  Returns the series and the
/// number of skipped rows.
pub fn extract_pairs(rows: &Vec<Vec<Vec<u8>>>) -> (r: (CoordinateSeries, usize))
    ensures
        r.0.wf(),
        r.0.pairs() == kept_pairs(rows.deep_view()),
        r.1 + r.0.pairs().len() == rows.deep_view().len(),
{
    let ghost dv = rows.deep_view();
    let mut xs: Vec<Vec<u8>> = Vec::new();
    let mut ys: Vec<Vec<u8>> = Vec::new();
    let mut skipped: usize = 0;
    let n = rows.len();
    let mut i: usize = 0;
    proof {
        assert(dv.take(0) =~= Seq::<Seq<Seq<u8>>>::empty());
        assert(kept_pairs(dv.take(0)) =~= Seq::<(Seq<u8>, Seq<u8>)>::empty());
    }
    while i < n
        invariant
            n == rows@.len(),
            dv == rows.deep_view(),
            dv.len() == n,
            i <= n,
            xs@.len() == ys@.len(),
            forall|j: int| 0 <= j < xs@.len() ==> is_numeric(#[trigger] xs@[j]@),
            forall|j: int| 0 <= j < ys@.len() ==> is_numeric(#[trigger] ys@[j]@),
            kept_pairs(dv.take(i as int)) == Seq::new(xs@.len(), |j: int| (xs@[j]@, ys@[j]@)),
            skipped + xs@.len() == i,
        decreases n - i,
    {
        proof {
            assert(dv.take(i as int + 1).drop_last() =~= dv.take(i as int));
            assert(dv.take(i as int + 1).last() == dv[i as int]);
            assert(dv[i as int] == rows@[i as int].deep_view());
            assert(rows@[i as int].deep_view().len() == rows@[i as int]@.len());
        }
        let ghost row = dv[i as int];
        let mut kept = false;
        if rows[i].len() >= 2 {
            proof {
                assert(row[0] == rows@[i as int]@[0]@);
                assert(row[1] == rows@[i as int]@[1]@);
            }
            let x_ok = check_numeric(&rows[i][0]);
            let y_ok = check_numeric(&rows[i][1]);
            if x_ok && y_ok {
                let x = copy_bytes(&rows[i][0]);
                let y = copy_bytes(&rows[i][1]);
                xs.push(x);
                ys.push(y);
                kept = true;
                proof {
                    assert(kept_pairs(dv.take(i as int + 1)) =~= Seq::new(
                        xs@.len(),
                        |j: int| (xs@[j]@, ys@[j]@),
                    ));
                }
            }
        }
        if !kept {
            skipped = skipped + 1;
            proof {
                assert(!row_kept(dv.take(i as int + 1).last()));
                assert(kept_pairs(dv.take(i as int + 1)) == kept_pairs(dv.take(i as int)));
            }
        }
        i = i + 1;
    }
    proof {
        assert(dv.take(n as int) =~= dv);
    }
    let series = CoordinateSeries { xs, ys };
    proof {
        assert(series.pairs() =~= kept_pairs(dv));
    }
    (series, skipped)
}

/// Load the scatter dataset from the raw bytes of its file: every record
/// is a candidate (x, y) pair; bad rows are skipped and counted, and only a
/// record that cannot be read at all aborts the load.  Returns the
/// coordinate series and the number of skipped rows.
pub fn load_coordinate_series(data: &Vec<u8>) -> (r: Result<(CoordinateSeries, usize), ParseError>)
    ensures
        match csv_records_of(data@) {
            None => r matches Err(e) && e == ParseError::MalformedInput,
            Some(rows) => r matches Ok(p) && p.0.wf() && p.0.pairs() == kept_pairs(rows)
                && p.1 + p.0.pairs().len() == rows.len(),
        },
{
    match csv_records(data) {
        None => Err(ParseError::MalformedInput),
        Some(rows) => Ok(extract_pairs(&rows)),
    }
}

} // verus!
