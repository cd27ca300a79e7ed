//! The telemetry kept in Parquet files: the layout and cells of the files
//! written for spans and metric records, the decoded table of a file, its
//! column checks, and the spans and metric records its rows give back, with
//! their fallbacks (a missing parent, an unreadable time, an unreadable
//! attribute text).
//!
//! Encoding and decoding the Parquet bytes is the `parquet` crate's, and
//! only files its writer produced are read; writing and reading the files
//! is the caller's.

use vstd::prelude::*;

use arrow::array::StringArray;
use arrow::compute::cast;
use arrow::error::ArrowError;
use arrow::record_batch::{RecordBatch, RecordBatchReader};
use parquet::arrow::ArrowWriter;
use parquet::basic::Compression;
use parquet::file::properties::WriterProperties;
use arrow::util::display::array_value_to_string;
use bytes::Bytes;
use parquet::arrow::arrow_reader::ParquetRecordBatchReaderBuilder;
use parquet::errors::ParquetError;

use crate::data_product_monitor::spec_rfc3339_instant;
use crate::telemetry::instant_or_now;
use crate::text::{decimal, parse_u64, parse_u64_str};

verus! {

broadcast use vstd::string::group_string_axioms;

// ---------------------------------------------------------------------------
// The decoded table
// ---------------------------------------------------------------------------

/// The rows of a Parquet file as text: the display text of each column's
/// Arrow type, and per row one cell per column (`None` for a null cell).
#[derive(Debug)]
pub struct ParquetText {
    pub column_types: Vec<String>,
    pub rows: Vec<Vec<Option<String>>>,
}

/// The text of an optional string.
pub open spec fn opt_text(c: Option<String>) -> Option<Seq<char>> {
    match c {
        Some(s) => Some(s@),
        None => None,
    }
}

/// The cells of a row as texts.
pub open spec fn row_view(r: Seq<Option<String>>) -> Seq<Option<Seq<char>>> {
    r.map_values(|c: Option<String>| opt_text(c))
}

/// A decoded table as texts: column types and rows.
pub open spec fn table_view(t: ParquetText) -> (Seq<Seq<char>>, Seq<Seq<Option<Seq<char>>>>) {
    (t.column_types@.map_values(|s: String| s@), t.rows@.map_values(|r: Vec<Option<String>>| row_view(r@)))
}

/// The view of a decoding result.
pub open spec fn table_result_view(r: Result<ParquetText, String>) -> Result<
    (Seq<Seq<char>>, Seq<Seq<Option<Seq<char>>>>),
    Seq<char>,
> {
    match r {
        Ok(t) => Ok(table_view(t)),
        Err(e) => Err(e@),
    }
}

/// The table that the Parquet file `bytes` decodes to, or the text of the
/// decoding error.
pub uninterp spec fn spec_parquet_text(bytes: Seq<u8>) -> Result<(Seq<Seq<char>>, Seq<Seq<Option<Seq<char>>>>), Seq<char>>;

/// The bytes of the Parquet file written for columns (name, Arrow type
/// text, nullable) and rows of text cells, or the text of the writing error.
pub uninterp spec fn spec_parquet_encode(
    columns: Seq<(Seq<char>, Seq<char>, bool)>,
    rows: Seq<Seq<Option<Seq<char>>>>,
) -> Result<Seq<u8>, Seq<char>>;

/// The view of a byte result.
pub open spec fn bytes_result_view(r: Result<Vec<u8>, String>) -> Result<Seq<u8>, Seq<char>> {
    match r {
        Ok(b) => Ok(b@),
        Err(e) => Err(e@),
    }
}

/// The columns as texts.
pub open spec fn layout_view(c: Seq<(String, String, bool)>) -> Seq<(Seq<char>, Seq<char>, bool)> {
    c.map_values(|x: (String, String, bool)| (x.0@, x.1@, x.2))
}

/// Calls `arrow::compute::cast` of each column's text cells (as a
/// `StringArray`) to the type that `DataType`'s `FromStr` reads from the
/// column's type text, `RecordBatch::try_from_iter_with_nullable` with the
/// names and nullability, then an `ArrowWriter` with Snappy compression
/// over a `Vec<u8>`: `write` and `into_inner`. Claimed: the outcome (the file's bytes, or the `Display`
/// text of the first error) is the fixed function `spec_parquet_encode` of
/// the columns and rows; the Parquet format is not restated. Each row must
/// have one cell per column (indexing a shorter row panics).
#[verifier::external_body]
fn parquet_encode(columns: &Vec<(String, String, bool)>, rows: &Vec<Vec<Option<String>>>) -> (r: Result<Vec<u8>, String>)
    requires
        forall|i: int| 0 <= i < rows@.len() ==> (#[trigger] rows@[i])@.len() == columns@.len(),
    ensures
        bytes_result_view(r) == spec_parquet_encode(layout_view(columns@), rows@.map_values(|x: Vec<Option<String>>| row_view(x@))),
{
    (|| -> Result<Vec<u8>, ParquetError> {
        let cols = columns.iter().enumerate().map(|(k, (n, t, null))| Ok((n, cast(&StringArray::from_iter(
            rows.iter().map(|x| x[k].as_deref())), &t.parse()?)?, *null))).collect::<Result<Vec<_>, ArrowError>>()?;
        let batch = RecordBatch::try_from_iter_with_nullable(cols)?;
        let props = WriterProperties::builder().set_compression(Compression::SNAPPY).build();
        let mut writer = ArrowWriter::try_new(Vec::new(), batch.schema(), Some(props))?;
        writer.write(&batch)?;
        writer.into_inner()
    })().map_err(|e| e.to_string())
}

/// The bytes are a file this library's Parquet writer produced.
pub open spec fn parquet_written(bytes: Seq<u8>) -> bool {
    exists|c: Seq<(Seq<char>, Seq<char>, bool)>, r: Seq<Seq<Option<Seq<char>>>>| spec_parquet_encode(c, r) == Ok::<Seq<u8>, Seq<char>>(bytes)
}

/// Calls `ParquetRecordBatchReaderBuilder::try_new(..).build()` on a copy
/// of the bytes and converts what it reads: the type of each column of the
/// reader's schema to its `Display` text, and each cell of every record
/// batch, row by row, to `None` when null and else to
/// `arrow::util::display::array_value_to_string` of it. Claimed: the
/// outcome (the table, or the `Display` text of the first error) is the
/// fixed function `spec_parquet_text` of the bytes; the Parquet format and
/// the display of values are not restated. Only files that `parquet_encode`
/// produced are admitted: the reader's decoders are not shown to return
/// normally on arbitrary bytes.
#[verifier::external_body]
fn parquet_text(bytes: &[u8]) -> (r: Result<ParquetText, String>)
    requires
        parquet_written(bytes@),
    ensures
        table_result_view(r) == spec_parquet_text(bytes@),
{
    (|| -> Result<ParquetText, ParquetError> {
        let reader = ParquetRecordBatchReaderBuilder::try_new(Bytes::copy_from_slice(bytes))?.build()?;
        let column_types = reader.schema().fields().iter().map(|f| f.data_type().to_string()).collect();
        let mut rows = Vec::new();
        for batch in reader.collect::<Result<Vec<_>, _>>()? {
            for i in 0..batch.num_rows() {
                rows.push(batch.columns().iter().map(|c| if c.is_null(i) { Ok(None) } else {
                    array_value_to_string(c, i).map(Some) }).collect::<Result<_, _>>()?);
            }
        }
        Ok(ParquetText { column_types, rows })
    })().map_err(|e| e.to_string())
}

/// Whether a text is a JSON document.
pub uninterp spec fn spec_json_valid(text: Seq<char>) -> bool;

/// Calls `serde_json::from_str::<serde_json::Value>`. Claimed: whether it
/// succeeds is the fixed function `spec_json_valid` of the text; the JSON
/// grammar is not restated.
#[verifier::external_body]
fn json_text_valid(text: &str) -> (r: bool)
    ensures
        r == spec_json_valid(text@),
{
    serde_json::from_str::<serde_json::Value>(text).is_ok()
}

// ---------------------------------------------------------------------------
// Cells and columns
// ---------------------------------------------------------------------------

/// The text of cell `i` of a row: empty when it is null or absent.
pub open spec fn cell_text(row: Seq<Option<Seq<char>>>, i: int) -> Seq<char> {
    if 0 <= i < row.len() {
        match row[i] {
            Some(t) => t,
            None => Seq::empty(),
        }
    } else {
        Seq::empty()
    }
}

/// Cell `i` of a row, `None` when it is null or absent.
pub open spec fn cell_opt(row: Seq<Option<Seq<char>>>, i: int) -> Option<Seq<char>> {
    if 0 <= i < row.len() {
        row[i]
    } else {
        None
    }
}

fn cell(row: &Vec<Option<String>>, i: usize) -> (r: String)
    ensures
        r@ == cell_text(row_view(row@), i as int),
{
    if i < row.len() {
        match &row[i] {
            Some(s) => String::from_str(s.as_str()),
            None => String::new(),
        }
    } else {
        String::new()
    }
}

fn cell_option(row: &Vec<Option<String>>, i: usize) -> (r: Option<String>)
    ensures
        opt_text(r) == cell_opt(row_view(row@), i as int),
{
    if i < row.len() {
        match &row[i] {
            Some(s) => Some(String::from_str(s.as_str())),
            None => None,
        }
    } else {
        None
    }
}

/// The instant an RFC 3339 text gives, else `now`.
pub open spec fn instant_or(text: Seq<char>, now: (i64, u32)) -> (i64, u32) {
    match spec_rfc3339_instant(text) {
        Some(t) => t,
        None => now,
    }
}

/// A JSON attribute text, or `{}` when the text is not JSON.
pub open spec fn attributes_or_empty(text: Seq<char>) -> Seq<char> {
    if spec_json_valid(text) {
        text
    } else {
        "{}"@
    }
}

fn attributes_text(text: String) -> (r: String)
    ensures
        r@ == attributes_or_empty(text@),
{
    if json_text_valid(text.as_str()) {
        text
    } else {
        String::from_str("{}")
    }
}

/// The expected columns of a file, in order: name and Arrow type text.
pub open spec fn column_specs(cols: Seq<(&str, &str)>) -> Seq<(Seq<char>, Seq<char>)> {
    cols.map_values(|c: (&str, &str)| (c.0@, c.1@))
}

/// Checking the columns from `k` on meets a column of the wrong type before
/// it would run past the file's columns (where the reader would fail).
pub open spec fn columns_reach(types: Seq<Seq<char>>, cols: Seq<(Seq<char>, Seq<char>)>, k: nat) -> bool
    decreases cols.len() - k,
{
    if k >= cols.len() {
        true
    } else {
        k < types.len() && (types[k as int] != cols[k as int].1 || columns_reach(types, cols, k + 1))
    }
}

/// The message of the first column from `k` on whose type is not the
/// expected one: `{name} column is not {type}`.
pub open spec fn column_mismatch(types: Seq<Seq<char>>, cols: Seq<(Seq<char>, Seq<char>)>, k: nat) -> Option<Seq<char>>
    decreases cols.len() - k,
{
    if k >= cols.len() {
        None
    } else if k < types.len() && types[k as int] != cols[k as int].1 {
        Some(cols[k as int].0 + " column is not "@ + cols[k as int].1)
    } else {
        column_mismatch(types, cols, k + 1)
    }
}

/// A table can be read against the expected columns: it has no rows, or
/// its columns are checked without running out.
pub open spec fn table_readable(t: (Seq<Seq<char>>, Seq<Seq<Option<Seq<char>>>>), cols: Seq<(Seq<char>, Seq<char>)>) -> bool {
    t.1.len() > 0 ==> columns_reach(t.0, cols, 0)
}

fn check_columns(types: &Vec<String>, cols: &[(&str, &str)]) -> (r: Option<String>)
    requires
        columns_reach(types@.map_values(|s: String| s@), column_specs(cols@), 0),
    ensures
        opt_text(r) == column_mismatch(types@.map_values(|s: String| s@), column_specs(cols@), 0),
{
    let ghost tv = types@.map_values(|s: String| s@);
    let ghost cv = column_specs(cols@);
    let mut k: usize = 0;
    while k < cols.len()
        invariant
            k <= cols@.len(),
            tv == types@.map_values(|s: String| s@),
            cv == column_specs(cols@),
            cv.len() == cols@.len(),
            columns_reach(tv, cv, k as nat),
            column_mismatch(tv, cv, 0) == column_mismatch(tv, cv, k as nat),
        decreases cols@.len() - k,
    {
        let (name, kind) = cols[k];
        assert(cv[k as int] == (name@, kind@));
        assert(k < types@.len());
        if !crate::text::str_eq(types[k].as_str(), kind) {
            assert(tv[k as int] == types@[k as int]@);
            let mut m = String::from_str(name);
            m.append(" column is not ");
            m.append(kind);
            return Some(m);
        }
        k = k + 1;
    }
    None
}

// ---------------------------------------------------------------------------
// Spans
// ---------------------------------------------------------------------------

/// The columns of a trace file.
pub open spec fn span_columns() -> Seq<(Seq<char>, Seq<char>)> {
    seq![
        ("trace_id"@, "Utf8"@),
        ("span_id"@, "Utf8"@),
        ("parent_span_id"@, "Utf8"@),
        ("operation_name"@, "Utf8"@),
        ("service_name"@, "Utf8"@),
        ("start_time"@, "Utf8"@),
        ("end_time"@, "Utf8"@),
        ("duration_ms"@, "UInt64"@),
        ("status"@, "Utf8"@),
        ("attributes"@, "Utf8"@),
    ]
}

/// A span read back from a trace file.
#[derive(Debug)]
pub struct StoredSpan {
    pub trace_id: String,
    pub span_id: String,
    pub parent_span_id: Option<String>,
    pub operation_name: String,
    pub service_name: String,
    pub start_time: (i64, u32),
    pub end_time: (i64, u32),
    pub duration_ms: u64,
    pub status: String,
    pub attributes: String,
}

/// A stored span as texts.
pub struct StoredSpanView {
    pub trace_id: Seq<char>,
    pub span_id: Seq<char>,
    pub parent_span_id: Option<Seq<char>>,
    pub operation_name: Seq<char>,
    pub service_name: Seq<char>,
    pub start_time: (i64, u32),
    pub end_time: (i64, u32),
    pub duration_ms: u64,
    pub status: Seq<char>,
    pub attributes: Seq<char>,
}

impl View for StoredSpan {
    type V = StoredSpanView;

    open spec fn view(&self) -> StoredSpanView {
        StoredSpanView {
            trace_id: self.trace_id@,
            span_id: self.span_id@,
            parent_span_id: opt_text(self.parent_span_id),
            operation_name: self.operation_name@,
            service_name: self.service_name@,
            start_time: self.start_time,
            end_time: self.end_time,
            duration_ms: self.duration_ms,
            status: self.status@,
            attributes: self.attributes@,
        }
    }
}

/// The span a row of a trace file gives: a null parent is none, an
/// unreadable start or end time is `now`, a duration that does not read
/// is 0, and an attribute text that is not JSON is `{}`.
pub open spec fn stored_span(row: Seq<Option<Seq<char>>>, now: (i64, u32)) -> StoredSpanView {
    StoredSpanView {
        trace_id: cell_text(row, 0),
        span_id: cell_text(row, 1),
        parent_span_id: cell_opt(row, 2),
        operation_name: cell_text(row, 3),
        service_name: cell_text(row, 4),
        start_time: instant_or(cell_text(row, 5), now),
        end_time: instant_or(cell_text(row, 6), now),
        duration_ms: match parse_u64(cell_text(row, 7)) {
            Some(n) => n,
            None => 0,
        },
        status: cell_text(row, 8),
        attributes: attributes_or_empty(cell_text(row, 9)),
    }
}

/// The spans of a decoded trace table: none without rows; the first
/// column of the wrong type refuses the file; else one span per row.
pub open spec fn spans_of_table_spec(t: (Seq<Seq<char>>, Seq<Seq<Option<Seq<char>>>>), now: (i64, u32)) -> Result<
    Seq<StoredSpanView>,
    Seq<char>,
> {
    if t.1.len() == 0 {
        Ok(Seq::empty())
    } else {
        match column_mismatch(t.0, span_columns(), 0) {
            Some(m) => Err(m),
            None => Ok(t.1.map_values(|r: Seq<Option<Seq<char>>>| stored_span(r, now))),
        }
    }
}

/// The views of read spans.
pub open spec fn span_views(v: Seq<StoredSpan>) -> Seq<StoredSpanView> {
    v.map_values(|s: StoredSpan| s@)
}

/// The view of a span read.
pub open spec fn spans_result_view(r: Result<Vec<StoredSpan>, String>) -> Result<Seq<StoredSpanView>, Seq<char>> {
    match r {
        Ok(v) => Ok(span_views(v@)),
        Err(e) => Err(e@),
    }
}

fn span_of_row(row: &Vec<Option<String>>, now: (i64, u32)) -> (s: StoredSpan)
    ensures
        s@ == stored_span(row_view(row@), now),
{
    let start = cell(row, 5);
    let end = cell(row, 6);
    let duration = cell(row, 7);
    StoredSpan {
        trace_id: cell(row, 0),
        span_id: cell(row, 1),
        parent_span_id: cell_option(row, 2),
        operation_name: cell(row, 3),
        service_name: cell(row, 4),
        start_time: instant_or_now(start.as_str(), now),
        end_time: instant_or_now(end.as_str(), now),
        duration_ms: match parse_u64_str(duration.as_str()) {
            Some(n) => n,
            None => 0,
        },
        status: cell(row, 8),
        attributes: attributes_text(cell(row, 9)),
    }
}

fn span_column_list() -> (r: [(&'static str, &'static str); 10])
    ensures
        column_specs(r@) == span_columns(),
{
    let r = [
        ("trace_id", "Utf8"),
        ("span_id", "Utf8"),
        ("parent_span_id", "Utf8"),
        ("operation_name", "Utf8"),
        ("service_name", "Utf8"),
        ("start_time", "Utf8"),
        ("end_time", "Utf8"),
        ("duration_ms", "UInt64"),
        ("status", "Utf8"),
        ("attributes", "Utf8"),
    ];
    assert(column_specs(r@) =~= span_columns());
    r
}

/// The spans of a decoded trace table whose columns can be checked.
pub fn spans_of_table(t: &ParquetText, now: (i64, u32)) -> (r: Result<Vec<StoredSpan>, String>)
    requires
        table_readable(table_view(*t), span_columns()),
    ensures
        spans_result_view(r) == spans_of_table_spec(table_view(*t), now),
{
    let ghost tv = table_view(*t);
    if t.rows.len() == 0 {
        let v: Vec<StoredSpan> = Vec::new();
        assert(span_views(v@) =~= Seq::<StoredSpanView>::empty());
        return Ok(v);
    }
    let cols = span_column_list();
    if let Some(m) = check_columns(&t.column_types, cols.as_slice()) {
        return Err(m);
    }
    let mut spans: Vec<StoredSpan> = Vec::new();
    let mut i: usize = 0;
    while i < t.rows.len()
        invariant
            i <= t.rows@.len(),
            tv == table_view(*t),
            span_views(spans@) == tv.1.take(i as int).map_values(|r: Seq<Option<Seq<char>>>| stored_span(r, now)),
        decreases t.rows@.len() - i,
    {
        let ghost before = spans@;
        let s = span_of_row(&t.rows[i], now);
        spans.push(s);
        proof {
            let f = |r: Seq<Option<Seq<char>>>| stored_span(r, now);
            assert(tv.1[i as int] == row_view(t.rows@[i as int]@));
            assert(tv.1.take(i + 1) =~= tv.1.take(i as int).push(tv.1[i as int]));
            assert(tv.1.take(i + 1).map_values(f) =~= tv.1.take(i as int).map_values(f).push(f(tv.1[i as int])));
            assert(spans@ =~= before.push(s));
            assert(span_views(spans@) =~= span_views(before).push(s@));
        }
        i = i + 1;
    }
    assert(tv.1.take(t.rows@.len() as int) =~= tv.1);
    Ok(spans)
}

/// What reading spans from the bytes of a file gives.
pub open spec fn spans_read(bytes: Seq<u8>, now: (i64, u32), r: Option<Result<Vec<StoredSpan>, String>>) -> bool {
    match spec_parquet_text(bytes) {
        Err(e) => r matches Some(Err(m)) && m@ == e,
        Ok(t) => if table_readable(t, span_columns()) {
            r matches Some(res) && spans_result_view(res) == spans_of_table_spec(t, now)
        } else {
            r is None
        },
    }
}

/// The spans the bytes of a trace file this library wrote give back
/// (files from elsewhere are not read: the decoder is not shown to
/// return on arbitrary bytes). `None` where the file lacks a
/// column the reader needs (it has rows, and every column it has is of the
/// expected type, but fewer than ten).
pub fn spans_from_parquet(bytes: &[u8], now: (i64, u32)) -> (r: Option<Result<Vec<StoredSpan>, String>>)
    requires
        parquet_written(bytes@),
    ensures
        spans_read(bytes@, now, r),
{
    match parquet_text(bytes) {
        Err(e) => Some(Err(e)),
        Ok(t) => {
            let cols = span_column_list();
            if t.rows.len() > 0 && !columns_checkable(&t.column_types, cols.as_slice()) {
                return None;
            }
            Some(spans_of_table(&t, now))
        },
    }
}

fn columns_checkable(types: &Vec<String>, cols: &[(&str, &str)]) -> (r: bool)
    ensures
        r == columns_reach(types@.map_values(|s: String| s@), column_specs(cols@), 0),
{
    let ghost tv = types@.map_values(|s: String| s@);
    let ghost cv = column_specs(cols@);
    let mut k: usize = 0;
    while k < cols.len()
        invariant
            k <= cols@.len(),
            tv == types@.map_values(|s: String| s@),
            cv == column_specs(cols@),
            cv.len() == cols@.len(),
            columns_reach(tv, cv, 0) == columns_reach(tv, cv, k as nat),
        decreases cols@.len() - k,
    {
        if k >= types.len() {
            return false;
        }
        let (_, kind) = cols[k];
        assert(cv[k as int].1 == kind@);
        assert(tv[k as int] == types@[k as int]@);
        if !crate::text::str_eq(types[k].as_str(), kind) {
            return true;
        }
        k = k + 1;
    }
    true
}

// ---------------------------------------------------------------------------
// Metric records
// ---------------------------------------------------------------------------

/// The columns of a metrics file.
pub open spec fn metric_columns() -> Seq<(Seq<char>, Seq<char>)> {
    seq![
        ("name"@, "Utf8"@),
        ("value"@, "Float64"@),
        ("unit"@, "Utf8"@),
        ("metric_type"@, "Utf8"@),
        ("service_name"@, "Utf8"@),
        ("timestamp"@, "Utf8"@),
        ("attributes"@, "Utf8"@),
    ]
}

/// A metric record read back from a metrics file; its value is the display
/// text of the `Float64` cell, read as a number by the caller.
#[derive(Debug)]
pub struct StoredMetric {
    pub name: String,
    pub value_text: String,
    pub unit: String,
    pub metric_type: String,
    pub service_name: String,
    pub timestamp: (i64, u32),
    pub attributes: String,
}

/// A stored metric record as texts.
pub struct StoredMetricView {
    pub name: Seq<char>,
    pub value_text: Seq<char>,
    pub unit: Seq<char>,
    pub metric_type: Seq<char>,
    pub service_name: Seq<char>,
    pub timestamp: (i64, u32),
    pub attributes: Seq<char>,
}

impl View for StoredMetric {
    type V = StoredMetricView;

    open spec fn view(&self) -> StoredMetricView {
        StoredMetricView {
            name: self.name@,
            value_text: self.value_text@,
            unit: self.unit@,
            metric_type: self.metric_type@,
            service_name: self.service_name@,
            timestamp: self.timestamp,
            attributes: self.attributes@,
        }
    }
}

/// The metric record a row of a metrics file gives: an unreadable
/// timestamp is `now`, and an attribute text that is not JSON is `{}`.
pub open spec fn stored_metric(row: Seq<Option<Seq<char>>>, now: (i64, u32)) -> StoredMetricView {
    StoredMetricView {
        name: cell_text(row, 0),
        value_text: cell_text(row, 1),
        unit: cell_text(row, 2),
        metric_type: cell_text(row, 3),
        service_name: cell_text(row, 4),
        timestamp: instant_or(cell_text(row, 5), now),
        attributes: attributes_or_empty(cell_text(row, 6)),
    }
}

/// The metric records of a decoded metrics table: none without rows; the
/// first column of the wrong type refuses the file; else one per row.
pub open spec fn metrics_of_table_spec(t: (Seq<Seq<char>>, Seq<Seq<Option<Seq<char>>>>), now: (i64, u32)) -> Result<
    Seq<StoredMetricView>,
    Seq<char>,
> {
    if t.1.len() == 0 {
        Ok(Seq::empty())
    } else {
        match column_mismatch(t.0, metric_columns(), 0) {
            Some(m) => Err(m),
            None => Ok(t.1.map_values(|r: Seq<Option<Seq<char>>>| stored_metric(r, now))),
        }
    }
}

/// The views of read metric records.
pub open spec fn metric_views(v: Seq<StoredMetric>) -> Seq<StoredMetricView> {
    v.map_values(|m: StoredMetric| m@)
}

/// The view of a metric read.
pub open spec fn metrics_result_view(r: Result<Vec<StoredMetric>, String>) -> Result<Seq<StoredMetricView>, Seq<char>> {
    match r {
        Ok(v) => Ok(metric_views(v@)),
        Err(e) => Err(e@),
    }
}

fn metric_of_row(row: &Vec<Option<String>>, now: (i64, u32)) -> (m: StoredMetric)
    ensures
        m@ == stored_metric(row_view(row@), now),
{
    let timestamp = cell(row, 5);
    StoredMetric {
        name: cell(row, 0),
        value_text: cell(row, 1),
        unit: cell(row, 2),
        metric_type: cell(row, 3),
        service_name: cell(row, 4),
        timestamp: instant_or_now(timestamp.as_str(), now),
        attributes: attributes_text(cell(row, 6)),
    }
}

fn metric_column_list() -> (r: [(&'static str, &'static str); 7])
    ensures
        column_specs(r@) == metric_columns(),
{
    let r = [
        ("name", "Utf8"),
        ("value", "Float64"),
        ("unit", "Utf8"),
        ("metric_type", "Utf8"),
        ("service_name", "Utf8"),
        ("timestamp", "Utf8"),
        ("attributes", "Utf8"),
    ];
    assert(column_specs(r@) =~= metric_columns());
    r
}

/// The metric records of a decoded metrics table whose columns can be
/// checked.
pub fn metrics_of_table(t: &ParquetText, now: (i64, u32)) -> (r: Result<Vec<StoredMetric>, String>)
    requires
        table_readable(table_view(*t), metric_columns()),
    ensures
        metrics_result_view(r) == metrics_of_table_spec(table_view(*t), now),
{
    let ghost tv = table_view(*t);
    if t.rows.len() == 0 {
        let v: Vec<StoredMetric> = Vec::new();
        assert(metric_views(v@) =~= Seq::<StoredMetricView>::empty());
        return Ok(v);
    }
    let cols = metric_column_list();
    if let Some(m) = check_columns(&t.column_types, cols.as_slice()) {
        return Err(m);
    }
    let mut metrics: Vec<StoredMetric> = Vec::new();
    let mut i: usize = 0;
    while i < t.rows.len()
        invariant
            i <= t.rows@.len(),
            tv == table_view(*t),
            metric_views(metrics@) == tv.1.take(i as int).map_values(|r: Seq<Option<Seq<char>>>| stored_metric(r, now)),
        decreases t.rows@.len() - i,
    {
        let ghost before = metrics@;
        let m = metric_of_row(&t.rows[i], now);
        metrics.push(m);
        proof {
            let f = |r: Seq<Option<Seq<char>>>| stored_metric(r, now);
            assert(tv.1[i as int] == row_view(t.rows@[i as int]@));
            assert(tv.1.take(i + 1) =~= tv.1.take(i as int).push(tv.1[i as int]));
            assert(tv.1.take(i + 1).map_values(f) =~= tv.1.take(i as int).map_values(f).push(f(tv.1[i as int])));
            assert(metrics@ =~= before.push(m));
            assert(metric_views(metrics@) =~= metric_views(before).push(m@));
        }
        i = i + 1;
    }
    assert(tv.1.take(t.rows@.len() as int) =~= tv.1);
    Ok(metrics)
}

/// What reading metric records from the bytes of a file gives.
pub open spec fn metrics_read(bytes: Seq<u8>, now: (i64, u32), r: Option<Result<Vec<StoredMetric>, String>>) -> bool {
    match spec_parquet_text(bytes) {
        Err(e) => r matches Some(Err(m)) && m@ == e,
        Ok(t) => if table_readable(t, metric_columns()) {
            r matches Some(res) && metrics_result_view(res) == metrics_of_table_spec(t, now)
        } else {
            r is None
        },
    }
}

/// The metric records the bytes of a metrics file this library wrote give
/// back (files from elsewhere are not read). `None` where the
/// file lacks a column the reader needs (it has rows, and every column it
/// has is of the expected type, but fewer than seven).
pub fn metrics_from_parquet(bytes: &[u8], now: (i64, u32)) -> (r: Option<Result<Vec<StoredMetric>, String>>)
    requires
        parquet_written(bytes@),
    ensures
        metrics_read(bytes@, now, r),
{
    match parquet_text(bytes) {
        Err(e) => Some(Err(e)),
        Ok(t) => {
            let cols = metric_column_list();
            if t.rows.len() > 0 && !columns_checkable(&t.column_types, cols.as_slice()) {
                return None;
            }
            Some(metrics_of_table(&t, now))
        },
    }
}

// ---------------------------------------------------------------------------
// Writing files
// ---------------------------------------------------------------------------

/// The columns of a trace file as written: name, Arrow type, nullable
/// (only the parent span may be null).
pub open spec fn span_layout() -> Seq<(Seq<char>, Seq<char>, bool)> {
    seq![
        ("trace_id"@, "Utf8"@, false),
        ("span_id"@, "Utf8"@, false),
        ("parent_span_id"@, "Utf8"@, true),
        ("operation_name"@, "Utf8"@, false),
        ("service_name"@, "Utf8"@, false),
        ("start_time"@, "Utf8"@, false),
        ("end_time"@, "Utf8"@, false),
        ("duration_ms"@, "UInt64"@, false),
        ("status"@, "Utf8"@, false),
        ("attributes"@, "Utf8"@, false),
    ]
}

/// The columns of a metrics file as written.
pub open spec fn metric_layout() -> Seq<(Seq<char>, Seq<char>, bool)> {
    seq![
        ("name"@, "Utf8"@, false),
        ("value"@, "Float64"@, false),
        ("unit"@, "Utf8"@, false),
        ("metric_type"@, "Utf8"@, false),
        ("service_name"@, "Utf8"@, false),
        ("timestamp"@, "Utf8"@, false),
        ("attributes"@, "Utf8"@, false),
    ]
}

/// A file is written with exactly the columns, in order and of the types,
/// that reading it checks.
pub proof fn law_written_columns_are_read_columns()
    ensures
        span_layout().map_values(|c: (Seq<char>, Seq<char>, bool)| (c.0, c.1)) == span_columns(),
        metric_layout().map_values(|c: (Seq<char>, Seq<char>, bool)| (c.0, c.1)) == metric_columns(),
{
    assert(span_layout().map_values(|c: (Seq<char>, Seq<char>, bool)| (c.0, c.1)) =~= span_columns());
    assert(metric_layout().map_values(|c: (Seq<char>, Seq<char>, bool)| (c.0, c.1)) =~= metric_columns());
}

/// A span to write: times as RFC 3339 texts, attributes as JSON text.
#[derive(Debug)]
pub struct SpanRow {
    pub trace_id: String,
    pub span_id: String,
    pub parent_span_id: Option<String>,
    pub operation_name: String,
    pub service_name: String,
    pub start_time: String,
    pub end_time: String,
    pub duration_ms: u64,
    pub status: String,
    pub attributes: String,
}

/// The cells a span is written as: its texts, the duration in decimal.
pub open spec fn span_cells(s: SpanRow) -> Seq<Option<Seq<char>>> {
    seq![
        Some(s.trace_id@),
        Some(s.span_id@),
        opt_text(s.parent_span_id),
        Some(s.operation_name@),
        Some(s.service_name@),
        Some(s.start_time@),
        Some(s.end_time@),
        Some(decimal(s.duration_ms as nat)),
        Some(s.status@),
        Some(s.attributes@),
    ]
}

/// A metric record to write: its value as the text of a number.
#[derive(Debug)]
pub struct MetricRow {
    pub name: String,
    pub value_text: String,
    pub unit: String,
    pub metric_type: String,
    pub service_name: String,
    pub timestamp: String,
    pub attributes: String,
}

/// The cells a metric record is written as.
pub open spec fn metric_cells(m: MetricRow) -> Seq<Option<Seq<char>>> {
    seq![
        Some(m.name@),
        Some(m.value_text@),
        Some(m.unit@),
        Some(m.metric_type@),
        Some(m.service_name@),
        Some(m.timestamp@),
        Some(m.attributes@),
    ]
}

fn layout_of(cols: &[(&str, &str, bool)]) -> (r: Vec<(String, String, bool)>)
    ensures
        layout_view(r@) == cols@.map_values(|c: (&str, &str, bool)| (c.0@, c.1@, c.2)),
{
    let mut r: Vec<(String, String, bool)> = Vec::new();
    let mut k: usize = 0;
    while k < cols.len()
        invariant
            k <= cols@.len(),
            layout_view(r@) == cols@.take(k as int).map_values(|c: (&str, &str, bool)| (c.0@, c.1@, c.2)),
        decreases cols@.len() - k,
    {
        let (n, t, null) = cols[k];
        let ghost before = r@;
        let item = (String::from_str(n), String::from_str(t), null);
        r.push(item);
        assert(r@ =~= before.push(item));
        assert(layout_view(r@) =~= layout_view(before).push((n@, t@, null)));
        assert(cols@.take(k + 1) =~= cols@.take(k as int).push(cols@[k as int]));
        assert(layout_view(r@) =~= cols@.take(k + 1).map_values(|c: (&str, &str, bool)| (c.0@, c.1@, c.2)));
        k = k + 1;
    }
    assert(cols@.take(cols@.len() as int) =~= cols@);
    r
}

fn some_text(s: &String) -> (r: Option<String>)
    ensures
        opt_text(r) == Some(s@),
{
    Some(String::from_str(s.as_str()))
}

fn span_row_cells(s: &SpanRow) -> (r: Vec<Option<String>>)
    ensures
        row_view(r@) == span_cells(*s),
{
    let parent = match &s.parent_span_id {
        Some(p) => Some(String::from_str(p.as_str())),
        None => None,
    };
    let duration = crate::text::decimal_string(s.duration_ms);
    let r = vec![
        some_text(&s.trace_id),
        some_text(&s.span_id),
        parent,
        some_text(&s.operation_name),
        some_text(&s.service_name),
        some_text(&s.start_time),
        some_text(&s.end_time),
        Some(duration),
        some_text(&s.status),
        some_text(&s.attributes),
    ];
    assert(row_view(r@) =~= span_cells(*s));
    r
}

fn metric_row_cells(m: &MetricRow) -> (r: Vec<Option<String>>)
    ensures
        row_view(r@) == metric_cells(*m),
{
    let r = vec![
        some_text(&m.name),
        some_text(&m.value_text),
        some_text(&m.unit),
        some_text(&m.metric_type),
        some_text(&m.service_name),
        some_text(&m.timestamp),
        some_text(&m.attributes),
    ];
    assert(row_view(r@) =~= metric_cells(*m));
    r
}

/// The cells of spans to write.
pub open spec fn span_cell_rows(v: Seq<SpanRow>) -> Seq<Seq<Option<Seq<char>>>> {
    v.map_values(|s: SpanRow| span_cells(s))
}

/// The cells of metric records to write.
pub open spec fn metric_cell_rows(v: Seq<MetricRow>) -> Seq<Seq<Option<Seq<char>>>> {
    v.map_values(|m: MetricRow| metric_cells(m))
}

/// The bytes of the trace file for `spans`: the trace columns, one row per
/// span, in order.
pub fn spans_file(spans: &Vec<SpanRow>) -> (r: Result<Vec<u8>, String>)
    ensures
        bytes_result_view(r) == spec_parquet_encode(span_layout(), span_cell_rows(spans@)),
{
    let cols: [(&str, &str, bool); 10] = [
        ("trace_id", "Utf8", false),
        ("span_id", "Utf8", false),
        ("parent_span_id", "Utf8", true),
        ("operation_name", "Utf8", false),
        ("service_name", "Utf8", false),
        ("start_time", "Utf8", false),
        ("end_time", "Utf8", false),
        ("duration_ms", "UInt64", false),
        ("status", "Utf8", false),
        ("attributes", "Utf8", false),
    ];
    let columns = layout_of(cols.as_slice());
    assert(cols@.map_values(|c: (&str, &str, bool)| (c.0@, c.1@, c.2)) =~= span_layout());
    let mut rows: Vec<Vec<Option<String>>> = Vec::new();
    let mut i: usize = 0;
    while i < spans.len()
        invariant
            i <= spans@.len(),
            columns@.len() == 10,
            rows@.map_values(|x: Vec<Option<String>>| row_view(x@)) == span_cell_rows(spans@.take(i as int)),
            forall|j: int| 0 <= j < rows@.len() ==> (#[trigger] rows@[j])@.len() == 10,
        decreases spans@.len() - i,
    {
        let cells = span_row_cells(&spans[i]);
        let ghost before = rows@;
        assert(row_view(cells@).len() == cells@.len());
        rows.push(cells);
        assert(rows@ =~= before.push(cells));
        assert(rows@.map_values(|x: Vec<Option<String>>| row_view(x@)) =~= before.map_values(|x: Vec<Option<String>>| row_view(x@)).push(row_view(cells@)));
        assert(spans@.take(i + 1) =~= spans@.take(i as int).push(spans@[i as int]));
        assert(rows@.map_values(|x: Vec<Option<String>>| row_view(x@)) =~= span_cell_rows(spans@.take(i + 1)));
        i = i + 1;
    }
    assert(spans@.take(spans@.len() as int) =~= spans@);
    parquet_encode(&columns, &rows)
}

/// The bytes of the metrics file for `metrics`.
pub fn metrics_file(metrics: &Vec<MetricRow>) -> (r: Result<Vec<u8>, String>)
    ensures
        bytes_result_view(r) == spec_parquet_encode(metric_layout(), metric_cell_rows(metrics@)),
{
    let cols: [(&str, &str, bool); 7] = [
        ("name", "Utf8", false),
        ("value", "Float64", false),
        ("unit", "Utf8", false),
        ("metric_type", "Utf8", false),
        ("service_name", "Utf8", false),
        ("timestamp", "Utf8", false),
        ("attributes", "Utf8", false),
    ];
    let columns = layout_of(cols.as_slice());
    assert(cols@.map_values(|c: (&str, &str, bool)| (c.0@, c.1@, c.2)) =~= metric_layout());
    let mut rows: Vec<Vec<Option<String>>> = Vec::new();
    let mut i: usize = 0;
    while i < metrics.len()
        invariant
            i <= metrics@.len(),
            columns@.len() == 7,
            rows@.map_values(|x: Vec<Option<String>>| row_view(x@)) == metric_cell_rows(metrics@.take(i as int)),
            forall|j: int| 0 <= j < rows@.len() ==> (#[trigger] rows@[j])@.len() == 7,
        decreases metrics@.len() - i,
    {
        let cells = metric_row_cells(&metrics[i]);
        let ghost before = rows@;
        assert(row_view(cells@).len() == cells@.len());
        rows.push(cells);
        assert(rows@ =~= before.push(cells));
        assert(rows@.map_values(|x: Vec<Option<String>>| row_view(x@)) =~= before.map_values(|x: Vec<Option<String>>| row_view(x@)).push(row_view(cells@)));
        assert(metrics@.take(i + 1) =~= metrics@.take(i as int).push(metrics@[i as int]));
        assert(rows@.map_values(|x: Vec<Option<String>>| row_view(x@)) =~= metric_cell_rows(metrics@.take(i + 1)));
        i = i + 1;
    }
    assert(metrics@.take(metrics@.len() as int) =~= metrics@);
    parquet_encode(&columns, &rows)
}

/// Write the trace file for `spans` and read it back: the writing error,
/// or what reading the written bytes gives.
pub fn read_back_spans(spans: &Vec<SpanRow>, now: (i64, u32)) -> (r: Result<Option<Result<Vec<StoredSpan>, String>>, String>)
    ensures
        match spec_parquet_encode(span_layout(), span_cell_rows(spans@)) {
            Err(e) => r matches Err(m) && m@ == e,
            Ok(b) => r matches Ok(x) && spans_read(b, now, x),
        },
{
    match spans_file(spans) {
        Err(e) => Err(e),
        Ok(bytes) => Ok(spans_from_parquet(bytes.as_slice(), now)),
    }
}

/// Write the metrics file for `metrics` and read it back.
pub fn read_back_metrics(metrics: &Vec<MetricRow>, now: (i64, u32)) -> (r: Result<Option<Result<Vec<StoredMetric>, String>>, String>)
    ensures
        match spec_parquet_encode(metric_layout(), metric_cell_rows(metrics@)) {
            Err(e) => r matches Err(m) && m@ == e,
            Ok(b) => r matches Ok(x) && metrics_read(b, now, x),
        },
{
    match metrics_file(metrics) {
        Err(e) => Err(e),
        Ok(bytes) => Ok(metrics_from_parquet(bytes.as_slice(), now)),
    }
}

} // verus!
