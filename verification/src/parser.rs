//! The kline parser: finds the CSV entry of an archive, reads its records,
//! checks every field, and keeps the rows inside the request.

use vstd::prelude::*;
use vstd::string::*;
use std::io::Read;
use crate::coverage::{kline_views, KlineView};
use crate::klines::{Kline1s, KlineLoadError, KlineLoadErrorView, KlineLoadRequest};
use crate::numbers::{
    float_text_valid, i64_text_value, is_float_text, parse_i64_text, parse_u64_text,
    u64_text_value,
};
use crate::text::{ascii_lower_text, chars_of, to_ascii_lower};

verus! {

/// A reading position over bytes held in memory.
#[verifier::external_type_specification]
#[verifier::external_body]
#[verifier::reject_recursive_types(T)]
pub struct ExCursor<T>(std::io::Cursor<T>);

/// A CSV reader; what it has yet to yield is `csv_pending`.
#[verifier::external_type_specification]
#[verifier::external_body]
#[verifier::reject_recursive_types(R)]
pub struct ExCsvReader<R>(csv::Reader<R>);

/// An open zip archive; what it holds is `zip_listing`.
#[verifier::external_type_specification]
#[verifier::external_body]
#[verifier::reject_recursive_types(R)]
pub struct ExZipArchive<R>(zip::ZipArchive<R>);

/// What an archive holds at one index: nothing that can be opened, or the
/// entry's kind, its name, and its bytes where they can be read.
pub struct ZipEntry {
    pub opens: bool,
    pub is_dir: bool,
    pub name: Seq<char>,
    pub content: Option<Seq<u8>>,
}

/// The entries of the zip archive that the bytes encode, in index order;
/// `None` where the bytes are no readable archive.
pub uninterp spec fn zip_listing_of(data: Seq<u8>) -> Option<Seq<ZipEntry>>;

/// The entries of an open archive, in index order.
pub uninterp spec fn zip_listing(archive: zip::ZipArchive<std::io::Cursor<Vec<u8>>>) -> Seq<
    ZipEntry,
>;

/// The records of headerless CSV data, in order; `None` stands for a record
/// that the CSV layer refuses.
pub uninterp spec fn csv_records_of(data: Seq<u8>) -> Seq<Option<Seq<Seq<char>>>>;

/// The records that a reader has yet to yield.
pub uninterp spec fn csv_pending(reader: csv::Reader<std::io::Cursor<Vec<u8>>>) -> Seq<
    Option<Seq<Seq<char>>>,
>;

/// Opens a zip archive held in memory.
///
/// Stands for `zip::ZipArchive::new` over a cursor: it fails exactly where
/// the bytes are no readable archive, and else lists the archive's entries.
#[verifier::external_body]
pub(crate) fn zip_open(data: Vec<u8>) -> (r: Result<
    zip::ZipArchive<std::io::Cursor<Vec<u8>>>,
    zip::result::ZipError,
>)
    ensures
        match zip_listing_of(data@) {
            Some(listing) => r is Ok && zip_listing(r->Ok_0) == listing,
            None => r is Err,
        },
{
    zip::ZipArchive::new(std::io::Cursor::new(data))
}

/// Number of entries of an open archive. Stands for `ZipArchive::len`.
#[verifier::external_body]
pub(crate) fn zip_len(archive: &zip::ZipArchive<std::io::Cursor<Vec<u8>>>) -> (n: usize)
    ensures
        n == zip_listing(*archive).len(),
{
    archive.len()
}

/// Kind and name of the entry at an index.
///
/// Stands for `ZipArchive::by_index` followed by `is_dir` and `name` of the
/// entry: it fails exactly where the entry cannot be opened, and leaves the
/// archive as it was.
#[verifier::external_body]
pub(crate) fn zip_entry_info(
    archive: &mut zip::ZipArchive<std::io::Cursor<Vec<u8>>>,
    index: usize,
) -> (r: Result<(bool, String), zip::result::ZipError>)
    requires
        index < zip_listing(*old(archive)).len(),
    ensures
        zip_listing(*final(archive)) == zip_listing(*old(archive)),
        ({
            let entry = zip_listing(*old(archive))[index as int];
            if entry.opens {
                r is Ok && r->Ok_0.0 == entry.is_dir && r->Ok_0.1@ == entry.name
            } else {
                r is Err
            }
        }),
{
    let entry = archive.by_index(index)?;
    Ok((entry.is_dir(), entry.name().to_string()))
}

/// Bytes of the entry at an index.
///
/// Stands for `ZipArchive::by_index` followed by `read_to_end` on the entry:
/// the bytes where the entry opens and can be read; the zip layer's error
/// where it does not open; the read's error where reading fails.
#[verifier::external_body]
pub(crate) fn zip_entry_bytes(
    archive: &mut zip::ZipArchive<std::io::Cursor<Vec<u8>>>,
    index: usize,
) -> (r: Result<Vec<u8>, KlineLoadError>)
    requires
        index < zip_listing(*old(archive)).len(),
    ensures
        zip_listing(*final(archive)) == zip_listing(*old(archive)),
        ({
            let entry = zip_listing(*old(archive))[index as int];
            if !entry.opens {
                r is Err && r->Err_0@ == KlineLoadErrorView::Zip
            } else {
                match entry.content {
                    Some(bytes) => r is Ok && r->Ok_0@ == bytes,
                    None => r is Err && r->Err_0@ == KlineLoadErrorView::Io,
                }
            }
        }),
{
    let mut entry = archive.by_index(index).map_err(KlineLoadError::Zip)?;
    let mut buf = Vec::new();
    entry.read_to_end(&mut buf).map_err(KlineLoadError::Io)?;
    Ok(buf)
}

/// A reader over headerless CSV data held in memory.
///
/// Stands for `csv::ReaderBuilder::new().has_headers(false).from_reader` over
/// a cursor: the reader has yet to yield every record of the data.
#[verifier::external_body]
pub(crate) fn csv_open(data: Vec<u8>) -> (reader: csv::Reader<std::io::Cursor<Vec<u8>>>)
    ensures
        csv_pending(reader) == csv_records_of(data@),
{
    csv::ReaderBuilder::new().has_headers(false).from_reader(std::io::Cursor::new(data))
}

/// The next record of a reader.
///
/// Stands for `csv::Reader::read_record`, the fields copied out as strings:
/// `None` at the end of the data; else the first record yet to come, or the
/// error of the CSV layer where it refuses that record; either way the
/// reader moves on by one.
#[verifier::external_body]
pub(crate) fn csv_next(reader: &mut csv::Reader<std::io::Cursor<Vec<u8>>>) -> (r: Option<
    Result<Vec<String>, csv::Error>,
>)
    ensures
        match r {
            None => csv_pending(*old(reader)).len() == 0 && csv_pending(*final(reader)).len() == 0,
            Some(step) => {
                &&& csv_pending(*old(reader)).len() > 0
                &&& csv_pending(*final(reader)) == csv_pending(*old(reader)).drop_first()
                &&& match step {
                    Ok(fields) => csv_pending(*old(reader))[0] == Some(fields.deep_view()),
                    Err(_) => csv_pending(*old(reader))[0] is None,
                }
            },
        },
{
    let mut record = csv::StringRecord::new();
    match reader.read_record(&mut record) {
        Ok(true) => Some(Ok(record.iter().map(|field| field.to_string()).collect())),
        Ok(false) => None,
        Err(e) => Some(Err(e)),
    }
}

} // verus!

verus! {

/// A raw timestamp in milliseconds: values of magnitude 10^18 or more are
/// divided by 10^6, values of magnitude 10^15 or more by 10^3, both towards
/// zero; smaller values are milliseconds already.
pub open spec fn normalize_to_millis_spec(ts: i64) -> i64 {
    if ts >= 1_000_000_000_000_000_000 {
        (ts / 1_000_000) as i64
    } else if ts <= -1_000_000_000_000_000_000 {
        (-((-ts) / 1_000_000)) as i64
    } else if ts >= 1_000_000_000_000_000 {
        (ts / 1_000) as i64
    } else if ts <= -1_000_000_000_000_000 {
        (-((-ts) / 1_000)) as i64
    } else {
        ts
    }
}

pub fn normalize_to_millis(ts: i64) -> (ms: i64)
    ensures
        ms == normalize_to_millis_spec(ts),
{
    let wide: i128 = ts as i128;
    if ts >= 1_000_000_000_000_000_000 {
        (wide / 1_000_000) as i64
    } else if ts <= -1_000_000_000_000_000_000 {
        (-((-wide) / 1_000_000)) as i64
    } else if ts >= 1_000_000_000_000_000 {
        (wide / 1_000) as i64
    } else if ts <= -1_000_000_000_000_000 {
        (-((-wide) / 1_000)) as i64
    } else {
        ts
    }
}

/// Name of the column at each of the eleven positions of a record.
pub open spec fn field_name(index: int) -> Seq<char> {
    if index == 0 {
        "open_time_ms"@
    } else if index == 1 {
        "open"@
    } else if index == 2 {
        "high"@
    } else if index == 3 {
        "low"@
    } else if index == 4 {
        "close"@
    } else if index == 5 {
        "volume"@
    } else if index == 6 {
        "close_time_ms"@
    } else if index == 7 {
        "quote_asset_volume"@
    } else if index == 8 {
        "trade_count"@
    } else if index == 9 {
        "taker_buy_base_volume"@
    } else {
        "taker_buy_quote_volume"@
    }
}

pub fn field_name_str(index: usize) -> (s: &'static str)
    ensures
        s@ == field_name(index as int),
{
    if index == 0 {
        "open_time_ms"
    } else if index == 1 {
        "open"
    } else if index == 2 {
        "high"
    } else if index == 3 {
        "low"
    } else if index == 4 {
        "close"
    } else if index == 5 {
        "volume"
    } else if index == 6 {
        "close_time_ms"
    } else if index == 7 {
        "quote_asset_volume"
    } else if index == 8 {
        "trade_count"
    } else if index == 9 {
        "taker_buy_base_volume"
    } else {
        "taker_buy_quote_volume"
    }
}

/// Whether the field at a position holds what its column asks for.
pub open spec fn field_ok(fields: Seq<Seq<char>>, index: int) -> bool {
    if index == 0 || index == 6 {
        i64_text_value(fields[index]) is Some
    } else if index == 8 {
        u64_text_value(fields[index]) is Some
    } else {
        float_text_valid(fields[index])
    }
}

/// The order in which the fields of a record are checked: the two
/// timestamps first, then the remaining columns from left to right.
pub open spec fn check_order() -> Seq<int> {
    seq![0, 6, 1, 2, 3, 4, 5, 7, 8, 9, 10]
}

/// The first field, in checking order among the first `n` checks, that does
/// not hold what its column asks for.
pub open spec fn first_bad_field(fields: Seq<Seq<char>>, n: nat) -> Option<int>
    decreases n,
{
    if n == 0 {
        None
    } else {
        match first_bad_field(fields, (n - 1) as nat) {
            Some(index) => Some(index),
            None => if field_ok(fields, check_order()[n - 1]) {
                None
            } else {
                Some(check_order()[n - 1])
            },
        }
    }
}

/// What a record yields: a row, or the complaint about its shape or about
/// the first field that does not parse.
pub open spec fn record_outcome(fields: Seq<Seq<char>>) -> Result<KlineView, KlineLoadErrorView> {
    if fields.len() < 11 {
        Err(KlineLoadErrorView::InvalidRecordColumns { found: fields.len() as usize, expected: 11 })
    } else {
        match first_bad_field(fields, 11) {
            Some(index) => Err(
                KlineLoadErrorView::ParseField { field: field_name(index), value: fields[index] },
            ),
            None => Ok(
                KlineView {
                    open_time_ms: normalize_to_millis_spec(i64_text_value(fields[0])->Some_0),
                    open: fields[1],
                    high: fields[2],
                    low: fields[3],
                    close: fields[4],
                    volume: fields[5],
                    close_time_ms: normalize_to_millis_spec(i64_text_value(fields[6])->Some_0),
                    quote_asset_volume: fields[7],
                    trade_count: u64_text_value(fields[8])->Some_0,
                    taker_buy_base_volume: fields[9],
                    taker_buy_quote_volume: fields[10],
                },
            ),
        }
    }
}

fn parse_field_error(record: &Vec<String>, index: usize) -> (e: KlineLoadError)
    requires
        index < record@.len(),
    ensures
        e@ == (KlineLoadErrorView::ParseField {
            field: field_name(index as int),
            value: record@[index as int]@,
        }),
{
    KlineLoadError::ParseField { field: field_name_str(index), value: record[index].clone() }
}

fn parse_decimal(record: &Vec<String>, index: usize) -> (r: Result<String, KlineLoadError>)
    requires
        index < record@.len(),
    ensures
        match r {
            Ok(text) => float_text_valid(record@[index as int]@) && text@ == record@[index as int]@,
            Err(e) => !float_text_valid(record@[index as int]@) && e@
                == (KlineLoadErrorView::ParseField {
                field: field_name(index as int),
                value: record@[index as int]@,
            }),
        },
{
    if is_float_text(record[index].as_str()) {
        Ok(record[index].clone())
    } else {
        Err(parse_field_error(record, index))
    }
}

fn parse_i64(record: &Vec<String>, index: usize) -> (r: Result<i64, KlineLoadError>)
    requires
        index < record@.len(),
    ensures
        match r {
            Ok(v) => i64_text_value(record@[index as int]@) == Some(v),
            Err(e) => i64_text_value(record@[index as int]@) is None && e@
                == (KlineLoadErrorView::ParseField {
                field: field_name(index as int),
                value: record@[index as int]@,
            }),
        },
{
    match parse_i64_text(record[index].as_str()) {
        Some(v) => Ok(v),
        None => Err(parse_field_error(record, index)),
    }
}

fn parse_u64(record: &Vec<String>, index: usize) -> (r: Result<u64, KlineLoadError>)
    requires
        index < record@.len(),
    ensures
        match r {
            Ok(v) => u64_text_value(record@[index as int]@) == Some(v),
            Err(e) => u64_text_value(record@[index as int]@) is None && e@
                == (KlineLoadErrorView::ParseField {
                field: field_name(index as int),
                value: record@[index as int]@,
            }),
        },
{
    match parse_u64_text(record[index].as_str()) {
        Some(v) => Ok(v),
        None => Err(parse_field_error(record, index)),
    }
}

/// Parses one record of an archive's CSV entry.
pub fn parse_kline_record(record: &Vec<String>) -> (r: Result<Kline1s, KlineLoadError>)
    ensures
        match record_outcome(record.deep_view()) {
            Ok(row) => r is Ok && r->Ok_0@ == row,
            Err(e) => r is Err && r->Err_0@ == e,
        },
{
    let ghost fields = record.deep_view();
    if record.len() < 11 {
        return Err(KlineLoadError::InvalidRecordColumns { found: record.len(), expected: 11 });
    }
    assert(forall|i: int| 0 <= i < 11 ==> fields[i] == record@[i]@);
    reveal_with_fuel(first_bad_field, 12);
    let open_time_raw = match parse_i64(record, 0) {
        Ok(v) => v,
        Err(e) => {
            return Err(e);
        },
    };
    let close_time_raw = match parse_i64(record, 6) {
        Ok(v) => v,
        Err(e) => {
            return Err(e);
        },
    };
    let open = match parse_decimal(record, 1) {
        Ok(v) => v,
        Err(e) => {
            return Err(e);
        },
    };
    let high = match parse_decimal(record, 2) {
        Ok(v) => v,
        Err(e) => {
            return Err(e);
        },
    };
    let low = match parse_decimal(record, 3) {
        Ok(v) => v,
        Err(e) => {
            return Err(e);
        },
    };
    let close = match parse_decimal(record, 4) {
        Ok(v) => v,
        Err(e) => {
            return Err(e);
        },
    };
    let volume = match parse_decimal(record, 5) {
        Ok(v) => v,
        Err(e) => {
            return Err(e);
        },
    };
    let quote_asset_volume = match parse_decimal(record, 7) {
        Ok(v) => v,
        Err(e) => {
            return Err(e);
        },
    };
    let trade_count = match parse_u64(record, 8) {
        Ok(v) => v,
        Err(e) => {
            return Err(e);
        },
    };
    let taker_buy_base_volume = match parse_decimal(record, 9) {
        Ok(v) => v,
        Err(e) => {
            return Err(e);
        },
    };
    let taker_buy_quote_volume = match parse_decimal(record, 10) {
        Ok(v) => v,
        Err(e) => {
            return Err(e);
        },
    };
    Ok(
        Kline1s {
            open_time_ms: normalize_to_millis(open_time_raw),
            open,
            high,
            low,
            close,
            volume,
            close_time_ms: normalize_to_millis(close_time_raw),
            quote_asset_volume,
            trade_count,
            taker_buy_base_volume,
            taker_buy_quote_volume,
        },
    )
}

} // verus!

verus! {

pub open spec fn ends_with(s: Seq<char>, suffix: Seq<char>) -> bool {
    s.len() >= suffix.len() && s.skip(s.len() - suffix.len()) == suffix
}

/// Whether an entry's name, in lower case, ends in `.csv`.
pub open spec fn is_csv_name(name: Seq<char>) -> bool {
    ends_with(ascii_lower_text(name), ".csv"@)
}

pub fn name_is_csv(name: &str) -> (r: bool)
    ensures
        r == is_csv_name(name@),
{
    let chars = chars_of(name);
    let n = chars.len();
    proof {
        reveal_strlit(".csv");
    }
    if n < 4 {
        return false;
    }
    let ok = to_ascii_lower(chars[n - 4]) == '.' && to_ascii_lower(chars[n - 3]) == 'c'
        && to_ascii_lower(chars[n - 2]) == 's' && to_ascii_lower(chars[n - 1]) == 'v';
    proof {
        let lowered = ascii_lower_text(name@);
        let tail = lowered.skip(lowered.len() - 4);
        assert(tail.len() == 4);
        assert(tail[0] == lowered[n - 4] && tail[1] == lowered[n - 3] && tail[2] == lowered[n - 2]
            && tail[3] == lowered[n - 1]);
        if ok {
            assert(tail =~= ".csv"@);
        }
    }
    ok
}

/// What the search for the CSV entry finds from index `i` on: the bytes of
/// the first entry that is no directory and is named as CSV, `None` if there
/// is no such entry, or the error met on the way.
pub open spec fn scan_entries(listing: Seq<ZipEntry>, i: nat) -> Result<
    Option<Seq<u8>>,
    KlineLoadErrorView,
>
    decreases listing.len() - i,
{
    if i >= listing.len() {
        Ok(None)
    } else {
        let entry = listing[i as int];
        if !entry.opens {
            Err(KlineLoadErrorView::Zip)
        } else if entry.is_dir || !is_csv_name(entry.name) {
            scan_entries(listing, i + 1)
        } else {
            match entry.content {
                Some(bytes) => Ok(Some(bytes)),
                None => Err(KlineLoadErrorView::Io),
            }
        }
    }
}

pub open spec fn in_request(req: KlineLoadRequest, open_time_ms: i64) -> bool {
    req.start_ts_ms_utc <= open_time_ms < req.end_ts_ms_utc_exclusive
}

/// The rows of the first `n` records that fall inside the request, or the
/// first complaint.
pub open spec fn rows_outcome(
    records: Seq<Option<Seq<Seq<char>>>>,
    req: KlineLoadRequest,
    n: nat,
) -> Result<Seq<KlineView>, KlineLoadErrorView>
    decreases n,
{
    if n == 0 {
        Ok(Seq::empty())
    } else {
        match rows_outcome(records, req, (n - 1) as nat) {
            Err(e) => Err(e),
            Ok(rows) => match records[n - 1] {
                None => Err(KlineLoadErrorView::Csv),
                Some(fields) => match record_outcome(fields) {
                    Err(e) => Err(e),
                    Ok(row) => Ok(
                        if in_request(req, row.open_time_ms) {
                            rows.push(row)
                        } else {
                            rows
                        },
                    ),
                },
            },
        }
    }
}

/// What an archive yields for a request: the rows of its CSV entry that fall
/// inside the request, in file order, or the first complaint.
pub open spec fn archive_outcome(data: Seq<u8>, path: Seq<char>, req: KlineLoadRequest) -> Result<
    Seq<KlineView>,
    KlineLoadErrorView,
> {
    match zip_listing_of(data) {
        None => Err(KlineLoadErrorView::Zip),
        Some(listing) => if listing.len() == 0 {
            Err(KlineLoadErrorView::EmptyZipArchive { path })
        } else {
            match scan_entries(listing, 0) {
                Err(e) => Err(e),
                Ok(None) => Err(KlineLoadErrorView::MissingCsvEntry { path }),
                Ok(Some(csv)) => {
                    let records = csv_records_of(csv);
                    rows_outcome(records, req, records.len())
                },
            }
        },
    }
}

proof fn lemma_rows_outcome_error_stable(
    records: Seq<Option<Seq<Seq<char>>>>,
    req: KlineLoadRequest,
    n: nat,
    m: nat,
)
    requires
        n <= m,
        rows_outcome(records, req, n) is Err,
    ensures
        rows_outcome(records, req, m) == rows_outcome(records, req, n),
    decreases m,
{
    if n < m {
        lemma_rows_outcome_error_stable(records, req, n, (m - 1) as nat);
    }
}

/// Reads the records of CSV data and keeps the rows inside the request.
pub fn parse_csv_rows(csv: Vec<u8>, req: &KlineLoadRequest) -> (r: Result<
    Vec<Kline1s>,
    KlineLoadError,
>)
    ensures
        match rows_outcome(csv_records_of(csv@), *req, csv_records_of(csv@).len()) {
            Ok(rows) => r is Ok && kline_views(r->Ok_0@) == rows,
            Err(e) => r is Err && r->Err_0@ == e,
        },
        r is Ok ==> forall|i: int|
            0 <= i < r->Ok_0@.len() ==> in_request(*req, (#[trigger] r->Ok_0@[i]).open_time_ms),
{
    let ghost csv_view = csv@;
    let ghost records = csv_records_of(csv_view);
    let mut reader = csv_open(csv);
    let mut rows: Vec<Kline1s> = Vec::new();
    let ghost mut done: nat = 0;
    assert(kline_views(rows@) =~= Seq::<KlineView>::empty());
    assert(records.skip(0) =~= records);
    loop
        invariant
            done <= records.len(),
            csv_view == csv@,
            records == csv_records_of(csv_view),
            csv_pending(reader) == records.skip(done as int),
            rows_outcome(records, *req, done) == Ok::<Seq<KlineView>, KlineLoadErrorView>(
                kline_views(rows@),
            ),
            forall|i: int|
                0 <= i < rows@.len() ==> in_request(*req, (#[trigger] rows@[i]).open_time_ms),
        decreases records.len() - done,
    {
        let ghost before = kline_views(rows@);
        match csv_next(&mut reader) {
            None => {
                return Ok(rows);
            },
            Some(step) => {
                proof {
                    assert(records.skip(done as int)[0] == records[done as int]);
                    assert(records.skip(done as int).drop_first() =~= records.skip(done as int + 1));
                }
                match step {
                    Err(e) => {
                        proof {
                            lemma_rows_outcome_error_stable(
                                records,
                                *req,
                                done + 1,
                                records.len(),
                            );
                        }
                        return Err(KlineLoadError::Csv(e));
                    },
                    Ok(fields) => {
                        match parse_kline_record(&fields) {
                            Err(e) => {
                                proof {
                                    lemma_rows_outcome_error_stable(
                                        records,
                                        *req,
                                        done + 1,
                                        records.len(),
                                    );
                                }
                                return Err(e);
                            },
                            Ok(row) => {
                                if row.open_time_ms >= req.start_ts_ms_utc && row.open_time_ms
                                    < req.end_ts_ms_utc_exclusive {
                                    rows.push(row);
                                    assert(kline_views(rows@) =~= before.push(row@));
                                }
                            },
                        }
                    },
                }
                proof {
                    done = done + 1;
                }
            },
        }
    }
}

/// Parses an archive held in memory: finds its first CSV entry, reads the
/// records, and keeps the rows inside the request. `path` names the archive
/// in complaints.
pub fn parse_zip_archive(data: Vec<u8>, path: &str, req: &KlineLoadRequest) -> (r: Result<
    Vec<Kline1s>,
    KlineLoadError,
>)
    ensures
        match archive_outcome(data@, path@, *req) {
            Ok(rows) => r is Ok && kline_views(r->Ok_0@) == rows,
            Err(e) => r is Err && r->Err_0@ == e,
        },
        r is Ok ==> forall|i: int|
            0 <= i < r->Ok_0@.len() ==> in_request(*req, (#[trigger] r->Ok_0@[i]).open_time_ms),
{
    let mut archive = match zip_open(data) {
        Ok(archive) => archive,
        Err(e) => {
            return Err(KlineLoadError::Zip(e));
        },
    };
    let ghost listing = zip_listing(archive);
    let count = zip_len(&archive);
    if count == 0 {
        return Err(KlineLoadError::EmptyZipArchive { path: path.to_string() });
    }
    let mut idx: usize = 0;
    while idx < count
        invariant
            idx <= count,
            count == listing.len(),
            zip_listing(archive) == listing,
            scan_entries(listing, 0) == scan_entries(listing, idx as nat),
            zip_listing_of(data@) == Some(listing),
        decreases count - idx,
    {
        let (is_dir, name) = match zip_entry_info(&mut archive, idx) {
            Ok(info) => info,
            Err(e) => {
                return Err(KlineLoadError::Zip(e));
            },
        };
        if !is_dir && name_is_csv(name.as_str()) {
            let csv = match zip_entry_bytes(&mut archive, idx) {
                Ok(bytes) => bytes,
                Err(e) => {
                    return Err(e);
                },
            };
            return parse_csv_rows(csv, req);
        }
        idx = idx + 1;
    }
    Err(KlineLoadError::MissingCsvEntry { path: path.to_string() })
}

} // verus!
