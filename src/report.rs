use vstd::prelude::*;
use chrono::{DateTime, Utc};
use crate::record::{FileRecord, RecordView, Timestamp};

verus! {

/// Whether the bytes are well-formed UTF-8.
pub uninterp spec fn utf8_valid(b: Seq<u8>) -> bool;

/// The text that chrono gives for a UTC instant (for example
/// `2023-01-01 00:00:00 UTC`), or `None` where chrono cannot represent it.
pub uninterp spec fn utc_text(secs: i64, nanos: u32) -> Option<Seq<u8>>;

/// Relies on `std::str::from_utf8`: it succeeds exactly on well-formed UTF-8.
#[verifier::external_body]
fn is_utf8(b: &Vec<u8>) -> (r: bool)
    ensures
        r == utf8_valid(b@),
{
    std::str::from_utf8(b.as_slice()).is_ok()
}

/// Relies on chrono's `DateTime::<Utc>::from_timestamp`, which gives `None`
/// for an instant out of its range or an invalid nanosecond count, and on the
/// `Display` of `DateTime<Utc>` for the text.
#[verifier::external_body]
fn time_text(t: Timestamp) -> (r: Option<Vec<u8>>)
    ensures
        match r {
            Some(s) => utc_text(t.secs, t.nanos) == Some(s@),
            None => utc_text(t.secs, t.nanos) is None,
        },
{
    match DateTime::<Utc>::from_timestamp(t.secs, t.nanos) {
        Some(d) => Some(d.to_string().into_bytes()),
        None => None,
    }
}

/// The ASCII digit for `d`.
pub open spec fn digit(d: nat) -> u8 {
    (48 + d) as u8
}

/// The decimal digits of `n`, most significant first, without leading zeros.
pub open spec fn decimal(n: nat) -> Seq<u8>
    decreases n,
{
    if n < 10 {
        seq![digit(n)]
    } else {
        decimal(n / 10).push(digit(n % 10))
    }
}

/// Appends the decimal digits of `n` to `out`.
pub fn push_decimal(n: u64, out: &mut Vec<u8>)
    ensures
        final(out)@ == old(out)@ + decimal(n as nat),
    decreases n,
{
    if n >= 10 {
        push_decimal(n / 10, out);
    }
    let d: u8 = (n % 10) as u8;
    out.push(48 + d);
    proof {
        assert(final(out)@ =~= old(out)@ + decimal(n as nat));
    }
}

/// Why a record could not be rendered as a row.
#[derive(Clone, Copy, Debug, PartialEq, Eq, Structural)]
pub enum Fault {
    /// The name is not well-formed UTF-8.
    NameNotText,
    /// A timestamp has no textual form.
    TimeNotRepresentable,
}

/// The record at `position` could not be rendered.
#[derive(Clone, Copy, Debug, PartialEq, Eq, Structural)]
pub struct RenderError {
    pub position: usize,
    pub fault: Fault,
}

/// What stops a record from being rendered, the name checked first.
pub open spec fn fault_of(r: RecordView) -> Option<Fault> {
    if !utf8_valid(r.name) {
        Some(Fault::NameNotText)
    } else if utc_text(r.created.secs, r.created.nanos) is None || utc_text(
        r.modified.secs,
        r.modified.nanos,
    ) is None {
        Some(Fault::TimeNotRepresentable)
    } else {
        None
    }
}

/// The four fields of a record's row: name, creation time, modification
/// time and size in decimal.
pub open spec fn row_of(r: RecordView) -> Seq<Seq<u8>> {
    seq![
        r.name,
        utc_text(r.created.secs, r.created.nanos).unwrap(),
        utc_text(r.modified.secs, r.modified.nanos).unwrap(),
        decimal(r.size as nat),
    ]
}

/// The column labels `Name`, `Created`, `Modified` and `Capacity`, in ASCII.
pub open spec fn header() -> Seq<Seq<u8>> {
    seq![
        seq![78u8, 97, 109, 101],
        seq![67u8, 114, 101, 97, 116, 101, 100],
        seq![77u8, 111, 100, 105, 102, 105, 101, 100],
        seq![67u8, 97, 112, 97, 99, 105, 116, 121],
    ]
}

/// The whole table: the header, then one row per record in the given order.
pub open spec fn report_rows(s: Seq<RecordView>) -> Seq<Seq<Seq<u8>>> {
    seq![header()] + s.map_values(|r: RecordView| row_of(r))
}

/// The fields of a row as byte sequences.
pub open spec fn fields(row: Vec<Vec<u8>>) -> Seq<Seq<u8>> {
    row@.map_values(|f: Vec<u8>| f@)
}

/// The rows of a table as sequences of fields.
pub open spec fn table(rows: Seq<Vec<Vec<u8>>>) -> Seq<Seq<Seq<u8>>> {
    rows.map_values(|row: Vec<Vec<u8>>| fields(row))
}

/// Builds the header row.
pub fn header_row() -> (r: Vec<Vec<u8>>)
    ensures
        fields(r) == header(),
{
    let r = vec![
        vec![78u8, 97, 109, 101],
        vec![67u8, 114, 101, 97, 116, 101, 100],
        vec![77u8, 111, 100, 105, 102, 105, 101, 100],
        vec![67u8, 97, 112, 97, 99, 105, 116, 121],
    ];
    assert(fields(r) =~= header());
    r
}

/// Renders one record as its row, or says what stops it.
pub fn render_record(rec: &FileRecord) -> (r: Result<Vec<Vec<u8>>, Fault>)
    ensures
        match r {
            Ok(row) => fault_of(rec@) is None && fields(row) == row_of(rec@),
            Err(f) => fault_of(rec@) == Some(f),
        },
{
    if !is_utf8(&rec.name) {
        return Err(Fault::NameNotText);
    }
    let created = match time_text(rec.created) {
        Some(t) => t,
        None => return Err(Fault::TimeNotRepresentable),
    };
    let modified = match time_text(rec.modified) {
        Some(t) => t,
        None => return Err(Fault::TimeNotRepresentable),
    };
    let mut size: Vec<u8> = Vec::new();
    push_decimal(rec.size, &mut size);
    assert(size@ =~= decimal(rec.size as nat));
    let name = copy_bytes(&rec.name);
    let row = vec![name, created, modified, size];
    assert(fields(row) =~= row_of(rec@));
    Ok(row)
}

/// A fresh vector with the same bytes.
fn copy_bytes(b: &Vec<u8>) -> (r: Vec<u8>)
    ensures
        r@ == b@,
{
    let mut r: Vec<u8> = Vec::with_capacity(b.len());
    let mut i: usize = 0;
    while i < b.len()
        invariant
            i <= b@.len(),
            r@ == b@.subrange(0, i as int),
        decreases b.len() - i,
    {
        r.push(b[i]);
        i = i + 1;
    }
    assert(r@ =~= b@);
    r
}

/// Renders the report: the header row, then one row per record in the
/// given order. Fails on the first record that cannot be rendered.
pub fn render_rows(records: &Vec<FileRecord>) -> (r: Result<Vec<Vec<Vec<u8>>>, RenderError>)
    ensures
        r is Ok <==> forall|i: int| 0 <= i < records@.len() ==> (#[trigger] fault_of(records@[i]@)) is None,
        r matches Ok(rows) ==> table(rows@) == report_rows(crate::record::views(records@)),
        r matches Err(e) ==> {
            &&& e.position < records@.len()
            &&& fault_of(records@[e.position as int]@) == Some(e.fault)
            &&& forall|j: int| 0 <= j < e.position ==> (#[trigger] fault_of(records@[j]@)) is None
        },
{
    let mut rows: Vec<Vec<Vec<u8>>> = Vec::new();
    rows.push(header_row());
    let mut i: usize = 0;
    while i < records.len()
        invariant
            i <= records@.len(),
            forall|j: int| 0 <= j < i ==> (#[trigger] fault_of(records@[j]@)) is None,
            table(rows@) == report_rows(crate::record::views(records@.subrange(0, i as int))),
        decreases records.len() - i,
    {
        match render_record(&records[i]) {
            Ok(row) => {
                let ghost before = rows@;
                rows.push(row);
                proof {
                    assert(table(rows@) =~= table(before).push(fields(row)));
                    assert(crate::record::views(records@.subrange(0, i + 1)) =~= crate::record::views(
                        records@.subrange(0, i as int),
                    ).push(records@[i as int]@));
                    assert(report_rows(crate::record::views(records@.subrange(0, i + 1))) =~= report_rows(
                        crate::record::views(records@.subrange(0, i as int)),
                    ).push(row_of(records@[i as int]@)));
                }
            },
            Err(fault) => {
                return Err(RenderError { position: i, fault });
            },
        }
        i = i + 1;
    }
    assert(records@.subrange(0, i as int) =~= records@);
    Ok(rows)
}

} // verus!
