//! The audit log: how many entries are kept, and the CSV form in which they
//! are exported.

use vstd::prelude::*;
use crate::storage::Storage;
use crate::text::{chars_of, str_eq, string_of};

verus! {

/// The number of entries that the log keeps: the newest ones.
pub const AUDIT_LOG_LIMIT: usize = 1000;

/// The last `limit` of `entries`, or all of them where there are fewer.
pub open spec fn newest<T>(entries: Seq<T>, limit: nat) -> Seq<T> {
    if entries.len() > limit {
        entries.skip(entries.len() - limit)
    } else {
        entries
    }
}

/// Keeps the last `limit` entries.
pub fn keep_newest<T>(entries: Vec<T>, limit: usize) -> (r: Vec<T>)
    ensures
        r@ == newest(entries@, limit as nat),
{
    let mut all = entries;
    if all.len() > limit {
        let skip: usize = all.len() - limit;
        all.split_off(skip)
    } else {
        all
    }
}

impl Storage {
    /// Adds an entry to the log and keeps the newest [`AUDIT_LOG_LIMIT`] entries.
    pub fn add_audit_entry<T>(entries: Vec<T>, entry: T) -> (r: Vec<T>)
        ensures
            r@ == newest(entries@.push(entry), AUDIT_LOG_LIMIT as nat),
            r@.len() <= AUDIT_LOG_LIMIT,
            r@.len() > 0,
            r@.last() == entry,
    {
        let mut all = entries;
        all.push(entry);
        keep_newest(all, AUDIT_LOG_LIMIT)
    }
}

/// An entry as it is exported: the three fields that have a column of their
/// own, and the rest of the entry as JSON text.
#[derive(Debug)]
pub struct AuditRow {
    pub timestamp: String,
    pub operation: String,
    pub resource: String,
    pub details: String,
}

/// `s` with every quotation mark doubled.
pub open spec fn doubled_quotes(s: Seq<char>) -> Seq<char>
    decreases s.len(),
{
    if s.len() == 0 {
        Seq::empty()
    } else if s.last() == '"' {
        doubled_quotes(s.drop_last()).push('"').push('"')
    } else {
        doubled_quotes(s.drop_last()).push(s.last())
    }
}

/// A CSV field: the value between quotation marks, with the quotation marks
/// in it doubled.
pub open spec fn csv_field(value: Seq<char>) -> Seq<char> {
    seq!['"'] + doubled_quotes(value) + seq!['"']
}

/// The line of an entry: its four fields with commas between them.
pub open spec fn csv_row(row: AuditRow) -> Seq<char> {
    csv_field(row.timestamp@) + seq![','] + csv_field(row.operation@) + seq![','] + csv_field(
        row.resource@,
    ) + seq![','] + csv_field(row.details@)
}

/// The lines of the entries, each after a line break.
pub open spec fn csv_rows(rows: Seq<AuditRow>) -> Seq<char>
    decreases rows.len(),
{
    if rows.len() == 0 {
        Seq::empty()
    } else {
        csv_rows(rows.drop_last()) + seq!['\n'] + csv_row(rows.last())
    }
}

/// The CSV form of the log: the header line, then a line for each entry,
/// without a line break at the end.
pub open spec fn audit_csv(rows: Seq<AuditRow>) -> Seq<char> {
    "timestamp,operation,resource,details"@ + csv_rows(rows)
}

/// Adds a value as a CSV field to `out`.
pub fn push_csv_field(out: &mut Vec<char>, value: &str)
    ensures
        final(out)@ == old(out)@ + csv_field(value@),
{
    let ghost start = out@;
    let chars = chars_of(value);
    out.push('"');
    let mut i: usize = 0;
    while i < chars.len()
        invariant
            i <= chars@.len(),
            out@ == start + seq!['"'] + doubled_quotes(chars@.take(i as int)),
        decreases chars@.len() - i,
    {
        proof {
            assert(chars@.take(i + 1).drop_last() =~= chars@.take(i as int));
        }
        if chars[i] == '"' {
            out.push('"');
            out.push('"');
        } else {
            out.push(chars[i]);
        }
        i += 1;
    }
    proof {
        assert(chars@.take(chars@.len() as int) =~= chars@);
    }
    out.push('"');
}

/// What an export of the log comes to.
#[derive(Debug)]
pub enum AuditExport {
    /// The text of the export.
    Text(String),
    /// The entries are to be written as JSON, which the caller does.
    Json,
}

/// Exports the log as JSON or as CSV. Any other format is refused with
/// `Unsupported format`.
pub fn serialize_audit_entries(rows: &Vec<AuditRow>, format: &str) -> (r: Result<
    AuditExport,
    String,
>)
    ensures
        match r {
            Ok(AuditExport::Json) => format@ == "json"@,
            Ok(AuditExport::Text(text)) => format@ != "json"@ && format@ == "csv"@ && text@
                == audit_csv(rows@),
            Err(message) => format@ != "json"@ && format@ != "csv"@ && message@
                == "Unsupported format"@,
        },
{
    if str_eq(format, "json") {
        return Ok(AuditExport::Json);
    }
    if !str_eq(format, "csv") {
        return Err(String::from_str("Unsupported format"));
    }
    let mut out = chars_of("timestamp,operation,resource,details");
    let ghost header = out@;
    let mut i: usize = 0;
    while i < rows.len()
        invariant
            i <= rows@.len(),
            out@ == header + csv_rows(rows@.take(i as int)),
        decreases rows@.len() - i,
    {
        proof {
            assert(rows@.take(i + 1).drop_last() =~= rows@.take(i as int));
        }
        out.push('\n');
        push_csv_field(&mut out, rows[i].timestamp.as_str());
        out.push(',');
        push_csv_field(&mut out, rows[i].operation.as_str());
        out.push(',');
        push_csv_field(&mut out, rows[i].resource.as_str());
        out.push(',');
        push_csv_field(&mut out, rows[i].details.as_str());
        i += 1;
    }
    proof {
        assert(rows@.take(rows@.len() as int) =~= rows@);
    }
    Ok(AuditExport::Text(string_of(&out)))
}

} // verus!
