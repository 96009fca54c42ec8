//! Per-file metadata: identity and filesystem facts for one discovered file.
//!
//! The traversal (outside this library) hands in plain values; identity is
//! generated here, and timestamps are carried as seconds since the Unix
//! epoch and rendered through the calendar only at the report boundary.

use vstd::prelude::*;

use chrono::TimeZone;

verus! {

/// The last second of year 9999: timestamps at most this large render as
/// nineteen bytes, `YYYY-MM-DD HH:MM:SS`.
pub const MAX_TIMESTAMP_SECS: i64 = 253402300799;

/// What the calendar renderer returns for a given number of seconds since
/// the Unix epoch: a fixed function of the seconds alone.
pub uninterp spec fn timestamp_text(secs: int) -> Seq<u8>;

/// Relies on chrono's `Utc.timestamp_opt` and its `%Y-%m-%d %H:%M:%S`
/// formatting: for an in-range, non-negative number of seconds the result
/// exists, depends on the seconds alone, and is nineteen bytes long.
#[verifier::external_body]
fn format_timestamp(secs: i64) -> (r: Vec<u8>)
    requires
        0 <= secs <= MAX_TIMESTAMP_SECS,
    ensures
        r@ == timestamp_text(secs as int),
        r@.len() == 19,
{
    let dt = chrono::Utc.timestamp_opt(secs, 0).unwrap();
    dt.format("%Y-%m-%d %H:%M:%S").to_string().into_bytes()
}

/// A byte that can occur in a generated identity: a lowercase hexadecimal
/// digit or a hyphen.
pub open spec fn is_id_byte(b: u8) -> bool {
    (48 <= b && b <= 57) || (97 <= b && b <= 102) || b == 45
}

/// Relies on `uuid::Uuid::new_v4` and its `Display` form: 36 bytes,
/// lowercase hexadecimal digits in five hyphen-joined groups. The value is
/// random; nothing beyond its shape is assumed.
#[verifier::external_body]
fn fresh_id_bytes() -> (r: Vec<u8>)
    ensures
        r@.len() == 36,
        forall|i: int| 0 <= i < r@.len() ==> is_id_byte(r@[i]),
{
    uuid::Uuid::new_v4().to_string().into_bytes()
}

/// Identity and filesystem metadata for one discovered file, created once
/// at traversal time and immutable thereafter.
pub struct FileRecord {
    pub id: Vec<u8>,
    pub name: Vec<u8>,
    pub directory: Vec<u8>,
    pub created_secs: i64,
    pub modified_secs: i64,
    pub size_bytes: u64,
}

/// A well-formed record: timestamps renderable on the report, identity of
/// the generated shape.
pub open spec fn record_wf(rec: FileRecord) -> bool {
    &&& 0 <= rec.created_secs <= MAX_TIMESTAMP_SECS
    &&& 0 <= rec.modified_secs <= MAX_TIMESTAMP_SECS
    &&& rec.id@.len() == 36
    &&& forall|i: int| 0 <= i < rec.id@.len() ==> is_id_byte(rec.id@[i])
}

impl FileRecord {
    /// Builds the record for one discovered file, generating a fresh identity.
    pub fn new(
        name: Vec<u8>,
        directory: Vec<u8>,
        created_secs: i64,
        modified_secs: i64,
        size_bytes: u64,
    ) -> (rec: FileRecord)
        requires
            0 <= created_secs <= MAX_TIMESTAMP_SECS,
            0 <= modified_secs <= MAX_TIMESTAMP_SECS,
        ensures
            record_wf(rec),
            rec.name@ == name@,
            rec.directory@ == directory@,
            rec.created_secs == created_secs,
            rec.modified_secs == modified_secs,
            rec.size_bytes == size_bytes,
    {
        let id = fresh_id_bytes();
        FileRecord { id, name, directory, created_secs, modified_secs, size_bytes }
    }

    /// The record's creation timestamp, rendered for the report.
    pub fn created_text(&self) -> (r: Vec<u8>)
        requires
            record_wf(*self),
        ensures
            r@ == timestamp_text(self.created_secs as int),
    {
        format_timestamp(self.created_secs)
    }

    /// The record's modification timestamp, rendered for the report.
    pub fn modified_text(&self) -> (r: Vec<u8>)
        requires
            record_wf(*self),
        ensures
            r@ == timestamp_text(self.modified_secs as int),
    {
        format_timestamp(self.modified_secs)
    }
}

} // verus!
