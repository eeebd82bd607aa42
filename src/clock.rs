//! Instants of synchronisation and their calendar text.

use vstd::prelude::*;
use crate::text::opt_text;

verus! {

/// An instant in UTC: whole seconds since the Unix epoch and the nanoseconds
/// past them.
#[derive(Clone, Copy, Debug, PartialEq, Eq)]
pub struct SyncTime {
    pub secs: i64,
    pub nanos: u32,
}

/// The `DD-Mon-YYYY` text of the UTC day holding second `secs` of the Unix
/// epoch, as chrono writes it; `None` outside chrono's range of dates.
pub uninterp spec fn imap_date_of(secs: int) -> Option<Seq<char>>;

/// Relies on `chrono::DateTime::<Utc>::from_timestamp`, which is `None`
/// outside chrono's range, and on chrono's `%d-%b-%Y` formatting of the day.
#[verifier::external_body]
pub(crate) fn imap_date(secs: i64) -> (r: Option<String>)
    ensures
        opt_text(r) == imap_date_of(secs as int),
{
    chrono::DateTime::from_timestamp(secs, 0).map(|d| d.format("%d-%b-%Y").to_string())
}

/// Relies on `std::time::SystemTime::now` and chrono's conversion
/// `From<SystemTime> for DateTime<Utc>`, read through `timestamp` and
/// `timestamp_subsec_nanos`; nothing is known of its value. The conversion
/// takes instants before 1970 too; it fails only for an instant beyond
/// chrono's range of about 262,000 years, which no system clock reads.
#[verifier::external_body]
pub(crate) fn now() -> (r: SyncTime) {
    let t = chrono::DateTime::<chrono::Utc>::from(std::time::SystemTime::now());
    SyncTime { secs: t.timestamp(), nanos: t.timestamp_subsec_nanos() }
}

} // verus!
