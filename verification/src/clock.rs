//! The trusted clock: a UTC timestamp with second precision in the fixed
//! textual shape `YYYY-MM-DDTHH:MM:SS+00:00`.

use vstd::prelude::*;
use crate::bytes::ascii;

verus! {

/// The shape every produced timestamp has: exactly 25 bytes
/// (`YYYY-MM-DDTHH:MM:SS+00:00`), the `T` between date and time at index
/// 10, and the fixed `+00:00` offset at the end.
pub open spec fn spec_ts_shape(ts: Seq<u8>) -> bool {
    &&& ts.len() == 25
    &&& ts[10] == 84u8
    &&& ts.skip(19) == ascii("+00:00")
}

/// Relies on chrono's `Utc::now` and its `%Y-%m-%dT%H:%M:%S+00:00` format:
/// the current UTC time, second precision.  Nothing is promised about the
/// moment itself, only the textual shape; `%Y` writes exactly four digits
/// for every year from 0 through 9999, the whole range a running system's
/// clock reports.
#[verifier::external_body]
pub fn get_timestamp() -> (r: Vec<u8>)
    ensures
        spec_ts_shape(r@),
{
    chrono::Utc::now().format("%Y-%m-%dT%H:%M:%S+00:00").to_string().into_bytes()
}

} // verus!
