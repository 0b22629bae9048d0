//! What only the machine knows: the names behind numeric ids, and the local
//! time of an instant. Nothing is promised of these answers; the functions that
//! use them are verified for every answer.

use chrono::{DateTime, Local};
use users::{get_group_by_gid, get_user_by_uid};
use vstd::prelude::*;

verus! {

/// The pattern of a modification time: abbreviated month, day of the month
/// padded with a blank, hour and minute.
pub open spec fn time_pattern() -> Seq<char> {
    "%b %e %H:%M"@
}

/// Calls `users::get_user_by_uid` and takes the name of the user found.
/// Trusted: nothing; the answer depends on the system's user database.
#[verifier::external_body]
pub(crate) fn user_name(uid: u32) -> (name: Option<String>) {
    match get_user_by_uid(uid) {
        Some(user) => Some(user.name().to_string_lossy().into_owned()),
        None => None,
    }
}

/// Calls `users::get_group_by_gid` and takes the name of the group found.
/// Trusted: nothing; the answer depends on the system's group database.
#[verifier::external_body]
pub(crate) fn group_name(gid: u32) -> (name: Option<String>) {
    match get_group_by_gid(gid) {
        Some(group) => Some(group.name().to_string_lossy().into_owned()),
        None => None,
    }
}

/// Calls `chrono::DateTime::from_timestamp`, moves the instant to the local
/// time zone with `DateTime::with_timezone` and writes it with
/// `DateTime::format`. `None` where chrono cannot represent the instant.
/// Trusted: nothing of the text; it depends on the machine's time zone. The
/// pattern is fixed because chrono panics when it writes an invalid one.
#[verifier::external_body]
pub(crate) fn local_time(seconds: i64, pattern: &str) -> (text: Option<String>)
    requires
        pattern@ == time_pattern(),
{
    match DateTime::from_timestamp(seconds, 0) {
        Some(instant) => Some(instant.with_timezone(&Local).format(pattern).to_string()),
        None => None,
    }
}

} // verus!
