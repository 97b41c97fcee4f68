//! How long a build may be used.
//!
//! A build expires a fixed time after it was made, by the clock or by the height
//! of the main chain: a clock can be set back, the chain cannot.

use crate::internal::pending::{clock_unix, time_of, unix_or_zero};
use crate::text::{all_digits, chars_of, decimal_value, parse_digits};
use vstd::prelude::*;
use vstd::string::*;

verus! {

/// What is said of a build that has expired.
pub const OUT_OF_DATE_MESSAGE: &'static str =
    "This build is out of date. Please download the latest build from https://github.com/zecrocks/zkv to continue using zkv.";

/// How long a build stays fresh: 90 days.
pub const FRESH_WINDOW_SECS: u64 = 7_776_000;

/// A height of the main chain.
pub const ANCHOR_HEIGHT: u32 = 3_455_954;

/// When the chain reached it (unix seconds).
pub const ANCHOR_UNIX: u64 = 1_787_343_999;

/// The time between two blocks that the chain aims at.
pub const TARGET_BLOCK_SECS: u64 = 75;

/// When a build expires, by the clock.
pub open spec fn expiry_time(build_unix: u64) -> int {
    build_unix + FRESH_WINDOW_SECS
}

/// When a build expires, by the chain: never below the anchor.
pub open spec fn expiry_block(build_unix: u64) -> int {
    let expiry = expiry_time(build_unix);
    if expiry <= ANCHOR_UNIX {
        ANCHOR_HEIGHT as int
    } else {
        let h = ANCHOR_HEIGHT + (expiry - ANCHOR_UNIX) / TARGET_BLOCK_SECS as int;
        if h > u32::MAX {
            u32::MAX as int
        } else {
            h
        }
    }
}

/// Whether a build has expired.
pub open spec fn expired(build_unix: u64, now_unix: u64, chain_tip: Option<u32>) -> bool {
    ||| now_unix >= expiry_time(build_unix)
    ||| chain_tip matches Some(h) && h >= expiry_block(build_unix)
}

/// When a build expires, by the clock.
pub fn expiry_unix(build_unix: u64) -> (r: u64)
    requires
        build_unix + FRESH_WINDOW_SECS <= u64::MAX,
    ensures
        r == expiry_time(build_unix),
{
    build_unix + FRESH_WINDOW_SECS
}

/// When a build expires, by the height of the main chain.
pub fn expiry_height(build_unix: u64) -> (r: u32)
    requires
        build_unix + FRESH_WINDOW_SECS <= u64::MAX,
    ensures
        r == expiry_block(build_unix),
{
    let expiry: u64 = expiry_unix(build_unix);
    if expiry <= ANCHOR_UNIX {
        return ANCHOR_HEIGHT;
    }
    let blocks: u64 = (expiry - ANCHOR_UNIX) / TARGET_BLOCK_SECS;
    if blocks > u32::MAX as u64 {
        return u32::MAX;
    }
    ANCHOR_HEIGHT.saturating_add(blocks as u32)
}

/// Whether a build has expired, at a time and a height of the main chain, if one
/// is known.
pub fn out_of_date_at(build_unix: u64, now_unix: u64, chain_tip: Option<u32>) -> (r: bool)
    requires
        build_unix + FRESH_WINDOW_SECS <= u64::MAX,
    ensures
        r == expired(build_unix, now_unix, chain_tip),
{
    now_unix >= expiry_unix(build_unix) || match chain_tip {
        Some(h) => h >= expiry_height(build_unix),
        None => false,
    }
}

/// Whether a build has expired, at a reading of the clock.
pub open spec fn expired_by(build_unix: u64, reading: Option<u64>, chain_tip: Option<u32>) -> bool {
    expired(build_unix, time_of(reading), chain_tip)
}

/// Whether a build has expired, by the clock as it stands: what
/// [`out_of_date_at`] says of the time that is read. Which reading decides is not
/// known before, but a chain past the height of expiry is enough.
pub fn build_out_of_date(build_unix: u64, chain_tip: Option<u32>) -> (r: bool)
    requires
        build_unix + FRESH_WINDOW_SECS <= u64::MAX,
    ensures
        exists|reading: Option<u64>| r == #[trigger] expired_by(build_unix, reading, chain_tip),
        (chain_tip matches Some(h) && h >= expiry_block(build_unix)) ==> r,
{
    let reading: Option<u64> = clock_unix();
    let r: bool = out_of_date_at(build_unix, unix_or_zero(reading), chain_tip);
    assert(r == expired_by(build_unix, reading, chain_tip));
    r
}

/// The time that a build is stamped with.
pub fn parse_unix(s: &str) -> (r: u64)
    requires
        s@.len() > 0,
        all_digits(s@),
        decimal_value(s@) <= u64::MAX,
    ensures
        r == decimal_value(s@),
{
    let cs = chars_of(s);
    match parse_digits(cs.as_slice()) {
        Some(v) => v,
        None => 0,
    }
}

/// A build is fresh when it is made, unless the chain already stands past its
/// height, and once expired it stays so.
pub proof fn expiry_is_final(
    build_unix: u64,
    now: u64,
    tip: Option<u32>,
    later: u64,
    later_tip: Option<u32>,
)
    requires
        now <= later,
        tip matches Some(a) ==> later_tip matches Some(b) && a <= b,
    ensures
        !expired(build_unix, build_unix, None),
        expired(build_unix, now, tip) ==> expired(build_unix, later, later_tip),
        ANCHOR_HEIGHT <= expiry_block(build_unix) <= u32::MAX,
{
    assert(expiry_time(build_unix) > ANCHOR_UNIX ==> (expiry_time(build_unix) - ANCHOR_UNIX)
        / TARGET_BLOCK_SECS as int >= 0);
}

/// A build may be used for ninety days by the clock, and by the chain for the blocks
/// that it makes in the time from the anchor to the same moment.
pub proof fn a_build_lasts_ninety_days(build_unix: u64, now: u64, tip: u32)
    requires
        build_unix >= 1_787_343_999,
        build_unix <= 1_787_343_999 + 75 * 839_000_000,
    ensures
        expired(build_unix, now, None) <==> now - build_unix >= 90 * 24 * 60 * 60,
        expiry_block(build_unix) == 3_455_954 + (build_unix + 90 * 24 * 60 * 60 - 1_787_343_999)
            / 75,
        tip >= expiry_block(build_unix) ==> expired(build_unix, now, Some(tip)),
        tip < expiry_block(build_unix) ==> (expired(build_unix, now, Some(tip)) <==> now
            - build_unix >= 90 * 24 * 60 * 60),
{
    assert((build_unix + 7_776_000 - 1_787_343_999) / 75 <= u32::MAX - 3_455_954);
}

} // verus!
