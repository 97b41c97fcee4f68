//! When a build expires, and the networks.

use zkv::freshness::{
    build_out_of_date, expiry_height, expiry_unix, out_of_date_at, parse_unix, ANCHOR_HEIGHT, ANCHOR_UNIX,
    FRESH_WINDOW_SECS, TARGET_BLOCK_SECS,
};
use zkv::network::{regtest_activation, Network, Upgrade, REGTEST_NU6_2_HEIGHT};

const BUILD_UNIX: u64 = 1_787_343_999;

#[test]
fn expiry_is_the_window_past_the_build() {
    assert_eq!(expiry_unix(BUILD_UNIX), BUILD_UNIX + FRESH_WINDOW_SECS);
    assert!(!out_of_date_at(BUILD_UNIX, BUILD_UNIX, None));
    assert!(!out_of_date_at(BUILD_UNIX, expiry_unix(BUILD_UNIX) - 1, None));
    assert!(out_of_date_at(BUILD_UNIX, expiry_unix(BUILD_UNIX), None));
}

#[test]
fn chain_height_expires_independently_of_the_clock() {
    let fresh_clock = BUILD_UNIX;
    assert!(!out_of_date_at(BUILD_UNIX, fresh_clock, Some(expiry_height(BUILD_UNIX) - 1)));
    assert!(out_of_date_at(BUILD_UNIX, fresh_clock, Some(expiry_height(BUILD_UNIX))));
    assert!(out_of_date_at(BUILD_UNIX, 0, Some(expiry_height(BUILD_UNIX) + 1000)));
}

#[test]
fn projected_height_tracks_the_window() {
    assert!(expiry_height(BUILD_UNIX) > ANCHOR_HEIGHT);
    let window_blocks = (FRESH_WINDOW_SECS / TARGET_BLOCK_SECS) as u32;
    assert!(expiry_height(BUILD_UNIX) >= ANCHOR_HEIGHT + window_blocks / 2);
}

#[test]
fn parses_the_build_stamp() {
    assert_eq!(parse_unix("0"), 0);
    assert_eq!(parse_unix("1787343999"), 1_787_343_999);
}

#[test]
fn a_height_is_projected_from_the_anchor() {
    let build = ANCHOR_UNIX - FRESH_WINDOW_SECS;
    assert_eq!(expiry_height(build), ANCHOR_HEIGHT);
    assert_eq!(expiry_height(build - 5), ANCHOR_HEIGHT);
    assert_eq!(expiry_height(build + TARGET_BLOCK_SECS), ANCHOR_HEIGHT + 1);
    assert_eq!(expiry_height(build + TARGET_BLOCK_SECS - 1), ANCHOR_HEIGHT);
    assert_eq!(expiry_height(u64::MAX - FRESH_WINDOW_SECS), u32::MAX);
}

#[test]
fn the_clock_as_it_stands_is_past_an_old_build() {
    assert!(build_out_of_date(0, None));
    assert!(build_out_of_date(u64::MAX / 2, Some(u32::MAX)));
    assert!(!build_out_of_date(u64::MAX / 2, None));
}

#[test]
fn parse_and_name_round_trip() {
    for net in [Network::Main, Network::Test, Network::Regtest] {
        assert_eq!(Network::parse(net.name()), Ok(net));
    }
    assert_eq!(Network::parse("main"), Ok(Network::Main));
    assert_eq!(Network::parse("test"), Ok(Network::Test));
    assert!(Network::parse("bogus").is_err());
}

#[test]
fn an_unknown_network_is_quoted() {
    assert!(Network::parse("bo\"gus").unwrap_err().contains("\"bo\\\"gus\""));
    assert!(Network::parse("").is_err());
    assert!(Network::parse("Main").is_err());
    assert_eq!(Network::default(), Network::Main);
}

#[test]
fn regtest_has_orchard_active_from_the_first_block() {
    assert_eq!(regtest_activation(Upgrade::Nu5), 1);
    assert_eq!(regtest_activation(Upgrade::Sapling), 1);
    assert_eq!(regtest_activation(Upgrade::Nu6_1), REGTEST_NU6_2_HEIGHT);
}

#[test]
fn an_expired_build_stays_expired() {
    let end = expiry_unix(BUILD_UNIX);
    let height = expiry_height(BUILD_UNIX);
    for (now, tip) in [(end, None), (end + 1, Some(0)), (0, Some(height)), (5, Some(height + 7)), (end, Some(height))] {
        assert!(out_of_date_at(BUILD_UNIX, now, tip));
    }
    assert_eq!(Network::Main.ticker(), "ZEC");
    assert_eq!(Network::Test.ticker(), "TAZ");
    assert_eq!(Network::Regtest.ticker(), "TAZ");
}
