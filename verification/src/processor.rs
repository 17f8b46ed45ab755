//! The top-level verification pipeline: marker check, decode, consensus
//! validation, median aggregation for the requested feed, and the
//! freshness gate against the previously stored result.

use vstd::prelude::*;

use crate::bytes::{be_uint, copy_range};
use crate::error::RedstoneError;
use crate::median::{aggregate, collect_values, median_spec};
use crate::redstone::{
    dec_payload, marker_seq, parse_raw_payload, verify_data_packages, verify_data_packages_spec,
    verify_feed_id, verify_feed_id_spec, verify_redstone_marker,
};
use crate::state::{Config, FeedId, Payload, PriceData, SpecConfig, SpecDataPackage};

verus! {

/// The smallest package timestamp in a payload (zero for an empty one).
pub open spec fn min_timestamp_spec(pkgs: Seq<SpecDataPackage>) -> nat
    decreases pkgs.len(),
{
    if pkgs.len() == 0 {
        0
    } else if pkgs.len() == 1 {
        pkgs.first().timestamp
    } else {
        let rest = min_timestamp_spec(pkgs.drop_first());
        if pkgs.first().timestamp <= rest {
            pkgs.first().timestamp
        } else {
            rest
        }
    }
}

/// The smallest package timestamp of a non-empty payload.
pub fn min_timestamp(payload: &Payload) -> (r: u64)
    requires
        payload.data_packages@.len() > 0,
    ensures
        r as nat == min_timestamp_spec(payload@),
{
    let ghost pv = payload@;
    let n = payload.data_packages.len();
    let mut i: usize = n - 1;
    let mut cur: u64 = payload.data_packages[n - 1].timestamp;
    proof {
        assert(pv.skip(n - 1).len() == 1);
        assert(pv.skip(n - 1).first() == pv[n - 1]);
    }
    while i > 0
        invariant
            i < pv.len(),
            pv == payload@,
            pv.len() == payload.data_packages@.len(),
            cur as nat == min_timestamp_spec(pv.skip(i as int)),
        decreases i,
    {
        i = i - 1;
        let ts = payload.data_packages[i].timestamp;
        proof {
            assert(pv.skip(i as int).first() == pv[i as int]);
            assert(pv.skip(i as int).drop_first() =~= pv.skip(i + 1));
            assert(pv.skip(i as int).len() >= 2);
        }
        if ts <= cur {
            cur = ts;
        }
    }
    assert(pv.skip(0) =~= pv);
    cur
}

/// What processing one submitted payload yields for one feed: either the
/// aggregated `(value, timestamp)` pair, or the first failure along the
/// pipeline — marker, decode, consensus, feed scoping, aggregation, then
/// the freshness gate against the previously stored timestamp.
pub open spec fn process_spec(
    bytes: Seq<u8>,
    feed: Seq<u8>,
    cfg: SpecConfig,
    prev_timestamp: nat,
) -> Result<(nat, nat), RedstoneError> {
    if !(bytes.len() >= 9 && bytes.skip(bytes.len() - 9) == marker_seq()) {
        Err(RedstoneError::InvalidRedstoneMarker)
    } else {
        match dec_payload(bytes) {
            Err(e) => Err(e),
            Ok(pkgs) => match verify_data_packages_spec(pkgs, cfg) {
                Err(e) => Err(e),
                Ok(()) => if verify_feed_id_spec(feed, cfg) is Err {
                    Err(RedstoneError::UnsupportedFeedId)
                } else {
                    let collected = collect_values(pkgs, feed, cfg.signers);
                    if collected.len() == 0 {
                        Err(RedstoneError::MedianCalculationError)
                    } else {
                        let ts = min_timestamp_spec(pkgs);
                        if ts <= prev_timestamp {
                            Err(RedstoneError::TimestampTooOld)
                        } else {
                            Ok((median_spec(collected.map_values(|b: Seq<u8>| be_uint(b))), ts))
                        }
                    }
                },
            },
        }
    }
}

/// Processes one submitted payload for one feed and, on success, writes
/// the aggregated value and its timestamp into the price record. On any
/// failure the record is left untouched.
pub fn process_redstone_payload(
    feed_id: &FeedId,
    payload: Vec<u8>,
    config: &Config,
    price_account: &mut PriceData,
) -> (r: Result<(), RedstoneError>)
    ensures
        match process_spec(payload@, feed_id@, config@, old(price_account).timestamp as nat) {
            Err(e) => r is Err && r->Err_0 == e && *final(price_account) == *old(price_account),
            Ok((value, ts)) => r is Ok
                && final(price_account).feed_id@ == feed_id@
                && final(price_account).value.wf()
                && final(price_account).value.as_nat() == value
                && final(price_account).timestamp as nat == ts
                && final(price_account).write_timestamp == old(price_account).write_timestamp,
        },
{
    match verify_redstone_marker(&payload) {
        Ok(()) => {},
        Err(e) => {
            return Err(e);
        },
    }
    let mut buffer = payload;
    let decoded = match parse_raw_payload(&mut buffer) {
        Ok(p) => p,
        Err(e) => {
            return Err(e);
        },
    };
    match verify_data_packages(&decoded, config) {
        Ok(()) => {},
        Err(e) => {
            return Err(e);
        },
    }
    match verify_feed_id(feed_id, config) {
        Ok(()) => {},
        Err(e) => {
            return Err(e);
        },
    }
    let value = match aggregate(&decoded, feed_id, &config.signers) {
        Ok(v) => v,
        Err(e) => {
            return Err(e);
        },
    };
    assert(decoded@.len() > 0);
    let ts = min_timestamp(&decoded);
    if ts <= price_account.timestamp {
        return Err(RedstoneError::TimestampTooOld);
    }
    price_account.feed_id = FeedId { bytes: copy_range(&feed_id.bytes, 0, feed_id.bytes.len()) };
    price_account.value = value;
    price_account.timestamp = ts;
    Ok(())
}

} // verus!

