//! Data model: feed identifiers, 256-bit values, signer addresses, data
//! points, data packages, payloads, and the caller-supplied configuration.
//!
//! A `FeedId` and a `U256` share the same physical shape (32 bytes) but are
//! kept as distinct wrappers: one names a data feed, the other carries a
//! numeric value in big-endian form.

use vstd::prelude::*;

verus! {

/// A 256-bit unsigned value held as 32 big-endian bytes.
pub struct U256 {
    pub bytes: Vec<u8>,
}

impl View for U256 {
    type V = Seq<u8>;

    open spec fn view(&self) -> Seq<u8> {
        self.bytes@
    }
}

impl U256 {
    /// A value is well formed when it holds exactly 32 bytes.
    pub open spec fn wf(&self) -> bool {
        self.bytes@.len() == 32
    }

    /// The number this value denotes.
    pub open spec fn as_nat(&self) -> nat {
        crate::bytes::be_uint(self.bytes@)
    }
}

/// A 32-byte feed identifier, conventionally ASCII right-padded with zeros.
pub struct FeedId {
    pub bytes: Vec<u8>,
}

impl View for FeedId {
    type V = Seq<u8>;

    open spec fn view(&self) -> Seq<u8> {
        self.bytes@
    }
}

impl FeedId {
    pub open spec fn wf(&self) -> bool {
        self.bytes@.len() == 32
    }
}

/// A 20-byte signer identity: the low 20 bytes of the keccak-256 hash of
/// the signer's uncompressed public key without its leading format byte.
pub struct SignerAddress {
    pub bytes: Vec<u8>,
}

impl View for SignerAddress {
    type V = Seq<u8>;

    open spec fn view(&self) -> Seq<u8> {
        self.bytes@
    }
}

impl SignerAddress {
    pub open spec fn wf(&self) -> bool {
        self.bytes@.len() == 20
    }
}

/// One provider's reading for one feed.
pub struct SpecDataPoint {
    pub feed_id: Seq<u8>,
    pub value: Seq<u8>,
}

pub open spec fn wf_spec_point(p: SpecDataPoint) -> bool {
    p.feed_id.len() == 32 && p.value.len() == 32
}

pub struct DataPoint {
    pub feed_id: FeedId,
    pub value: U256,
}

impl View for DataPoint {
    type V = SpecDataPoint;

    open spec fn view(&self) -> SpecDataPoint {
        SpecDataPoint { feed_id: self.feed_id@, value: self.value@ }
    }
}

impl DataPoint {
    pub open spec fn wf(&self) -> bool {
        self.feed_id.wf() && self.value.wf()
    }
}

/// One provider's signed statement: a derived signer identity, a timestamp
/// in milliseconds since the epoch, and an ordered run of data points.
pub struct SpecDataPackage {
    pub signer_address: Seq<u8>,
    pub timestamp: nat,
    pub data_points: Seq<SpecDataPoint>,
}

pub open spec fn wf_spec_package(p: SpecDataPackage) -> bool {
    &&& p.signer_address.len() == 20
    &&& p.timestamp < crate::bytes::pow256(6)
    &&& forall|i: int| 0 <= i < p.data_points.len() ==> wf_spec_point(#[trigger] p.data_points[i])
}

pub struct DataPackage {
    pub signer_address: SignerAddress,
    pub timestamp: u64,
    pub data_points: Vec<DataPoint>,
}

impl View for DataPackage {
    type V = SpecDataPackage;

    open spec fn view(&self) -> SpecDataPackage {
        SpecDataPackage {
            signer_address: self.signer_address@,
            timestamp: self.timestamp as nat,
            data_points: self.data_points@.map_values(|p: DataPoint| p@),
        }
    }
}

impl DataPackage {
    pub open spec fn wf(&self) -> bool {
        &&& self.signer_address.wf()
        &&& forall|i: int| 0 <= i < self.data_points@.len() ==> (
        #[trigger] self.data_points@[i]).wf()
    }
}

/// The fully decoded message: data packages in wire order (the package
/// nearest the buffer's tail comes first).
pub struct Payload {
    pub data_packages: Vec<DataPackage>,
}

impl View for Payload {
    type V = Seq<SpecDataPackage>;

    open spec fn view(&self) -> Seq<SpecDataPackage> {
        self.data_packages@.map_values(|p: DataPackage| p@)
    }
}

impl Payload {
    pub open spec fn wf(&self) -> bool {
        forall|i: int| 0 <= i < self.data_packages@.len() ==> (
        #[trigger] self.data_packages@[i]).wf()
    }
}

/// The views of a run of data points.
pub open spec fn view_points(s: Seq<DataPoint>) -> Seq<SpecDataPoint> {
    s.map_values(|p: DataPoint| p@)
}

/// The views of a run of data packages.
pub open spec fn view_packages(s: Seq<DataPackage>) -> Seq<SpecDataPackage> {
    s.map_values(|p: DataPackage| p@)
}

/// The caller-supplied policy for one verification: the trusted current
/// time, the signer allow-list and threshold, the feeds in scope, and the
/// freshness window.
pub struct SpecConfig {
    pub block_timestamp: nat,
    pub signer_count_threshold: nat,
    pub signers: Seq<Seq<u8>>,
    pub feed_ids: Seq<Seq<u8>>,
    pub max_timestamp_delay_ms: nat,
    pub max_timestamp_ahead_ms: nat,
}

pub struct Config {
    pub block_timestamp: u64,
    pub signer_count_threshold: u8,
    pub signers: Vec<SignerAddress>,
    pub feed_ids: Vec<FeedId>,
    pub max_timestamp_delay_ms: u64,
    pub max_timestamp_ahead_ms: u64,
}

impl View for Config {
    type V = SpecConfig;

    open spec fn view(&self) -> SpecConfig {
        SpecConfig {
            block_timestamp: self.block_timestamp as nat,
            signer_count_threshold: self.signer_count_threshold as nat,
            signers: self.signers@.map_values(|s: SignerAddress| s@),
            feed_ids: self.feed_ids@.map_values(|f: FeedId| f@),
            max_timestamp_delay_ms: self.max_timestamp_delay_ms as nat,
            max_timestamp_ahead_ms: self.max_timestamp_ahead_ms as nat,
        }
    }
}

/// The persisted configuration record that a deployment administers: the
/// owner key plus the policy fields that `Config` draws from it.
pub struct ConfigAccount {
    pub owner: Vec<u8>,
    pub signer_count_threshold: u8,
    pub signers: Vec<SignerAddress>,
    pub max_timestamp_delay_ms: u64,
    pub max_timestamp_ahead_ms: u64,
}

/// The derived result for one feed, as handed to the storage collaborator.
pub struct PriceData {
    pub feed_id: FeedId,
    pub value: U256,
    pub timestamp: u64,
    pub write_timestamp: u64,
}

/// Builds a fresh configuration record from its parts.
pub fn initialize(
    owner: Vec<u8>,
    signers: Vec<SignerAddress>,
    signer_count_threshold: u8,
    max_timestamp_delay_ms: u64,
    max_timestamp_ahead_ms: u64,
) -> (r: ConfigAccount)
    ensures
        r.owner == owner,
        r.signers == signers,
        r.signer_count_threshold == signer_count_threshold,
        r.max_timestamp_delay_ms == max_timestamp_delay_ms,
        r.max_timestamp_ahead_ms == max_timestamp_ahead_ms,
{
    ConfigAccount {
        owner,
        signer_count_threshold,
        signers,
        max_timestamp_delay_ms,
        max_timestamp_ahead_ms,
    }
}

/// Applies an administrative update: each field given as `Some` replaces
/// the stored one, each `None` leaves it unchanged. The owner never changes
/// through this call.
pub fn update_config(
    config_account: &mut ConfigAccount,
    signers: Option<Vec<SignerAddress>>,
    signer_count_threshold: Option<u8>,
    max_timestamp_delay_ms: Option<u64>,
    max_timestamp_ahead_ms: Option<u64>,
)
    ensures
        final(config_account).owner == old(config_account).owner,
        final(config_account).signers == if signers is Some {
            signers->0
        } else {
            old(config_account).signers
        },
        final(config_account).signer_count_threshold == if signer_count_threshold is Some {
            signer_count_threshold->0
        } else {
            old(config_account).signer_count_threshold
        },
        final(config_account).max_timestamp_delay_ms == if max_timestamp_delay_ms is Some {
            max_timestamp_delay_ms->0
        } else {
            old(config_account).max_timestamp_delay_ms
        },
        final(config_account).max_timestamp_ahead_ms == if max_timestamp_ahead_ms is Some {
            max_timestamp_ahead_ms->0
        } else {
            old(config_account).max_timestamp_ahead_ms
        },
{
    if let Some(signers) = signers {
        config_account.signers = signers;
    }
    if let Some(threshold) = signer_count_threshold {
        config_account.signer_count_threshold = threshold;
    }
    if let Some(delay) = max_timestamp_delay_ms {
        config_account.max_timestamp_delay_ms = delay;
    }
    if let Some(ahead) = max_timestamp_ahead_ms {
        config_account.max_timestamp_ahead_ms = ahead;
    }
}

} // verus!
