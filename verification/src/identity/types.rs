//! Identity record data types and their constants.

use vstd::prelude::*;
use crate::error::msg;

verus! {

pub const IDENTITY_RECORD_VERSION: u16 = 1;
pub const DISCOVERY_PLUGIN_API_VERSION: u16 = 1;
pub const MAX_RECORD_BYTES: usize = 65536;
pub const MAX_KEYS: usize = 32;
pub const MAX_ENDPOINTS: usize = 32;
pub const MAX_CAPABILITIES: usize = 64;
pub const MAX_PROVIDER_RECORDS: usize = 1024;
pub const MAX_PROVIDER_ENTRIES: usize = 4096;
pub const MAX_DISCOVERY_PROVIDERS: usize = 64;
pub const MAX_TOTAL_CANDIDATES: usize = 4096;
pub const MAX_PLUGIN_CAPABILITIES: usize = 16;
pub const MAX_STRING_BYTES: usize = 256;
pub const MAX_ALGORITHM_BYTES: usize = 96;
pub const MAX_PUBLIC_KEY_BYTES: usize = 8192;
pub const DEFAULT_CLOCK_SKEW_SECS: u64 = 300;
pub const MAX_CLOCK_SKEW_SECS: u64 = 86400;
pub const MAX_RECORD_LIFETIME_SECS: u64 = 7776000;
pub const IDENTITY_ID_DOMAIN: &'static str = "shph/identity-id/v1";
pub const RECORD_DOMAIN: &'static str = "shph/identity-record/v1";
pub const KEY_ID_DOMAIN: &'static str = "shph/key-id/v1";

pub const PROFILE_ED25519: &'static str = "ed25519";
pub const PROFILE_HYBRID_ED25519_ML_DSA_65: &'static str = "hybrid-ed25519+ml-dsa-65";
pub const PROFILE_ML_DSA_44: &'static str = "ml-dsa-44";
pub const PROFILE_ML_DSA_65: &'static str = "ml-dsa-65";
pub const PROFILE_ML_DSA_87: &'static str = "ml-dsa-87";
pub const PROFILE_SLH_DSA_SHAKE_128S: &'static str = "slh-dsa-shake-128s";
pub const PROFILE_SLH_DSA_SHAKE_128F: &'static str = "slh-dsa-shake-128f";

pub const ALGORITHM_ED25519: &'static str = "ed25519";
pub const ALGORITHM_X25519: &'static str = "x25519";
pub const ALGORITHM_ML_KEM_768: &'static str = "ml-kem-768";
pub const ALGORITHM_ML_DSA_44: &'static str = "ml-dsa-44";
pub const ALGORITHM_ML_DSA_65: &'static str = "ml-dsa-65";
pub const ALGORITHM_ML_DSA_87: &'static str = "ml-dsa-87";
pub const ALGORITHM_SLH_DSA_SHAKE_128S: &'static str = "slh-dsa-shake-128s";
pub const ALGORITHM_SLH_DSA_SHAKE_128F: &'static str = "slh-dsa-shake-128f";

/// Errors of identity-record handling.
#[derive(Debug)]
pub enum IdentityError {
    InvalidRecord(String),
    InvalidSignature,
    UnsupportedAlgorithm(String),
    NotYetValid,
    Expired,
    Replay,
    Conflict { sequence: u64 },
    NotFound,
    ProviderUnavailable(String),
    Serialization(String),
    Io(String),
}

/// Result alias for identity operations.
pub type Result<T> = core::result::Result<T, IdentityError>;

/// An `InvalidRecord` error with a static explanation.
pub fn invalid(text: &str) -> (e: IdentityError)
    ensures
        e matches IdentityError::InvalidRecord(m) && m@ == text@,
{
    IdentityError::InvalidRecord(msg(text))
}

/// A 32-byte digest: identity ids, key ids and record hashes.
#[derive(Debug, Clone, Copy, PartialEq, Eq, Hash, PartialOrd, Ord)]
pub struct Hash32(pub [u8; 32]);

pub type IdentityId = Hash32;
pub type KeyId = Hash32;
pub type RecordHash = Hash32;

impl View for Hash32 {
    type V = Seq<u8>;

    open spec fn view(&self) -> Seq<u8> {
        self.0@
    }
}

/// Spec view of an optional digest.
pub open spec fn opt_hash_view(h: Option<Hash32>) -> Option<Seq<u8>> {
    match h {
        Some(x) => Some(x@),
        None => None,
    }
}

impl Hash32 {
    /// The all-zero digest.
    pub fn zero() -> (h: Self)
        ensures
            h@ == Seq::new(32, |i: int| 0u8),
    {
        let h = Hash32([0u8; 32]);
        assert(h@ =~= Seq::new(32, |i: int| 0u8));
        h
    }

    /// The digest bytes.
    pub fn as_bytes(&self) -> (b: &[u8; 32])
        ensures
            b@ == self@,
    {
        &self.0
    }

    /// Wrap 32 bytes as a digest.
    pub fn from_bytes(bytes: [u8; 32]) -> (h: Self)
        ensures
            h@ == bytes@,
    {
        Hash32(bytes)
    }

    /// Byte-wise equality of two digests.
    pub fn same(&self, other: &Hash32) -> (r: bool)
        ensures
            r == (self@ == other@),
    {
        crate::wire::bytes_eq(self.0.as_slice(), other.0.as_slice())
    }
}

/// Equality of two optional digests.
pub fn same_opt_hash(a: &Option<Hash32>, b: &Option<Hash32>) -> (r: bool)
    ensures
        r == (opt_hash_view(*a) == opt_hash_view(*b)),
{
    match (a, b) {
        (Some(x), Some(y)) => x.same(y),
        (None, None) => true,
        _ => false,
    }
}

/// A validated algorithm identifier such as `ed25519`.
#[derive(Debug, Clone, PartialEq, Eq, PartialOrd, Ord, Hash)]
pub struct AlgorithmId(pub(crate) String);

impl View for AlgorithmId {
    type V = Seq<char>;

    closed spec fn view(&self) -> Seq<char> {
        self.0@
    }
}

impl AlgorithmId {
    /// The identifier text.
    pub fn as_str(&self) -> (s: &str)
        ensures
            s@ == self@,
    {
        self.0.as_str()
    }

    /// Takes the text as read from a serialized record, without validation;
    /// a record is checked as a whole by `validate_structure`.
    pub fn from_text(value: String) -> (a: Self)
        ensures
            a@ == value@,
    {
        AlgorithmId(value)
    }
}

/// A signature profile name such as `ed25519`.
#[derive(Debug, Clone, PartialEq, Eq, PartialOrd, Ord, Hash)]
pub struct SignatureProfile(pub(crate) String);

impl View for SignatureProfile {
    type V = Seq<char>;

    closed spec fn view(&self) -> Seq<char> {
        self.0@
    }
}

impl SignatureProfile {
    /// The profile name.
    pub fn as_str(&self) -> (s: &str)
        ensures
            s@ == self@,
    {
        self.0.as_str()
    }

    /// Takes the text as read from a serialized record, without validation;
    /// a record is checked as a whole by `validate_structure`.
    pub fn from_text(value: String) -> (p: Self)
        ensures
            p@ == value@,
    {
        SignatureProfile(value)
    }
}

/// The role a key plays in an identity record.
#[derive(Debug, Clone, Copy, PartialEq, Eq, Structural, PartialOrd, Ord, Hash)]
pub enum KeyRole {
    RootSigning,
    OperationalSigning,
    IdentityBinding,
    KeyEstablishment,
    RecoverySigning,
}

/// Numeric code of a key role, used in key ids and canonical payloads.
pub open spec fn role_code(r: KeyRole) -> u8 {
    match r {
        KeyRole::RootSigning => 1,
        KeyRole::OperationalSigning => 2,
        KeyRole::IdentityBinding => 3,
        KeyRole::KeyEstablishment => 4,
        KeyRole::RecoverySigning => 5,
    }
}

impl KeyRole {
    /// Numeric code of the role.
    pub fn code(self) -> (c: u8)
        ensures
            c == role_code(self),
    {
        match self {
            KeyRole::RootSigning => 1,
            KeyRole::OperationalSigning => 2,
            KeyRole::IdentityBinding => 3,
            KeyRole::KeyEstablishment => 4,
            KeyRole::RecoverySigning => 5,
        }
    }

    /// Only root and recovery keys may sign records.
    pub fn accepts_record_signature(self) -> (b: bool)
        ensures
            b == (self is RootSigning || self is RecoverySigning),
    {
        match self {
            KeyRole::RootSigning | KeyRole::RecoverySigning => true,
            _ => false,
        }
    }
}

/// One public key of an identity.
#[derive(Debug, Clone, PartialEq, Eq)]
pub struct IdentityKey {
    pub key_id: KeyId,
    pub role: KeyRole,
    pub algorithm: AlgorithmId,
    pub public_key: Vec<u8>,
    pub not_before: u64,
    pub not_after: u64,
    pub previous_key_id: Option<KeyId>,
}

/// One advertised network endpoint.
#[derive(Debug, Clone, PartialEq, Eq)]
pub struct IdentityEndpoint {
    pub transport: String,
    pub address: String,
    pub priority: u16,
}

/// A signature over a record's canonical payload.
#[derive(Debug, Clone, PartialEq, Eq)]
pub struct RecordSignature {
    pub key_id: KeyId,
    pub algorithm: AlgorithmId,
    pub signature: Vec<u8>,
}

/// Whether a record is active or revoked.
#[derive(Debug, Clone, PartialEq, Eq)]
pub enum RecordStatus {
    Active,
    Revoked { revoked_at: u64, reason: String },
}

/// A signed, sequenced identity record.
#[derive(Debug, Clone, PartialEq, Eq)]
pub struct IdentityRecord {
    pub version: u16,
    pub subject: IdentityId,
    pub signature_profile: SignatureProfile,
    pub sequence: u64,
    pub issued_at: u64,
    pub expires_at: u64,
    pub previous_record: Option<RecordHash>,
    pub status: RecordStatus,
    pub keys: Vec<IdentityKey>,
    pub endpoints: Vec<IdentityEndpoint>,
    pub capabilities: Vec<String>,
    pub signatures: Vec<RecordSignature>,
}

/// The time and expectations a record is verified against.
#[derive(Debug, Clone, Copy)]
pub struct VerificationPolicy {
    pub now_secs: u64,
    pub clock_skew_secs: u64,
    pub expected_subject: Option<IdentityId>,
    pub require_pqc_signature: bool,
}

impl VerificationPolicy {
    /// The default policy at a given time.
    pub fn at(now_secs: u64) -> (p: Self)
        ensures
            p.now_secs == now_secs,
            p.clock_skew_secs == DEFAULT_CLOCK_SKEW_SECS,
            p.expected_subject is None,
            !p.require_pqc_signature,
    {
        VerificationPolicy {
            now_secs,
            clock_skew_secs: DEFAULT_CLOCK_SKEW_SECS,
            expected_subject: None,
            require_pqc_signature: false,
        }
    }
}

/// Outcome of a successful verification.
#[derive(Debug, Clone, Copy, PartialEq, Eq)]
pub struct VerificationResult {
    pub subject: IdentityId,
    pub pqc_authenticated: bool,
}

/// Receipt of a successful publication.
#[derive(Debug, Clone, Copy, PartialEq, Eq)]
pub struct PublishReceipt {
    pub record_hash: RecordHash,
}

/// A record accepted by the resolver.
#[derive(Debug, Clone, PartialEq, Eq)]
pub struct Resolution {
    pub record: IdentityRecord,
    pub record_hash: RecordHash,
    pub providers_consulted: usize,
    pub invalid_candidates: usize,
}

/// The peer pin derived from a verified record: the X25519 identity key and
/// the Ed25519 handshake signing key.
#[derive(Debug, Clone, Copy, PartialEq, Eq)]
pub struct PeerPin {
    pub identity_public: [u8; 32],
    pub signing_public: [u8; 32],
}

/// Metadata describing a discovery plugin.
#[derive(Debug, Clone, PartialEq, Eq)]
pub struct DiscoveryPluginDescriptor {
    pub api_version: u16,
    pub plugin_id: String,
    pub provider_kind: String,
    pub capabilities: Vec<String>,
}

} // verus!
