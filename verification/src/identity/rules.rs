//! Field-level validation rules and key derivations of identity records.

use vstd::prelude::*;
use vstd::utf8::encode_utf8;
use crate::digest::{sha256, sha256_spec};
use crate::error::{control_char, has_control_char, str_eq, utf8_len_within};
use crate::wire::{len_prefixed, push_bytes, push_len_prefixed};
use super::types::{
    invalid, opt_hash_view, role_code, same_opt_hash, AlgorithmId, DiscoveryPluginDescriptor, Hash32,
    IdentityEndpoint, IdentityId, IdentityKey, KeyId, KeyRole, Result, SignatureProfile,
    ALGORITHM_ED25519, ALGORITHM_ML_DSA_65, ALGORITHM_ML_KEM_768, ALGORITHM_X25519,
    DISCOVERY_PLUGIN_API_VERSION, IDENTITY_ID_DOMAIN, KEY_ID_DOMAIN, MAX_ALGORITHM_BYTES,
    MAX_PLUGIN_CAPABILITIES, MAX_PUBLIC_KEY_BYTES, MAX_STRING_BYTES, PROFILE_ED25519,
    PROFILE_HYBRID_ED25519_ML_DSA_65,
};

verus! {

/// Characters allowed in identifiers: ASCII letters, digits and `-_.+:`.
pub open spec fn token_char(c: char) -> bool {
    let u = c as u32;
    (48 <= u && u <= 57) || (65 <= u && u <= 90) || (97 <= u && u <= 122) || u == 45 || u == 95
        || u == 46 || u == 43 || u == 58
}

/// A non-empty identifier of at most `max` bytes made of token characters.
/// (Token characters are ASCII, so bytes and characters coincide.)
pub open spec fn token_ok(s: Seq<char>, max: nat) -> bool {
    &&& 0 < s.len() <= max
    &&& forall|i: int| 0 <= i < s.len() ==> token_char(#[trigger] s[i])
}

/// Non-empty free text of at most `max` UTF-8 bytes without control characters.
pub open spec fn text_ok(s: Seq<char>, max: nat) -> bool {
    &&& 0 < s.len()
    &&& encode_utf8(s).len() <= max
    &&& forall|i: int| 0 <= i < s.len() ==> !control_char(#[trigger] s[i])
}

/// Public-key material acceptable for an algorithm.
pub open spec fn key_material_ok(alg: Seq<char>, pk_len: nat) -> bool {
    &&& token_ok(alg, MAX_ALGORITHM_BYTES as nat)
    &&& 0 < pk_len <= MAX_PUBLIC_KEY_BYTES
    &&& (alg == ALGORITHM_ED25519@ || alg == ALGORITHM_X25519@) ==> pk_len == 32
}

/// Bytes hashed into a key id.
pub open spec fn key_id_input(role: KeyRole, alg: Seq<char>, pk: Seq<u8>) -> Seq<u8> {
    encode_utf8(KEY_ID_DOMAIN@) + seq![role_code(role)] + len_prefixed(encode_utf8(alg))
        + len_prefixed(pk)
}

/// The key id of a key: SHA-256 over its domain, role, algorithm and material.
pub open spec fn key_id_of(role: KeyRole, alg: Seq<char>, pk: Seq<u8>) -> Seq<u8> {
    sha256_spec(key_id_input(role, alg, pk))
}

/// Bytes hashed into an identity id.
pub open spec fn identity_id_input(root_public_key: Seq<u8>) -> Seq<u8> {
    encode_utf8(IDENTITY_ID_DOMAIN@) + len_prefixed(root_public_key)
}

/// The identity id bound to a root signing key.
pub open spec fn identity_id_of(root_public_key: Seq<u8>) -> Seq<u8> {
    sha256_spec(identity_id_input(root_public_key))
}

/// An endpoint with a token transport and a free-text address.
pub open spec fn endpoint_ok(e: IdentityEndpoint) -> bool {
    token_ok(e.transport@, MAX_STRING_BYTES as nat) && text_ok(e.address@, MAX_STRING_BYTES as nat)
}

/// All strings of a list are distinct.
pub open spec fn distinct_strings(s: Seq<String>) -> bool {
    forall|i: int, j: int| 0 <= i < j < s.len() ==> (#[trigger] s[i])@ != (#[trigger] s[j])@
}

/// Valid descriptor fields: identifiers and a bounded, distinct capability list.
pub open spec fn descriptor_fields_ok(plugin_id: Seq<char>, provider_kind: Seq<char>, caps: Seq<String>) -> bool {
    &&& token_ok(plugin_id, MAX_STRING_BYTES as nat)
    &&& token_ok(provider_kind, MAX_STRING_BYTES as nat)
    &&& caps.len() <= MAX_PLUGIN_CAPABILITIES
    &&& forall|i: int| 0 <= i < caps.len() ==> token_ok(#[trigger] caps[i]@, MAX_STRING_BYTES as nat)
    &&& distinct_strings(caps)
}

/// A valid discovery-plugin descriptor.
pub open spec fn descriptor_ok(d: DiscoveryPluginDescriptor) -> bool {
    &&& d.api_version == DISCOVERY_PLUGIN_API_VERSION
    &&& descriptor_fields_ok(d.plugin_id@, d.provider_kind@, d.capabilities@)
}

/// Whether a character is a token character.
pub fn is_token_char(c: char) -> (b: bool)
    ensures
        b == token_char(c),
{
    let u = c as u32;
    (48 <= u && u <= 57) || (65 <= u && u <= 90) || (97 <= u && u <= 122) || u == 45 || u == 95
        || u == 46 || u == 43 || u == 58
}

/// Check an identifier: non-empty, at most `max_bytes`, token characters only.
pub fn validate_token(label: &str, value: &str, max_bytes: usize) -> (res: Result<()>)
    ensures
        res is Ok <==> token_ok(value@, max_bytes as nat),
        res matches Err(e) ==> e is InvalidRecord,
{
    let mut count: usize = 0;
    let mut all_token = true;
    for c in it: value.chars()
        invariant
            it.seq() == value@,
            count == it.index(),
            count <= max_bytes,
            all_token <==> forall|i: int| 0 <= i < it.index() ==> token_char(#[trigger] value@[i]),
    {
        if count == max_bytes {
            return Err(invalid("identifier is empty or exceeds its byte limit"));
        }
        if !is_token_char(c) {
            all_token = false;
        }
        count = count + 1;
    }
    if count == 0 || count > max_bytes {
        return Err(invalid("identifier is empty or exceeds its byte limit"));
    }
    if !all_token {
        return Err(invalid("identifier contains unsupported characters"));
    }
    Ok(())
}

/// Check free text: non-empty, at most `max_bytes` UTF-8 bytes, no control characters.
pub fn validate_text(label: &str, value: &str, max_bytes: usize) -> (res: Result<()>)
    ensures
        res is Ok <==> text_ok(value@, max_bytes as nat),
        res matches Err(e) ==> e is InvalidRecord,
{
    if value.is_empty() || !utf8_len_within(value, max_bytes) || has_control_char(value) {
        return Err(invalid("text is empty, too long, or contains control characters"));
    }
    Ok(())
}

/// Check an algorithm and its public-key material.
pub fn validate_key_material(algorithm: &AlgorithmId, public_key: &[u8]) -> (res: Result<()>)
    ensures
        res is Ok <==> key_material_ok(algorithm@, public_key@.len()),
        res matches Err(e) ==> e is InvalidRecord,
{
    validate_token("algorithm", algorithm.as_str(), MAX_ALGORITHM_BYTES)?;
    if public_key.len() == 0 || public_key.len() > MAX_PUBLIC_KEY_BYTES {
        return Err(invalid("public key has an invalid size"));
    }
    let alg = algorithm.as_str();
    if (str_eq(alg, ALGORITHM_ED25519) || str_eq(alg, ALGORITHM_X25519)) && public_key.len() != 32 {
        return Err(invalid("public key must be 32 bytes for this algorithm"));
    }
    Ok(())
}

/// Check an endpoint's transport token and address text.
pub fn validate_endpoint(endpoint: &IdentityEndpoint) -> (res: Result<()>)
    ensures
        res is Ok <==> endpoint_ok(*endpoint),
        res matches Err(e) ==> e is InvalidRecord,
{
    validate_token("transport", endpoint.transport.as_str(), MAX_STRING_BYTES)?;
    validate_text("endpoint address", endpoint.address.as_str(), MAX_STRING_BYTES)?;
    Ok(())
}

/// The identity id bound to a root signing key.
pub fn derive_identity_id(root_public_key: &[u8]) -> (id: IdentityId)
    ensures
        id@ == identity_id_of(root_public_key@),
{
    let mut input: Vec<u8> = Vec::new();
    push_bytes(&mut input, IDENTITY_ID_DOMAIN.as_bytes());
    push_len_prefixed(&mut input, root_public_key);
    assert(input@ =~= identity_id_input(root_public_key@));
    Hash32(sha256(input.as_slice()))
}

/// The key id of a key of the given role, algorithm and material.
pub fn derive_key_id(role: KeyRole, algorithm: &AlgorithmId, public_key: &[u8]) -> (id: KeyId)
    ensures
        id@ == key_id_of(role, algorithm@, public_key@),
{
    let mut input: Vec<u8> = Vec::new();
    push_bytes(&mut input, KEY_ID_DOMAIN.as_bytes());
    input.push(role.code());
    push_len_prefixed(&mut input, algorithm.as_str().as_bytes());
    push_len_prefixed(&mut input, public_key);
    assert(input@ =~= key_id_input(role, algorithm@, public_key@));
    Hash32(sha256(input.as_slice()))
}

/// Whether a string list holds no duplicate.
pub fn strings_distinct(values: &Vec<String>) -> (b: bool)
    ensures
        b == distinct_strings(values@),
{
    let mut i: usize = 0;
    while i < values.len()
        invariant
            i <= values@.len(),
            forall|a: int, b: int| 0 <= a < b < i ==> (#[trigger] values@[a])@ != (#[trigger] values@[b])@,
        decreases values@.len() - i,
    {
        let mut j: usize = 0;
        while j < i
            invariant
                j <= i < values@.len(),
                forall|a: int| 0 <= a < j ==> (#[trigger] values@[a])@ != values@[i as int]@,
            decreases i - j,
        {
            if values[j].eq(&values[i]) {
                return false;
            }
            j = j + 1;
        }
        i = i + 1;
    }
    true
}

/// Check that every string of a list is a token of at most `max_bytes`.
pub fn validate_tokens(label: &str, values: &Vec<String>, max_bytes: usize) -> (res: Result<()>)
    ensures
        res is Ok <==> forall|i: int| 0 <= i < values@.len() ==> token_ok(#[trigger] values@[i]@, max_bytes as nat),
        res matches Err(e) ==> e is InvalidRecord,
{
    let mut i: usize = 0;
    while i < values.len()
        invariant
            i <= values@.len(),
            forall|k: int| 0 <= k < i ==> token_ok(#[trigger] values@[k]@, max_bytes as nat),
        decreases values@.len() - i,
    {
        validate_token(label, values[i].as_str(), max_bytes)?;
        i = i + 1;
    }
    Ok(())
}

impl AlgorithmId {
    /// A validated algorithm identifier.
    pub fn new(value: &str) -> (res: Result<Self>)
        ensures
            res is Ok <==> token_ok(value@, MAX_ALGORITHM_BYTES as nat),
            res matches Ok(a) ==> a@ == value@,
            res matches Err(e) ==> e is InvalidRecord,
    {
        validate_token("algorithm", value, MAX_ALGORITHM_BYTES)?;
        Ok(AlgorithmId::from_text(String::from_str(value)))
    }

    /// `ed25519`.
    pub fn ed25519() -> (a: Self)
        ensures
            a@ == ALGORITHM_ED25519@,
    {
        AlgorithmId::from_text(String::from_str(ALGORITHM_ED25519))
    }

    /// `x25519`.
    pub fn x25519() -> (a: Self)
        ensures
            a@ == ALGORITHM_X25519@,
    {
        AlgorithmId::from_text(String::from_str(ALGORITHM_X25519))
    }

    /// `ml-kem-768`.
    pub fn ml_kem_768() -> (a: Self)
        ensures
            a@ == ALGORITHM_ML_KEM_768@,
    {
        AlgorithmId::from_text(String::from_str(ALGORITHM_ML_KEM_768))
    }

    /// `ml-dsa-65`.
    pub fn ml_dsa_65() -> (a: Self)
        ensures
            a@ == ALGORITHM_ML_DSA_65@,
    {
        AlgorithmId::from_text(String::from_str(ALGORITHM_ML_DSA_65))
    }
}

impl SignatureProfile {
    /// A validated signature profile name.
    pub fn new(value: &str) -> (res: Result<Self>)
        ensures
            res is Ok <==> token_ok(value@, MAX_ALGORITHM_BYTES as nat),
            res matches Ok(p) ==> p@ == value@,
            res matches Err(e) ==> e is InvalidRecord,
    {
        validate_token("signature profile", value, MAX_ALGORITHM_BYTES)?;
        Ok(SignatureProfile::from_text(String::from_str(value)))
    }

    /// The classical Ed25519 profile.
    pub fn ed25519() -> (p: Self)
        ensures
            p@ == PROFILE_ED25519@,
    {
        SignatureProfile::from_text(String::from_str(PROFILE_ED25519))
    }

    /// The hybrid Ed25519 + ML-DSA-65 profile.
    pub fn hybrid_ed25519_ml_dsa_65() -> (p: Self)
        ensures
            p@ == PROFILE_HYBRID_ED25519_ML_DSA_65@,
    {
        SignatureProfile::from_text(String::from_str(PROFILE_HYBRID_ED25519_ML_DSA_65))
    }

    /// Every profile other than classical Ed25519 involves post-quantum signatures.
    pub fn is_pqc(&self) -> (b: bool)
        ensures
            b == (self@ != PROFILE_ED25519@),
    {
        !str_eq(self.as_str(), PROFILE_ED25519)
    }
}

impl IdentityKey {
    /// A key with its derived id, after checking material and validity window.
    pub fn new(
        role: KeyRole,
        algorithm: AlgorithmId,
        public_key: Vec<u8>,
        not_before: u64,
        not_after: u64,
        previous_key_id: Option<KeyId>,
    ) -> (res: Result<Self>)
        ensures
            res is Ok <==> (key_material_ok(algorithm@, public_key@.len()) && not_before <= not_after
                && opt_hash_view(previous_key_id) != Some(key_id_of(role, algorithm@, public_key@))),
            res matches Ok(k) ==> (k.key_id@ == key_id_of(role, algorithm@, public_key@)
                && k.role == role && k.algorithm == algorithm && k.public_key@ == public_key@
                && k.not_before == not_before && k.not_after == not_after
                && k.previous_key_id == previous_key_id),
            res matches Err(e) ==> e is InvalidRecord,
    {
        validate_key_material(&algorithm, public_key.as_slice())?;
        if not_after < not_before {
            return Err(invalid("identity key expires before it becomes valid"));
        }
        let key_id = derive_key_id(role, &algorithm, public_key.as_slice());
        if same_opt_hash(&previous_key_id, &Some(key_id)) {
            return Err(invalid("identity key cannot supersede itself"));
        }
        Ok(IdentityKey {
            key_id,
            role,
            algorithm,
            public_key,
            not_before,
            not_after,
            previous_key_id,
        })
    }

    /// The role's textual name.
    pub fn role_string(&self) -> (s: &'static str)
        ensures
            self.role is RootSigning ==> s@ == "root-signing"@,
            self.role is OperationalSigning ==> s@ == "operational-signing"@,
            self.role is IdentityBinding ==> s@ == "identity-binding"@,
            self.role is KeyEstablishment ==> s@ == "key-establishment"@,
            self.role is RecoverySigning ==> s@ == "recovery-signing"@,
    {
        match self.role {
            KeyRole::RootSigning => "root-signing",
            KeyRole::OperationalSigning => "operational-signing",
            KeyRole::IdentityBinding => "identity-binding",
            KeyRole::KeyEstablishment => "key-establishment",
            KeyRole::RecoverySigning => "recovery-signing",
        }
    }
}

impl IdentityEndpoint {
    /// A validated endpoint.
    pub fn new(transport: &str, address: &str, priority: u16) -> (res: Result<Self>)
        ensures
            res is Ok <==> (token_ok(transport@, MAX_STRING_BYTES as nat) && text_ok(address@, MAX_STRING_BYTES as nat)),
            res matches Ok(e) ==> e.transport@ == transport@ && e.address@ == address@ && e.priority == priority,
            res matches Err(e) ==> e is InvalidRecord,
    {
        let endpoint = IdentityEndpoint {
            transport: String::from_str(transport),
            address: String::from_str(address),
            priority,
        };
        validate_endpoint(&endpoint)?;
        Ok(endpoint)
    }
}

impl DiscoveryPluginDescriptor {
    /// A validated descriptor.
    pub fn new(plugin_id: &str, provider_kind: &str, capabilities: Vec<String>) -> (res: Result<Self>)
        ensures
            res matches Ok(d) ==> (d.api_version == DISCOVERY_PLUGIN_API_VERSION && d.plugin_id@ == plugin_id@
                && d.provider_kind@ == provider_kind@ && d.capabilities@ == capabilities@),
            res is Ok <==> descriptor_fields_ok(plugin_id@, provider_kind@, capabilities@),
            res matches Err(e) ==> e is InvalidRecord,
    {
        let descriptor = DiscoveryPluginDescriptor {
            api_version: DISCOVERY_PLUGIN_API_VERSION,
            plugin_id: String::from_str(plugin_id),
            provider_kind: String::from_str(provider_kind),
            capabilities,
        };
        descriptor.validate()?;
        Ok(descriptor)
    }

    /// A descriptor that names only the plugin.
    pub fn minimal(plugin_id: &str) -> (d: Self)
        ensures
            d.api_version == DISCOVERY_PLUGIN_API_VERSION,
            d.plugin_id@ == plugin_id@,
            d.provider_kind@ == "unknown"@,
            d.capabilities@.len() == 0,
    {
        DiscoveryPluginDescriptor {
            api_version: DISCOVERY_PLUGIN_API_VERSION,
            plugin_id: String::from_str(plugin_id),
            provider_kind: String::from_str("unknown"),
            capabilities: Vec::new(),
        }
    }

    /// Check the API version, identifiers and capability list.
    pub fn validate(&self) -> (res: Result<()>)
        ensures
            res is Ok <==> descriptor_ok(*self),
            res matches Err(e) ==> e is InvalidRecord,
    {
        if self.api_version != DISCOVERY_PLUGIN_API_VERSION {
            return Err(invalid("unsupported discovery plugin API version"));
        }
        validate_token("plugin id", self.plugin_id.as_str(), MAX_STRING_BYTES)?;
        validate_token("provider kind", self.provider_kind.as_str(), MAX_STRING_BYTES)?;
        if self.capabilities.len() > MAX_PLUGIN_CAPABILITIES {
            return Err(invalid("plugin exposes more than 16 capabilities"));
        }
        validate_tokens("plugin capability", &self.capabilities, MAX_STRING_BYTES)?;
        if !strings_distinct(&self.capabilities) {
            return Err(invalid("plugin descriptor contains duplicate capabilities"));
        }
        Ok(())
    }
}

} // verus!
