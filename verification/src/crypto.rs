//! Cryptographic primitives: X25519 key exchange, HKDF-SHA256 key
//! derivation, ChaCha20-Poly1305 session ciphers and the inbound replay
//! window.
use chacha20poly1305::aead::{Aead, KeyInit};
use std::collections::HashSet;
use vstd::prelude::*;

use crate::error::{msg, Result, ShphError};
use crate::wire::be64_bytes;

verus! {

broadcast use vstd::std_specs::hash::group_hash_axioms;

// ---------------------------------------------------------------------------
// Names for what the outside primitives compute.
// ---------------------------------------------------------------------------

/// The X25519 public key that `x25519_dalek` derives from a 32-byte secret.
pub uninterp spec fn x25519_public_spec(secret: Seq<u8>) -> Seq<u8>;

/// The X25519 shared secret of a 32-byte secret and a peer public key.
pub uninterp spec fn x25519_shared_spec(secret: Seq<u8>, peer_public: Seq<u8>) -> Seq<u8>;

/// The 64 output bytes of HKDF-SHA256 (no salt) over `ikm` with `info`.
pub uninterp spec fn hkdf_sha256_okm64(ikm: Seq<u8>, info: Seq<u8>) -> Seq<u8>;

/// The ChaCha20-Poly1305 sealing (ciphertext followed by the tag) of a
/// plaintext under a key and a 96-bit nonce, with no associated data.
pub uninterp spec fn chacha_seal_spec(key: Seq<u8>, nonce: Seq<u8>, plaintext: Seq<u8>) -> Seq<u8>;

/// Plaintexts short enough for ChaCha20-Poly1305 (fewer than `u32::MAX` blocks).
pub open spec fn aead_len_ok(len: nat) -> bool {
    len / 64 < 0xffff_ffff
}

// ---------------------------------------------------------------------------
// Trusted calls into the outside crates.
// ---------------------------------------------------------------------------

/// Calls `ring::rand::SystemRandom::fill` for 32 bytes. The bytes come from
/// the operating system; nothing is stated of them, nor of when the call fails.
#[verifier::external_body]
fn system_random_32() -> (out: Option<[u8; 32]>) {
    let mut bytes = [0u8; 32];
    match ring::rand::SecureRandom::fill(&ring::rand::SystemRandom::new(), &mut bytes) {
        Ok(()) => Some(bytes),
        Err(_) => None,
    }
}

/// Calls `x25519_dalek::PublicKey::from(&StaticSecret::from(secret))`: the
/// result is the X25519 public key of the secret.
#[verifier::external_body]
fn x25519_public(secret: &[u8; 32]) -> (public: [u8; 32])
    ensures
        public@ == x25519_public_spec(secret@),
{
    let s = x25519_dalek::StaticSecret::from(*secret);
    x25519_dalek::PublicKey::from(&s).to_bytes()
}

/// Calls `x25519_dalek::StaticSecret::diffie_hellman`. The result is the
/// X25519 shared secret of the two arguments; the contract also states the
/// Diffie-Hellman agreement that the crate documents: a peer holding the
/// secret behind `peer_public` computes the same value from our public key.
#[verifier::external_body]
fn x25519_diffie_hellman(secret: &[u8; 32], peer_public: &[u8; 32]) -> (shared: [u8; 32])
    ensures
        shared@ == x25519_shared_spec(secret@, peer_public@),
        forall|other: Seq<u8>|
            other.len() == 32 && peer_public@ == #[trigger] x25519_public_spec(other) ==> shared@
                == x25519_shared_spec(other, x25519_public_spec(secret@)),
{
    let s = x25519_dalek::StaticSecret::from(*secret);
    s.diffie_hellman(&x25519_dalek::PublicKey::from(*peer_public)).to_bytes()
}

/// Calls `hkdf::Hkdf::<sha2::Sha256>::new(None, ikm).expand(info, &mut okm)`
/// for 64 output bytes, which is within the HKDF limit, so the call succeeds.
#[verifier::external_body]
fn hkdf_sha256_expand64(ikm: &[u8], info: &[u8]) -> (okm: [u8; 64])
    ensures
        okm@ == hkdf_sha256_okm64(ikm@, info@),
{
    let mut okm = [0u8; 64];
    let kdf = hkdf::Hkdf::<sha2::Sha256>::new(None, ikm);
    match kdf.expand(info, &mut okm) {
        Ok(()) => okm,
        Err(_) => okm,
    }
}

/// Calls `chacha20poly1305::ChaCha20Poly1305::encrypt`. It fails exactly on
/// plaintexts of `u32::MAX` blocks or more; otherwise the result is the
/// sealing of the plaintext, 16 bytes longer than it.
#[verifier::external_body]
fn chacha_seal(key: &[u8; 32], nonce: &[u8], plaintext: &[u8]) -> (out: Option<Vec<u8>>)
    requires
        nonce@.len() == 12,
    ensures
        out is Some <==> aead_len_ok(plaintext@.len()),
        out matches Some(c) ==> c@ == chacha_seal_spec(key@, nonce@, plaintext@) && c@.len()
            == plaintext@.len() + 16,
{
    let cipher = chacha20poly1305::ChaCha20Poly1305::new(key.into());
    cipher.encrypt(chacha20poly1305::Nonce::from_slice(nonce), plaintext).ok()
}

/// Calls `chacha20poly1305::ChaCha20Poly1305::decrypt`. The tag check makes
/// opening the inverse of sealing: a plaintext comes back exactly when the
/// input is the sealing of that plaintext under the same key and nonce.
#[verifier::external_body]
fn chacha_open(key: &[u8; 32], nonce: &[u8], sealed: &[u8]) -> (out: Option<Vec<u8>>)
    requires
        nonce@.len() == 12,
    ensures
        out matches Some(p) ==> sealed@ == chacha_seal_spec(key@, nonce@, p@),
        forall|p: Seq<u8>|
            #![trigger chacha_seal_spec(key@, nonce@, p)]
            aead_len_ok(p.len()) && sealed@ == chacha_seal_spec(key@, nonce@, p) ==> (out is Some
                && out->0@ == p),
{
    let cipher = chacha20poly1305::ChaCha20Poly1305::new(key.into());
    cipher.decrypt(chacha20poly1305::Nonce::from_slice(nonce), sealed).ok()
}

/// Calls `zeroize::Zeroize::zeroize` on a 32-byte array, which overwrites
/// every byte with zero.
#[verifier::external_body]
fn wipe_32(bytes: &mut [u8; 32])
    ensures
        final(bytes)@ == Seq::new(32, |i: int| 0u8),
{
    zeroize::Zeroize::zeroize(bytes);
}

} // verus!

verus! {

// ---------------------------------------------------------------------------
// Identity key pair.
// ---------------------------------------------------------------------------

/// The identity key pair of a node: an X25519 key for the handshake and an
/// Ed25519 key that signs identity records.
pub struct IdentityKeyPair {
    private: [u8; 32],
    public: [u8; 32],
    signing_seed: [u8; 32],
    signing_public: [u8; 32],
}

impl IdentityKeyPair {
    /// The X25519 secret bytes.
    pub closed spec fn secret_spec(&self) -> Seq<u8> {
        self.private@
    }

    /// The X25519 public key bytes.
    pub closed spec fn public_spec(&self) -> Seq<u8> {
        self.public@
    }

    /// The Ed25519 signing seed.
    pub closed spec fn signing_seed_spec(&self) -> Seq<u8> {
        self.signing_seed@
    }

    /// The Ed25519 public key.
    pub closed spec fn signing_public_spec(&self) -> Seq<u8> {
        self.signing_public@
    }

    /// A key pair is consistent when both public keys derive from their secrets.
    pub open spec fn wf(&self) -> bool {
        &&& self.public_spec() == x25519_public_spec(self.secret_spec())
        &&& self.secret_spec().len() == 32
        &&& self.signing_public_spec() == crate::identity::sign::ed25519_public_spec(self.signing_seed_spec())
        &&& self.signing_seed_spec().len() == 32
    }

    /// Draws a fresh X25519 secret and a fresh Ed25519 seed from the system
    /// random source and derives the public keys; fails when the random
    /// source does.
    pub fn generate() -> (r: Result<Self>)
        ensures
            r matches Ok(kp) ==> kp.wf(),
            r matches Err(e) ==> e is Crypto,
    {
        let secret = match system_random_32() {
            Some(s) => s,
            None => return Err(ShphError::Crypto(msg("system random source failed"))),
        };
        let seed = match system_random_32() {
            Some(s) => s,
            None => return Err(ShphError::Crypto(msg("system random source failed"))),
        };
        Ok(Self::from_secrets(secret, seed))
    }

    /// The key pair whose X25519 secret and Ed25519 seed are the given bytes.
    pub fn from_secrets(secret: [u8; 32], signing_seed: [u8; 32]) -> (kp: Self)
        ensures
            kp.wf(),
            kp.secret_spec() == secret@,
            kp.signing_seed_spec() == signing_seed@,
    {
        let public = x25519_public(&secret);
        let signing_public = crate::identity::sign::ed25519_public_from_seed(&signing_seed);
        IdentityKeyPair { private: secret, public, signing_seed, signing_public }
    }

    /// The X25519 public key.
    pub fn public(&self) -> (p: [u8; 32])
        ensures
            p@ == self.public_spec(),
    {
        self.public
    }

    /// The X25519 public key bytes, as bound into identity records.
    pub fn public_key_bytes(&self) -> (p: [u8; 32])
        ensures
            p@ == self.public_spec(),
    {
        self.public
    }

    /// The Ed25519 public key that verifies this identity's record signatures.
    pub fn signing_public_bytes(&self) -> (p: [u8; 32])
        ensures
            p@ == self.signing_public_spec(),
    {
        self.signing_public
    }

    /// The Ed25519 signing seed.
    pub fn signing_seed(&self) -> (s: [u8; 32])
        ensures
            s@ == self.signing_seed_spec(),
    {
        self.signing_seed
    }

    /// The X25519 shared secret with a peer's public key; a peer holding the
    /// secret behind `peer_public` derives the same value from ours.
    pub fn derive_shared(&self, peer_public: &[u8; 32]) -> (r: Result<[u8; 32]>)
        ensures
            r is Ok,
            r->Ok_0@ == x25519_shared_spec(self.secret_spec(), peer_public@),
            self.wf() ==> forall|other: Seq<u8>|
                other.len() == 32 && peer_public@ == #[trigger] x25519_public_spec(other)
                    ==> r->Ok_0@ == x25519_shared_spec(other, self.public_spec()),
    {
        Ok(x25519_diffie_hellman(&self.private, peer_public))
    }

    /// Overwrites both secrets with zeros; the public keys are kept.
    pub fn zeroize(&mut self)
        ensures
            final(self).secret_spec() == Seq::new(32, |i: int| 0u8),
            final(self).signing_seed_spec() == Seq::new(32, |i: int| 0u8),
            final(self).public_spec() == old(self).public_spec(),
            final(self).signing_public_spec() == old(self).signing_public_spec(),
    {
        wipe_32(&mut self.private);
        wipe_32(&mut self.signing_seed);
    }
}

} // verus!

verus! {

// ---------------------------------------------------------------------------
// Session keys and ciphers.
// ---------------------------------------------------------------------------

/// The HKDF `info` string of the session key derivation.
pub open spec fn session_info() -> Seq<u8> {
    vstd::utf8::encode_utf8("shph key derivation"@)
}

/// Session keys derived from a shared secret with HKDF-SHA256.
pub struct SessionKeys {
    pub send_key: [u8; 32],
    pub recv_key: [u8; 32],
    pub send_nonce: u64,
    pub recv_nonce: u64,
}

impl SessionKeys {
    /// Expands the shared secret into 64 bytes: the first 32 are the send
    /// key, the last 32 the receive key; both counters start at zero.
    pub fn derive(shared_secret: &[u8; 32]) -> (keys: Self)
        ensures
            keys.send_key@ == hkdf_sha256_okm64(shared_secret@, session_info()).subrange(0, 32),
            keys.recv_key@ == hkdf_sha256_okm64(shared_secret@, session_info()).subrange(32, 64),
            keys.send_nonce == 0,
            keys.recv_nonce == 0,
    {
        let info = "shph key derivation".as_bytes();
        let okm = hkdf_sha256_expand64(shared_secret, info);
        let mut send_key = [0u8; 32];
        let mut recv_key = [0u8; 32];
        let mut i: usize = 0;
        while i < 32
            invariant
                i <= 32,
                okm@.len() == 64,
                forall|j: int| 0 <= j < i ==> send_key@[j] == okm@[j],
                forall|j: int| 0 <= j < i ==> recv_key@[j] == okm@[j + 32],
            decreases 32 - i,
        {
            send_key[i] = okm[i];
            recv_key[i] = okm[i + 32];
            i = i + 1;
        }
        assert(send_key@ =~= okm@.subrange(0, 32));
        assert(recv_key@ =~= okm@.subrange(32, 64));
        SessionKeys { send_key, recv_key, send_nonce: 0, recv_nonce: 0 }
    }
}

/// The 96-bit AEAD nonce of a message counter: four zero bytes, then the
/// counter in big-endian order.
pub open spec fn nonce_bytes(counter: u64) -> Seq<u8> {
    seq![0u8, 0u8, 0u8, 0u8] + be64_bytes(counter)
}

fn nonce_for(counter: u64) -> (n: Vec<u8>)
    ensures
        n@ == nonce_bytes(counter),
{
    let mut n: Vec<u8> = Vec::new();
    n.push(0);
    n.push(0);
    n.push(0);
    n.push(0);
    crate::wire::push_be64(&mut n, counter);
    assert(n@ =~= nonce_bytes(counter));
    n
}

/// ChaCha20-Poly1305 cipher for outbound session messages.
pub struct SendCipher {
    key: [u8; 32],
    nonce: u64,
}

impl SendCipher {
    /// The cipher key.
    pub closed spec fn key_spec(&self) -> Seq<u8> {
        self.key@
    }

    /// The counter of the next message.
    pub closed spec fn counter(&self) -> u64 {
        self.nonce
    }

    /// A cipher whose counter starts at zero.
    pub fn new(key: [u8; 32]) -> (c: Self)
        ensures
            c.key_spec() == key@,
            c.counter() == 0,
    {
        SendCipher { key, nonce: 0 }
    }

    /// Seals the plaintext under the current counter and advances the
    /// counter. A plaintext too long for the cipher is refused and the
    /// counter stays where it was.
    pub fn encrypt(&mut self, plaintext: &[u8]) -> (r: Result<Vec<u8>>)
        requires
            old(self).counter() < u64::MAX,
        ensures
            final(self).key_spec() == old(self).key_spec(),
            r is Ok <==> aead_len_ok(plaintext@.len()),
            r matches Ok(c) ==> c@ == chacha_seal_spec(
                old(self).key_spec(),
                nonce_bytes(old(self).counter()),
                plaintext@,
            ) && final(self).counter() == old(self).counter() + 1,
            r matches Err(e) ==> e is Crypto && final(self).counter() == old(self).counter(),
    {
        let nonce = nonce_for(self.nonce);
        match chacha_seal(&self.key, nonce.as_slice(), plaintext) {
            Some(c) => {
                self.nonce = self.nonce + 1;
                Ok(c)
            },
            None => Err(ShphError::Crypto(msg("aead::Error"))),
        }
    }
}

/// ChaCha20-Poly1305 cipher for inbound session messages, with replay
/// protection.
pub struct ReceiveCipher {
    key: [u8; 32],
    replay_window: ReplayWindow,
}

impl ReceiveCipher {
    /// The cipher key.
    pub closed spec fn key_spec(&self) -> Seq<u8> {
        self.key@
    }

    /// The nonces currently remembered by the replay window.
    pub closed spec fn seen(&self) -> Set<u64> {
        self.replay_window.seen()
    }

    /// The replay window's capacity.
    pub closed spec fn window_size(&self) -> nat {
        self.replay_window.capacity()
    }

    /// A cipher with an empty replay window of 1024 nonces.
    pub fn new(key: [u8; 32]) -> (c: Self)
        ensures
            c.key_spec() == key@,
            c.seen() == Set::<u64>::empty(),
            c.window_size() == 1024,
    {
        ReceiveCipher { key, replay_window: ReplayWindow::new(1024) }
    }

    /// Refuses a nonce that the replay window holds; otherwise records it
    /// and opens the ciphertext with that nonce.
    pub fn decrypt(&mut self, nonce: u64, ciphertext: &[u8]) -> (r: Result<Vec<u8>>)
        ensures
            final(self).key_spec() == old(self).key_spec(),
            final(self).window_size() == old(self).window_size(),
            old(self).seen().finite() && old(self).seen().len() <= old(self).window_size(),
            final(self).seen().finite() && final(self).seen().len() <= final(self).window_size(),
            old(self).seen().contains(nonce) ==> (r matches Err(ShphError::Protocol(m)) && m@
                == "nonce replay detected"@),
            old(self).seen().contains(nonce) ==> final(self).seen() == old(self).seen(),
            !old(self).seen().contains(nonce) ==> final(self).seen() == replay_after(
                old(self).seen(),
                old(self).window_size(),
                nonce,
            ),
            !old(self).seen().contains(nonce) ==> (match r {
                Ok(p) => ciphertext@ == chacha_seal_spec(old(self).key_spec(), nonce_bytes(nonce), p@),
                Err(e) => e is Crypto,
            }),
            forall|p: Seq<u8>|
                #![trigger chacha_seal_spec(old(self).key_spec(), nonce_bytes(nonce), p)]
                !old(self).seen().contains(nonce) && aead_len_ok(p.len()) && ciphertext@
                    == chacha_seal_spec(old(self).key_spec(), nonce_bytes(nonce), p) ==> (r is Ok
                    && r->Ok_0@ == p),
    {
        if !self.replay_window.check_and_insert(nonce) {
            return Err(ShphError::Protocol(msg("nonce replay detected")));
        }
        let nonce_vec = nonce_for(nonce);
        match chacha_open(&self.key, nonce_vec.as_slice(), ciphertext) {
            Some(p) => Ok(p),
            None => Err(ShphError::Crypto(msg("aead::Error"))),
        }
    }
}

/// What the replay window holds after accepting a fresh nonce: the nonce is
/// added, and the window is emptied when that makes it exceed its size.
pub open spec fn replay_after(seen: Set<u64>, size: nat, nonce: u64) -> Set<u64> {
    if seen.insert(nonce).len() > size {
        Set::empty()
    } else {
        seen.insert(nonce)
    }
}

/// Replay window for inbound messages.
pub struct ReplayWindow {
    window: HashSet<u64>,
    size: usize,
}

impl ReplayWindow {
    /// The nonces the window remembers.
    pub closed spec fn seen(&self) -> Set<u64> {
        self.window@
    }

    /// The size beyond which the window is emptied.
    pub closed spec fn capacity(&self) -> nat {
        self.size as nat
    }

    #[verifier::type_invariant]
    spec fn inv(&self) -> bool {
        self.window@.finite() && self.window@.len() <= self.size
    }

    /// An empty window of the given size.
    pub fn new(size: usize) -> (w: Self)
        ensures
            w.seen() == Set::<u64>::empty(),
            w.capacity() == size,
    {
        ReplayWindow { window: HashSet::new(), size }
    }

    /// Returns `false` for a nonce the window holds and leaves the window
    /// unchanged; otherwise records the nonce, empties the window when it
    /// then holds more than `size` nonces, and returns `true`.
    pub fn check_and_insert(&mut self, nonce: u64) -> (fresh: bool)
        ensures
            fresh == !old(self).seen().contains(nonce),
            old(self).seen().finite(),
            old(self).seen().len() <= old(self).capacity(),
            final(self).capacity() == old(self).capacity(),
            fresh ==> final(self).seen() == replay_after(old(self).seen(), old(self).capacity(), nonce),
            !fresh ==> final(self).seen() == old(self).seen(),
            final(self).seen().finite(),
            final(self).seen().len() <= final(self).capacity(),
    {
        proof {
            use_type_invariant(&*self);
        }
        if self.window.contains(&nonce) {
            return false;
        }
        let mut window: HashSet<u64> = HashSet::new();
        std::mem::swap(&mut window, &mut self.window);
        window.insert(nonce);
        if window.len() > self.size {
            window.clear();
        }
        self.window = window;
        true
    }
}

/// A nonce that the window accepts is refused when presented again at once,
/// unless accepting it made the window exceed its size and empty itself.
pub proof fn lemma_replay_refused_after_accept(seen: Set<u64>, size: nat, nonce: u64)
    requires
        seen.finite(),
        !seen.contains(nonce),
        seen.len() < size,
    ensures
        replay_after(seen, size, nonce).contains(nonce),
{
}

} // verus!
