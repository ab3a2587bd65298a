//! The decisions of the handshake loops: which TCP connections may send a
//! hello, when a cookie challenge comes first, how many QUIC attempts a
//! client makes, and which error a loop reports when it gives up.

use vstd::prelude::*;

use crate::error::{msg, Result, ShphError};
use crate::obfuscation::os_random_bytes;
use crate::rate_limit::{rate_bounded, rate_limit_message, rate_step, PeerRateLimiter, COOKIE_CHALLENGE_THRESHOLD};

verus! {

/// Longest a TCP accept or connect loop runs, in seconds.
pub const TCP_HANDSHAKE_DEADLINE_SECS: u64 = 60;

/// Longest QUIC idle timeout, in seconds.
pub const MAX_QUIC_IDLE_TIMEOUT_SECS: u64 = 300;

/// Hello round trips a QUIC client tries.
pub const QUIC_HANDSHAKE_ATTEMPTS: usize = 3;

/// The seconds a TCP handshake loop may run: at least one, at most
/// `TCP_HANDSHAKE_DEADLINE_SECS`.
pub fn tcp_handshake_deadline_secs(timeout_secs: u64) -> (s: u64)
    ensures
        s == if timeout_secs < 1 { 1 } else if timeout_secs > TCP_HANDSHAKE_DEADLINE_SECS {
            TCP_HANDSHAKE_DEADLINE_SECS
        } else {
            timeout_secs
        },
{
    if timeout_secs < 1 {
        1
    } else if timeout_secs > TCP_HANDSHAKE_DEADLINE_SECS {
        TCP_HANDSHAKE_DEADLINE_SECS
    } else {
        timeout_secs
    }
}

/// The seconds a QUIC handshake waits: at least one, at most
/// `MAX_QUIC_IDLE_TIMEOUT_SECS`.
pub fn bounded_quic_timeout_secs(timeout_secs: u64) -> (s: u64)
    ensures
        s == if timeout_secs < 1 { 1 } else if timeout_secs > MAX_QUIC_IDLE_TIMEOUT_SECS {
            MAX_QUIC_IDLE_TIMEOUT_SECS
        } else {
            timeout_secs
        },
{
    if timeout_secs < 1 {
        1
    } else if timeout_secs > MAX_QUIC_IDLE_TIMEOUT_SECS {
        MAX_QUIC_IDLE_TIMEOUT_SECS
    } else {
        timeout_secs
    }
}

/// Whether a failure to read a hello datagram ends the QUIC server loop: a
/// timeout or a malformed datagram only skips to the next one.
pub fn quic_read_error_is_fatal(e: &ShphError) -> (fatal: bool)
    ensures
        fatal == !(e is Timeout || e is Protocol),
{
    match e {
        ShphError::Timeout => false,
        ShphError::Protocol(_) => false,
        _ => true,
    }
}

/// The error a loop reports when it gives up: the last one it met, or a
/// timeout when it met none.
pub open spec fn give_up_error(last: Option<ShphError>) -> ShphError {
    match last {
        Some(e) => e,
        None => ShphError::Timeout,
    }
}

/// The refusal remembered for a cookie answer that does not verify.
pub open spec fn is_cookie_refusal(e: ShphError) -> bool {
    e matches ShphError::Auth(m) && m@ == "invalid or expired pre-authentication cookie"@
}

/// What the responder's TCP accept loop knows across connections: the
/// per-peer connect history, whether its profile adds a post-quantum
/// step, and the last per-connection error.
#[derive(Debug)]
pub struct TcpAcceptState {
    limiter: PeerRateLimiter,
    uses_pqc: bool,
    last_err: Option<ShphError>,
}

impl TcpAcceptState {
    /// The recent connect times of each known peer.
    pub closed spec fn recent(&self) -> Map<Seq<char>, Seq<u64>> {
        self.limiter.recent()
    }

    /// Whether the handshake profile adds a post-quantum step.
    pub closed spec fn pqc(&self) -> bool {
        self.uses_pqc
    }

    /// The last per-connection error.
    pub closed spec fn last_error(&self) -> Option<ShphError> {
        self.last_err
    }

    /// A loop that has seen no connection yet.
    pub fn new(uses_pqc: bool) -> (s: Self)
        ensures
            s.recent() == Map::<Seq<char>, Seq<u64>>::empty(),
            s.pqc() == uses_pqc,
            s.last_error() is None,
    {
        TcpAcceptState { limiter: PeerRateLimiter::new(), uses_pqc, last_err: None }
    }

    /// A connection from `peer` arrived at `now` (nanoseconds): within the
    /// peer's rate limit it goes on to send its hello; otherwise it is
    /// dropped before any handshake work and the refusal is remembered.
    pub fn connection_arrived(&mut self, peer: &str, now: u64) -> (admitted: bool)
        ensures
            rate_step(old(self).recent(), peer@, now, admitted, final(self).recent()),
            rate_bounded(final(self).recent()),
            final(self).pqc() == old(self).pqc(),
            admitted ==> final(self).last_error() == old(self).last_error(),
            !admitted ==> (final(self).last_error() matches Some(ShphError::Transport(t)) && t@ == rate_limit_message(
                peer@,
            )),
    {
        match self.limiter.check_and_record(peer, now) {
            Ok(()) => true,
            Err(e) => {
                self.last_err = Some(e);
                false
            },
        }
    }

    /// After `peer`'s hello: whether a cookie challenge must be answered
    /// before the hello is, because the peer connected often recently.
    pub fn requires_cookie(&self, peer: &str) -> (challenge: bool)
        ensures
            challenge == (self.recent().contains_key(peer@) && self.recent()[peer@].len()
                >= COOKIE_CHALLENGE_THRESHOLD),
    {
        self.limiter.requires_cookie(peer)
    }

    /// The answer to the cookie challenge was checked: a valid one lets the
    /// hello be answered; an invalid one drops the connection and is
    /// remembered as an authentication failure.
    pub fn cookie_checked(&mut self, valid: bool) -> (proceed: bool)
        ensures
            proceed == valid,
            final(self).recent() == old(self).recent(),
            final(self).pqc() == old(self).pqc(),
            valid ==> final(self).last_error() == old(self).last_error(),
            !valid ==> (final(self).last_error() matches Some(e) && is_cookie_refusal(e)),
    {
        if !valid {
            self.last_err = Some(ShphError::Auth(msg("invalid or expired pre-authentication cookie")));
        }
        valid
    }

    /// After the hello was answered: whether the initiator's post-quantum
    /// ciphertext is read before the session is derived.
    pub fn reads_pq_ciphertext(&self) -> (read: bool)
        ensures
            read == self.pqc(),
    {
        self.uses_pqc
    }

    /// A connection failed (a read, a write, a signature or the key
    /// derivation): it is dropped, the loop goes on, and the error is
    /// remembered.
    pub fn connection_failed(&mut self, err: ShphError)
        ensures
            final(self).last_error() == Some(err),
            final(self).recent() == old(self).recent(),
            final(self).pqc() == old(self).pqc(),
    {
        self.last_err = Some(err);
    }

    /// The deadline passed without a session.
    pub fn give_up(self) -> (e: ShphError)
        ensures
            e == give_up_error(self.last_error()),
    {
        match self.last_err {
            Some(e) => e,
            None => ShphError::Timeout,
        }
    }
}

/// What a QUIC client's hello loop knows: the attempts left and the last
/// error.
#[derive(Debug)]
pub struct QuicClientAttempts {
    left: usize,
    last_err: Option<ShphError>,
}

impl QuicClientAttempts {
    /// The hello round trips still allowed.
    pub closed spec fn left(&self) -> nat {
        self.left as nat
    }

    /// The last error met.
    pub closed spec fn last_error(&self) -> Option<ShphError> {
        self.last_err
    }

    /// A client that has made no attempt.
    pub fn new() -> (a: Self)
        ensures
            a.left() == QUIC_HANDSHAKE_ATTEMPTS,
            a.last_error() is None,
    {
        QuicClientAttempts { left: QUIC_HANDSHAKE_ATTEMPTS, last_err: None }
    }

    /// Starts another round trip when one is left.
    pub fn start_attempt(&mut self) -> (started: bool)
        ensures
            started == (old(self).left() > 0),
            final(self).left() == if started { old(self).left() - 1 } else { 0 },
            final(self).last_error() == old(self).last_error(),
    {
        if self.left == 0 {
            return false;
        }
        self.left = self.left - 1;
        true
    }

    /// A hello came back: it is used only when it came from the address
    /// the client wrote to; otherwise the mismatch is remembered.
    pub fn reply_received(&mut self, from_expected_address: bool) -> (accepted: bool)
        ensures
            accepted == from_expected_address,
            final(self).left() == old(self).left(),
            from_expected_address ==> final(self).last_error() == old(self).last_error(),
            !from_expected_address ==> (final(self).last_error() matches Some(ShphError::Protocol(m)) && m@
                == "peer address mismatch during handshake"@),
    {
        if !from_expected_address {
            self.last_err = Some(ShphError::Protocol(msg("peer address mismatch during handshake")));
        }
        from_expected_address
    }

    /// A round trip failed; the error is remembered.
    pub fn attempt_failed(&mut self, err: ShphError)
        ensures
            final(self).last_error() == Some(err),
            final(self).left() == old(self).left(),
    {
        self.last_err = Some(err);
    }

    /// No attempt succeeded.
    pub fn give_up(self) -> (e: ShphError)
        ensures
            e == give_up_error(self.last_error()),
    {
        match self.last_err {
            Some(e) => e,
            None => ShphError::Timeout,
        }
    }
}

/// Most whitespace a serialized hello is padded with.
pub const MAX_HANDSHAKE_PADDING_BYTES: usize = 64;

/// `n` ASCII spaces.
pub open spec fn spaces(n: nat) -> Seq<u8> {
    Seq::new(n, |i: int| 32u8)
}

/// Pads a serialized hello with `padding_len` trailing spaces, which JSON
/// ignores; more than `MAX_HANDSHAKE_PADDING_BYTES` is refused.
pub fn pad_hello(payload: Vec<u8>, padding_len: usize) -> (r: Result<Vec<u8>>)
    requires
        padding_len <= MAX_HANDSHAKE_PADDING_BYTES ==> payload@.len() + padding_len <= usize::MAX,
    ensures
        r is Ok <==> padding_len <= MAX_HANDSHAKE_PADDING_BYTES,
        r matches Ok(v) ==> v@ == payload@ + spaces(padding_len as nat),
        r matches Err(e) ==> (e matches ShphError::Protocol(m) && m@ == "handshake padding exceeds size limit"@),
{
    if padding_len > MAX_HANDSHAKE_PADDING_BYTES {
        return Err(ShphError::Protocol(msg("handshake padding exceeds size limit")));
    }
    let ghost start = payload@;
    let mut out = payload;
    let mut i: usize = 0;
    while i < padding_len
        invariant
            i <= padding_len,
            start.len() + padding_len <= usize::MAX,
            out@ == start + spaces(i as nat),
        decreases padding_len - i,
    {
        out.push(32u8);
        i = i + 1;
        assert(out@ =~= start + spaces(i as nat));
    }
    Ok(out)
}

/// Pads a serialized hello with `random % 65` trailing spaces: the amount
/// of padding one random byte chooses.
pub fn pad_hello_with_random_byte(payload: Vec<u8>, random: u8) -> (r: Result<Vec<u8>>)
    requires
        payload@.len() + MAX_HANDSHAKE_PADDING_BYTES <= usize::MAX,
    ensures
        r matches Ok(v) && v@ == payload@ + spaces((random % 65) as nat),
{
    let padding_len = (random as usize) % (MAX_HANDSHAKE_PADDING_BYTES + 1);
    pad_hello(payload, padding_len)
}

/// Pads a serialized hello with a random amount of whitespace, between none
/// and `MAX_HANDSHAKE_PADDING_BYTES`, drawn from one operating-system random
/// byte.
pub fn pad_hello_randomly(payload: Vec<u8>) -> (r: Result<Vec<u8>>)
    requires
        payload@.len() + MAX_HANDSHAKE_PADDING_BYTES <= usize::MAX,
    ensures
        r matches Ok(v) ==> exists|k: nat| k <= MAX_HANDSHAKE_PADDING_BYTES && v@ == payload@ + #[trigger] spaces(k),
        r matches Err(e) ==> (e matches ShphError::Crypto(m) && m@ == "OS randomness unavailable"@),
{
    let random = match os_random_bytes(1) {
        Some(b) => b,
        None => return Err(ShphError::Crypto(msg("OS randomness unavailable"))),
    };
    pad_hello_with_random_byte(payload, random[0])
}

} // verus!
