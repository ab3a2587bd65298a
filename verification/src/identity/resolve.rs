//! Provider-independent resolution of identity records.
//!
//! Providers are untrusted: their answers are bounded, every candidate is
//! verified, the highest sequence wins only when it is unambiguous, and the
//! resolver refuses rollback and unanchored updates against the records it
//! accepted before.

use vstd::prelude::*;

use crate::error::str_eq;
use super::canonical::record_hash_spec;
use super::record::record_ok;
use super::rules::descriptor_ok;
use super::types::{
    invalid, Hash32, opt_hash_view, same_opt_hash, DiscoveryPluginDescriptor, IdentityError, IdentityId, IdentityRecord, PublishReceipt, RecordHash,
    Resolution, Result, VerificationPolicy, MAX_CLOCK_SKEW_SECS, MAX_DISCOVERY_PROVIDERS, MAX_PROVIDER_RECORDS,
    MAX_TOTAL_CANDIDATES, DISCOVERY_PLUGIN_API_VERSION,
};
use super::verify::{lemma_verified_record_ok, verify_outcome};

verus! {

/// A discovery mechanism that publishes and fetches identity records. Its
/// answers are untrusted input to [`DiscoveryResolver`].
pub trait DiscoveryProvider {
    /// The provider's plugin id.
    fn provider_id(&self) -> &str;

    /// The provider's descriptor. By default, the minimal descriptor of the
    /// provider's id: current API version, kind `unknown`, no capabilities.
    fn descriptor(&self) -> (d: DiscoveryPluginDescriptor)
        default_ensures
            d.api_version == DISCOVERY_PLUGIN_API_VERSION,
            d.provider_kind@ == "unknown"@,
            d.capabilities@.len() == 0,
    {
        DiscoveryPluginDescriptor::minimal(self.provider_id())
    }

    /// Publishes a record.
    fn publish(&self, record: &IdentityRecord) -> Result<PublishReceipt>;

    /// Fetches the records a provider holds for a subject.
    fn fetch(&self, subject: &IdentityId) -> Result<Vec<IdentityRecord>>;
}

/// What one provider answered: its id and descriptor, and the records it
/// fetched, `None` when the fetch failed.
pub struct ProviderAnswer {
    pub provider_id: String,
    pub descriptor: DiscoveryPluginDescriptor,
    pub records: Option<Vec<IdentityRecord>>,
}

/// The records an answer contributes, given how many candidates came
/// before it; `None` when the provider counts as failed.
pub open spec fn answer_records(a: Option<ProviderAnswer>, so_far: nat) -> Option<Seq<IdentityRecord>> {
    match a {
        None => None,
        Some(x) => if descriptor_ok(x.descriptor) && x.descriptor.plugin_id@ == x.provider_id@ && x.records is Some
            && x.records->0@.len() <= MAX_PROVIDER_RECORDS && so_far + x.records->0@.len() <= MAX_TOTAL_CANDIDATES {
            Some(x.records->0@)
        } else {
            None
        },
    }
}

/// The candidates gathered from the answers in order, and the number of
/// providers that failed. `None` stands for a provider whose id or
/// descriptor could not be obtained.
pub open spec fn gather(answers: Seq<Option<ProviderAnswer>>) -> (Seq<IdentityRecord>, nat)
    decreases answers.len(),
{
    if answers.len() == 0 {
        (Seq::empty(), 0)
    } else {
        let prev = gather(answers.drop_last());
        match answer_records(answers.last(), prev.0.len()) {
            Some(rs) => (prev.0 + rs, prev.1),
            None => (prev.0, prev.1 + 1),
        }
    }
}

/// A candidate about the subject that verifies under the policy.
pub open spec fn candidate_ok(r: IdentityRecord, subject: IdentityId, p: VerificationPolicy) -> bool {
    r.subject@ == subject@ && verify_outcome(r, p) is None
}

/// How many candidates are acceptable.
pub open spec fn valid_count(c: Seq<IdentityRecord>, subject: IdentityId, p: VerificationPolicy) -> nat
    decreases c.len(),
{
    if c.len() == 0 {
        0
    } else if candidate_ok(c.last(), subject, p) {
        valid_count(c.drop_last(), subject, p) + 1
    } else {
        valid_count(c.drop_last(), subject, p)
    }
}

/// The highest sequence number among the acceptable candidates (0 when
/// there is none).
pub open spec fn top_sequence(c: Seq<IdentityRecord>, subject: IdentityId, p: VerificationPolicy) -> u64
    decreases c.len(),
{
    if c.len() == 0 {
        0
    } else if candidate_ok(c.last(), subject, p) && (valid_count(c.drop_last(), subject, p) == 0
        || c.last().sequence > top_sequence(c.drop_last(), subject, p)) {
        c.last().sequence
    } else {
        top_sequence(c.drop_last(), subject, p)
    }
}

/// Candidate `i` is acceptable and carries the top sequence.
pub open spec fn is_top(c: Seq<IdentityRecord>, subject: IdentityId, p: VerificationPolicy, i: int) -> bool {
    0 <= i < c.len() && candidate_ok(c[i], subject, p) && c[i].sequence == top_sequence(c, subject, p)
}

/// The first candidate that carries the top sequence.
pub open spec fn top_index(c: Seq<IdentityRecord>, subject: IdentityId, p: VerificationPolicy) -> int {
    choose|i: int| is_top(c, subject, p, i) && forall|j: int| 0 <= j < i ==> !#[trigger] is_top(c, subject, p, j)
}

/// Two candidates at the top sequence have different record hashes.
pub open spec fn top_conflict(c: Seq<IdentityRecord>, subject: IdentityId, p: VerificationPolicy) -> bool {
    exists|j: int| #[trigger] is_top(c, subject, p, j)
        && record_hash_spec(c[j]) != record_hash_spec(c[top_index(c, subject, p)])
}

/// `a + 1`, saturating at `u64::MAX`.
pub open spec fn sat_inc(a: u64) -> u64 {
    if a == u64::MAX { a } else { (a + 1) as u64 }
}

/// The record a resolver accepted for a subject.
#[derive(Debug, Clone, Copy)]
pub struct AcceptedRecord {
    pub subject: IdentityId,
    pub sequence: u64,
    pub hash: RecordHash,
}

/// The accepted records as a map from subject to sequence and hash.
pub open spec fn accepted_map(v: Seq<AcceptedRecord>) -> Map<Seq<u8>, (u64, Seq<u8>)>
    decreases v.len(),
{
    if v.len() == 0 {
        Map::empty()
    } else {
        accepted_map(v.drop_last()).insert(v.last().subject@, (v.last().sequence, v.last().hash@))
    }
}

/// No subject is accepted twice.
pub open spec fn distinct_subjects(v: Seq<AcceptedRecord>) -> bool {
    forall|i: int, j: int| 0 <= i < j < v.len() ==> (#[trigger] v[i]).subject@ != (#[trigger] v[j]).subject@
}

proof fn lemma_accepted_absent(v: Seq<AcceptedRecord>, key: Seq<u8>)
    requires
        forall|i: int| 0 <= i < v.len() ==> (#[trigger] v[i]).subject@ != key,
    ensures
        !accepted_map(v).contains_key(key),
    decreases v.len(),
{
    if v.len() > 0 {
        lemma_accepted_absent(v.drop_last(), key);
    }
}

proof fn lemma_accepted_lookup(v: Seq<AcceptedRecord>, k: int)
    requires
        distinct_subjects(v),
        0 <= k < v.len(),
    ensures
        accepted_map(v).contains_key(v[k].subject@),
        accepted_map(v)[v[k].subject@] == (v[k].sequence, v[k].hash@),
    decreases v.len(),
{
    if k < v.len() - 1 {
        lemma_accepted_lookup(v.drop_last(), k);
        assert(v.last().subject@ != v[k].subject@);
    }
}

proof fn lemma_accepted_update(v: Seq<AcceptedRecord>, k: int, e: AcceptedRecord)
    requires
        distinct_subjects(v),
        0 <= k < v.len(),
        v[k].subject@ == e.subject@,
    ensures
        distinct_subjects(v.update(k, e)),
        accepted_map(v.update(k, e)) == accepted_map(v).insert(e.subject@, (e.sequence, e.hash@)),
    decreases v.len(),
{
    if k == v.len() - 1 {
        assert(v.update(k, e).drop_last() =~= v.drop_last());
        assert(accepted_map(v.update(k, e)) =~= accepted_map(v).insert(e.subject@, (e.sequence, e.hash@)));
    } else {
        lemma_accepted_update(v.drop_last(), k, e);
        assert(v.update(k, e).drop_last() =~= v.drop_last().update(k, e));
        assert(v.last().subject@ != e.subject@);
        assert(accepted_map(v.update(k, e)) =~= accepted_map(v).insert(e.subject@, (e.sequence, e.hash@)));
    }
}

/// How a resolution ends.
#[derive(Debug, Clone, Copy, PartialEq, Eq)]
pub enum ResolveVerdict {
    TooManyProviders,
    ClockSkewTooLarge,
    AllProvidersFailed,
    NotFound,
    Conflict(u64),
    Replay,
    Repeated,
    Accepted,
}

/// The verdict of resolving `subject` from `answers` against what was
/// accepted before.
pub open spec fn resolve_verdict(
    acc: Map<Seq<u8>, (u64, Seq<u8>)>,
    subject: IdentityId,
    answers: Seq<Option<ProviderAnswer>>,
    p: VerificationPolicy,
) -> ResolveVerdict {
    let c = gather(answers).0;
    let failures = gather(answers).1;
    let m = top_sequence(c, subject, p);
    let top = c[top_index(c, subject, p)];
    let h = record_hash_spec(top);
    if answers.len() > MAX_DISCOVERY_PROVIDERS {
        ResolveVerdict::TooManyProviders
    } else if p.clock_skew_secs > MAX_CLOCK_SKEW_SECS {
        ResolveVerdict::ClockSkewTooLarge
    } else if c.len() == 0 {
        if answers.len() > 0 && failures == answers.len() {
            ResolveVerdict::AllProvidersFailed
        } else {
            ResolveVerdict::NotFound
        }
    } else if valid_count(c, subject, p) == 0 {
        ResolveVerdict::NotFound
    } else if top_conflict(c, subject, p) {
        ResolveVerdict::Conflict(m)
    } else if acc.contains_key(subject@) {
        let prev = acc[subject@];
        if m < prev.0 {
            ResolveVerdict::Replay
        } else if m == prev.0 {
            if h == prev.1 {
                ResolveVerdict::Repeated
            } else {
                ResolveVerdict::Conflict(m)
            }
        } else if m != sat_inc(prev.0) || opt_hash_view(top.previous_record) != Some(prev.1) {
            ResolveVerdict::Replay
        } else {
            ResolveVerdict::Accepted
        }
    } else if m != 1 {
        ResolveVerdict::Replay
    } else {
        ResolveVerdict::Accepted
    }
}

proof fn lemma_top_is_max(c: Seq<IdentityRecord>, subject: IdentityId, p: VerificationPolicy, i: int)
    requires
        0 <= i < c.len(),
        candidate_ok(c[i], subject, p),
        forall|k: int| 0 <= k < c.len() && candidate_ok(#[trigger] c[k], subject, p) ==> c[k].sequence <= c[i].sequence,
    ensures
        valid_count(c, subject, p) > 0,
        top_sequence(c, subject, p) == c[i].sequence,
        is_top(c, subject, p, i),
        is_top(c, subject, p, top_index(c, subject, p)),
{
    if valid_count(c, subject, p) == 0 {
        lemma_none_valid(c, subject, p);
        assert(!candidate_ok(c[i], subject, p));
    }
    lemma_top_exists(c, subject, p);
    lemma_top_bound(c, subject, p);
    let t = top_index(c, subject, p);
    assert(candidate_ok(c[t], subject, p));
}

/// A successful resolution returns a record for the subject that verifies
/// under the policy, is one of the candidates the providers returned, and
/// has the highest sequence among the valid candidates.
pub proof fn lemma_resolved_record_is_valid_top(
    acc: Map<Seq<u8>, (u64, Seq<u8>)>,
    subject: IdentityId,
    answers: Seq<Option<ProviderAnswer>>,
    p: VerificationPolicy,
)
    requires
        resolve_verdict(acc, subject, answers, p) is Accepted || resolve_verdict(acc, subject, answers, p) is Repeated,
    ensures
        resolved_record(subject, answers, p).subject@ == subject@,
        verify_outcome(resolved_record(subject, answers, p), p) is None,
        gather(answers).0.contains(resolved_record(subject, answers, p)),
        forall|k: int| 0 <= k < gather(answers).0.len() && candidate_ok(#[trigger] gather(answers).0[k], subject, p)
            ==> gather(answers).0[k].sequence <= resolved_record(subject, answers, p).sequence,
{
    let c = gather(answers).0;
    assert(valid_count(c, subject, p) > 0);
    lemma_top_exists(c, subject, p);
    lemma_top_bound(c, subject, p);
    let t = top_index(c, subject, p);
    assert(c[t] == resolved_record(subject, answers, p));
    assert(c.contains(c[t]));
}

/// Two valid candidates at the highest sequence with different record
/// hashes are a conflict: resolution is refused with a conflict at that
/// sequence, whatever was accepted before.
#[verifier::rlimit(50)]
pub proof fn lemma_top_conflict_refused(
    acc: Map<Seq<u8>, (u64, Seq<u8>)>,
    subject: IdentityId,
    answers: Seq<Option<ProviderAnswer>>,
    p: VerificationPolicy,
    i: int,
    j: int,
)
    requires
        answers.len() <= MAX_DISCOVERY_PROVIDERS,
        p.clock_skew_secs <= MAX_CLOCK_SKEW_SECS,
        0 <= i < gather(answers).0.len(),
        0 <= j < gather(answers).0.len(),
        candidate_ok(gather(answers).0[i], subject, p),
        candidate_ok(gather(answers).0[j], subject, p),
        gather(answers).0[i].sequence == gather(answers).0[j].sequence,
        record_hash_spec(gather(answers).0[i]) != record_hash_spec(gather(answers).0[j]),
        forall|k: int| 0 <= k < gather(answers).0.len() && candidate_ok(#[trigger] gather(answers).0[k], subject, p)
            ==> gather(answers).0[k].sequence <= gather(answers).0[i].sequence,
    ensures
        resolve_verdict(acc, subject, answers, p) == ResolveVerdict::Conflict(gather(answers).0[i].sequence),
{
    let c = gather(answers).0;
    lemma_top_is_max(c, subject, p, i);
    let t = top_index(c, subject, p);
    assert(is_top(c, subject, p, j));
    if record_hash_spec(c[i]) != record_hash_spec(c[t]) {
        assert(top_conflict(c, subject, p));
    } else {
        assert(record_hash_spec(c[j]) != record_hash_spec(c[t]));
        assert(top_conflict(c, subject, p));
    }
}

/// A valid candidate at the highest sequence that repeats the sequence
/// accepted before with a different record hash is a conflict: resolution
/// is refused with a conflict at that sequence.
#[verifier::rlimit(50)]
pub proof fn lemma_accepted_sequence_conflict_refused(
    acc: Map<Seq<u8>, (u64, Seq<u8>)>,
    subject: IdentityId,
    answers: Seq<Option<ProviderAnswer>>,
    p: VerificationPolicy,
    i: int,
)
    requires
        answers.len() <= MAX_DISCOVERY_PROVIDERS,
        p.clock_skew_secs <= MAX_CLOCK_SKEW_SECS,
        0 <= i < gather(answers).0.len(),
        candidate_ok(gather(answers).0[i], subject, p),
        forall|k: int| 0 <= k < gather(answers).0.len() && candidate_ok(#[trigger] gather(answers).0[k], subject, p)
            ==> gather(answers).0[k].sequence <= gather(answers).0[i].sequence,
        acc.contains_key(subject@),
        acc[subject@].0 == gather(answers).0[i].sequence,
        acc[subject@].1 != record_hash_spec(gather(answers).0[i]),
    ensures
        resolve_verdict(acc, subject, answers, p) == ResolveVerdict::Conflict(gather(answers).0[i].sequence),
{
    let c = gather(answers).0;
    lemma_top_is_max(c, subject, p, i);
    let t = top_index(c, subject, p);
    if !top_conflict(c, subject, p) {
        assert(!(is_top(c, subject, p, i) && record_hash_spec(c[i]) != record_hash_spec(c[t])));
    }
}

/// The record a successful resolution returns.
pub open spec fn resolved_record(subject: IdentityId, answers: Seq<Option<ProviderAnswer>>, p: VerificationPolicy) -> IdentityRecord {
    let c = gather(answers).0;
    c[top_index(c, subject, p)]
}

/// Continuity of accepted records: a subject is first accepted at sequence
/// 1, and every later acceptance is the next sequence and names the hash
/// accepted before as its predecessor. An older sequence is refused as a
/// replay.
pub proof fn lemma_resolution_continuity(
    acc: Map<Seq<u8>, (u64, Seq<u8>)>,
    subject: IdentityId,
    answers: Seq<Option<ProviderAnswer>>,
    p: VerificationPolicy,
)
    ensures
        resolve_verdict(acc, subject, answers, p) is Accepted ==> {
            let r = resolved_record(subject, answers, p);
            if acc.contains_key(subject@) {
                r.sequence == acc[subject@].0 + 1 && opt_hash_view(r.previous_record) == Some(acc[subject@].1)
            } else {
                r.sequence == 1
            }
        },
        (resolve_verdict(acc, subject, answers, p) is Accepted || resolve_verdict(acc, subject, answers, p) is Repeated)
            && acc.contains_key(subject@) ==> resolved_record(subject, answers, p).sequence >= acc[subject@].0,
{
    let c = gather(answers).0;
    if valid_count(c, subject, p) > 0 {
        lemma_top_exists(c, subject, p);
    }
}

/// When some candidate is acceptable, the first top candidate exists and
/// carries the top sequence.
proof fn lemma_top_exists(c: Seq<IdentityRecord>, subject: IdentityId, p: VerificationPolicy)
    requires
        valid_count(c, subject, p) > 0,
    ensures
        is_top(c, subject, p, top_index(c, subject, p)),
        forall|j: int| 0 <= j < top_index(c, subject, p) ==> !#[trigger] is_top(c, subject, p, j),
        c[top_index(c, subject, p)].sequence == top_sequence(c, subject, p),
{
    let w = lemma_some_top(c, subject, p);
    lemma_first_top(c, subject, p, w);
}

/// Some candidate carries the top sequence.
proof fn lemma_some_top(c: Seq<IdentityRecord>, subject: IdentityId, p: VerificationPolicy) -> (w: int)
    requires
        valid_count(c, subject, p) > 0,
    ensures
        is_top(c, subject, p, w),
    decreases c.len(),
{
    let d = c.drop_last();
    let n = c.len() - 1;
    if candidate_ok(c.last(), subject, p) && (valid_count(d, subject, p) == 0 || c.last().sequence > top_sequence(d, subject, p)) {
        n
    } else {
        let w = lemma_some_top(d, subject, p);
        assert(c[w] == d[w]);
        w
    }
}

/// From any top candidate, the least one is chosen.
proof fn lemma_first_top(c: Seq<IdentityRecord>, subject: IdentityId, p: VerificationPolicy, w: int)
    requires
        is_top(c, subject, p, w),
    ensures
        is_top(c, subject, p, top_index(c, subject, p)),
        forall|j: int| 0 <= j < top_index(c, subject, p) ==> !#[trigger] is_top(c, subject, p, j),
    decreases w,
{
    if exists|j: int| 0 <= j < w && #[trigger] is_top(c, subject, p, j) {
        let j = choose|j: int| 0 <= j < w && #[trigger] is_top(c, subject, p, j);
        lemma_first_top(c, subject, p, j);
    } else {
        assert(is_top(c, subject, p, w) && forall|j: int| 0 <= j < w ==> !#[trigger] is_top(c, subject, p, j));
    }
}

/// With no acceptable candidate, none is acceptable.
proof fn lemma_none_valid(c: Seq<IdentityRecord>, subject: IdentityId, p: VerificationPolicy)
    requires
        valid_count(c, subject, p) == 0,
    ensures
        forall|k: int| 0 <= k < c.len() ==> !candidate_ok(#[trigger] c[k], subject, p),
    decreases c.len(),
{
    if c.len() > 0 {
        let d = c.drop_last();
        lemma_none_valid(d, subject, p);
        assert forall|k: int| 0 <= k < c.len() implies !candidate_ok(#[trigger] c[k], subject, p) by {
            if k < c.len() - 1 {
                assert(c[k] == d[k]);
            }
        }
    }
}

/// Every acceptable candidate is at most the top sequence.
proof fn lemma_top_bound(c: Seq<IdentityRecord>, subject: IdentityId, p: VerificationPolicy)
    ensures
        forall|k: int| 0 <= k < c.len() && candidate_ok(#[trigger] c[k], subject, p) ==> c[k].sequence <= top_sequence(c, subject, p),
    decreases c.len(),
{
    if c.len() > 0 {
        let d = c.drop_last();
        lemma_top_bound(d, subject, p);
        if valid_count(d, subject, p) == 0 {
            lemma_none_valid(d, subject, p);
        }
        assert forall|k: int| 0 <= k < c.len() && candidate_ok(#[trigger] c[k], subject, p) implies c[k].sequence <= top_sequence(c, subject, p) by {
            if k < c.len() - 1 {
                assert(c[k] == d[k]);
            }
        }
    }
}

/// Whether a provider may be asked for records: its descriptor is valid
/// and names the provider itself.
pub fn descriptor_acceptable(provider_id: &str, descriptor: &DiscoveryPluginDescriptor) -> (b: bool)
    ensures
        b == (descriptor_ok(*descriptor) && descriptor.plugin_id@ == provider_id@),
{
    descriptor.validate().is_ok() && str_eq(descriptor.plugin_id.as_str(), provider_id)
}

/// The candidates of the answers in order, and how many providers failed.
fn gather_candidates(answers: Vec<Option<ProviderAnswer>>) -> (res: (Vec<IdentityRecord>, usize))
    requires
        answers@.len() <= MAX_DISCOVERY_PROVIDERS,
    ensures
        res.0@ == gather(answers@).0,
        res.1 == gather(answers@).1,
{
    let ghost all = answers@;
    let n = answers.len();
    let mut rest = answers;
    let mut cands: Vec<IdentityRecord> = Vec::new();
    let mut failures: usize = 0;
    let mut i: usize = 0;
    while i < n
        invariant
            n == all.len(),
            n <= MAX_DISCOVERY_PROVIDERS,
            i <= n,
            rest@ == all.subrange(i as int, n as int),
            cands@ == gather(all.take(i as int)).0,
            failures == gather(all.take(i as int)).1,
            failures <= i,
            cands@.len() <= MAX_TOTAL_CANDIDATES,
        decreases n - i,
    {
        proof {
            assert(all.take(i + 1).drop_last() =~= all.take(i as int));
            assert(all.take(i + 1).last() == all[i as int]);
        }
        let a = rest.remove(0);
        match a {
            None => {
                failures = failures + 1;
            },
            Some(x) => {
                let ok = descriptor_acceptable(x.provider_id.as_str(), &x.descriptor);
                if !ok {
                    failures = failures + 1;
                } else {
                    match x.records {
                        None => {
                            failures = failures + 1;
                        },
                        Some(mut recs) => {
                            if recs.len() > MAX_PROVIDER_RECORDS || cands.len() + recs.len() > MAX_TOTAL_CANDIDATES {
                                failures = failures + 1;
                            } else {
                                cands.append(&mut recs);
                            }
                        },
                    }
                }
            },
        }
        i = i + 1;
    }
    proof {
        assert(all.take(n as int) =~= all);
    }
    (cands, failures)
}

/// What the scan knows after a prefix `c` of the candidates: the first top
/// candidate with its sequence and hash, and whether another top candidate
/// has a different hash.
spec fn scan_ok(
    c: Seq<IdentityRecord>,
    subject: IdentityId,
    p: VerificationPolicy,
    best: Option<(usize, u64, RecordHash)>,
    conflict: bool,
) -> bool {
    &&& (best is None <==> valid_count(c, subject, p) == 0)
    &&& (best matches Some(t) ==> {
        &&& t.0 < c.len()
        &&& is_top(c, subject, p, t.0 as int)
        &&& (forall|k: int| 0 <= k < t.0 ==> !#[trigger] is_top(c, subject, p, k))
        &&& t.1 == top_sequence(c, subject, p)
        &&& t.2@ == record_hash_spec(c[t.0 as int])
        &&& conflict == exists|k: int| #[trigger] is_top(c, subject, p, k) && record_hash_spec(c[k]) != t.2@
    })
}

/// One step of the scan over candidate `e` at index `j`.
spec fn scan_next(
    best: Option<(usize, u64, RecordHash)>,
    conflict: bool,
    j: usize,
    e: IdentityRecord,
    ok: bool,
    h: RecordHash,
) -> (Option<(usize, u64, RecordHash)>, bool) {
    if !ok {
        (best, conflict)
    } else {
        match best {
            None => (Some((j, e.sequence, h)), false),
            Some(t) => if e.sequence > t.1 {
                (Some((j, e.sequence, h)), false)
            } else if e.sequence == t.1 {
                (best, conflict || h@ != t.2@)
            } else {
                (best, conflict)
            },
        }
    }
}

proof fn lemma_scan_unacceptable(
    c: Seq<IdentityRecord>,
    e: IdentityRecord,
    subject: IdentityId,
    p: VerificationPolicy,
    best: Option<(usize, u64, RecordHash)>,
    conflict: bool,
)
    requires
        scan_ok(c, subject, p, best, conflict),
        !candidate_ok(e, subject, p),
    ensures
        scan_ok(c.push(e), subject, p, best, conflict),
        valid_count(c.push(e), subject, p) == valid_count(c, subject, p),
{
    let d = c.push(e);
    assert(d.drop_last() =~= c);
    assert forall|k: int| #[trigger] is_top(d, subject, p, k) == is_top(c, subject, p, k) by {
        if 0 <= k < c.len() {
            assert(d[k] == c[k]);
        }
    }
    if let Some(t) = best {
        assert(d[t.0 as int] == c[t.0 as int]);
        if conflict {
            let k = choose|k: int| #[trigger] is_top(c, subject, p, k) && record_hash_spec(c[k]) != t.2@;
            assert(is_top(d, subject, p, k) && record_hash_spec(d[k]) != t.2@);
        } else {
            assert forall|k: int| #[trigger] is_top(d, subject, p, k) implies record_hash_spec(d[k]) == t.2@ by {
                assert(is_top(c, subject, p, k));
                assert(d[k] == c[k]);
            }
        }
    }
}

proof fn lemma_scan_new_top(
    c: Seq<IdentityRecord>,
    e: IdentityRecord,
    subject: IdentityId,
    p: VerificationPolicy,
    best: Option<(usize, u64, RecordHash)>,
    conflict: bool,
    h: RecordHash,
)
    requires
        scan_ok(c, subject, p, best, conflict),
        c.len() <= usize::MAX,
        candidate_ok(e, subject, p),
        h@ == record_hash_spec(e),
        best matches Some(t) ==> e.sequence > t.1,
    ensures
        scan_ok(c.push(e), subject, p, Some((c.len() as usize, e.sequence, h)), false),
        valid_count(c.push(e), subject, p) == valid_count(c, subject, p) + 1,
{
    let d = c.push(e);
    let j = c.len() as int;
    assert(d.drop_last() =~= c);
    lemma_top_bound(c, subject, p);
    if valid_count(c, subject, p) == 0 {
        lemma_none_valid(c, subject, p);
    }
    assert(top_sequence(d, subject, p) == e.sequence);
    assert forall|k: int| 0 <= k < j implies !#[trigger] is_top(d, subject, p, k) by {
        assert(d[k] == c[k]);
    }
    assert(is_top(d, subject, p, j));
    assert forall|k: int| #[trigger] is_top(d, subject, p, k) implies record_hash_spec(d[k]) == h@ by {
        if k < j {
            assert(!is_top(d, subject, p, k));
        }
    }
}

proof fn lemma_scan_same_top(
    c: Seq<IdentityRecord>,
    e: IdentityRecord,
    subject: IdentityId,
    p: VerificationPolicy,
    t: (usize, u64, RecordHash),
    conflict: bool,
    h: RecordHash,
)
    requires
        scan_ok(c, subject, p, Some(t), conflict),
        candidate_ok(e, subject, p),
        h@ == record_hash_spec(e),
        e.sequence == t.1,
    ensures
        scan_ok(c.push(e), subject, p, Some(t), conflict || h@ != t.2@),
        valid_count(c.push(e), subject, p) == valid_count(c, subject, p) + 1,
{
    let d = c.push(e);
    let j = c.len() as int;
    assert(d.drop_last() =~= c);
    assert(top_sequence(d, subject, p) == t.1);
    assert forall|k: int| 0 <= k < j implies #[trigger] is_top(d, subject, p, k) == is_top(c, subject, p, k) by {
        assert(d[k] == c[k]);
    }
    assert(is_top(d, subject, p, j));
    assert(d[t.0 as int] == c[t.0 as int]);
    assert(is_top(d, subject, p, t.0 as int));
    if conflict || h@ != t.2@ {
        if h@ != t.2@ {
            assert(is_top(d, subject, p, j) && record_hash_spec(d[j]) != t.2@);
        } else {
            let k = choose|k: int| #[trigger] is_top(c, subject, p, k) && record_hash_spec(c[k]) != t.2@;
            assert(d[k] == c[k]);
            assert(is_top(d, subject, p, k) && record_hash_spec(d[k]) != t.2@);
        }
    } else {
        assert forall|k: int| #[trigger] is_top(d, subject, p, k) implies record_hash_spec(d[k]) == t.2@ by {
            if k < j {
                assert(is_top(c, subject, p, k));
                assert(d[k] == c[k]);
            }
        }
    }
}

proof fn lemma_scan_lower(
    c: Seq<IdentityRecord>,
    e: IdentityRecord,
    subject: IdentityId,
    p: VerificationPolicy,
    t: (usize, u64, RecordHash),
    conflict: bool,
)
    requires
        scan_ok(c, subject, p, Some(t), conflict),
        candidate_ok(e, subject, p),
        e.sequence < t.1,
    ensures
        scan_ok(c.push(e), subject, p, Some(t), conflict),
        valid_count(c.push(e), subject, p) == valid_count(c, subject, p) + 1,
{
    let d = c.push(e);
    let j = c.len() as int;
    assert(d.drop_last() =~= c);
    assert(top_sequence(d, subject, p) == t.1);
    assert forall|k: int| #[trigger] is_top(d, subject, p, k) == is_top(c, subject, p, k) by {
        if 0 <= k < j {
            assert(d[k] == c[k]);
        }
    }
    assert(d[t.0 as int] == c[t.0 as int]);
    if conflict {
        let k = choose|k: int| #[trigger] is_top(c, subject, p, k) && record_hash_spec(c[k]) != t.2@;
        assert(d[k] == c[k]);
        assert(is_top(d, subject, p, k) && record_hash_spec(d[k]) != t.2@);
    } else {
        assert forall|k: int| #[trigger] is_top(d, subject, p, k) implies record_hash_spec(d[k]) == t.2@ by {
            assert(is_top(c, subject, p, k));
            assert(d[k] == c[k]);
        }
    }
}

/// The scan over the candidates: how many are unacceptable, the first top
/// candidate with its sequence and hash, and whether another top candidate
/// has a different hash.
fn select_top(c: &Vec<IdentityRecord>, subject: &IdentityId, policy: VerificationPolicy) -> (res: (
    usize,
    Option<(usize, u64, RecordHash)>,
    bool,
))
    ensures
        res.0 == c@.len() - valid_count(c@, *subject, policy),
        res.1 is None <==> valid_count(c@, *subject, policy) == 0,
        res.1 matches Some(t) ==> t.0 == top_index(c@, *subject, policy) && t.1 == top_sequence(c@, *subject, policy)
            && t.2@ == record_hash_spec(c@[t.0 as int]) && res.2 == top_conflict(c@, *subject, policy),
{
    let ghost cs = c@;
    let ghost sj = *subject;
    let mut invalid_count: usize = 0;
    let mut best: Option<(usize, u64, RecordHash)> = None;
    let mut conflict = false;
    let mut j: usize = 0;
    proof {
        assert(cs.take(0) =~= Seq::<IdentityRecord>::empty());
    }
    while j < c.len()
        invariant
            cs == c@,
            sj == *subject,
            j <= cs.len(),
            valid_count(cs.take(j as int), sj, policy) <= j,
            invalid_count == j - valid_count(cs.take(j as int), sj, policy),
            scan_ok(cs.take(j as int), sj, policy, best, conflict),
        decreases cs.len() - j,
    {
        let ghost pre = cs.take(j as int);
        proof {
            assert(cs.take(j + 1) =~= pre.push(cs[j as int]));
        }
        let e = &c[j];
        let ok = e.subject.same(subject) && e.verify(policy).is_ok();
        if !ok {
            proof {
                lemma_scan_unacceptable(pre, cs[j as int], sj, policy, best, conflict);
            }
            invalid_count = invalid_count + 1;
        } else {
            proof {
                lemma_verified_record_ok(cs[j as int], policy);
            }
            let h = match e.record_hash() {
                Ok(h) => h,
                Err(_) => {
                    assert(false);
                    Hash32::zero()
                },
            };
            match best {
                None => {
                    proof {
                        lemma_scan_new_top(pre, cs[j as int], sj, policy, best, conflict, h);
                    }
                    best = Some((j, e.sequence, h));
                    conflict = false;
                },
                Some(t) => {
                    if e.sequence > t.1 {
                        proof {
                            lemma_scan_new_top(pre, cs[j as int], sj, policy, best, conflict, h);
                        }
                        best = Some((j, e.sequence, h));
                        conflict = false;
                    } else if e.sequence == t.1 {
                        proof {
                            lemma_scan_same_top(pre, cs[j as int], sj, policy, t, conflict, h);
                        }
                        if !h.same(&t.2) {
                            conflict = true;
                        }
                    } else {
                        proof {
                            lemma_scan_lower(pre, cs[j as int], sj, policy, t, conflict);
                        }
                    }
                },
            }
        }
        j = j + 1;
    }
    proof {
        assert(cs.take(cs.len() as int) =~= cs);
        if let Some(t) = best {
            lemma_first_top(cs, sj, policy, t.0 as int);
            let f = top_index(cs, sj, policy);
            if f < t.0 {
                assert(is_top(cs, sj, policy, f));
            } else if t.0 < f {
                assert(is_top(cs, sj, policy, t.0 as int));
            }
        }
    }
    (invalid_count, best, conflict)
}

/// Resolves identity records from untrusted providers and remembers, per
/// subject, the sequence and hash it accepted.
#[derive(Debug)]
pub struct DiscoveryResolver {
    accepted: Vec<AcceptedRecord>,
}

impl DiscoveryResolver {
    /// What the resolver accepted, per subject.
    pub closed spec fn accepted_spec(&self) -> Map<Seq<u8>, (u64, Seq<u8>)> {
        accepted_map(self.accepted@)
    }

    /// The resolver's internal consistency.
    pub closed spec fn wf(&self) -> bool {
        distinct_subjects(self.accepted@)
    }

    /// A resolver that has accepted nothing.
    pub fn new() -> (r: Self)
        ensures
            r.wf(),
            r.accepted_spec() == Map::<Seq<u8>, (u64, Seq<u8>)>::empty(),
    {
        DiscoveryResolver { accepted: Vec::new() }
    }

    fn lookup(&self, subject: &IdentityId) -> (r: Option<usize>)
        requires
            self.wf(),
        ensures
            r is None ==> !self.accepted_spec().contains_key(subject@),
            r matches Some(k) ==> k < self.accepted@.len() && self.accepted@[k as int].subject@ == subject@
                && self.accepted_spec().contains_key(subject@) && self.accepted_spec()[subject@] == (
                self.accepted@[k as int].sequence,
                self.accepted@[k as int].hash@,
            ),
    {
        let mut i: usize = 0;
        while i < self.accepted.len()
            invariant
                self.wf(),
                i <= self.accepted@.len(),
                forall|j: int| 0 <= j < i ==> (#[trigger] self.accepted@[j]).subject@ != subject@,
            decreases self.accepted@.len() - i,
        {
            if self.accepted[i].subject.same(subject) {
                proof {
                    lemma_accepted_lookup(self.accepted@, i as int);
                }
                return Some(i);
            }
            i = i + 1;
        }
        proof {
            lemma_accepted_absent(self.accepted@, subject@);
        }
        None
    }
}

impl DiscoveryResolver {
    /// Resolve `subject` from what each configured provider answered, in
    /// the order the providers were configured. At most 64 providers are
    /// consulted; a provider whose id or descriptor could not be obtained,
    /// whose descriptor is invalid or names another plugin, whose fetch
    /// failed, or that returned more than 1024 records or would push the
    /// candidates past 4096, counts as failed. Among the candidates that
    /// are about the subject and verify under the policy, the highest
    /// sequence wins when all its records share one hash; the winner must
    /// continue what this resolver accepted before for the subject.
    pub fn resolve_answers(
        &mut self,
        subject: &IdentityId,
        answers: Vec<Option<ProviderAnswer>>,
        policy: VerificationPolicy,
    ) -> (res: Result<Resolution>)
        requires
            old(self).wf(),
        ensures
            final(self).wf(),
            match resolve_verdict(old(self).accepted_spec(), *subject, answers@, policy) {
                ResolveVerdict::TooManyProviders => res matches Err(IdentityError::InvalidRecord(_)),
                ResolveVerdict::ClockSkewTooLarge => res matches Err(IdentityError::InvalidRecord(_)),
                ResolveVerdict::AllProvidersFailed => res matches Err(IdentityError::ProviderUnavailable(_)),
                ResolveVerdict::NotFound => res matches Err(IdentityError::NotFound),
                ResolveVerdict::Conflict(s) => (res matches Err(IdentityError::Conflict { sequence }) && sequence == s),
                ResolveVerdict::Replay => res matches Err(IdentityError::Replay),
                _ => (res matches Ok(r) && r.record == resolved_record(*subject, answers@, policy)
                    && r.record_hash@ == record_hash_spec(r.record) && r.providers_consulted == answers@.len()
                    && r.invalid_candidates == gather(answers@).0.len() - valid_count(
                    gather(answers@).0,
                    *subject,
                    policy,
                )),
            },
            final(self).accepted_spec() == (if resolve_verdict(old(self).accepted_spec(), *subject, answers@, policy) is Accepted {
                old(self).accepted_spec().insert(
                    subject@,
                    (
                        resolved_record(*subject, answers@, policy).sequence,
                        record_hash_spec(resolved_record(*subject, answers@, policy)),
                    ),
                )
            } else {
                old(self).accepted_spec()
            }),
    {
        let ghost acc = self.accepted_spec();
        let ghost all = answers@;
        let n = answers.len();
        if n > MAX_DISCOVERY_PROVIDERS {
            return Err(invalid("resolution requested with more than 64 providers"));
        }
        if policy.clock_skew_secs > MAX_CLOCK_SKEW_SECS {
            return Err(invalid("verification clock skew exceeds the safety limit"));
        }
        let (mut cands, failures) = gather_candidates(answers);
        if cands.len() == 0 {
            if n > 0 && failures == n {
                return Err(IdentityError::ProviderUnavailable(
                    crate::error::msg("all configured discovery providers failed"),
                ));
            }
            return Err(IdentityError::NotFound);
        }
        let (invalid_candidates, best, conflict) = select_top(&cands, subject, policy);
        let (top, sequence, record_hash) = match best {
            None => {
                return Err(IdentityError::NotFound);
            },
            Some(t) => t,
        };
        proof {
            lemma_top_exists(cands@, *subject, policy);
        }
        if conflict {
            return Err(IdentityError::Conflict { sequence });
        }
        let ghost c = cands@;
        let record = cands.swap_remove(top);
        assert(record == resolved_record(*subject, all, policy));
        match self.lookup(subject) {
            Some(k) => {
                let previous = self.accepted[k];
                if sequence < previous.sequence {
                    return Err(IdentityError::Replay);
                }
                if sequence == previous.sequence {
                    if record_hash.same(&previous.hash) {
                        return Ok(Resolution { record, record_hash, providers_consulted: n, invalid_candidates });
                    }
                    return Err(IdentityError::Conflict { sequence });
                }
                if sequence != previous.sequence.saturating_add(1) || !same_opt_hash(
                    &record.previous_record,
                    &Some(previous.hash),
                ) {
                    return Err(IdentityError::Replay);
                }
                let entry = AcceptedRecord { subject: *subject, sequence, hash: record_hash };
                proof {
                    lemma_accepted_update(self.accepted@, k as int, entry);
                }
                self.accepted.set(k, entry);
            },
            None => {
                if sequence != 1 {
                    return Err(IdentityError::Replay);
                }
                let entry = AcceptedRecord { subject: *subject, sequence, hash: record_hash };
                proof {
                    let v = self.accepted@;
                    assert forall|i: int| 0 <= i < v.len() implies (#[trigger] v[i]).subject@ != subject@ by {
                        lemma_accepted_lookup(v, i);
                    }
                    assert(v.push(entry).drop_last() =~= v);
                    assert forall|i: int, j: int| 0 <= i < j < v.push(entry).len() implies (#[trigger] v.push(entry)[i]).subject@
                        != (#[trigger] v.push(entry)[j]).subject@ by {
                        if j < v.len() {
                            assert(v.push(entry)[i] == v[i] && v.push(entry)[j] == v[j]);
                        } else {
                            assert(v.push(entry)[i] == v[i]);
                        }
                    }
                }
                self.accepted.push(entry);
            },
        }
        Ok(Resolution { record, record_hash, providers_consulted: n, invalid_candidates })
    }
}

} // verus!
