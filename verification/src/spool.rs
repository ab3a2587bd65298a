//! Decisions of the file-spool adapters (offline mesh and data mule): which
//! queue entries are read, which envelopes are taken and in what order, and
//! the bounded windows that refuse envelopes delivered before.

use vstd::prelude::*;

use crate::error::{msg, str_eq, Result, ShphError};
use crate::text::{append_decimal, decimal, decimal_string, push_char};
use crate::standards::{sat_add, sat_add_u64};
use crate::mule_quota::{candidates_by_age, copy_candidate, sort_candidates_by_age, DataMuleCandidate};
use crate::wire::{be64_bytes, lemma_be64_order, lemma_sorted_order_sorted, lemma_sorted_order_len, lex_lt, push_be64, sort_indices, sorted_order};

verus! {

/// Largest envelope file a file adapter reads.
pub const MAX_FILE_ADAPTER_BYTES: u64 = 262144;

/// Deepest directory nesting the data-mule inbox scan enters.
pub const MAX_QUEUE_SCAN_DEPTH: usize = 16;

/// Number of delivered envelopes a data-mule reader remembers.
pub const DATA_MULE_REPLAY_WINDOW: usize = 1024;

/// The last `n` elements of `s`, or all of them when there are fewer.
pub open spec fn keep_last<T>(s: Seq<T>, n: nat) -> Seq<T> {
    if s.len() > n {
        s.skip(s.len() - n)
    } else {
        s
    }
}

/// A window of delivered keys after `k` is delivered: `k` is appended when it
/// is new, then only the newest `limit` keys are kept.
pub open spec fn marked<T>(s: Seq<T>, k: T, limit: nat) -> Seq<T> {
    keep_last(if s.contains(k) { s } else { s.push(k) }, limit)
}

/// Marking a key keeps the window free of duplicates and within its limit,
/// and, for a positive limit, the key just marked is in the window.
pub proof fn lemma_marked_window<T>(s: Seq<T>, k: T, limit: nat)
    requires
        s.no_duplicates(),
        s.len() <= limit,
        limit >= 1,
    ensures
        marked(s, k, limit).no_duplicates(),
        marked(s, k, limit).len() <= limit,
        marked(s, k, limit).contains(k),
{
    let m = marked(s, k, limit);
    if s.contains(k) {
        assert(m == s);
    } else {
        let p = s.push(k);
        assert(p[p.len() - 1] == k);
        assert forall|i: int, j: int| 0 <= i < p.len() && 0 <= j < p.len() && i != j implies p[i] != p[j] by {
            if i < s.len() && j < s.len() {
                assert(p[i] == s[i] && p[j] == s[j]);
            } else if i < s.len() {
                assert(p[i] == s[i]);
                assert(s.contains(s[i]));
            } else {
                assert(p[j] == s[j]);
                assert(s.contains(s[j]));
            }
        }
        if p.len() > limit {
            let d = p.len() - limit;
            assert forall|i: int, j: int| 0 <= i < m.len() && 0 <= j < m.len() && i != j implies m[i] != m[j] by {
                assert(m[i] == p[i + d] && m[j] == p[j + d]);
            }
            assert(m[m.len() - 1] == k);
        } else {
            assert(m[m.len() - 1] == k);
        }
    }
}

/// The offline-mesh sequences already delivered, oldest first, bounded in
/// number.
#[derive(Debug)]
pub struct SequenceWindow {
    order: Vec<u64>,
    limit: usize,
}

impl SequenceWindow {
    #[verifier::type_invariant]
    spec fn inv(self) -> bool {
        &&& self.limit >= 1
        &&& self.order@.len() <= self.limit
        &&& self.order@.no_duplicates()
    }

    /// The delivered sequences, oldest first.
    pub closed spec fn seen(&self) -> Seq<u64> {
        self.order@
    }

    /// How many sequences the window holds at most.
    pub closed spec fn limit(&self) -> nat {
        self.limit as nat
    }

    /// An empty window of at most `max_seen` sequences (at least one).
    pub fn new(max_seen: usize) -> (w: Self)
        ensures
            w.seen() == Seq::<u64>::empty(),
            w.limit() == if max_seen == 0 { 1 } else { max_seen },
    {
        SequenceWindow { order: Vec::new(), limit: if max_seen == 0 { 1 } else { max_seen } }
    }

    /// Whether `sequence` was delivered.
    pub fn contains(&self, sequence: u64) -> (b: bool)
        ensures
            b == self.seen().contains(sequence),
    {
        let mut i: usize = 0;
        while i < self.order.len()
            invariant
                i <= self.order@.len(),
                forall|j: int| 0 <= j < i ==> self.order@[j] != sequence,
            decreases self.order@.len() - i,
        {
            if self.order[i] == sequence {
                assert(self.order@[i as int] == sequence);
                return true;
            }
            i = i + 1;
        }
        false
    }

    /// Records that `sequence` was delivered, forgetting the oldest sequence
    /// when the window is full.
    pub fn mark_seen(&mut self, sequence: u64)
        ensures
            final(self).seen() == marked(old(self).seen(), sequence, old(self).limit()),
            final(self).limit() == old(self).limit(),
    {
        proof {
            use_type_invariant(&*self);
        }
        let ghost s = self.order@;
        let fresh = !self.contains(sequence);
        let n = self.order.len();
        let start: usize = if fresh && n >= self.limit { 1 } else { 0 };
        let mut kept: Vec<u64> = Vec::new();
        let mut i: usize = start;
        while i < n
            invariant
                start <= i <= n,
                n == s.len(),
                s == self.order@,
                kept@ == s.subrange(start as int, i as int),
            decreases n - i,
        {
            kept.push(self.order[i]);
            i = i + 1;
            assert(kept@ =~= s.subrange(start as int, i as int));
        }
        if fresh {
            kept.push(sequence);
        }
        proof {
            let m = marked(s, sequence, self.limit as nat);
            if fresh {
                if n >= self.limit {
                    assert(m =~= s.push(sequence).skip(1));
                }
                assert(kept@ =~= m);
            } else {
                assert(kept@ =~= m);
            }
            lemma_marked_window(s, sequence, self.limit as nat);
        }
        self.order = kept;
    }
}

/// The replay key of a data-mule envelope: sender, a NUL, envelope id.
pub open spec fn replay_key_spec(from_node: Seq<char>, envelope_id: Seq<char>) -> Seq<char> {
    from_node + seq!['\0'] + envelope_id
}

/// The replay key of an envelope from `from_node` with id `envelope_id`.
pub fn replay_key(from_node: &str, envelope_id: &str) -> (k: String)
    ensures
        k@ == replay_key_spec(from_node@, envelope_id@),
{
    let mut k = String::from_str(from_node);
    push_char(&mut k, '\0');
    k.append(envelope_id);
    assert(k@ =~= replay_key_spec(from_node@, envelope_id@));
    k
}

/// The texts of a list of strings.
pub open spec fn texts(v: Seq<String>) -> Seq<Seq<char>> {
    v.map_values(|x: String| x@)
}

proof fn lemma_texts_push(v: Seq<String>, x: String)
    ensures
        texts(v.push(x)) == texts(v).push(x@),
{
    assert(texts(v.push(x)) =~= texts(v).push(x@));
}

/// The replay keys of the data-mule envelopes already delivered, oldest
/// first, at most `DATA_MULE_REPLAY_WINDOW` of them.
#[derive(Debug)]
pub struct EnvelopeWindow {
    order: Vec<String>,
}

impl EnvelopeWindow {
    #[verifier::type_invariant]
    spec fn inv(self) -> bool {
        &&& self.order@.len() <= DATA_MULE_REPLAY_WINDOW
        &&& texts(self.order@).no_duplicates()
    }

    /// The delivered replay keys, oldest first.
    pub closed spec fn seen(&self) -> Seq<Seq<char>> {
        texts(self.order@)
    }

    /// An empty window.
    pub fn new() -> (w: Self)
        ensures
            w.seen() == Seq::<Seq<char>>::empty(),
    {
        let w = EnvelopeWindow { order: Vec::new() };
        assert(w.seen() =~= Seq::<Seq<char>>::empty());
        w
    }

    fn contains_key(&self, key: &str) -> (b: bool)
        ensures
            b == self.seen().contains(key@),
    {
        let mut i: usize = 0;
        while i < self.order.len()
            invariant
                i <= self.order@.len(),
                forall|j: int| 0 <= j < i ==> self.order@[j]@ != key@,
            decreases self.order@.len() - i,
        {
            if str_eq(self.order[i].as_str(), key) {
                assert(self.seen()[i as int] == key@);
                return true;
            }
            i = i + 1;
        }
        assert forall|j: int| 0 <= j < self.seen().len() implies self.seen()[j] != key@ by {
            assert(self.seen()[j] == self.order@[j]@);
        }
        false
    }

    /// Whether the envelope `envelope_id` from `from_node` was delivered.
    pub fn contains(&self, from_node: &str, envelope_id: &str) -> (b: bool)
        ensures
            b == self.seen().contains(replay_key_spec(from_node@, envelope_id@)),
    {
        let key = replay_key(from_node, envelope_id);
        self.contains_key(key.as_str())
    }

    /// Records that the envelope `envelope_id` from `from_node` was
    /// delivered, forgetting the oldest one when the window is full.
    pub fn mark_seen(&mut self, from_node: &str, envelope_id: &str)
        ensures
            final(self).seen() == marked(
                old(self).seen(),
                replay_key_spec(from_node@, envelope_id@),
                DATA_MULE_REPLAY_WINDOW as nat,
            ),
    {
        proof {
            use_type_invariant(&*self);
        }
        let ghost s = texts(self.order@);
        let key = replay_key(from_node, envelope_id);
        let fresh = !self.contains_key(key.as_str());
        let n = self.order.len();
        let start: usize = if fresh && n >= DATA_MULE_REPLAY_WINDOW { 1 } else { 0 };
        let mut kept: Vec<String> = Vec::new();
        let mut i: usize = start;
        while i < n
            invariant
                start <= i <= n,
                n == self.order@.len(),
                s == texts(self.order@),
                texts(kept@) == s.subrange(start as int, i as int),
            decreases n - i,
        {
            let item = self.order[i].clone();
            proof {
                lemma_texts_push(kept@, item);
                assert(item@ == s[i as int]);
            }
            kept.push(item);
            i = i + 1;
            assert(texts(kept@) =~= s.subrange(start as int, i as int));
        }
        let ghost k = key@;
        let ghost before = kept@;
        if fresh {
            kept.push(key);
            proof {
                lemma_texts_push(before, key);
            }
        }
        proof {
            let m = marked(s, k, DATA_MULE_REPLAY_WINDOW as nat);
            if fresh {
                if n >= DATA_MULE_REPLAY_WINDOW {
                    assert(m =~= s.push(k).skip(1));
                }
                assert(texts(kept@) =~= m);
            } else {
                assert(texts(kept@) =~= m);
            }
            lemma_marked_window(s, k, DATA_MULE_REPLAY_WINDOW as nat);
        }
        self.order = kept;
    }
}

/// What a reader does with one entry of a queue directory.
#[derive(Debug, Clone, Copy, PartialEq, Eq, Structural)]
pub enum QueueEntryAction {
    /// Not an envelope file: left alone.
    Skip,
    /// An envelope file too large to read: moved aside.
    Quarantine,
    /// An envelope file to read.
    Read,
}

/// The offline-mesh rule for one queue entry: regular `.json` files are
/// read when they fit the size limit and quarantined when they do not;
/// anything else is skipped.
pub open spec fn offline_entry_action(is_file: bool, extension: Seq<char>, len: u64, max_file_bytes: u64) -> QueueEntryAction {
    if !is_file || extension != "json"@ {
        QueueEntryAction::Skip
    } else if len > max_file_bytes {
        QueueEntryAction::Quarantine
    } else {
        QueueEntryAction::Read
    }
}

/// An envelope file found in the offline-mesh queue, with the sequence
/// number its envelope carries.
#[derive(Debug)]
pub struct OfflineMeshCandidate {
    pub path: String,
    pub sequence: u64,
}

/// The candidates in ascending sequence order; candidates with equal
/// sequences keep their order.
pub open spec fn candidates_by_sequence(s: Seq<OfflineMeshCandidate>) -> Seq<OfflineMeshCandidate> {
    sorted_order(s.len(), s.map_values(|c: OfflineMeshCandidate| be64_bytes(c.sequence))).map_values(|j: int| s[j])
}

/// Offline-mesh candidates are taken in ascending sequence order.
pub proof fn lemma_candidates_by_sequence_ascending(s: Seq<OfflineMeshCandidate>)
    ensures
        candidates_by_sequence(s).len() == s.len(),
        forall|a: int, b: int| 0 <= a < b < s.len() ==> (#[trigger] candidates_by_sequence(s)[a]).sequence
            <= (#[trigger] candidates_by_sequence(s)[b]).sequence,
{
    let keys = s.map_values(|c: OfflineMeshCandidate| be64_bytes(c.sequence));
    lemma_sorted_order_sorted(s.len(), keys);
    let o = sorted_order(s.len(), keys);
    lemma_sorted_order_len(s.len(), keys);
    let r = candidates_by_sequence(s);
    assert forall|a: int, b: int| 0 <= a < b < s.len() implies (#[trigger] r[a]).sequence <= (#[trigger] r[b]).sequence by {
        assert(r[a] == s[o[a]] && r[b] == s[o[b]]);
        assert(!lex_lt(keys[o[b]], keys[o[a]]));
        lemma_be64_order(s[o[b]].sequence, s[o[a]].sequence);
    }
}

fn copy_offline_candidate(c: &OfflineMeshCandidate) -> (r: OfflineMeshCandidate)
    ensures
        r == *c,
{
    OfflineMeshCandidate { path: c.path.clone(), sequence: c.sequence }
}

/// The candidates in ascending sequence order, equal sequences in their
/// given order.
pub fn sort_candidates_by_sequence(candidates: &Vec<OfflineMeshCandidate>) -> (sorted: Vec<OfflineMeshCandidate>)
    ensures
        sorted@ == candidates_by_sequence(candidates@),
{
    let ghost s = candidates@;
    let n = candidates.len();
    let ghost kv = s.map_values(|c: OfflineMeshCandidate| be64_bytes(c.sequence));
    let mut keys: Vec<Vec<u8>> = Vec::new();
    let mut j: usize = 0;
    while j < n
        invariant
            n == s.len(),
            s == candidates@,
            j <= n,
            kv == s.map_values(|c: OfflineMeshCandidate| be64_bytes(c.sequence)),
            keys@.len() == j,
            forall|t: int| 0 <= t < j ==> (#[trigger] keys@[t])@ == kv[t],
        decreases n - j,
    {
        let mut key: Vec<u8> = Vec::new();
        push_be64(&mut key, candidates[j].sequence);
        assert(key@ =~= kv[j as int]);
        keys.push(key);
        j = j + 1;
    }
    assert(keys@.map_values(|k: Vec<u8>| k@) =~= kv);
    let order = sort_indices(&keys);
    proof {
        lemma_sorted_order_len(n as nat, kv);
    }
    let ghost ord = sorted_order(n as nat, kv);
    let ghost by_seq = candidates_by_sequence(s);
    assert(by_seq =~= ord.map_values(|t: int| s[t]));
    let mut sorted: Vec<OfflineMeshCandidate> = Vec::new();
    let mut m: usize = 0;
    while m < n
        invariant
            n == s.len(),
            s == candidates@,
            m <= n,
            order@.len() == n,
            ord.len() == n,
            by_seq == ord.map_values(|t: int| s[t]),
            forall|t: int| 0 <= t < n ==> order@[t] as int == ord[t],
            forall|t: int| 0 <= t < n ==> #[trigger] order@[t] < n,
            sorted@ == by_seq.take(m as int),
        decreases n - m,
    {
        let c = copy_offline_candidate(&candidates[order[m]]);
        sorted.push(c);
        m = m + 1;
        assert(sorted@ =~= by_seq.take(m as int));
    }
    assert(by_seq.take(n as int) =~= by_seq);
    sorted
}

/// What the offline-mesh reader of one session knows: who it is, which
/// peer it listens to, the session, and the sequences it has delivered.
#[derive(Debug)]
pub struct OfflineMeshReadState {
    pub local_node: String,
    pub peer_node: String,
    pub session_id: String,
    pub seen: SequenceWindow,
}

impl OfflineMeshReadState {
    /// A reader for `session_id` from `peer_node` to `local_node`,
    /// remembering `max_idle_entries` delivered sequences (clamped to
    /// 1..=65536).
    pub fn new(local_node: &str, peer_node: &str, session_id: &str, max_idle_entries: u64) -> (r: Self)
        ensures
            r.local_node@ == local_node@,
            r.peer_node@ == peer_node@,
            r.session_id@ == session_id@,
            r.seen.seen() == Seq::<u64>::empty(),
            r.seen.limit() == if max_idle_entries < 1 { 1 } else if max_idle_entries > 65536 { 65536 } else { max_idle_entries as int },
    {
        let limit: u64 = if max_idle_entries < 1 { 1 } else if max_idle_entries > 65536 { 65536 } else { max_idle_entries };
        OfflineMeshReadState {
            local_node: String::from_str(local_node),
            peer_node: String::from_str(peer_node),
            session_id: String::from_str(session_id),
            seen: SequenceWindow::new(limit as usize),
        }
    }

    /// What to do with a queue entry.
    pub fn entry_action(&self, is_file: bool, extension: &str, len: u64) -> (a: QueueEntryAction)
        ensures
            a == offline_entry_action(is_file, extension@, len, MAX_FILE_ADAPTER_BYTES),
    {
        if !is_file || !str_eq(extension, "json") {
            QueueEntryAction::Skip
        } else if len > MAX_FILE_ADAPTER_BYTES {
            QueueEntryAction::Quarantine
        } else {
            QueueEntryAction::Read
        }
    }

    /// Whether an envelope belongs to this session, goes from the peer to
    /// this node and was not delivered before.
    pub open spec fn wanted(&self, session_id: Seq<char>, from: Seq<char>, to: Seq<char>, sequence: u64) -> bool {
        &&& session_id == self.session_id@
        &&& from == self.peer_node@
        &&& to == self.local_node@
        &&& !self.seen.seen().contains(sequence)
    }

    /// Whether a listed envelope is a candidate.
    pub fn wants(&self, session_id: &str, from: &str, to: &str, sequence: u64) -> (b: bool)
        ensures
            b == self.wanted(session_id@, from@, to@, sequence),
    {
        str_eq(session_id, self.session_id.as_str()) && str_eq(from, self.peer_node.as_str()) && str_eq(
            to,
            self.local_node.as_str(),
        ) && !self.seen.contains(sequence)
    }

    /// Whether a claimed envelope may be delivered: it is still wanted and
    /// carries the sequence it was listed with; otherwise it is
    /// quarantined.
    pub fn accepts_claimed(&self, session_id: &str, from: &str, to: &str, sequence: u64, listed_sequence: u64) -> (b: bool)
        ensures
            b == (self.wanted(session_id@, from@, to@, sequence) && sequence == listed_sequence),
    {
        self.wants(session_id, from, to, sequence) && sequence == listed_sequence
    }

    /// Records a delivered sequence.
    pub fn mark_seen(&mut self, sequence: u64)
        ensures
            final(self).seen.seen() == marked(old(self).seen.seen(), sequence, old(self).seen.limit()),
            final(self).seen.limit() == old(self).seen.limit(),
            final(self).local_node == old(self).local_node,
            final(self).peer_node == old(self).peer_node,
            final(self).session_id == old(self).session_id,
    {
        self.seen.mark_seen(sequence);
    }
}

/// What the data-mule inbox scan does with one directory entry.
#[derive(Debug, Clone, Copy, PartialEq, Eq, Structural)]
pub enum ScanEntryAction {
    /// A symbolic link or a file that is not an envelope: left alone.
    Skip,
    /// A directory: scanned one level deeper.
    Descend,
    /// An envelope file too large to read: moved aside.
    Quarantine,
    /// An envelope file to read.
    Read,
}

/// The data-mule rule for one inbox entry: links are skipped, directories
/// entered, `.shph` files read when they fit the size limit and
/// quarantined when they do not; anything else is skipped.
pub open spec fn scan_entry_action(
    is_symlink: bool,
    is_dir: bool,
    extension: Seq<char>,
    len: u64,
    max_file_bytes: u64,
) -> ScanEntryAction {
    if is_symlink {
        ScanEntryAction::Skip
    } else if is_dir {
        ScanEntryAction::Descend
    } else if extension != "shph"@ {
        ScanEntryAction::Skip
    } else if len > max_file_bytes {
        ScanEntryAction::Quarantine
    } else {
        ScanEntryAction::Read
    }
}

/// Checks a directory the data-mule scan is about to list: it must be a
/// directory, nested at most `MAX_QUEUE_SCAN_DEPTH` levels below the
/// inbox root.
pub fn check_scan_directory(is_directory: bool, depth: usize) -> (r: Result<()>)
    ensures
        r is Ok <==> is_directory && depth <= MAX_QUEUE_SCAN_DEPTH,
        !is_directory ==> (r matches Err(ShphError::Protocol(m)) && m@ == "data-mule inbox root is not a directory"@),
        is_directory && depth > MAX_QUEUE_SCAN_DEPTH ==> (r matches Err(ShphError::ResourceExhausted(m)) && m@
            == "data-mule inbox nesting exceeds scan depth"@),
{
    if !is_directory {
        return Err(ShphError::Protocol(msg("data-mule inbox root is not a directory")));
    }
    if depth > MAX_QUEUE_SCAN_DEPTH {
        return Err(ShphError::ResourceExhausted(msg("data-mule inbox nesting exceeds scan depth")));
    }
    Ok(())
}

/// Checks that the sender named on a data-mule envelope is the identity
/// that signed the hello it carries.
pub fn check_hello_sender(from_node: &str, hello_identity: &str) -> (r: Result<()>)
    ensures
        r is Ok <==> from_node@ == hello_identity@,
        r matches Err(e) ==> e matches ShphError::Auth(m) && m@
            == "data-mule envelope sender does not match the signed hello identity"@,
{
    if !str_eq(from_node, hello_identity) {
        return Err(ShphError::Auth(msg("data-mule envelope sender does not match the signed hello identity")));
    }
    Ok(())
}

/// The text of an optional string.
pub open spec fn opt_text(s: Option<String>) -> Option<Seq<char>> {
    match s {
        Some(x) => Some(x@),
        None => None,
    }
}

/// What a data-mule reader knows: who it is, which sender it listens to
/// (once known), how large an envelope file may be, and the envelopes it
/// has delivered.
#[derive(Debug)]
pub struct DataMuleReadState {
    pub local_node: String,
    pub peer_filter: Option<String>,
    pub max_file_bytes: u64,
    pub seen: EnvelopeWindow,
}

impl DataMuleReadState {
    /// A reader for `local_node`, listening to `peer_filter` when given,
    /// reading envelope files of at most `max_file_bytes` (clamped to
    /// 1..=`MAX_FILE_ADAPTER_BYTES`).
    pub fn new(local_node: &str, peer_filter: Option<&str>, max_file_bytes: u64) -> (r: Self)
        ensures
            r.local_node@ == local_node@,
            opt_text(r.peer_filter) == match peer_filter {
                Some(p) => Some(p@),
                None => None::<Seq<char>>,
            },
            r.max_file_bytes == if max_file_bytes < 1 { 1 } else if max_file_bytes > MAX_FILE_ADAPTER_BYTES {
                MAX_FILE_ADAPTER_BYTES
            } else {
                max_file_bytes
            },
            r.seen.seen() == Seq::<Seq<char>>::empty(),
    {
        let peer = match peer_filter {
            Some(p) => Some(String::from_str(p)),
            None => None,
        };
        DataMuleReadState {
            local_node: String::from_str(local_node),
            peer_filter: peer,
            max_file_bytes: if max_file_bytes < 1 {
                1
            } else if max_file_bytes > MAX_FILE_ADAPTER_BYTES {
                MAX_FILE_ADAPTER_BYTES
            } else {
                max_file_bytes
            },
            seen: EnvelopeWindow::new(),
        }
    }

    /// What to do with an inbox entry.
    pub fn entry_action(&self, is_symlink: bool, is_dir: bool, extension: &str, len: u64) -> (a: ScanEntryAction)
        ensures
            a == scan_entry_action(is_symlink, is_dir, extension@, len, self.max_file_bytes),
    {
        if is_symlink {
            ScanEntryAction::Skip
        } else if is_dir {
            ScanEntryAction::Descend
        } else if !str_eq(extension, "shph") {
            ScanEntryAction::Skip
        } else if len > self.max_file_bytes {
            ScanEntryAction::Quarantine
        } else {
            ScanEntryAction::Read
        }
    }

    /// An envelope from `from` to `to` is for this reader: addressed to
    /// this node and, once a sender is known, sent by it.
    pub open spec fn routed(&self, from: Seq<char>, to: Seq<char>) -> bool {
        &&& to == self.local_node@
        &&& match self.peer_filter {
            Some(p) => p@ == from,
            None => true,
        }
    }

    /// Whether an envelope from `from_node` to `to_node` is for this reader;
    /// a received frame that is not is quarantined.
    pub fn routes(&self, from_node: &str, to_node: &str) -> (b: bool)
        ensures
            b == self.routed(from_node@, to_node@),
    {
        if !str_eq(to_node, self.local_node.as_str()) {
            return false;
        }
        match &self.peer_filter {
            Some(p) => str_eq(p.as_str(), from_node),
            None => true,
        }
    }

    /// A listed candidate is for this reader and was not delivered before.
    pub open spec fn wanted(&self, c: DataMuleCandidate) -> bool {
        &&& self.routed(c.from_node@, c.to_node@)
        &&& !self.seen.seen().contains(replay_key_spec(c.from_node@, c.envelope_id@))
    }

    /// Whether a listed candidate is worth claiming.
    pub fn wants(&self, c: &DataMuleCandidate) -> (b: bool)
        ensures
            b == self.wanted(*c),
    {
        self.routes(c.from_node.as_str(), c.to_node.as_str()) && !self.seen.contains(
            c.from_node.as_str(),
            c.envelope_id.as_str(),
        )
    }

    /// The candidates worth claiming, oldest first (by creation time, then
    /// envelope id).
    pub fn select_candidates(&self, candidates: &Vec<DataMuleCandidate>) -> (r: Vec<DataMuleCandidate>)
        ensures
            r@ == candidates_by_age(candidates@.filter(|c: DataMuleCandidate| self.wanted(c))),
    {
        let ghost s = candidates@;
        let ghost pred = |c: DataMuleCandidate| self.wanted(c);
        let mut kept: Vec<DataMuleCandidate> = Vec::new();
        proof {
            reveal(Seq::filter);
            assert(s.take(0).filter(pred) =~= Seq::<DataMuleCandidate>::empty());
        }
        let mut i: usize = 0;
        while i < candidates.len()
            invariant
                i <= s.len(),
                s == candidates@,
                pred == (|c: DataMuleCandidate| self.wanted(c)),
                kept@ == s.take(i as int).filter(pred),
            decreases s.len() - i,
        {
            proof {
                reveal(Seq::filter);
                assert(s.take(i + 1).drop_last() =~= s.take(i as int));
                assert(s.take(i + 1).last() == s[i as int]);
            }
            if self.wants(&candidates[i]) {
                kept.push(copy_candidate(&candidates[i]));
            }
            i = i + 1;
        }
        assert(s.take(s.len() as int) =~= s);
        sort_candidates_by_age(&kept)
    }

    /// Whether a claimed envelope may be delivered: still for this reader,
    /// not delivered before, and the same envelope that was listed;
    /// otherwise it is quarantined.
    pub fn accepts_claimed(
        &self,
        created_at_unix_ms: u64,
        envelope_id: &str,
        from_node: &str,
        to_node: &str,
        listed: &DataMuleCandidate,
    ) -> (b: bool)
        ensures
            b == (self.routed(from_node@, to_node@) && !self.seen.seen().contains(
                replay_key_spec(from_node@, envelope_id@),
            ) && created_at_unix_ms == listed.created_at_unix_ms && envelope_id@ == listed.envelope_id@
                && from_node@ == listed.from_node@ && to_node@ == listed.to_node@),
    {
        self.routes(from_node, to_node) && !self.seen.contains(from_node, envelope_id) && created_at_unix_ms
            == listed.created_at_unix_ms && str_eq(envelope_id, listed.envelope_id.as_str()) && str_eq(
            from_node,
            listed.from_node.as_str(),
        ) && str_eq(to_node, listed.to_node.as_str())
    }

    /// After a verified hello, a reader that listened to anyone listens to
    /// its sender from then on.
    pub fn adopt_peer(&mut self, from_node: &str)
        ensures
            opt_text(final(self).peer_filter) == match old(self).peer_filter {
                Some(p) => Some(p@),
                None => Some(from_node@),
            },
            final(self).local_node == old(self).local_node,
            final(self).max_file_bytes == old(self).max_file_bytes,
            final(self).seen.seen() == old(self).seen.seen(),
    {
        if self.peer_filter.is_none() {
            self.peer_filter = Some(String::from_str(from_node));
        }
    }

    /// Records a delivered envelope.
    pub fn mark_seen(&mut self, from_node: &str, envelope_id: &str)
        ensures
            final(self).seen.seen() == marked(
                old(self).seen.seen(),
                replay_key_spec(from_node@, envelope_id@),
                DATA_MULE_REPLAY_WINDOW as nat,
            ),
            final(self).local_node == old(self).local_node,
            final(self).peer_filter == old(self).peer_filter,
            final(self).max_file_bytes == old(self).max_file_bytes,
    {
        self.seen.mark_seen(from_node, envelope_id);
    }
}

/// What an offline-mesh writer knows: who it is, whom it writes to, and
/// the sequence number of its next envelope.
#[derive(Debug)]
pub struct OfflineMeshWriteState {
    pub local_node: String,
    pub peer_node: String,
    pub next_sequence: u64,
}

impl OfflineMeshWriteState {
    /// A writer from `local_node` to `peer_node` that has written nothing.
    pub fn new(local_node: &str, peer_node: &str) -> (w: Self)
        ensures
            w.local_node@ == local_node@,
            w.peer_node@ == peer_node@,
            w.next_sequence == 0,
    {
        OfflineMeshWriteState {
            local_node: String::from_str(local_node),
            peer_node: String::from_str(peer_node),
            next_sequence: 0,
        }
    }

    /// Numbers the next envelope, created at `created_at_unix_ms`: returns
    /// its sequence number and its file name, `<created>-<sequence>.json`;
    /// the counter advances, saturating.
    pub fn next_envelope(&mut self, created_at_unix_ms: u64) -> (r: (u64, String))
        ensures
            r.0 == old(self).next_sequence,
            r.1@ == decimal(created_at_unix_ms as nat) + seq!['-'] + decimal(old(self).next_sequence as nat)
                + ".json"@,
            final(self).next_sequence == sat_add(old(self).next_sequence, 1),
            final(self).local_node == old(self).local_node,
            final(self).peer_node == old(self).peer_node,
    {
        let sequence = self.next_sequence;
        self.next_sequence = sat_add_u64(sequence, 1);
        let mut name = decimal_string(created_at_unix_ms);
        push_char(&mut name, '-');
        append_decimal(&mut name, sequence);
        name.append(".json");
        (sequence, name)
    }

    /// Checks the encoded size of an envelope against the file limit.
    pub fn check_envelope_size(&self, encoded_len: usize) -> (r: Result<()>)
        ensures
            r is Ok <==> encoded_len <= MAX_FILE_ADAPTER_BYTES,
            r matches Err(e) ==> (e matches ShphError::Protocol(m) && m@ == "offline mesh envelope too large"@),
    {
        if encoded_len as u64 > MAX_FILE_ADAPTER_BYTES {
            return Err(ShphError::Protocol(msg("offline mesh envelope too large")));
        }
        Ok(())
    }
}

/// The refusal text for an outbox over its quota.
pub open spec fn quota_message(queued: u64, max_total: u64) -> Seq<char> {
    "data-mule outbox quota exhausted ("@ + decimal(queued as nat) + " bytes of "@ + decimal(max_total as nat)
        + " configured)"@
}

/// What a data-mule writer knows: who it is, whom it writes to, the number
/// of its next envelope, and its file and outbox limits.
#[derive(Debug)]
pub struct DataMuleWriteState {
    pub local_node: String,
    pub peer_node: String,
    pub next_sequence: u64,
    pub max_file_bytes: u64,
    pub max_total_bytes: u64,
}

impl DataMuleWriteState {
    /// A writer from `local_node` to `peer_node`: envelope files of at most
    /// `max_file_bytes` (clamped to 1..=`MAX_FILE_ADAPTER_BYTES`) in an
    /// outbox of at most `max_total_bytes` (raised to the file limit when
    /// smaller).
    pub fn new(local_node: &str, peer_node: &str, max_file_bytes: u64, max_total_bytes: u64) -> (w: Self)
        ensures
            w.local_node@ == local_node@,
            w.peer_node@ == peer_node@,
            w.next_sequence == 0,
            w.max_file_bytes == if max_file_bytes < 1 { 1 } else if max_file_bytes > MAX_FILE_ADAPTER_BYTES {
                MAX_FILE_ADAPTER_BYTES
            } else {
                max_file_bytes
            },
            w.max_total_bytes == if max_total_bytes < w.max_file_bytes { w.max_file_bytes } else { max_total_bytes },
    {
        let file: u64 = if max_file_bytes < 1 {
            1
        } else if max_file_bytes > MAX_FILE_ADAPTER_BYTES {
            MAX_FILE_ADAPTER_BYTES
        } else {
            max_file_bytes
        };
        DataMuleWriteState {
            local_node: String::from_str(local_node),
            peer_node: String::from_str(peer_node),
            next_sequence: 0,
            max_file_bytes: file,
            max_total_bytes: if max_total_bytes < file { file } else { max_total_bytes },
        }
    }

    /// Numbers the next envelope, created at `created_at_unix_ms`: returns
    /// the sequence number (the envelope's nonce) and its id,
    /// `<created>-<sequence>`; the counter advances, saturating.
    pub fn next_envelope(&mut self, created_at_unix_ms: u64) -> (r: (u64, String))
        ensures
            r.0 == old(self).next_sequence,
            r.1@ == decimal(created_at_unix_ms as nat) + seq!['-'] + decimal(old(self).next_sequence as nat),
            final(self).next_sequence == sat_add(old(self).next_sequence, 1),
            final(self).local_node == old(self).local_node,
            final(self).peer_node == old(self).peer_node,
            final(self).max_file_bytes == old(self).max_file_bytes,
            final(self).max_total_bytes == old(self).max_total_bytes,
    {
        let sequence = self.next_sequence;
        self.next_sequence = sat_add_u64(sequence, 1);
        let mut id = decimal_string(created_at_unix_ms);
        push_char(&mut id, '-');
        append_decimal(&mut id, sequence);
        (sequence, id)
    }

    /// Checks the encoded size of an envelope against the file limit.
    pub fn check_envelope_size(&self, encoded_len: usize) -> (r: Result<()>)
        ensures
            r is Ok <==> encoded_len <= self.max_file_bytes,
            r matches Err(e) ==> (e matches ShphError::Protocol(m) && m@ == "data-mule envelope too large"@),
    {
        if encoded_len as u64 > self.max_file_bytes {
            return Err(ShphError::Protocol(msg("data-mule envelope too large")));
        }
        Ok(())
    }

    /// Checks that an envelope of `encoded_len` bytes fits the outbox next
    /// to the `queued_bytes` already waiting there.
    pub fn check_outbox_quota(&self, queued_bytes: u64, encoded_len: usize) -> (r: Result<()>)
        ensures
            r is Ok <==> sat_add(queued_bytes, encoded_len as u64) <= self.max_total_bytes,
            r matches Err(e) ==> (e matches ShphError::ResourceExhausted(m) && m@ == quota_message(
                queued_bytes,
                self.max_total_bytes,
            )),
    {
        if sat_add_u64(queued_bytes, encoded_len as u64) > self.max_total_bytes {
            let mut text = msg("data-mule outbox quota exhausted (");
            append_decimal(&mut text, queued_bytes);
            text.append(" bytes of ");
            append_decimal(&mut text, self.max_total_bytes);
            text.append(" configured)");
            return Err(ShphError::ResourceExhausted(text));
        }
        Ok(())
    }
}

/// The bytes that standard-alphabet, padded base64 `text` encodes, or
/// `None` when `text` is not such base64.
pub uninterp spec fn base64_standard_decode(text: Seq<char>) -> Option<Seq<u8>>;

/// Calls `base64::Engine::decode` on `base64::engine::general_purpose::STANDARD`:
/// the result is the decoding of the text, `None` when the text is not
/// valid base64.
#[verifier::external_body]
fn base64_decode(text: &str) -> (out: Option<Vec<u8>>)
    ensures
        match out {
            Some(v) => base64_standard_decode(text@) == Some(v@),
            None => base64_standard_decode(text@) is None,
        },
{
    base64::Engine::decode(&base64::engine::general_purpose::STANDARD, text.as_bytes()).ok()
}

/// The view of an optional byte vector.
pub open spec fn opt_bytes_view(v: Option<Vec<u8>>) -> Option<Seq<u8>> {
    match v {
        Some(x) => Some(x@),
        None => None,
    }
}

impl OfflineMeshReadState {
    /// The payload of a claimed envelope: its decoded ciphertext when the
    /// reader accepts the envelope and the ciphertext is valid base64;
    /// `None` means the claimed file is quarantined.
    pub fn claimed_payload(
        &self,
        session_id: &str,
        from: &str,
        to: &str,
        sequence: u64,
        listed_sequence: u64,
        ciphertext_b64: &str,
    ) -> (r: Option<Vec<u8>>)
        ensures
            opt_bytes_view(r) == if self.wanted(session_id@, from@, to@, sequence) && sequence == listed_sequence {
                base64_standard_decode(ciphertext_b64@)
            } else {
                None
            },
    {
        if !self.accepts_claimed(session_id, from, to, sequence, listed_sequence) {
            return None;
        }
        base64_decode(ciphertext_b64)
    }
}

impl DataMuleReadState {
    /// The payload of a claimed envelope: its decoded ciphertext when the
    /// reader accepts the envelope as listed and the ciphertext is valid
    /// base64; `None` means the claimed file is quarantined.
    pub fn claimed_payload(
        &self,
        created_at_unix_ms: u64,
        envelope_id: &str,
        from_node: &str,
        to_node: &str,
        listed: &DataMuleCandidate,
        ciphertext_b64: &str,
    ) -> (r: Option<Vec<u8>>)
        ensures
            opt_bytes_view(r) == if (self.routed(from_node@, to_node@) && !self.seen.seen().contains(
                replay_key_spec(from_node@, envelope_id@),
            ) && created_at_unix_ms == listed.created_at_unix_ms && envelope_id@ == listed.envelope_id@
                && from_node@ == listed.from_node@ && to_node@ == listed.to_node@) {
                base64_standard_decode(ciphertext_b64@)
            } else {
                None
            },
    {
        if !self.accepts_claimed(created_at_unix_ms, envelope_id, from_node, to_node, listed) {
            return None;
        }
        base64_decode(ciphertext_b64)
    }
}

/// What happened to one listed candidate when the poll loop tried to take
/// it.
#[derive(Debug)]
pub enum ClaimOutcome {
    /// Another reader claimed it first, or it is gone.
    NotClaimed,
    /// The claimed file was too large or not a regular file.
    ReadRefused,
    /// The claimed file vanished before it was read.
    Vanished,
    /// Reading the claimed file failed otherwise.
    ReadFailed(ShphError),
    /// The claimed file is not an envelope.
    Malformed,
    /// The envelope is not accepted, or its ciphertext is not base64
    /// (`claimed_payload` gave `None`).
    Refused,
    /// The envelope's payload was decoded.
    Decoded,
}

/// What the poll loop does next.
#[derive(Debug)]
pub enum PollStep {
    /// Go on with the next candidate.
    NextCandidate,
    /// Quarantine the claimed file, then go on with the next candidate.
    QuarantineThenNext,
    /// Hand the decoded payload out; the poll ends.
    Deliver,
    /// End the poll with this error.
    Fail(ShphError),
}

/// The poll loop's rule: a candidate that could not be claimed or vanished
/// is passed over; one that cannot be read safely, is no envelope, or is
/// refused is quarantined and passed over; an unexpected read failure ends
/// the poll; a decoded payload is delivered.
pub open spec fn poll_step_spec(o: ClaimOutcome) -> PollStep {
    match o {
        ClaimOutcome::NotClaimed => PollStep::NextCandidate,
        ClaimOutcome::ReadRefused => PollStep::QuarantineThenNext,
        ClaimOutcome::Vanished => PollStep::NextCandidate,
        ClaimOutcome::ReadFailed(e) => PollStep::Fail(e),
        ClaimOutcome::Malformed => PollStep::QuarantineThenNext,
        ClaimOutcome::Refused => PollStep::QuarantineThenNext,
        ClaimOutcome::Decoded => PollStep::Deliver,
    }
}

/// The step after one candidate of a poll.
pub fn poll_step(o: ClaimOutcome) -> (s: PollStep)
    ensures
        s == poll_step_spec(o),
{
    match o {
        ClaimOutcome::NotClaimed => PollStep::NextCandidate,
        ClaimOutcome::ReadRefused => PollStep::QuarantineThenNext,
        ClaimOutcome::Vanished => PollStep::NextCandidate,
        ClaimOutcome::ReadFailed(e) => PollStep::Fail(e),
        ClaimOutcome::Malformed => PollStep::QuarantineThenNext,
        ClaimOutcome::Refused => PollStep::QuarantineThenNext,
        ClaimOutcome::Decoded => PollStep::Deliver,
    }
}

} // verus!
