//! The aggregate byte quota of the data-mule outbox: when the envelopes
//! waiting in the outbox exceed it, the oldest are given up first.

use vstd::prelude::*;

use crate::wire::{be64_bytes, lemma_insert_position, lemma_lex_prefix, lemma_sorted_order_len, lemma_sorted_order_sorted, lex_lt, insert_position, push_be64, push_bytes, sort_indices, sorted_order};

verus! {

/// An envelope file waiting in the data-mule outbox.
#[derive(Debug)]
pub struct DataMuleCandidate {
    pub path: String,
    pub created_at_unix_ms: u64,
    pub envelope_id: String,
    pub from_node: String,
    pub to_node: String,
    pub file_bytes: u64,
}

/// Total size of the candidates.
pub open spec fn candidates_total(s: Seq<DataMuleCandidate>) -> int
    decreases s.len(),
{
    if s.len() == 0 {
        0
    } else {
        candidates_total(s.drop_last()) + s.last().file_bytes
    }
}

/// The key candidates are ordered by: creation time, then envelope id.
pub open spec fn candidate_sort_key(c: DataMuleCandidate) -> Seq<u8> {
    be64_bytes(c.created_at_unix_ms) + vstd::utf8::encode_utf8(c.envelope_id@)
}

/// The candidates, oldest first; candidates with equal keys keep their
/// order.
pub open spec fn candidates_by_age(s: Seq<DataMuleCandidate>) -> Seq<DataMuleCandidate> {
    sorted_order(s.len(), s.map_values(|c: DataMuleCandidate| candidate_sort_key(c))).map_values(|j: int| s[j])
}

/// The data-mule candidates are taken oldest first.
pub proof fn lemma_candidates_by_age_oldest_first(s: Seq<DataMuleCandidate>)
    ensures
        candidates_by_age(s).len() == s.len(),
        forall|a: int, b: int| 0 <= a < b < s.len() ==> (#[trigger] candidates_by_age(s)[a]).created_at_unix_ms
            <= (#[trigger] candidates_by_age(s)[b]).created_at_unix_ms,
{
    let keys = s.map_values(|c: DataMuleCandidate| candidate_sort_key(c));
    lemma_sorted_order_sorted(s.len(), keys);
    let o = sorted_order(s.len(), keys);
    lemma_sorted_order_len(s.len(), keys);
    let r = candidates_by_age(s);
    assert forall|a: int, b: int| 0 <= a < b < s.len() implies (#[trigger] r[a]).created_at_unix_ms
        <= (#[trigger] r[b]).created_at_unix_ms by {
        let x = s[o[a]];
        let y = s[o[b]];
        assert(r[a] == x && r[b] == y);
        assert(!lex_lt(keys[o[b]], keys[o[a]]));
        lemma_lex_prefix(
            be64_bytes(y.created_at_unix_ms),
            be64_bytes(x.created_at_unix_ms),
            vstd::utf8::encode_utf8(y.envelope_id@),
            vstd::utf8::encode_utf8(x.envelope_id@),
        );
        crate::wire::lemma_be64_order(y.created_at_unix_ms, x.created_at_unix_ms);
    }
}

/// Giving up the first `k` of `sorted` is the least that brings the rest
/// within `max_total_bytes`.
pub open spec fn least_trim(sorted: Seq<DataMuleCandidate>, max_total_bytes: u64, k: int) -> bool {
    &&& 0 <= k <= sorted.len()
    &&& candidates_total(sorted.skip(k)) <= max_total_bytes
    &&& forall|j: int| 0 <= j < k ==> candidates_total(#[trigger] sorted.skip(j)) > max_total_bytes
}

/// The texts of strings.
pub open spec fn path_texts(v: Seq<String>) -> Seq<Seq<char>> {
    v.map_values(|p: String| p@)
}

/// The paths of candidates.
pub open spec fn candidate_paths(s: Seq<DataMuleCandidate>) -> Seq<Seq<char>> {
    s.map_values(|c: DataMuleCandidate| c.path@)
}

spec fn index_total(idx: Seq<int>, s: Seq<DataMuleCandidate>) -> int
    decreases idx.len(),
{
    if idx.len() == 0 {
        0
    } else {
        index_total(idx.drop_last(), s) + s[idx.last()].file_bytes
    }
}

proof fn lemma_index_total_insert(idx: Seq<int>, p: int, x: int, s: Seq<DataMuleCandidate>)
    requires
        0 <= p <= idx.len(),
    ensures
        index_total(idx.insert(p, x), s) == index_total(idx, s) + s[x].file_bytes,
    decreases idx.len(),
{
    if p == idx.len() {
        assert(idx.insert(p, x).drop_last() =~= idx);
    } else {
        let d = idx.drop_last();
        assert(idx.insert(p, x).drop_last() =~= d.insert(p, x));
        assert(idx.insert(p, x).last() == idx.last());
        lemma_index_total_insert(d, p, x, s);
    }
}

proof fn lemma_sorted_total(n: nat, keys: Seq<Seq<u8>>, s: Seq<DataMuleCandidate>)
    requires
        n <= s.len(),
    ensures
        index_total(sorted_order(n, keys), s) == candidates_total(s.take(n as int)),
    decreases n,
{
    if n == 0 {
        assert(s.take(0) =~= Seq::<DataMuleCandidate>::empty());
    } else {
        let prev = sorted_order((n - 1) as nat, keys);
        lemma_sorted_total((n - 1) as nat, keys, s);
        lemma_insert_position(prev, n - 1, keys);
        lemma_index_total_insert(prev, insert_position(prev, n - 1, keys), n - 1, s);
        assert(s.take(n as int).drop_last() =~= s.take(n - 1));
    }
}

proof fn lemma_mapped_total(idx: Seq<int>, s: Seq<DataMuleCandidate>)
    ensures
        candidates_total(idx.map_values(|j: int| s[j])) == index_total(idx, s),
    decreases idx.len(),
{
    if idx.len() > 0 {
        lemma_mapped_total(idx.drop_last(), s);
        assert(idx.map_values(|j: int| s[j]).drop_last() =~= idx.drop_last().map_values(|j: int| s[j]));
    }
}

proof fn lemma_total_first(s: Seq<DataMuleCandidate>)
    requires
        s.len() > 0,
    ensures
        candidates_total(s) == s[0].file_bytes + candidates_total(s.drop_first()),
    decreases s.len(),
{
    if s.len() > 1 {
        lemma_total_first(s.drop_last());
        assert(s.drop_last().drop_first() =~= s.drop_first().drop_last());
        assert(s.drop_last()[0] == s[0]);
        assert(s.drop_first().last() == s.last());
    } else {
        assert(s.drop_first() =~= Seq::<DataMuleCandidate>::empty());
        assert(s.drop_last() =~= Seq::<DataMuleCandidate>::empty());
    }
}

proof fn lemma_total_nonneg(s: Seq<DataMuleCandidate>)
    ensures
        candidates_total(s) >= 0,
    decreases s.len(),
{
    if s.len() > 0 {
        lemma_total_nonneg(s.drop_last());
    }
}

proof fn lemma_total_prefix(s: Seq<DataMuleCandidate>, i: int)
    requires
        0 <= i <= s.len(),
    ensures
        0 <= candidates_total(s.take(i)) <= candidates_total(s),
    decreases s.len(),
{
    if i < s.len() {
        lemma_total_prefix(s.drop_last(), i);
        assert(s.drop_last().take(i) =~= s.take(i));
    } else {
        assert(s.take(i) =~= s);
    }
    if s.len() > 0 {
        lemma_total_prefix(s.drop_last(), s.len() - 1);
        assert(s.drop_last().take(s.len() - 1) =~= s.drop_last());
    }
}

pub(crate) fn copy_candidate(c: &DataMuleCandidate) -> (r: DataMuleCandidate)
    ensures
        r == *c,
{
    DataMuleCandidate {
        path: c.path.clone(),
        created_at_unix_ms: c.created_at_unix_ms,
        envelope_id: c.envelope_id.clone(),
        from_node: c.from_node.clone(),
        to_node: c.to_node.clone(),
        file_bytes: c.file_bytes,
    }
}

/// The candidates, oldest first (by creation time, then envelope id);
/// candidates with equal keys keep their order.
pub fn sort_candidates_by_age(candidates: &Vec<DataMuleCandidate>) -> (sorted: Vec<DataMuleCandidate>)
    ensures
        sorted@ == candidates_by_age(candidates@),
        sorted@.len() == candidates@.len(),
        candidates_total(sorted@) == candidates_total(candidates@),
{
    let ghost s = candidates@;
    let n = candidates.len();
    let ghost kv = s.map_values(|c: DataMuleCandidate| candidate_sort_key(c));
    let mut keys: Vec<Vec<u8>> = Vec::new();
    let mut j: usize = 0;
    while j < n
        invariant
            n == s.len(),
            s == candidates@,
            j <= n,
            kv == s.map_values(|c: DataMuleCandidate| candidate_sort_key(c)),
            keys@.len() == j,
            forall|t: int| 0 <= t < j ==> (#[trigger] keys@[t])@ == kv[t],
        decreases n - j,
    {
        let mut key: Vec<u8> = Vec::new();
        push_be64(&mut key, candidates[j].created_at_unix_ms);
        push_bytes(&mut key, candidates[j].envelope_id.as_str().as_bytes());
        assert(key@ =~= kv[j as int]);
        keys.push(key);
        j = j + 1;
    }
    assert(keys@.map_values(|k: Vec<u8>| k@) =~= kv);
    let order = sort_indices(&keys);
    proof {
        crate::wire::lemma_sorted_order_len(n as nat, kv);
    }
    let ghost ord = sorted_order(n as nat, kv);
    let ghost by_age = candidates_by_age(s);
    assert(by_age =~= ord.map_values(|t: int| s[t]));
    let mut sorted: Vec<DataMuleCandidate> = Vec::new();
    let mut m: usize = 0;
    while m < n
        invariant
            n == s.len(),
            s == candidates@,
            m <= n,
            order@.len() == n,
            ord.len() == n,
            by_age == ord.map_values(|t: int| s[t]),
            forall|t: int| 0 <= t < n ==> order@[t] as int == ord[t],
            forall|t: int| 0 <= t < n ==> #[trigger] order@[t] < n,
            sorted@ == by_age.take(m as int),
        decreases n - m,
    {
        let c = copy_candidate(&candidates[order[m]]);
        sorted.push(c);
        m = m + 1;
        assert(sorted@ =~= by_age.take(m as int));
    }
    assert(by_age.take(n as int) =~= by_age);
    proof {
        lemma_sorted_total(n as nat, kv, s);
        lemma_mapped_total(ord, s);
        assert(s.take(n as int) =~= s);
    }
    sorted
}

/// Brings the outbox within `max_total_bytes`: when the candidates exceed
/// it, they are put oldest first and the fewest oldest are taken out; the
/// paths of those, to be quarantined, are returned in that order. Within
/// the quota the candidates are left as they are.
pub fn trim_data_mule_candidates_to_quota(candidates: &mut Vec<DataMuleCandidate>, max_total_bytes: u64) -> (removed: Vec<
    String,
>)
    requires
        candidates_total(old(candidates)@) <= u64::MAX,
    ensures
        candidates_total(old(candidates)@) <= max_total_bytes ==> final(candidates)@ == old(candidates)@ && removed@.len()
            == 0,
        candidates_total(old(candidates)@) > max_total_bytes ==> exists|k: int|
            #![trigger candidates_by_age(old(candidates)@).skip(k)]
            least_trim(candidates_by_age(old(candidates)@), max_total_bytes, k) && final(candidates)@ == candidates_by_age(
                old(candidates)@,
            ).skip(k) && path_texts(removed@) == candidate_paths(
                candidates_by_age(old(candidates)@).take(k),
            ),
{
    let ghost s = candidates@;
    let n = candidates.len();
    let mut total: u64 = 0;
    let mut i: usize = 0;
    while i < n
        invariant
            n == s.len(),
            s == candidates@,
            i <= n,
            candidates_total(s) <= u64::MAX,
            total == candidates_total(s.take(i as int)),
        decreases n - i,
    {
        proof {
            assert(s.take(i + 1).drop_last() =~= s.take(i as int));
            lemma_total_prefix(s, i + 1);
        }
        total = total + candidates[i].file_bytes;
        i = i + 1;
    }
    assert(s.take(n as int) =~= s);
    if total <= max_total_bytes {
        return Vec::new();
    }
    let mut sorted = sort_candidates_by_age(candidates);
    let ghost by_age = candidates_by_age(s);
    proof {
        assert(by_age.skip(0) =~= by_age);
    }
    let mut k: usize = 0;
    let mut cur: u64 = total;
    while cur > max_total_bytes && k < n
        invariant
            n == by_age.len(),
            sorted@ == by_age,
            k <= n,
            cur == candidates_total(by_age.skip(k as int)),
            forall|t: int| 0 <= t < k ==> candidates_total(#[trigger] by_age.skip(t)) > max_total_bytes,
        decreases n - k,
    {
        proof {
            lemma_total_first(by_age.skip(k as int));
            assert(by_age.skip(k as int).drop_first() =~= by_age.skip(k + 1));
            lemma_total_nonneg(by_age.skip(k + 1));
        }
        cur = cur - sorted[k].file_bytes;
        k = k + 1;
    }
    proof {
        if k == n {
            assert(by_age.skip(k as int) =~= Seq::<DataMuleCandidate>::empty());
        }
    }
    let kept = sorted.split_off(k);
    let mut removed: Vec<String> = Vec::new();
    let mut r: usize = 0;
    while r < k
        invariant
            r <= k <= n,
            by_age.len() == n,
            removed@.len() == r,
            sorted@ == by_age.take(k as int),
            path_texts(removed@) == candidate_paths(by_age.take(r as int)),
        decreases k - r,
    {
        let path = sorted[r].path.clone();
        assert(path@ == by_age[r as int].path@);
        let ghost before = removed@;
        removed.push(path);
        proof {
            let prev_paths = candidate_paths(by_age.take(r as int));
            assert forall|t: int| 0 <= t < r + 1 implies #[trigger] path_texts(removed@)[t]
                == candidate_paths(by_age.take(r + 1))[t] by {
                if t < r {
                    assert(removed@[t] == before[t]);
                    assert(path_texts(before)[t] == prev_paths[t]);
                }
            }
        }
        r = r + 1;
        assert(path_texts(removed@) =~= candidate_paths(by_age.take(r as int)));
    }
    assert(by_age.take(k as int).take(k as int) =~= by_age.take(k as int));
    *candidates = kept;
    assert(candidates@ =~= by_age.skip(k as int));
    assert(least_trim(by_age, max_total_bytes, k as int));
    removed
}

} // verus!
