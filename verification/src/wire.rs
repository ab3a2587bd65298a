//! Byte-level building blocks shared by the wire formats: big-endian
//! integers, byte appends, lexicographic order and a stable index sort.

use vstd::prelude::*;

verus! {

/// Big-endian encoding of a 16-bit value.
pub open spec fn be16_bytes(v: u16) -> Seq<u8> {
    seq![(v / 256) as u8, (v % 256) as u8]
}

/// Big-endian encoding of a 32-bit value.
pub open spec fn be32_bytes(v: u32) -> Seq<u8> {
    seq![(v / 0x1000000) as u8, ((v / 0x10000) % 256) as u8, ((v / 256) % 256) as u8, (v % 256) as u8]
}

/// Big-endian encoding of a 64-bit value.
pub open spec fn be64_bytes(v: u64) -> Seq<u8> {
    be32_bytes((v / 0x1_0000_0000) as u32) + be32_bytes((v % 0x1_0000_0000) as u32)
}

/// Value of a big-endian byte pair.
pub open spec fn be16_value(hi: u8, lo: u8) -> int {
    hi as int * 256 + lo as int
}

/// Value of four big-endian bytes.
pub open spec fn be32_value(b0: u8, b1: u8, b2: u8, b3: u8) -> int {
    b0 as int * 0x1000000 + b1 as int * 0x10000 + b2 as int * 256 + b3 as int
}

/// A byte sequence preceded by its length as a big-endian u32.
pub open spec fn len_prefixed(b: Seq<u8>) -> Seq<u8> {
    be32_bytes(b.len() as u32) + b
}

/// Strict lexicographic order on byte sequences (a proper prefix is smaller).
pub open spec fn lex_lt(a: Seq<u8>, b: Seq<u8>) -> bool
    decreases a.len(),
{
    if a.len() == 0 {
        b.len() > 0
    } else if b.len() == 0 {
        false
    } else if a[0] < b[0] {
        true
    } else if a[0] > b[0] {
        false
    } else {
        lex_lt(a.drop_first(), b.drop_first())
    }
}

/// Append a big-endian u16.
pub fn push_be16(out: &mut Vec<u8>, v: u16)
    ensures
        final(out)@ == old(out)@ + be16_bytes(v),
{
    out.push((v / 256) as u8);
    out.push((v % 256) as u8);
    assert(final(out)@ =~= old(out)@ + be16_bytes(v));
}

/// Append a big-endian u32.
pub fn push_be32(out: &mut Vec<u8>, v: u32)
    ensures
        final(out)@ == old(out)@ + be32_bytes(v),
{
    out.push((v / 0x1000000) as u8);
    out.push(((v / 0x10000) % 256) as u8);
    out.push(((v / 256) % 256) as u8);
    out.push((v % 256) as u8);
    assert(final(out)@ =~= old(out)@ + be32_bytes(v));
}

/// Append a big-endian u64.
pub fn push_be64(out: &mut Vec<u8>, v: u64)
    ensures
        final(out)@ == old(out)@ + be64_bytes(v),
{
    let ghost start = out@;
    push_be32(out, (v / 0x1_0000_0000) as u32);
    push_be32(out, (v % 0x1_0000_0000) as u32);
    assert(out@ =~= start + be64_bytes(v));
}

/// Append a byte slice.
pub fn push_bytes(out: &mut Vec<u8>, b: &[u8])
    ensures
        final(out)@ == old(out)@ + b@,
{
    let ghost start = out@;
    let mut i: usize = 0;
    while i < b.len()
        invariant
            i <= b@.len(),
            out@ == start + b@.subrange(0, i as int),
        decreases b@.len() - i,
    {
        out.push(b[i]);
        i = i + 1;
        assert(out@ =~= start + b@.subrange(0, i as int));
    }
    assert(b@.subrange(0, b@.len() as int) =~= b@);
}

/// Append a byte slice preceded by its length as a big-endian u32.
pub fn push_len_prefixed(out: &mut Vec<u8>, b: &[u8])
    ensures
        final(out)@ == old(out)@ + len_prefixed(b@),
{
    let ghost start = out@;
    push_be32(out, b.len() as u32);
    push_bytes(out, b);
    assert(out@ =~= start + len_prefixed(b@));
}

/// Copy a slice into a new vector.
pub fn copy_bytes(b: &[u8]) -> (v: Vec<u8>)
    ensures
        v@ == b@,
{
    let mut v: Vec<u8> = Vec::new();
    push_bytes(&mut v, b);
    assert(v@ =~= b@);
    v
}

/// Byte-wise equality of two slices.
pub fn bytes_eq(a: &[u8], b: &[u8]) -> (r: bool)
    ensures
        r == (a@ == b@),
{
    if a.len() != b.len() {
        return false;
    }
    let mut i: usize = 0;
    while i < a.len()
        invariant
            a@.len() == b@.len(),
            i <= a@.len(),
            forall|j: int| 0 <= j < i ==> a@[j] == b@[j],
        decreases a@.len() - i,
    {
        if a[i] != b[i] {
            return false;
        }
        i = i + 1;
    }
    assert(a@ =~= b@);
    true
}

/// Strict lexicographic comparison of two slices.
pub fn bytes_lt(a: &[u8], b: &[u8]) -> (r: bool)
    ensures
        r == lex_lt(a@, b@),
{
    let mut i: usize = 0;
    assert(a@.subrange(0, a@.len() as int) =~= a@);
    assert(b@.subrange(0, b@.len() as int) =~= b@);
    while i < a.len() && i < b.len()
        invariant
            i <= a@.len(),
            i <= b@.len(),
            lex_lt(a@, b@) == lex_lt(a@.subrange(i as int, a@.len() as int), b@.subrange(i as int, b@.len() as int)),
        decreases a@.len() - i,
    {
        let ghost sa = a@.subrange(i as int, a@.len() as int);
        let ghost sb = b@.subrange(i as int, b@.len() as int);
        if a[i] < b[i] {
            return true;
        }
        if a[i] > b[i] {
            return false;
        }
        assert(sa.drop_first() =~= a@.subrange(i + 1, a@.len() as int));
        assert(sb.drop_first() =~= b@.subrange(i + 1, b@.len() as int));
        i = i + 1;
    }
    let ghost sa = a@.subrange(i as int, a@.len() as int);
    let ghost sb = b@.subrange(i as int, b@.len() as int);
    assert(sa.len() == 0 || sb.len() == 0);
    i == a.len() && i < b.len()
}

/// The order is irreflexive.
pub proof fn lemma_lex_irreflexive(a: Seq<u8>)
    ensures
        !lex_lt(a, a),
    decreases a.len(),
{
    if a.len() > 0 {
        lemma_lex_irreflexive(a.drop_first());
    }
}

/// The order is asymmetric.
pub proof fn lemma_lex_asymmetric(a: Seq<u8>, b: Seq<u8>)
    requires
        lex_lt(a, b),
    ensures
        !lex_lt(b, a),
    decreases a.len(),
{
    if a.len() > 0 && b.len() > 0 && a[0] == b[0] {
        lemma_lex_asymmetric(a.drop_first(), b.drop_first());
    }
}

/// The order is transitive.
pub proof fn lemma_lex_transitive(a: Seq<u8>, b: Seq<u8>, c: Seq<u8>)
    requires
        lex_lt(a, b),
        lex_lt(b, c),
    ensures
        lex_lt(a, c),
    decreases a.len(),
{
    if a.len() > 0 && b.len() > 0 && c.len() > 0 && a[0] == b[0] && b[0] == c[0] {
        lemma_lex_transitive(a.drop_first(), b.drop_first(), c.drop_first());
    }
}

/// Distinct sequences are ordered one way or the other.
pub proof fn lemma_lex_total(a: Seq<u8>, b: Seq<u8>)
    requires
        a != b,
    ensures
        lex_lt(a, b) || lex_lt(b, a),
    decreases a.len(),
{
    if a.len() == 0 {
        if b.len() == 0 {
            assert(a =~= b);
        }
    } else if b.len() > 0 && a[0] == b[0] {
        let a1 = a.drop_first();
        let b1 = b.drop_first();
        if a1 == b1 {
            assert(a1.len() == b1.len());
            assert(a.len() == b.len());
            assert forall|i: int| 0 <= i < a.len() implies a[i] == b[i] by {
                if i > 0 {
                    assert(a[i] == a1[i - 1]);
                    assert(b[i] == b1[i - 1]);
                }
            }
            assert(a =~= b);
        }
        lemma_lex_total(a.drop_first(), b.drop_first());
    }
}

/// Comparing two sequences that start with prefixes of equal length
/// compares the prefixes first.
pub proof fn lemma_lex_prefix(x: Seq<u8>, y: Seq<u8>, xs: Seq<u8>, ys: Seq<u8>)
    requires
        x.len() == y.len(),
    ensures
        lex_lt(x + xs, y + ys) == (lex_lt(x, y) || (x == y && lex_lt(xs, ys))),
    decreases x.len(),
{
    if x.len() == 0 {
        assert(x + xs =~= xs);
        assert(y + ys =~= ys);
        assert(x =~= y);
    } else {
        lemma_lex_prefix(x.drop_first(), y.drop_first(), xs, ys);
        assert((x + xs).drop_first() =~= x.drop_first() + xs);
        assert((y + ys).drop_first() =~= y.drop_first() + ys);
        if x[0] == y[0] && x.drop_first() == y.drop_first() {
            assert forall|i: int| 0 <= i < x.len() implies x[i] == y[i] by {
                if i > 0 {
                    assert(x[i] == x.drop_first()[i - 1] && y[i] == y.drop_first()[i - 1]);
                }
            }
            assert(x =~= y);
        }
        if x == y {
            assert(x.drop_first() == y.drop_first());
        }
    }
}


pub(crate) proof fn lemma_be32_order(a: u32, b: u32)
    ensures
        lex_lt(be32_bytes(a), be32_bytes(b)) <==> a < b,
{
    let x = be32_bytes(a);
    let y = be32_bytes(b);
    reveal_with_fuel(lex_lt, 5);
    assert(x.drop_first().drop_first().drop_first().drop_first().len() == 0);
    assert(a < b <==> (a / 0x1000000 < b / 0x1000000 || (a / 0x1000000 == b / 0x1000000 && ((a / 0x10000) % 256
        < (b / 0x10000) % 256 || ((a / 0x10000) % 256 == (b / 0x10000) % 256 && ((a / 256) % 256 < (b / 256) % 256
        || ((a / 256) % 256 == (b / 256) % 256 && a % 256 < b % 256))))))) by (bit_vector);
    assert(a / 0x1000000 < 256 && b / 0x1000000 < 256) by (bit_vector);
}

proof fn lemma_u64_halves(a: u64, b: u64)
    ensures
        a / 0x1_0000_0000 < 0x1_0000_0000,
        b / 0x1_0000_0000 < 0x1_0000_0000,
        a < b <==> (a / 0x1_0000_0000 < b / 0x1_0000_0000 || (a / 0x1_0000_0000 == b / 0x1_0000_0000 && a
            % 0x1_0000_0000 < b % 0x1_0000_0000)),
{
    assert(a / 0x1_0000_0000 < 0x1_0000_0000 && b / 0x1_0000_0000 < 0x1_0000_0000) by (bit_vector);
    assert(a < b <==> (a / 0x1_0000_0000 < b / 0x1_0000_0000 || (a / 0x1_0000_0000 == b / 0x1_0000_0000 && a
        % 0x1_0000_0000 < b % 0x1_0000_0000))) by (bit_vector);
}

/// Big-endian order of 64-bit values is their numeric order.
pub proof fn lemma_be64_order(a: u64, b: u64)
    ensures
        lex_lt(be64_bytes(a), be64_bytes(b)) <==> a < b,
{
    lemma_u64_halves(a, b);
    let ah = (a / 0x1_0000_0000) as u32;
    let al = (a % 0x1_0000_0000) as u32;
    let bh = (b / 0x1_0000_0000) as u32;
    let bl = (b % 0x1_0000_0000) as u32;
    let x1 = be32_bytes(ah);
    let x2 = be32_bytes(al);
    let y1 = be32_bytes(bh);
    let y2 = be32_bytes(bl);
    assert(be64_bytes(a) == x1 + x2);
    assert(be64_bytes(b) == y1 + y2);
    lemma_lex_prefix(x1, y1, x2, y2);
    lemma_be32_order(ah, bh);
    lemma_be32_order(bh, ah);
    lemma_be32_order(al, bl);
    lemma_lex_irreflexive(x1);
}

/// The insertion order lists the keys in non-decreasing order.
pub proof fn lemma_sorted_order_sorted(n: nat, keys: Seq<Seq<u8>>)
    requires
        n <= keys.len(),
    ensures
        sorted_order(n, keys).len() == n,
        forall|a: int, b: int| 0 <= a < b < n ==> !lex_lt(
            #[trigger] keys[sorted_order(n, keys)[b]],
            #[trigger] keys[sorted_order(n, keys)[a]],
        ),
    decreases n,
{
    lemma_sorted_order_len(n, keys);
    if n > 0 {
        let prev = sorted_order((n - 1) as nat, keys);
        lemma_sorted_order_sorted((n - 1) as nat, keys);
        lemma_insert_position(prev, n - 1, keys);
        let p = insert_position(prev, n - 1, keys);
        let cur = sorted_order(n, keys);
        let kx = keys[n - 1];
        assert(cur == prev.insert(p, n - 1));
        assert forall|a: int, b: int| 0 <= a < b < n implies !lex_lt(
            #[trigger] keys[cur[b]],
            #[trigger] keys[cur[a]],
        ) by {
            let a2 = if a < p { a } else { a - 1 };
            let b2 = if b < p { b } else { b - 1 };
            if a != p && b != p {
                assert(cur[a] == prev[a2] && cur[b] == prev[b2]);
            } else if a == p {
                assert(cur[b] == prev[b2]);
                assert(lex_lt(kx, keys[prev[p]]));
                if lex_lt(keys[prev[b2]], kx) {
                    lemma_lex_transitive(keys[prev[b2]], kx, keys[prev[p]]);
                    if b2 == p {
                        lemma_lex_irreflexive(keys[prev[p]]);
                    }
                }
            } else {
                assert(cur[a] == prev[a2]);
            }
        }
    }
}

/// Insert `x` before the first element that is strictly greater than it.
pub open spec fn insert_sorted(sorted: Seq<int>, x: int, keys: Seq<Seq<u8>>) -> Seq<int>
    decreases sorted.len(),
{
    if sorted.len() == 0 {
        seq![x]
    } else if lex_lt(keys[x], keys[sorted[0]]) {
        seq![x] + sorted
    } else {
        seq![sorted[0]] + insert_sorted(sorted.drop_first(), x, keys)
    }
}

/// Stable insertion sort of the indices `0..n` by their sort keys.
pub open spec fn sorted_order(n: nat, keys: Seq<Seq<u8>>) -> Seq<int>
    decreases n,
{
    if n == 0 {
        seq![]
    } else {
        insert_sorted(sorted_order((n - 1) as nat, keys), n - 1, keys)
    }
}

/// Position of the first element strictly greater than `x`.
pub open spec fn insert_position(sorted: Seq<int>, x: int, keys: Seq<Seq<u8>>) -> int
    decreases sorted.len(),
{
    if sorted.len() == 0 {
        0
    } else if lex_lt(keys[x], keys[sorted[0]]) {
        0
    } else {
        1 + insert_position(sorted.drop_first(), x, keys)
    }
}

pub(crate) proof fn lemma_insert_position(sorted: Seq<int>, x: int, keys: Seq<Seq<u8>>)
    ensures
        0 <= insert_position(sorted, x, keys) <= sorted.len(),
        insert_sorted(sorted, x, keys) == sorted.insert(insert_position(sorted, x, keys), x),
        forall|j: int| 0 <= j < insert_position(sorted, x, keys) ==> !lex_lt(keys[x], #[trigger] keys[sorted[j]]),
        insert_position(sorted, x, keys) < sorted.len() ==> lex_lt(keys[x], keys[sorted[insert_position(sorted, x, keys)]]),
    decreases sorted.len(),
{
    if sorted.len() == 0 {
        assert(seq![x] =~= sorted.insert(0, x));
    } else if lex_lt(keys[x], keys[sorted[0]]) {
        assert(seq![x] + sorted =~= sorted.insert(0, x));
    } else {
        let rest = sorted.drop_first();
        lemma_insert_position(rest, x, keys);
        let p = insert_position(rest, x, keys);
        assert(seq![sorted[0]] + rest.insert(p, x) =~= sorted.insert(p + 1, x));
        assert forall|j: int| 0 <= j < p + 1 implies !lex_lt(keys[x], #[trigger] keys[sorted[j]]) by {
            if j > 0 {
                assert(sorted[j] == rest[j - 1]);
            }
        }
        if p + 1 < sorted.len() {
            assert(sorted[p + 1] == rest[p]);
        }
    }
}

pub proof fn lemma_sorted_order_len(n: nat, keys: Seq<Seq<u8>>)
    ensures
        sorted_order(n, keys).len() == n,
        forall|j: int| 0 <= j < n ==> 0 <= #[trigger] sorted_order(n, keys)[j] < n,
    decreases n,
{
    if n > 0 {
        lemma_sorted_order_len((n - 1) as nat, keys);
        let prev = sorted_order((n - 1) as nat, keys);
        lemma_insert_position(prev, n - 1, keys);
        let p = insert_position(prev, n - 1, keys);
        assert forall|j: int| 0 <= j < n implies 0 <= #[trigger] sorted_order(n, keys)[j] < n by {
            if j < p {
                assert(sorted_order(n, keys)[j] == prev[j]);
            } else if j > p {
                assert(sorted_order(n, keys)[j] == prev[j - 1]);
            }
        }
    }
}

/// Indices of `keys` in stable ascending lexicographic order of the keys.
pub fn sort_indices(keys: &Vec<Vec<u8>>) -> (order: Vec<usize>)
    ensures
        order@.len() == keys@.len(),
        forall|j: int| 0 <= j < order@.len() ==> order@[j] as int == sorted_order(keys@.len() as nat, keys@.map_values(|k: Vec<u8>| k@))[j],
        forall|j: int| 0 <= j < order@.len() ==> #[trigger] order@[j] < keys@.len(),
{
    let ghost kv = keys@.map_values(|k: Vec<u8>| k@);
    let mut order: Vec<usize> = Vec::new();
    let mut n: usize = 0;
    while n < keys.len()
        invariant
            n <= keys@.len(),
            kv == keys@.map_values(|k: Vec<u8>| k@),
            order@.len() == n,
            forall|j: int| 0 <= j < n ==> order@[j] as int == #[trigger] sorted_order(n as nat, kv)[j],
        decreases keys@.len() - n,
    {
        proof {
            lemma_sorted_order_len(n as nat, kv);
        }
        let ghost prev = sorted_order(n as nat, kv);
        assert forall|j: int| 0 <= j < n implies #[trigger] order@[j] < n && order@[j] as int == prev[j] by {
            assert(order@[j] as int == sorted_order(n as nat, kv)[j]);
        }
        let mut p: usize = 0;
        while p < order.len() && !bytes_lt(keys[n].as_slice(), keys[order[p]].as_slice())
            invariant
                p <= order@.len(),
                order@.len() == n,
                n < keys@.len(),
                kv == keys@.map_values(|k: Vec<u8>| k@),
                prev == sorted_order(n as nat, kv),
                prev.len() == n,
                forall|j: int| 0 <= j < n ==> 0 <= #[trigger] prev[j] < n,
                forall|j: int| 0 <= j < n ==> #[trigger] order@[j] < n && order@[j] as int == prev[j],
                forall|j: int| 0 <= j < p ==> !lex_lt(kv[n as int], #[trigger] kv[prev[j]]),
            decreases order@.len() - p,
        {
            p = p + 1;
        }
        proof {
            lemma_insert_position(prev, n as int, kv);
            let q = insert_position(prev, n as int, kv);
            if p < q {
                assert(!lex_lt(kv[n as int], kv[prev[p as int]]));
            }
            if q < p {
                assert(!lex_lt(kv[n as int], kv[prev[q]]));
            }
            assert(p == q);
        }
        let ghost before = order@;
        order.insert(p, n);
        n = n + 1;
        proof {
            let cur = sorted_order(n as nat, kv);
            assert(cur == prev.insert(p as int, (n - 1) as int));
            assert forall|j: int| 0 <= j < n implies order@[j] as int == #[trigger] sorted_order(n as nat, kv)[j] by {
                if j < p {
                } else if j == p {
                } else {
                    assert(order@[j] == before[j - 1]);
                }
            }
        }
    }
    proof {
        lemma_sorted_order_len(n as nat, kv);
        assert forall|j: int| 0 <= j < order@.len() implies #[trigger] order@[j] < keys@.len() by {
            assert(order@[j] as int == sorted_order(n as nat, kv)[j]);
        }
    }
    order
}

} // verus!
