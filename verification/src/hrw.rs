//! Highest-random-weight hashing: every node ranks the candidates for a key
//! in the same order, without talking to the others.

use vstd::prelude::*;

verus! {

pub const FNV_OFFSET: u64 = 0xcbf29ce484222325;

pub const FNV_PRIME: u64 = 0x100000001b3;

/// FNV-1a over a byte string: for each byte, exclusive-or, then multiply
/// modulo 2^64.
pub open spec fn fnv1a_of(bytes: Seq<u8>) -> u64
    decreases bytes.len(),
{
    if bytes.len() == 0 {
        FNV_OFFSET
    } else {
        (fnv1a_of(bytes.drop_last()) ^ (bytes.last() as u64)).wrapping_mul(FNV_PRIME)
    }
}

/// The 64-bit finalizer of MurmurHash3.
pub open spec fn fmix64_of(k: u64) -> u64 {
    let a = (k ^ (k >> 33)).wrapping_mul(0xff51afd7ed558ccd);
    let b = (a ^ (a >> 33)).wrapping_mul(0xc4ceb9fe1a85ec53);
    b ^ (b >> 33)
}

/// The hash of `key` combined with the identifier of a node.
pub open spec fn combined_hash_of(key: Seq<u8>, node_id: Seq<u8>) -> u64 {
    fmix64_of(fnv1a_of(key).wrapping_mul(FNV_PRIME) ^ fnv1a_of(node_id))
}

pub fn fnv1a(bytes: &[u8]) -> (r: u64)
    ensures
        r == fnv1a_of(bytes@),
{
    let mut hash: u64 = FNV_OFFSET;
    let mut i: usize = 0;
    while i < bytes.len()
        invariant
            i <= bytes.len(),
            hash == fnv1a_of(bytes@.take(i as int)),
        decreases bytes.len() - i,
    {
        hash = hash ^ (bytes[i] as u64);
        hash = hash.wrapping_mul(FNV_PRIME);
        i = i + 1;
        assert(bytes@.take(i as int).drop_last() =~= bytes@.take(i - 1));
    }
    assert(bytes@.take(i as int) =~= bytes@);
    hash
}

/// Spreads the bits of `k` once more: FNV-1a alone is weak on the high bits.
pub fn fmix64(k: u64) -> (r: u64)
    ensures
        r == fmix64_of(k),
{
    let a: u64 = (k ^ (k >> 33)).wrapping_mul(0xff51afd7ed558ccd);
    let b: u64 = (a ^ (a >> 33)).wrapping_mul(0xc4ceb9fe1a85ec53);
    b ^ (b >> 33)
}

/// Combines `key` and the identifier of a node into one well spread number.
/// Not cryptographic.
pub fn combined_hash(key: &[u8], node_id: &[u8]) -> (r: u64)
    ensures
        r == combined_hash_of(key@, node_id@),
{
    let h: u64 = fnv1a(key);
    fmix64(h.wrapping_mul(FNV_PRIME) ^ fnv1a(node_id))
}

/// The unweighted score of a node for `key`: the raw hash. The highest wins.
pub fn score(key: &[u8], node_id: &[u8]) -> (r: u64)
    ensures
        r == combined_hash_of(key@, node_id@),
{
    combined_hash(key, node_id)
}

/// Whether position `i` holds the highest score, the last one among equals.
pub open spec fn wins(scores: Seq<i64>, i: int) -> bool {
    &&& 0 <= i < scores.len()
    &&& forall|j: int| 0 <= j < scores.len() ==> scores[j] <= scores[i]
    &&& forall|j: int| i < j < scores.len() ==> scores[j] < scores[i]
}

/// Whether position `i` ranks before position `j`: a higher score first,
/// equal scores in the order of their positions.
pub open spec fn ranks_before(scores: Seq<i64>, i: int, j: int) -> bool {
    scores[i] > scores[j] || (scores[i] == scores[j] && i < j)
}

/// Whether `order` lists each of the first `n` positions once, best first.
pub open spec fn is_ranking(scores: Seq<i64>, order: Seq<usize>, n: int) -> bool {
    &&& order.len() == n
    &&& forall|p: int| 0 <= p < order.len() ==> 0 <= (#[trigger] order[p]) < n
    &&& forall|p: int, q: int|
        0 <= p < q < order.len() ==> ranks_before(
            scores,
            (#[trigger] order[p]) as int,
            (#[trigger] order[q]) as int,
        )
    &&& forall|i: int| 0 <= i < n ==> #[trigger] order.contains(i as usize)
}

/// The node with the highest score among `nodes`, or `None` without nodes;
/// `scores[i]` orders `nodes[i]`. Among equal scores the last node wins.
pub fn pick<'a, N>(scores: &[i64], nodes: &'a [N]) -> (r: Option<&'a N>)
    requires
        scores.len() == nodes.len(),
    ensures
        r is None <==> nodes.len() == 0,
        r matches Some(node) ==> exists|i: int|
            #[trigger] wins(scores@, i) && *node == nodes@[i],
{
    if nodes.len() == 0 {
        return None;
    }
    let mut best: usize = 0;
    let mut i: usize = 1;
    while i < nodes.len()
        invariant
            scores.len() == nodes.len(),
            best < i <= nodes.len(),
            forall|j: int| 0 <= j < i ==> scores@[j] <= scores@[best as int],
            forall|j: int| best < j < i ==> scores@[j] < scores@[best as int],
        decreases nodes.len() - i,
    {
        if scores[i] >= scores[best] {
            best = i;
        }
        i = i + 1;
    }
    assert(wins(scores@, best as int));
    Some(&nodes[best])
}

/// The positions of `scores`, best first; equal scores keep their order.
pub fn rank(scores: &[i64]) -> (order: Vec<usize>)
    ensures
        is_ranking(scores@, order@, scores.len() as int),
{
    let mut order: Vec<usize> = Vec::new();
    let mut i: usize = 0;
    while i < scores.len()
        invariant
            i <= scores.len(),
            is_ranking(scores@, order@, i as int),
        decreases scores.len() - i,
    {
        let mut at: usize = order.len();
        while at > 0 && scores[order[at - 1]] < scores[i]
            invariant
                i < scores.len(),
                at <= order.len(),
                is_ranking(scores@, order@, i as int),
                forall|p: int| at <= p < order.len() ==> scores@[(#[trigger] order@[p]) as int] < scores@[i as int],
            decreases at,
        {
            at = at - 1;
        }
        let ghost before = order@;
        proof {
            assert forall|p: int| 0 <= p < at implies ranks_before(
                scores@,
                (#[trigger] before[p]) as int,
                i as int,
            ) by {
                if p < at - 1 {
                    assert(ranks_before(scores@, before[p] as int, before[at - 1] as int));
                }
            }
        }
        order.insert(at, i);
        proof {
            assert(order@ =~= before.insert(at as int, i));
            assert forall|p: int| 0 <= p < order@.len() implies 0 <= (#[trigger] order@[p]) < i + 1 by {
                if p < at {
                    assert(order@[p] == before[p]);
                } else if p > at {
                    assert(order@[p] == before[p - 1]);
                }
            }
            assert forall|p: int, q: int| 0 <= p < q < order@.len() implies ranks_before(
                scores@,
                (#[trigger] order@[p]) as int,
                (#[trigger] order@[q]) as int,
            ) by {
                let op = if p < at { p } else { p - 1 };
                let oq = if q < at { q } else { q - 1 };
                if p != at {
                    assert(order@[p] == before[op]);
                }
                if q != at {
                    assert(order@[q] == before[oq]);
                }
            }
            assert forall|k: int| 0 <= k < i + 1 implies #[trigger] order@.contains(k as usize) by {
                if k == i {
                    assert(order@[at as int] == i);
                } else {
                    assert(before.contains(k as usize));
                    let p = choose|p: int| 0 <= p < before.len() && before[p] == k as usize;
                    if p < at {
                        assert(order@[p] == k as usize);
                    } else {
                        assert(order@[p + 1] == k as usize);
                    }
                }
            }
        }
        i = i + 1;
    }
    order
}

/// The `n` best nodes, best first; `scores[i]` orders `nodes[i]`. Equal scores
/// keep the order of `nodes`. A caller that fails on one candidate retries on
/// the next one in this order.
pub fn pick_top_n<'a, N>(scores: &[i64], nodes: &'a [N], n: usize) -> (r: Vec<&'a N>)
    requires
        scores.len() == nodes.len(),
    ensures
        r.len() == (if n < nodes.len() {
            n as int
        } else {
            nodes.len() as int
        }),
        forall|order: Seq<usize>, p: int|
            #[trigger] is_ranking(scores@, order, nodes.len() as int) && 0 <= p < r.len()
                ==> *(#[trigger] r@[p]) == nodes@[order[p] as int],
{
    let order = rank(scores);
    let mut r: Vec<&'a N> = Vec::new();
    let mut i: usize = 0;
    while i < n && i < nodes.len()
        invariant
            scores.len() == nodes.len(),
            is_ranking(scores@, order@, scores.len() as int),
            i <= n,
            i <= nodes.len(),
            r.len() == i,
            forall|p: int| 0 <= p < i ==> *(#[trigger] r@[p]) == nodes@[order@[p] as int],
        decreases nodes.len() - i,
    {
        r.push(&nodes[order[i]]);
        i = i + 1;
    }
    proof {
        assert forall|other: Seq<usize>, p: int| #[trigger]
            is_ranking(scores@, other, nodes.len() as int) && 0 <= p < r.len() implies *(
        #[trigger] r@[p]) == nodes@[other[p] as int] by {
            lemma_ranking_unique(scores@, order@, other, nodes.len() as int);
        }
    }
    r
}

/// There is only one ranking of given scores, so every node that computes it
/// comes to the same one.
pub proof fn lemma_ranking_unique(scores: Seq<i64>, a: Seq<usize>, b: Seq<usize>, n: int)
    requires
        is_ranking(scores, a, n),
        is_ranking(scores, b, n),
        n <= scores.len(),
        n <= usize::MAX,
    ensures
        a == b,
{
    assert forall|p: int| 0 <= p < n implies a[p] == b[p] by {
        lemma_ranking_unique_at(scores, a, b, n, p);
    }
    assert(a =~= b);
}

proof fn lemma_ranking_unique_at(scores: Seq<i64>, a: Seq<usize>, b: Seq<usize>, n: int, p: int)
    requires
        is_ranking(scores, a, n),
        is_ranking(scores, b, n),
        n <= scores.len(),
        n <= usize::MAX,
        0 <= p < n,
    ensures
        a[p] == b[p],
    decreases p,
{
    assert forall|q: int| 0 <= q < p implies a[q] == b[q] by {
        lemma_ranking_unique_at(scores, a, b, n, q);
    }
    if a[p] != b[p] {
        let x = a[p];
        let y = b[p];
        assert(b.contains((x as int) as usize));
        assert(a.contains((y as int) as usize));
        let px = choose|q: int| 0 <= q < b.len() && b[q] == x;
        let py = choose|q: int| 0 <= q < a.len() && a[q] == y;
        if px < p {
            assert(a[px] == x);
            assert(ranks_before(scores, a[px] as int, a[p] as int));
        }
        if py < p {
            assert(b[py] == y);
            assert(ranks_before(scores, b[py] as int, b[p] as int));
        }
        assert(ranks_before(scores, b[p] as int, b[px] as int));
        assert(ranks_before(scores, a[p] as int, a[py] as int));
    }
}

/// Where no two scores are equal, the winner is the first of the ranking.
pub proof fn lemma_winner_ranks_first(scores: Seq<i64>, order: Seq<usize>, i: int)
    requires
        is_ranking(scores, order, scores.len() as int),
        wins(scores, i),
        scores.len() <= usize::MAX,
        scores.no_duplicates(),
    ensures
        order[0] == i,
{
    assert(order.contains(i as usize));
    let p = choose|p: int| 0 <= p < order.len() && order[p] == i as usize;
    if p > 0 {
        assert(ranks_before(scores, order[0] as int, order[p] as int));
    }
}

/// When a node leaves, only what it had won moves: whoever won before and
/// stays wins among those that stay.
pub proof fn lemma_winner_survives_departure(scores: Seq<i64>, i: int, gone: int)
    requires
        wins(scores, i),
        0 <= gone < scores.len(),
        gone != i,
    ensures
        wins(
            scores.remove(gone),
            if gone < i {
                i - 1
            } else {
                i
            },
        ),
{
    let rest = scores.remove(gone);
    let at = if gone < i {
        i - 1
    } else {
        i
    };
    assert(rest[at] == scores[i]);
    assert forall|j: int| 0 <= j < rest.len() implies rest[j] <= rest[at] && (j > at ==> rest[j]
        < rest[at]) by {
        let from = if j < gone {
            j
        } else {
            j + 1
        };
        assert(rest[j] == scores[from]);
    }
}

/// The winner is a candidate that no other outscores, and of equal ones the last.
pub proof fn lemma_winner_scores_highest(scores: Seq<i64>, i: int, j: int)
    requires
        wins(scores, i),
        0 <= j < scores.len(),
    ensures
        0 <= i < scores.len(),
        scores[j] <= scores[i],
        scores[j] == scores[i] ==> j <= i,
{
}

/// A ranking goes down the scores, and through equal ones in the order of the
/// candidates.
pub proof fn lemma_ranking_descends(scores: Seq<i64>, order: Seq<usize>, p: int, q: int)
    requires
        is_ranking(scores, order, scores.len() as int),
        0 <= p < q < order.len(),
    ensures
        order.len() == scores.len(),
        order[p] < scores.len() && order[q] < scores.len(),
        scores[order[p] as int] >= scores[order[q] as int],
        scores[order[p] as int] == scores[order[q] as int] ==> order[p] < order[q],
{
    assert(ranks_before(scores, order[p] as int, order[q] as int));
}

/// No candidate is missing from a ranking.
pub proof fn lemma_ranking_is_complete(scores: Seq<i64>, order: Seq<usize>, i: usize) -> (p: int)
    requires
        is_ranking(scores, order, scores.len() as int),
        i < scores.len(),
    ensures
        0 <= p < order.len(),
        order[p] == i,
{
    assert(order.contains(i as int as usize));
    choose|p: int| 0 <= p < order.len() && order[p] == i
}

/// The hash of bytes starts at the offset basis, and each byte is mixed in and
/// multiplied by the prime, modulo 2^64.
pub proof fn lemma_fnv1a_steps(bytes: Seq<u8>, byte: u8)
    ensures
        fnv1a_of(Seq::empty()) == 14695981039346656037u64,
        fnv1a_of(bytes.push(byte)) == ((fnv1a_of(bytes) ^ (byte as u64)) * 1099511628211)
            % 0x1_0000_0000_0000_0000,
{
    assert(bytes.push(byte).drop_last() =~= bytes);
}

/// A multiplication modulo 2^64 by a factor that has an inverse is undone by the
/// inverse.
proof fn lemma_product_undone(x: u64, factor: u64, inverse: u64)
    requires
        (factor * inverse) % 0x1_0000_0000_0000_0000 == 1,
    ensures
        x.wrapping_mul(factor).wrapping_mul(inverse) == x,
{
    let m: int = 0x1_0000_0000_0000_0000;
    let product: int = x * factor;
    let both: int = factor * inverse;
    assert(x.wrapping_mul(factor) == product % m);
    vstd::arithmetic::div_mod::lemma_mul_mod_noop_left(product, inverse as int, m);
    assert(product * inverse == x * both) by (nonlinear_arith)
        requires
            product == x * factor,
            both == factor * inverse,
    ;
    vstd::arithmetic::div_mod::lemma_mul_mod_noop_right(x as int, both, m);
    assert(x * 1 == x);
    vstd::arithmetic::div_mod::lemma_small_mod(x as nat, m as nat);
}

/// Mixing loses nothing: different numbers are mixed to different numbers.
pub proof fn lemma_fmix64_is_injective(a: u64, b: u64)
    ensures
        fmix64_of(a) == fmix64_of(b) ==> a == b,
{
    if fmix64_of(a) == fmix64_of(b) {
        let a1 = a ^ (a >> 33);
        let b1 = b ^ (b >> 33);
        let a2 = a1.wrapping_mul(0xff51afd7ed558ccd);
        let b2 = b1.wrapping_mul(0xff51afd7ed558ccd);
        let a3 = a2 ^ (a2 >> 33);
        let b3 = b2 ^ (b2 >> 33);
        let a4 = a3.wrapping_mul(0xc4ceb9fe1a85ec53);
        let b4 = b3.wrapping_mul(0xc4ceb9fe1a85ec53);
        lemma_shift_undone(a4, b4);
        lemma_product_undone(a3, 0xc4ceb9fe1a85ec53, 0x9cb4b2f8129337db);
        lemma_product_undone(b3, 0xc4ceb9fe1a85ec53, 0x9cb4b2f8129337db);
        lemma_shift_undone(a2, b2);
        lemma_product_undone(a1, 0xff51afd7ed558ccd, 0x4f74430c22a54005);
        lemma_product_undone(b1, 0xff51afd7ed558ccd, 0x4f74430c22a54005);
        lemma_shift_undone(a, b);
    }
}

/// Numbers that differ still differ after their upper part is mixed into their
/// lower one.
proof fn lemma_shift_undone(a: u64, b: u64)
    ensures
        a ^ (a >> 33) == b ^ (b >> 33) ==> a == b,
{
    assert(a ^ (a >> 33) == b ^ (b >> 33) ==> a == b) by (bit_vector);
}

/// The score tells keys and nodes apart as far as their hashes do: with the same
/// key, nodes of different hashes have different scores, and with the same
/// node, keys of different hashes have.
pub proof fn lemma_scores_differ_as_hashes_do(
    key: Seq<u8>,
    other_key: Seq<u8>,
    node: Seq<u8>,
    other_node: Seq<u8>,
)
    ensures
        combined_hash_of(key, node) == combined_hash_of(key, other_node) <==> fnv1a_of(node)
            == fnv1a_of(other_node),
        combined_hash_of(key, node) == combined_hash_of(other_key, node) <==> fnv1a_of(key)
            == fnv1a_of(other_key),
{
    let k = fnv1a_of(key).wrapping_mul(FNV_PRIME);
    let l = fnv1a_of(other_key).wrapping_mul(FNV_PRIME);
    let n = fnv1a_of(node);
    let m = fnv1a_of(other_node);
    lemma_fmix64_is_injective(k ^ n, k ^ m);
    lemma_fmix64_is_injective(k ^ n, l ^ n);
    assert(k ^ n == k ^ m ==> n == m) by (bit_vector);
    assert(k ^ n == l ^ n ==> k == l) by (bit_vector);
    lemma_product_undone(fnv1a_of(key), FNV_PRIME, 0xce965057aff6957b);
    lemma_product_undone(fnv1a_of(other_key), FNV_PRIME, 0xce965057aff6957b);
}

/// Mixing is twice a multiplication modulo 2^64, by two odd factors, and before,
/// between and after these the upper 31 bits are mixed into the lower ones.
pub proof fn lemma_fmix64_steps(k: u64, a: u64, b: u64)
    requires
        a == ((k ^ (k / 0x2_0000_0000)) * 0xff51afd7ed558ccd) % 0x1_0000_0000_0000_0000,
        b == ((a ^ (a / 0x2_0000_0000)) * 0xc4ceb9fe1a85ec53) % 0x1_0000_0000_0000_0000,
    ensures
        fmix64_of(k) == b ^ (b / 0x2_0000_0000),
{
    assert(k >> 33 == k / 0x2_0000_0000) by (bit_vector);
    assert(a >> 33 == a / 0x2_0000_0000) by (bit_vector);
    assert(b >> 33 == b / 0x2_0000_0000) by (bit_vector);
}

/// The score of a node for a key mixes the hash of the key, multiplied by the
/// prime, with the hash of the node.
pub proof fn lemma_score_steps(key: Seq<u8>, node: Seq<u8>, spread: u64)
    requires
        spread == (fnv1a_of(key) * 1099511628211) % 0x1_0000_0000_0000_0000,
    ensures
        combined_hash_of(key, node) == fmix64_of(spread ^ fnv1a_of(node)),
{
}

} // verus!
