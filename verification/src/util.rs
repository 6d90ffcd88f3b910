//! Small helpers: the sparse-index predicate used by data-sync digests and a
//! deduplicating merge of two sorted sequences.

use vstd::prelude::*;

verus! {

/// `2^k` as a mathematical integer.
pub open spec fn pow2(k: nat) -> nat
    decreases k,
{
    if k == 0 {
        1
    } else {
        2 * pow2((k - 1) as nat)
    }
}

/// Whether `x` is of the form `2^k - 1` for some `k >= 0` (so `0`, `1`, `3`,
/// `7`, ...). These are the positions retained by the sparse ancestor-round
/// digest.
pub open spec fn spec_is_power2_minus1(x: nat) -> bool {
    exists|k: nat| x + 1 == pow2(k)
}

proof fn lemma_pow2_unfold(k: nat)
    requires
        k > 0,
    ensures
        pow2(k) == 2 * pow2((k - 1) as nat),
{
}

proof fn lemma_pow2_pos(k: nat)
    ensures
        pow2(k) >= 1,
    decreases k,
{
    if k > 0 {
        lemma_pow2_pos((k - 1) as nat);
    }
}

/// Decide whether `x + 1` is a power of two, by testing that the binary
/// representation of `x` is all ones up to its highest set bit.
pub fn is_power2_minus1(x: usize) -> (r: bool)
    requires
        x < usize::MAX,
    ensures
        r <==> spec_is_power2_minus1(x as nat),
{
    let mut p: usize = 1;
    let ghost mut k: nat = 0nat;
    // Walk the powers of two until `p` exceeds `x`.
    loop
        invariant
            1 <= p,
            p == pow2(k),
            p <= x + 1,
            x < usize::MAX,
            forall|j: nat| j < k ==> pow2(j) < x + 1,
        decreases x + 1 - p,
    {
        if p == x + 1 {
            proof {
                assert(x as nat + 1 == pow2(k));
                assert(spec_is_power2_minus1(x as nat));
            }
            return true;
        }
        proof {
            lemma_pow2_pos(k);
        }
        if p > usize::MAX / 2 || 2 * p > x + 1 {
            // No further power of two can equal `x + 1`.
            proof {
                assert forall|j: nat| x as nat + 1 != pow2(j) by {
                    if j < k {
                    } else if j == k {
                    } else {
                        lemma_pow2_mono(k + 1, j);
                        lemma_pow2_unfold(k + 1);
                    }
                }
                assert(!spec_is_power2_minus1(x as nat));
            }
            return false;
        }
        p = 2 * p;
        proof {
            k = k + 1;
        }
    }
}

proof fn lemma_pow2_mono(a: nat, b: nat)
    requires
        a <= b,
    ensures
        pow2(a) <= pow2(b),
    decreases b,
{
    if a < b {
        lemma_pow2_mono(a, (b - 1) as nat);
        lemma_pow2_pos((b - 1) as nat);
    }
}

/// The merge of two sequences: take the smaller head first; when the heads
/// are equal values keep only one copy, and when they merely compare equal
/// keep both, first sequence first.
pub open spec fn spec_merge(s1: Seq<u64>, s2: Seq<u64>) -> Seq<u64>
    decreases s1.len() + s2.len(),
{
    if s1.len() == 0 {
        s2
    } else if s2.len() == 0 {
        s1
    } else if s1[0] < s2[0] {
        seq![s1[0]] + spec_merge(s1.skip(1), s2)
    } else if s1[0] == s2[0] {
        seq![s1[0]] + spec_merge(s1.skip(1), s2.skip(1))
    } else {
        seq![s2[0]] + spec_merge(s1, s2.skip(1))
    }
}

/// Merge two ascending sequences of numbers into one ascending sequence,
/// keeping a single copy of values present in both inputs. Round digests
/// are the one thing merged this way, so the ordering is fixed to the
/// numeric one instead of taking a comparator.
pub fn merge_sort(v1: Vec<u64>, v2: Vec<u64>) -> (r: Vec<u64>)
    ensures
        r@ == spec_merge(v1@, v2@),
{
    let mut result: Vec<u64> = Vec::new();
    let mut i1: usize = 0;
    let mut i2: usize = 0;
    proof {
        assert(v1@.skip(0) =~= v1@);
        assert(v2@.skip(0) =~= v2@);
        assert(result@ + spec_merge(v1@, v2@) =~= spec_merge(v1@, v2@));
    }
    while i1 < v1.len() && i2 < v2.len()
        invariant
            i1 <= v1@.len(),
            i2 <= v2@.len(),
            spec_merge(v1@, v2@) == result@ + spec_merge(v1@.skip(i1 as int), v2@.skip(i2 as int)),
        decreases v1@.len() - i1 + v2@.len() - i2,
    {
        let ghost s1 = v1@.skip(i1 as int);
        let ghost s2 = v2@.skip(i2 as int);
        if v1[i1] < v2[i2] {
            result.push(v1[i1]);
            i1 = i1 + 1;
            proof {
                assert(s1.skip(1) =~= v1@.skip(i1 as int));
            }
        } else if v1[i1] == v2[i2] {
            result.push(v1[i1]);
            i1 = i1 + 1;
            i2 = i2 + 1;
            proof {
                assert(s1.skip(1) =~= v1@.skip(i1 as int));
                assert(s2.skip(1) =~= v2@.skip(i2 as int));
            }
        } else {
            result.push(v2[i2]);
            i2 = i2 + 1;
            proof {
                assert(s2.skip(1) =~= v2@.skip(i2 as int));
            }
        }
    }
    while i1 < v1.len()
        invariant
            i1 <= v1@.len(),
            i2 <= v2@.len(),
            i2 == v2@.len() || i1 == v1@.len(),
            spec_merge(v1@, v2@) == result@ + spec_merge(v1@.skip(i1 as int), v2@.skip(i2 as int)),
        decreases v1@.len() - i1,
    {
        let ghost s1 = v1@.skip(i1 as int);
        result.push(v1[i1]);
        i1 = i1 + 1;
        proof {
            assert(v2@.skip(i2 as int).len() == 0);
            assert(s1.skip(1) =~= v1@.skip(i1 as int));
            assert(spec_merge(s1, v2@.skip(i2 as int)) == seq![s1[0]] + spec_merge(
                s1.skip(1),
                v2@.skip(i2 as int),
            ));
        }
    }
    while i2 < v2.len()
        invariant
            i1 == v1@.len(),
            i2 <= v2@.len(),
            spec_merge(v1@, v2@) == result@ + spec_merge(v1@.skip(i1 as int), v2@.skip(i2 as int)),
        decreases v2@.len() - i2,
    {
        let ghost s2 = v2@.skip(i2 as int);
        result.push(v2[i2]);
        i2 = i2 + 1;
        proof {
            assert(v1@.skip(i1 as int).len() == 0);
            assert(s2.skip(1) =~= v2@.skip(i2 as int));
        }
    }
    proof {
        assert(v1@.skip(i1 as int).len() == 0);
        assert(v2@.skip(i2 as int).len() == 0);
        assert(spec_merge(v1@.skip(i1 as int), v2@.skip(i2 as int)).len() == 0);
        assert(result@ =~= spec_merge(v1@, v2@));
    }
    result
}

} // verus!
