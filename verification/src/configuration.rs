//! Voting rights of one epoch: an ordered list of authors with weights, the
//! quorum and validity thresholds, and deterministic weighted selection of a
//! leader from a seed.

use vstd::prelude::*;
use rand::Rng;
use rand::SeedableRng;
use crate::base_types::Author;

verus! {

/// The index drawn by the seeded generator below a positive bound. The same
/// seed and bound give the same index on every replica.
pub uninterp spec fn sample_index(seed: u64, bound: u64) -> usize;

/// Relies on `rand_xoshiro::Xoshiro256StarStar::seed_from_u64` and
/// `rand::Rng::gen_range`: the generator is seeded from `seed` alone and the
/// sample is drawn from `0..bound`, so the result is a function of the two
/// arguments and lies below the bound; `usize` sampling uses pointer-width
/// arithmetic, so the function is fixed per build, which is what replicas
/// running the same binary need. `gen_range` panics only on an empty range,
/// which the precondition rules out.
#[verifier::external_body]
fn draw_index(seed: u64, bound: usize) -> (r: usize)
    requires
        bound > 0,
    ensures
        r == sample_index(seed, bound as u64),
        r < bound,
{
    let mut rng = rand_xoshiro::Xoshiro256StarStar::seed_from_u64(seed);
    rng.gen_range(0..bound)
}

/// Represents BFT permissions during an epoch. The order of the entries is
/// recorded and influences leader selection.
#[derive(Clone, Debug)]
pub struct EpochConfiguration {
    authors: Vec<(Author, usize)>,
    total_votes: usize,
}

/// Voting weight of `a`: the weight recorded at its first entry, or 0 when
/// `a` holds no voting rights.
pub open spec fn spec_weight(cfg: Seq<(Author, usize)>, a: Author) -> nat
    decreases cfg.len(),
{
    if cfg.len() == 0 {
        0
    } else if cfg[0].0 == a {
        cfg[0].1 as nat
    } else {
        spec_weight(cfg.skip(1), a)
    }
}

/// Total voting weight of a configuration.
pub open spec fn spec_total(cfg: Seq<(Author, usize)>) -> nat
    decreases cfg.len(),
{
    if cfg.len() == 0 {
        0
    } else {
        (cfg[0].1 + spec_total(cfg.skip(1))) as nat
    }
}

/// Combined voting weight of a list of authors.
pub open spec fn spec_count(cfg: Seq<(Author, usize)>, authors: Seq<Author>) -> nat
    decreases authors.len(),
{
    if authors.len() == 0 {
        0
    } else {
        spec_weight(cfg, authors[0]) + spec_count(cfg, authors.skip(1))
    }
}

/// No two entries name the same author.
pub open spec fn spec_unique_authors(cfg: Seq<(Author, usize)>) -> bool {
    forall|i: int, j: int| 0 <= i < j < cfg.len() ==> cfg[i].0 != cfg[j].0
}

/// No author occurs twice.
pub open spec fn spec_distinct(authors: Seq<Author>) -> bool {
    forall|i: int, j: int| 0 <= i < j < authors.len() ==> authors[i] != authors[j]
}

/// The author picked by a cumulative-weight scan for a target below the
/// total weight.
pub open spec fn spec_pick(cfg: Seq<(Author, usize)>, target: nat) -> Author
    decreases cfg.len(),
{
    if cfg.len() == 0 {
        Author(0)
    } else if target < cfg[0].1 {
        cfg[0].0
    } else {
        spec_pick(cfg.skip(1), (target - cfg[0].1) as nat)
    }
}

/// An author without an entry has no weight.
pub proof fn lemma_weight_absent(cfg: Seq<(Author, usize)>, a: Author)
    requires
        forall|i: int| 0 <= i < cfg.len() ==> cfg[i].0 != a,
    ensures
        spec_weight(cfg, a) == 0,
    decreases cfg.len(),
{
    if cfg.len() > 0 {
        lemma_weight_absent(cfg.skip(1), a);
    }
}

/// Every weight is at most the weight of the leading entry plus the rest.
proof fn lemma_count_cons(cfg: Seq<(Author, usize)>, authors: Seq<Author>)
    requires
        cfg.len() > 0,
        spec_distinct(authors),
        forall|i: int| 1 <= i < cfg.len() ==> (#[trigger] cfg[i]).0 != cfg[0].0,
    ensures
        spec_count(cfg, authors) == (if authors.contains(cfg[0].0) {
            cfg[0].1 as nat
        } else {
            0
        }) + spec_count(cfg.skip(1), authors),
    decreases authors.len(),
{
    let a0 = cfg[0].0;
    let w0 = cfg[0].1;
    if authors.len() == 0 {
    } else {
        let x = authors[0];
        let rest = authors.skip(1);
        assert(spec_distinct(rest));
        lemma_count_cons(cfg, rest);
        if x == a0 {
            assert(spec_weight(cfg, x) == w0 as nat);
            assert(!rest.contains(a0)) by {
                if rest.contains(a0) {
                    let j = choose|j: int| 0 <= j < rest.len() && rest[j] == a0;
                    assert(authors[j + 1] == a0);
                }
            }
            assert(forall|i: int| 0 <= i < cfg.skip(1).len() ==> (#[trigger] cfg.skip(1)[i]).0 != a0);
            lemma_weight_absent(cfg.skip(1), a0);
            assert(authors.contains(a0)) by {
                assert(authors[0] == a0);
            }
        } else {
            assert(spec_weight(cfg, x) == spec_weight(cfg.skip(1), x));
            assert(authors.contains(a0) == rest.contains(a0)) by {
                if authors.contains(a0) {
                    let j = choose|j: int| 0 <= j < authors.len() && authors[j] == a0;
                    assert(j != 0);
                    assert(rest[j - 1] == a0);
                }
                if rest.contains(a0) {
                    let j = choose|j: int| 0 <= j < rest.len() && rest[j] == a0;
                    assert(authors[j + 1] == a0);
                }
            }
        }
    }
}

/// A recorded total fits the machine word it is stored in.
pub proof fn lemma_total_votes_bound(c: EpochConfiguration)
    ensures
        c.spec_total_votes() <= usize::MAX,
{
}

/// With distinct authors, an entry's weight is what the weight lookup of
/// its author returns.
pub proof fn lemma_weight_at(cfg: Seq<(Author, usize)>, i: int)
    requires
        spec_unique_authors(cfg),
        0 <= i < cfg.len(),
    ensures
        spec_weight(cfg, cfg[i].0) == cfg[i].1 as nat,
    decreases cfg.len(),
{
    if i == 0 {
    } else {
        assert(cfg[0].0 != cfg[i].0);
        assert(spec_unique_authors(cfg.skip(1))) by {
            assert(forall|a: int|
                0 <= a < cfg.skip(1).len() ==> #[trigger] cfg.skip(1)[a] == cfg[a + 1]);
        }
        lemma_weight_at(cfg.skip(1), i - 1);
        assert(cfg.skip(1)[i - 1] == cfg[i]);
    }
}

/// No single author outweighs the total.
pub proof fn lemma_weight_le_total(cfg: Seq<(Author, usize)>, a: Author)
    ensures
        spec_weight(cfg, a) <= spec_total(cfg),
    decreases cfg.len(),
{
    if cfg.len() > 0 && cfg[0].0 != a {
        lemma_weight_le_total(cfg.skip(1), a);
    }
}

/// Counting one more author adds that author's weight.
pub proof fn lemma_count_take_step(cfg: Seq<(Author, usize)>, authors: Seq<Author>, i: int)
    requires
        0 <= i < authors.len(),
    ensures
        spec_count(cfg, authors.take(i + 1)) == spec_count(cfg, authors.take(i)) + spec_weight(
            cfg,
            authors[i],
        ),
    decreases i,
{
    if i == 0 {
        assert(authors.take(1)[0] == authors[0]);
        assert(authors.take(1).skip(1) =~= Seq::<Author>::empty());
        assert(authors.take(0) =~= Seq::<Author>::empty());
    } else {
        assert(authors.take(i + 1)[0] == authors[0]);
        assert(authors.take(i)[0] == authors[0]);
        assert(authors.take(i + 1).skip(1) =~= authors.skip(1).take(i));
        assert(authors.take(i).skip(1) =~= authors.skip(1).take(i - 1));
        lemma_count_take_step(cfg, authors.skip(1), i - 1);
        assert(authors.skip(1)[i - 1] == authors[i]);
    }
}

/// The combined weight of distinct authors never exceeds the total weight of
/// a configuration without duplicate entries.
pub proof fn lemma_count_distinct_le_total(cfg: Seq<(Author, usize)>, authors: Seq<Author>)
    requires
        spec_unique_authors(cfg),
        spec_distinct(authors),
    ensures
        spec_count(cfg, authors) <= spec_total(cfg),
    decreases cfg.len(),
{
    if cfg.len() == 0 {
        assert(cfg =~= Seq::<(Author, usize)>::empty());
        lemma_count_empty_cfg(authors);
    } else {
        assert(forall|i: int| 1 <= i < cfg.len() ==> (#[trigger] cfg[i]).0 != cfg[0].0);
        lemma_count_cons(cfg, authors);
        assert(spec_unique_authors(cfg.skip(1))) by {
            assert(forall|i: int, j: int|
                0 <= i < j < cfg.skip(1).len() ==> cfg.skip(1)[i] == cfg[i + 1] && cfg.skip(1)[j]
                    == cfg[j + 1]);
        }
        lemma_count_distinct_le_total(cfg.skip(1), authors);
        assert(spec_count(cfg.skip(1), authors) <= spec_total(cfg.skip(1)));
        assert(spec_total(cfg) == cfg[0].1 + spec_total(cfg.skip(1)));
        assert(spec_count(cfg, authors) <= cfg[0].1 + spec_count(cfg.skip(1), authors));
    }
}

proof fn lemma_count_empty_cfg(authors: Seq<Author>)
    ensures
        spec_count(Seq::<(Author, usize)>::empty(), authors) == 0,
    decreases authors.len(),
{
    if authors.len() > 0 {
        lemma_count_empty_cfg(authors.skip(1));
    }
}

/// For a target below the total weight, the scan lands on one of the
/// configured authors.
pub proof fn lemma_pick_total(cfg: Seq<(Author, usize)>, target: nat)
    requires
        target < spec_total(cfg),
    ensures
        exists|i: int| 0 <= i < cfg.len() && cfg[i].0 == spec_pick(cfg, target),
    decreases cfg.len(),
{
    if cfg.len() == 0 {
    } else if target < cfg[0].1 {
        assert(cfg[0].0 == spec_pick(cfg, target));
    } else {
        lemma_pick_total(cfg.skip(1), (target - cfg[0].1) as nat);
        let i = choose|i: int|
            0 <= i < cfg.skip(1).len() && cfg.skip(1)[i].0 == spec_pick(
                cfg.skip(1),
                (target - cfg[0].1) as nat,
            );
        assert(cfg[i + 1].0 == spec_pick(cfg, target));
    }
}

impl EpochConfiguration {
    /// The recorded entries, in order.
    pub closed spec fn spec_authors(self) -> Seq<(Author, usize)> {
        self.authors@
    }

    /// The recorded total weight.
    pub closed spec fn spec_total_votes(self) -> nat {
        self.total_votes as nat
    }

    /// A configuration is well formed when its authors are distinct and its
    /// recorded total equals the sum of the weights.
    pub open spec fn wf(self) -> bool {
        &&& spec_unique_authors(self.spec_authors())
        &&& self.spec_total_votes() == spec_total(self.spec_authors())
    }

    /// Record the voting rights of a new epoch.
    pub fn new(authors: Vec<(Author, usize)>) -> (r: EpochConfiguration)
        requires
            spec_unique_authors(authors@),
            spec_total(authors@) <= usize::MAX,
        ensures
            r.wf(),
            r.spec_authors() == authors@,
    {
        let mut total: usize = 0;
        let mut i: usize = 0;
        while i < authors.len()
            invariant
                i <= authors@.len(),
                spec_total(authors@) <= usize::MAX,
                total == spec_total(authors@.take(i as int)),
            decreases authors@.len() - i,
        {
            proof {
                lemma_total_take_step(authors@, i as int);
                lemma_total_take_le(authors@, i + 1);
            }
            total = total + authors[i].1;
            i = i + 1;
        }
        proof {
            assert(authors@.take(authors@.len() as int) =~= authors@);
        }
        EpochConfiguration { authors, total_votes: total }
    }

    /// The number of configured authors.
    pub fn size(&self) -> (r: usize)
        ensures
            r == self.spec_authors().len(),
    {
        self.authors.len()
    }

    /// The recorded total voting weight.
    pub fn total_votes(&self) -> (r: usize)
        ensures
            r == self.spec_total_votes(),
    {
        self.total_votes
    }

    /// Voting weight of `author` in this epoch.
    pub fn weight(&self, author: &Author) -> (r: usize)
        requires
            self.wf(),
        ensures
            r == spec_weight(self.spec_authors(), *author),
    {
        proof {
            assert(self.authors@.skip(0) =~= self.authors@);
        }
        let mut i: usize = 0;
        while i < self.authors.len()
            invariant
                i <= self.authors@.len(),
                spec_weight(self.authors@, *author) == spec_weight(
                    self.authors@.skip(i as int),
                    *author,
                ),
            decreases self.authors@.len() - i,
        {
            let ghost s = self.authors@.skip(i as int);
            if self.authors[i].0 == *author {
                proof {
                    assert(s[0] == self.authors@[i as int]);
                }
                return self.authors[i].1;
            }
            i = i + 1;
            proof {
                assert(s[0] == self.authors@[i - 1]);
                assert(s.skip(1) =~= self.authors@.skip(i as int));
            }
        }
        proof {
            assert(self.authors@.skip(i as int).len() == 0);
        }
        0
    }

    /// Combined voting weight of the given authors; an author listed twice is
    /// counted twice, so callers pass distinct authors.
    pub fn count_votes(&self, authors: &Vec<Author>) -> (r: usize)
        requires
            self.wf(),
            spec_count(self.spec_authors(), authors@) <= usize::MAX,
        ensures
            r == spec_count(self.spec_authors(), authors@),
    {
        let mut sum: usize = 0;
        proof {
            assert(authors@.skip(0) =~= authors@);
        }
        let mut i: usize = 0;
        while i < authors.len()
            invariant
                self.wf(),
                i <= authors@.len(),
                spec_count(self.spec_authors(), authors@) <= usize::MAX,
                sum + spec_count(self.spec_authors(), authors@.skip(i as int)) == spec_count(
                    self.spec_authors(),
                    authors@,
                ),
            decreases authors@.len() - i,
        {
            let ghost s = authors@.skip(i as int);
            let w = self.weight(&authors[i]);
            proof {
                assert(s[0] == authors@[i as int]);
                assert(s.skip(1) =~= authors@.skip(i + 1));
            }
            sum = sum + w;
            i = i + 1;
        }
        proof {
            assert(authors@.skip(i as int).len() == 0);
        }
        sum
    }

    /// Minimum combined weight that certifies a record: for total weight `W`
    /// this is `2W/3 + 1`, so that two quorums always intersect in a weight
    /// above one third.
    pub fn quorum_threshold(&self) -> (r: usize)
        ensures
            r == 2 * self.spec_total_votes() / 3 + 1,
    {
        let t: u128 = self.total_votes as u128;
        let q: u128 = 2 * t / 3 + 1;
        proof {
            let ti: int = t as int;
            vstd::arithmetic::div_mod::lemma_div_is_ordered(2 * ti, 3 * ti, 3);
            vstd::arithmetic::div_mod::lemma_div_multiples_vanish(ti, 3);
            assert((2 * ti) / 3 <= ti);
            assert(q == (2 * ti) / 3 + 1);
            vstd::arithmetic::div_mod::lemma_div_is_ordered(2 * ti, 2 * (usize::MAX as int), 3);
            assert((2 * (usize::MAX as int)) / 3 + 1 <= usize::MAX as int);
            assert(q <= usize::MAX);
        }
        q as usize
    }

    /// Minimum combined weight that contains at least one honest author: for
    /// total weight `W` this is `(W + 2)/3`.
    pub fn validity_threshold(&self) -> (r: usize)
        ensures
            r == (self.spec_total_votes() + 2) / 3,
    {
        let t: u128 = self.total_votes as u128;
        let v: u128 = (t + 2) / 3;
        proof {
            let ti: int = t as int;
            vstd::arithmetic::div_mod::lemma_div_is_ordered(ti + 2, 3 * (ti + 1), 3);
            vstd::arithmetic::div_mod::lemma_div_multiples_vanish(ti + 1, 3);
            assert((ti + 2) / 3 <= ti + 1);
            assert(v == (ti + 2) / 3);
            vstd::arithmetic::div_mod::lemma_div_is_ordered(ti + 2, usize::MAX as int + 2, 3);
            assert((usize::MAX as int + 2) / 3 <= usize::MAX as int);
            assert(v <= usize::MAX);
        }
        v as usize
    }

    /// Pick an author with probability proportional to voting rights, as a
    /// pure function of the configuration and the seed.
    pub fn pick_author(&self, seed: u64) -> (r: Author)
        requires
            self.wf(),
            self.spec_total_votes() > 0,
        ensures
            r == spec_pick(self.spec_authors(), sample_index(seed, self.spec_total_votes() as u64) as nat),
            exists|i: int| 0 <= i < self.spec_authors().len() && self.spec_authors()[i].0 == r,
            spec_weight(self.spec_authors(), r) > 0,
    {
        let mut target = draw_index(seed, self.total_votes);
        proof {
            lemma_pick_total(self.spec_authors(), target as nat);
            assert(self.authors@.skip(0) =~= self.authors@);
        }
        let n = self.authors.len();
        let mut i: usize = 0;
        loop
            invariant
                self.wf(),
                n == self.authors@.len(),
                i <= n,
                target < spec_total(self.authors@.skip(i as int)),
                spec_pick(self.authors@, sample_index(seed, self.total_votes as u64) as nat)
                    == spec_pick(self.authors@.skip(i as int), target as nat),
                exists|j: int|
                    0 <= j < self.authors@.len() && self.authors@[j].0 == spec_pick(
                        self.authors@,
                        sample_index(seed, self.total_votes as u64) as nat,
                    ),
            decreases self.authors@.len() - i,
        {
            let ghost s = self.authors@.skip(i as int);
            proof {
                assert(s.len() > 0);
                assert(s[0] == self.authors@[i as int]);
            }
            let (author, votes) = self.authors[i];
            if votes > target {
                proof {
                    lemma_weight_at(self.spec_authors(), i as int);
                }
                return author;
            }
            target = target - votes;
            i = i + 1;
            proof {
                assert(s.skip(1) =~= self.authors@.skip(i as int));
            }
        }
    }
}

proof fn lemma_total_take_step(cfg: Seq<(Author, usize)>, i: int)
    requires
        0 <= i < cfg.len(),
    ensures
        spec_total(cfg.take(i + 1)) == spec_total(cfg.take(i)) + cfg[i].1,
    decreases i,
{
    if i == 0 {
        assert(cfg.take(1).skip(1) =~= Seq::<(Author, usize)>::empty());
        assert(cfg.take(0) =~= Seq::<(Author, usize)>::empty());
    } else {
        assert(cfg.take(i + 1).skip(1) =~= cfg.skip(1).take(i));
        assert(cfg.take(i).skip(1) =~= cfg.skip(1).take(i - 1));
        lemma_total_take_step(cfg.skip(1), i - 1);
        assert(cfg.skip(1)[i - 1] == cfg[i]);
    }
}

/// The total of a prefix never exceeds the total.
proof fn lemma_total_take_le(cfg: Seq<(Author, usize)>, i: int)
    requires
        0 <= i <= cfg.len(),
    ensures
        spec_total(cfg.take(i)) <= spec_total(cfg),
    decreases cfg.len(),
{
    if i == 0 {
        assert(cfg.take(0) =~= Seq::<(Author, usize)>::empty());
    } else {
        assert(cfg.take(i)[0] == cfg[0]);
        assert(cfg.take(i).skip(1) =~= cfg.skip(1).take(i - 1));
        lemma_total_take_le(cfg.skip(1), i - 1);
    }
}

impl EpochConfiguration {
    /// Append the wire encoding of this configuration.
    pub fn encode(&self, out: &mut Vec<u8>) {
        crate::codec::encode_usize(out, self.authors.len());
        let n = self.authors.len();
        let mut i: usize = 0;
        while i < n
            invariant
                i <= n,
                n == self.authors@.len(),
            decreases n - i,
        {
            let (a, w) = self.authors[i];
            crate::codec::encode_usize(out, a.0);
            crate::codec::encode_usize(out, w);
            i = i + 1;
        }
        crate::codec::encode_usize(out, self.total_votes);
    }

    /// Read back a configuration. The decoded value carries whatever the
    /// bytes said; callers validate it before relying on it.
    pub fn decode(bytes: &Vec<u8>, pos: usize) -> (r: Option<(EpochConfiguration, usize)>) {
        let (n, p) = match crate::codec::decode_usize(bytes, pos) {
            Some(x) => x,
            None => {
                return None;
            },
        };
        let mut authors: Vec<(Author, usize)> = Vec::new();
        let mut p2 = p;
        let mut i: usize = 0;
        while i < n
            invariant
                i <= n,
            decreases n - i,
        {
            let (a, q1) = match crate::codec::decode_usize(bytes, p2) {
                Some(x) => x,
                None => {
                    return None;
                },
            };
            let (w, q2) = match crate::codec::decode_usize(bytes, q1) {
                Some(x) => x,
                None => {
                    return None;
                },
            };
            authors.push((Author(a), w));
            p2 = q2;
            i = i + 1;
        }
        let (total_votes, p3) = match crate::codec::decode_usize(bytes, p2) {
            Some(x) => x,
            None => {
                return None;
            },
        };
        Some((EpochConfiguration { authors, total_votes }, p3))
    }
}

impl PartialEq for EpochConfiguration {
    /// Configurations are equal when they record the same authors with the
    /// same weights in the same order.
    fn eq(&self, other: &EpochConfiguration) -> (r: bool) {
        if self.authors.len() != other.authors.len() {
            return false;
        }
        let mut i: usize = 0;
        while i < self.authors.len()
            invariant
                i <= self.authors@.len(),
                self.authors@.len() == other.authors@.len(),
                forall|j: int| 0 <= j < i ==> self.authors@[j] == other.authors@[j],
            decreases self.authors@.len() - i,
        {
            if self.authors[i].0 .0 != other.authors[i].0 .0 || self.authors[i].1
                != other.authors[i].1 {
                return false;
            }
            i = i + 1;
        }
        proof {
            assert(self.authors@ =~= other.authors@);
        }
        true
    }
}

impl vstd::std_specs::cmp::PartialEqSpecImpl for EpochConfiguration {
    open spec fn obeys_eq_spec() -> bool {
        true
    }

    open spec fn eq_spec(&self, other: &EpochConfiguration) -> bool {
        self.spec_authors() == other.spec_authors()
    }
}

} // verus!
