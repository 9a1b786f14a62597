//! Scoring a prospective guess by how it splits the other candidates into
//! feedback buckets, and choosing the guess that splits them best.
//!
//! A candidate set is a list of positions in the catalog. A weapon is the
//! same weapon exactly when it stands at the same position, so two entries
//! with equal attributes remain two candidates.

use vstd::prelude::*;
use crate::data::Weapon;
use crate::relations::{encode, lemma_encode_in_range, signature, Relations, POSSIBLE_BUCKETS};

verus! {

/// A candidate set of a catalog: positions in the catalog, in catalog order
/// and without repetition.
pub open spec fn valid_candidates(catalog: Seq<Weapon>, candidates: Seq<usize>) -> bool {
    &&& forall|i: int| 0 <= i < candidates.len() ==> (#[trigger] candidates[i]) < catalog.len()
    &&& forall|i: int, j: int|
        0 <= i < j < candidates.len() ==> (#[trigger] candidates[i]) < (#[trigger] candidates[j])
}

/// The bucket of the feedback that the catalog entry `reference` gives when
/// the catalog entry `guess` is guessed.
pub open spec fn feedback_bucket(catalog: Seq<Weapon>, reference: int, guess: int) -> nat {
    encode(signature(catalog[reference]@, catalog[guess]@))
}

/// Whether the candidate at position `j` is another candidate than the guess
/// at position `g` and falls into bucket `b` under that guess.
pub open spec fn falls_into(
    catalog: Seq<Weapon>,
    candidates: Seq<usize>,
    g: int,
    j: int,
    b: nat,
) -> bool {
    j != g && feedback_bucket(catalog, candidates[j] as int, candidates[g] as int) == b
}

/// How many of the first `n` candidates fall into bucket `b` under the guess
/// at position `g`.
pub open spec fn occupancy_upto(
    catalog: Seq<Weapon>,
    candidates: Seq<usize>,
    g: int,
    b: nat,
    n: int,
) -> nat
    decreases n,
{
    if n <= 0 {
        0
    } else {
        occupancy_upto(catalog, candidates, g, b, n - 1) + if falls_into(
            catalog,
            candidates,
            g,
            n - 1,
            b,
        ) {
            1nat
        } else {
            0nat
        }
    }
}

/// The occupancy of bucket `b` under the guess at position `g`: how many
/// other candidates give the feedback that `b` stands for.
pub open spec fn occupancy(catalog: Seq<Weapon>, candidates: Seq<usize>, g: int, b: nat) -> nat {
    occupancy_upto(catalog, candidates, g, b, candidates.len() as int)
}

/// The sum, over the buckets below `limit`, of how many of the first `n`
/// candidates fall into each.
pub open spec fn occupancy_sum(
    catalog: Seq<Weapon>,
    candidates: Seq<usize>,
    g: int,
    n: int,
    limit: int,
) -> nat
    decreases limit,
{
    if limit <= 0 {
        0
    } else {
        occupancy_sum(catalog, candidates, g, n, limit - 1) + occupancy_upto(
            catalog,
            candidates,
            g,
            (limit - 1) as nat,
            n,
        )
    }
}

/// How many of the buckets below `limit` are not empty under the guess at
/// position `g`: the number of distinct feedback patterns among them.
pub open spec fn occupied_buckets(
    catalog: Seq<Weapon>,
    candidates: Seq<usize>,
    g: int,
    limit: int,
) -> nat
    decreases limit,
{
    if limit <= 0 {
        0
    } else {
        occupied_buckets(catalog, candidates, g, limit - 1) + if occupancy(
            catalog,
            candidates,
            g,
            (limit - 1) as nat,
        ) > 0 {
            1nat
        } else {
            0nat
        }
    }
}

/// A mean occupancy, kept as the exact fraction `total / buckets`. A lower
/// mean ranks better. Where no bucket is occupied both parts are 0 and there
/// is no mean.
pub struct Mean {
    /// Sum of the occupancies of the buckets that are not empty.
    pub total: nat,
    /// Number of buckets that are not empty.
    pub buckets: nat,
}

/// The score of a guess: the mean occupancy of the buckets that are not
/// empty, as computed.
#[derive(Debug, Clone, Copy, PartialEq, Eq, Structural)]
pub struct Score {
    /// Sum of the occupancies of the buckets that are not empty.
    pub total: usize,
    /// Number of buckets that are not empty.
    pub buckets: usize,
}

impl View for Score {
    type V = Mean;

    open spec fn view(&self) -> Mean {
        Mean { total: self.total as nat, buckets: self.buckets as nat }
    }
}

/// The score of the guess at position `g` among `candidates`.
pub open spec fn score_of(catalog: Seq<Weapon>, candidates: Seq<usize>, g: int) -> Mean {
    Mean {
        total: occupancy_sum(
            catalog,
            candidates,
            g,
            candidates.len() as int,
            POSSIBLE_BUCKETS as int,
        ),
        buckets: occupied_buckets(catalog, candidates, g, POSSIBLE_BUCKETS as int),
    }
}

/// Whether the mean `a` is lower than the mean `b`, compared exactly by
/// cross-multiplication.
pub open spec fn mean_less(a: Mean, b: Mean) -> bool {
    a.total * b.buckets < b.total * a.buckets
}

/// No candidates fall into any bucket before any candidate is counted.
proof fn lemma_occupancy_sum_none(catalog: Seq<Weapon>, candidates: Seq<usize>, g: int, limit: int)
    ensures
        occupancy_sum(catalog, candidates, g, 0, limit) == 0,
    decreases limit,
{
    if limit > 0 {
        lemma_occupancy_sum_none(catalog, candidates, g, limit - 1);
    }
}

/// Counting one more candidate raises the sum over the buckets below `limit`
/// by one exactly if that candidate is not the guess and its bucket is below
/// `limit`.
proof fn lemma_occupancy_sum_step(
    catalog: Seq<Weapon>,
    candidates: Seq<usize>,
    g: int,
    n: int,
    limit: int,
)
    requires
        n > 0,
        limit >= 0,
    ensures
        occupancy_sum(catalog, candidates, g, n, limit) == occupancy_sum(
            catalog,
            candidates,
            g,
            n - 1,
            limit,
        ) + if n - 1 != g && feedback_bucket(
            catalog,
            candidates[n - 1] as int,
            candidates[g] as int,
        ) < limit {
            1nat
        } else {
            0nat
        },
    decreases limit,
{
    if limit > 0 {
        lemma_occupancy_sum_step(catalog, candidates, g, n, limit - 1);
    }
}

/// The sum over the buckets below `limit` counts no candidate twice, and
/// over all buckets it counts every candidate but the guess.
pub proof fn lemma_occupancy_sum(
    catalog: Seq<Weapon>,
    candidates: Seq<usize>,
    g: int,
    n: int,
    limit: int,
)
    requires
        0 <= n,
        0 <= limit,
    ensures
        occupancy_sum(catalog, candidates, g, n, limit) <= n,
        limit >= POSSIBLE_BUCKETS && 0 <= g < n ==> occupancy_sum(catalog, candidates, g, n, limit)
            == n - 1,
    decreases n,
{
    if n == 0 {
        lemma_occupancy_sum_none(catalog, candidates, g, limit);
    } else {
        lemma_occupancy_sum(catalog, candidates, g, n - 1, limit);
        lemma_occupancy_sum_step(catalog, candidates, g, n, limit);
        lemma_encode_in_range(signature(catalog[candidates[n - 1] as int]@, catalog[candidates[g] as int]@));
        if limit >= POSSIBLE_BUCKETS && 0 <= g < n {
            if g < n - 1 {
            } else {
                lemma_occupancy_sum_without_guess(catalog, candidates, g, n - 1, limit);
            }
        }
    }
}

/// Where the guess is not among the first `n` candidates, the sum over all
/// buckets counts every one of them.
proof fn lemma_occupancy_sum_without_guess(
    catalog: Seq<Weapon>,
    candidates: Seq<usize>,
    g: int,
    n: int,
    limit: int,
)
    requires
        0 <= n <= g,
        limit >= POSSIBLE_BUCKETS,
    ensures
        occupancy_sum(catalog, candidates, g, n, limit) == n,
    decreases n,
{
    if n == 0 {
        lemma_occupancy_sum_none(catalog, candidates, g, limit);
    } else {
        lemma_occupancy_sum_without_guess(catalog, candidates, g, n - 1, limit);
        lemma_occupancy_sum_step(catalog, candidates, g, n, limit);
        lemma_encode_in_range(signature(catalog[candidates[n - 1] as int]@, catalog[candidates[g] as int]@));
    }
}

/// For any candidate set and any guess in it, the occupancies of all buckets
/// add up to the number of candidates less one: every candidate but the
/// guess falls into exactly one bucket.
pub proof fn lemma_occupancies_count_the_others(
    catalog: Seq<Weapon>,
    candidates: Seq<usize>,
    g: int,
)
    requires
        0 <= g < candidates.len(),
    ensures
        occupancy_sum(catalog, candidates, g, candidates.len() as int, POSSIBLE_BUCKETS as int)
            == candidates.len() - 1,
{
    lemma_occupancy_sum(catalog, candidates, g, candidates.len() as int, POSSIBLE_BUCKETS as int);
}

/// The buckets that are not empty are at most as many as the candidates
/// counted, and at least one bucket is not empty once a candidate is counted.
pub proof fn lemma_occupied_buckets(
    catalog: Seq<Weapon>,
    candidates: Seq<usize>,
    g: int,
    limit: int,
)
    requires
        0 <= limit,
    ensures
        occupied_buckets(catalog, candidates, g, limit) <= limit,
        occupied_buckets(catalog, candidates, g, limit) <= occupancy_sum(
            catalog,
            candidates,
            g,
            candidates.len() as int,
            limit,
        ),
        occupancy_sum(catalog, candidates, g, candidates.len() as int, limit) > 0
            ==> occupied_buckets(catalog, candidates, g, limit) > 0,
    decreases limit,
{
    if limit > 0 {
        lemma_occupied_buckets(catalog, candidates, g, limit - 1);
    }
}

/// A vector of `n` zeros.
fn zeros(n: usize) -> (v: Vec<usize>)
    ensures
        v@.len() == n,
        forall|i: int| 0 <= i < n ==> v@[i] == 0,
{
    let mut v: Vec<usize> = Vec::new();
    while v.len() < n
        invariant
            v@.len() <= n,
            forall|i: int| 0 <= i < v@.len() ==> v@[i] == 0,
        decreases n - v@.len(),
    {
        v.push(0);
    }
    v
}

/// Scores the guess at position `g` of `candidates`: every other candidate is
/// counted into the bucket of its feedback against the guess, and the score
/// is the mean of the counts that are not zero.
pub fn score_for(catalog: &Vec<Weapon>, candidates: &Vec<usize>, g: usize) -> (s: Score)
    requires
        valid_candidates(catalog@, candidates@),
        g < candidates.len(),
    ensures
        s@ == score_of(catalog@, candidates@, g as int),
        s.total == candidates.len() - 1,
        s.buckets <= s.total,
        s.buckets <= POSSIBLE_BUCKETS,
        s.total > 0 ==> s.buckets > 0,
{
    let guess = &catalog[candidates[g]].data;
    let mut counts = zeros(POSSIBLE_BUCKETS);
    let mut j: usize = 0;
    while j < candidates.len()
        invariant
            valid_candidates(catalog@, candidates@),
            g < candidates.len(),
            *guess == catalog@[candidates@[g as int] as int].data,
            j <= candidates.len(),
            counts@.len() == POSSIBLE_BUCKETS,
            forall|b: int|
                0 <= b < POSSIBLE_BUCKETS ==> #[trigger] counts@[b] == occupancy_upto(
                    catalog@,
                    candidates@,
                    g as int,
                    b as nat,
                    j as int,
                ),
            forall|b: int| 0 <= b < POSSIBLE_BUCKETS ==> #[trigger] counts@[b] <= j,
        decreases candidates.len() - j,
    {
        if j != g {
            let bucket = Relations::between(&catalog[candidates[j]].data, guess).bucket();
            let count = counts[bucket];
            counts.set(bucket, count + 1);
        }
        j += 1;
    }
    let mut total: usize = 0;
    let mut buckets: usize = 0;
    let mut b: usize = 0;
    while b < POSSIBLE_BUCKETS
        invariant
            b <= POSSIBLE_BUCKETS,
            counts@.len() == POSSIBLE_BUCKETS,
            forall|x: int|
                0 <= x < POSSIBLE_BUCKETS ==> #[trigger] counts@[x] == occupancy(
                    catalog@,
                    candidates@,
                    g as int,
                    x as nat,
                ),
            total == occupancy_sum(
                catalog@,
                candidates@,
                g as int,
                candidates.len() as int,
                b as int,
            ),
            buckets == occupied_buckets(catalog@, candidates@, g as int, b as int),
            buckets <= b,
        decreases POSSIBLE_BUCKETS - b,
    {
        proof {
            lemma_occupancy_sum(
                catalog@,
                candidates@,
                g as int,
                candidates.len() as int,
                b + 1,
            );
        }
        if counts[b] != 0 {
            total += counts[b];
            buckets += 1;
        }
        b += 1;
    }
    proof {
        lemma_occupancies_count_the_others(catalog@, candidates@, g as int);
        lemma_occupied_buckets(catalog@, candidates@, g as int, POSSIBLE_BUCKETS as int);
    }
    Score { total, buckets }
}

/// Between two scores with the same total, the lower mean is the one spread
/// over more buckets: ranking by the mean is ranking by the number of
/// distinct feedback patterns.
pub proof fn lemma_lower_mean_is_more_buckets(a: Mean, b: Mean)
    requires
        a.total == b.total,
    ensures
        mean_less(a, b) == (a.total > 0 && a.buckets > b.buckets),
{
    let t = a.total as int;
    let x = a.buckets as int;
    let y = b.buckets as int;
    assert((t * y < t * x) == (t > 0 && x > y)) by (nonlinear_arith)
        requires
            t >= 0,
    ;
}

impl Score {
    /// Whether this score ranks strictly better than `other`: whether its
    /// mean is lower.
    pub fn better_than(&self, other: &Score) -> (r: bool)
        ensures
            r == mean_less(self@, other@),
    {
        let a: u128 = self.total as u128;
        let b: u128 = other.buckets as u128;
        let c: u128 = other.total as u128;
        let d: u128 = self.buckets as u128;
        assert(a * b <= 0xFFFF_FFFF_FFFF_FFFF * 0xFFFF_FFFF_FFFF_FFFF) by (nonlinear_arith)
            requires
                0 <= a <= 0xFFFF_FFFF_FFFF_FFFF,
                0 <= b <= 0xFFFF_FFFF_FFFF_FFFF,
        ;
        assert(c * d <= 0xFFFF_FFFF_FFFF_FFFF * 0xFFFF_FFFF_FFFF_FFFF) by (nonlinear_arith)
            requires
                0 <= c <= 0xFFFF_FFFF_FFFF_FFFF,
                0 <= d <= 0xFFFF_FFFF_FFFF_FFFF,
        ;
        a * b < c * d
    }
}

/// Whether the candidate at position `p` is the best next guess: no candidate
/// has a lower mean, and every candidate before it has a higher one, so that
/// among equally good guesses the first in catalog order is the best.
pub open spec fn is_best_guess(catalog: Seq<Weapon>, candidates: Seq<usize>, p: int) -> bool {
    &&& 0 <= p < candidates.len()
    &&& forall|j: int|
        0 <= j < candidates.len() ==> !mean_less(
            #[trigger] score_of(catalog, candidates, j),
            score_of(catalog, candidates, p),
        )
    &&& forall|j: int|
        0 <= j < p ==> mean_less(
            score_of(catalog, candidates, p),
            #[trigger] score_of(catalog, candidates, j),
        )
}

/// There is one best next guess only.
pub proof fn lemma_best_guess_unique(catalog: Seq<Weapon>, candidates: Seq<usize>, p: int, q: int)
    requires
        is_best_guess(catalog, candidates, p),
        is_best_guess(catalog, candidates, q),
    ensures
        p == q,
{
    if p < q {
        assert(mean_less(score_of(catalog, candidates, q), score_of(catalog, candidates, p)));
        assert(!mean_less(score_of(catalog, candidates, q), score_of(catalog, candidates, p)));
    } else if q < p {
        assert(mean_less(score_of(catalog, candidates, p), score_of(catalog, candidates, q)));
        assert(!mean_less(score_of(catalog, candidates, p), score_of(catalog, candidates, q)));
    }
}

/// The best next guess is a guess that yields the largest number of distinct
/// feedback patterns over the other candidates.
pub proof fn lemma_best_guess_has_most_buckets(
    catalog: Seq<Weapon>,
    candidates: Seq<usize>,
    p: int,
    j: int,
)
    requires
        is_best_guess(catalog, candidates, p),
        candidates.len() >= 2,
        0 <= j < candidates.len(),
    ensures
        score_of(catalog, candidates, j).buckets <= score_of(catalog, candidates, p).buckets,
{
    let a = score_of(catalog, candidates, j);
    let b = score_of(catalog, candidates, p);
    lemma_occupancies_count_the_others(catalog, candidates, j);
    lemma_occupancies_count_the_others(catalog, candidates, p);
    assert(a.total == b.total) by {
        lemma_occupancy_sum(catalog, candidates, j, candidates.len() as int, POSSIBLE_BUCKETS as int);
        lemma_occupancy_sum(catalog, candidates, p, candidates.len() as int, POSSIBLE_BUCKETS as int);
    }
    lemma_lower_mean_is_more_buckets(a, b);
    lemma_occupied_buckets(catalog, candidates, j, POSSIBLE_BUCKETS as int);
    lemma_occupied_buckets(catalog, candidates, p, POSSIBLE_BUCKETS as int);
}

/// Picks the best next guess among `candidates`: the position, in
/// `candidates`, of the candidate with the lowest score, the first of them
/// where several are equally good.
pub fn best_guess(catalog: &Vec<Weapon>, candidates: &Vec<usize>) -> (p: usize)
    requires
        valid_candidates(catalog@, candidates@),
        candidates.len() > 0,
    ensures
        is_best_guess(catalog@, candidates@, p as int),
{
    let mut best: usize = 0;
    let mut best_score = score_for(catalog, candidates, 0);
    let mut j: usize = 1;
    while j < candidates.len()
        invariant
            valid_candidates(catalog@, candidates@),
            1 <= j <= candidates.len(),
            best < j,
            best_score@ == score_of(catalog@, candidates@, best as int),
            best_score.total == candidates.len() - 1,
            forall|i: int|
                0 <= i < j ==> (#[trigger] score_of(catalog@, candidates@, i)).total
                    == candidates.len() - 1 && score_of(catalog@, candidates@, i).buckets
                    <= best_score.buckets,
            forall|i: int|
                0 <= i < best ==> (#[trigger] score_of(catalog@, candidates@, i)).buckets
                    < best_score.buckets,
        decreases candidates.len() - j,
    {
        let s = score_for(catalog, candidates, j);
        proof {
            lemma_lower_mean_is_more_buckets(s@, best_score@);
        }
        if s.better_than(&best_score) {
            best = j;
            best_score = s;
        }
        j += 1;
    }
    proof {
        assert forall|i: int| 0 <= i < candidates.len() implies !mean_less(
            #[trigger] score_of(catalog@, candidates@, i),
            score_of(catalog@, candidates@, best as int),
        ) by {
            lemma_lower_mean_is_more_buckets(score_of(catalog@, candidates@, i), best_score@);
        }
        assert forall|i: int| 0 <= i < best implies mean_less(
            score_of(catalog@, candidates@, best as int),
            #[trigger] score_of(catalog@, candidates@, i),
        ) by {
            lemma_lower_mean_is_more_buckets(best_score@, score_of(catalog@, candidates@, i));
        }
    }
    best
}

/// The candidate set that holds the whole catalog.
pub open spec fn whole(n: nat) -> Seq<usize> {
    Seq::new(n, |i: int| i as usize)
}

/// The candidate set that holds the whole catalog.
pub fn all_candidates(catalog: &Vec<Weapon>) -> (candidates: Vec<usize>)
    ensures
        candidates@ == whole(catalog@.len()),
        valid_candidates(catalog@, candidates@),
{
    let mut candidates: Vec<usize> = Vec::new();
    let mut i: usize = 0;
    while i < catalog.len()
        invariant
            i <= catalog.len(),
            candidates@ == whole(i as nat),
        decreases catalog.len() - i,
    {
        candidates.push(i);
        assert(candidates@ =~= whole((i + 1) as nat));
        i += 1;
    }
    candidates
}

/// The best opening guess: the weapon of the catalog that ranks best as a
/// guess when every weapon is still a candidate.
pub fn next_guess<'a>(weapons: &'a Vec<Weapon>) -> (w: &'a Weapon)
    requires
        weapons.len() > 0,
    ensures
        exists|p: int|
            #![trigger weapons@[p]]
            is_best_guess(weapons@, whole(weapons@.len()), p) && *w == weapons@[p],
{
    let candidates = all_candidates(weapons);
    let p = best_guess(weapons, &candidates);
    &weapons[p]
}

} // verus!
