//! Ranking every weapon of a catalog as an opening guess.

use vstd::prelude::*;
use crate::data::Weapon;
use crate::score::{
    all_candidates, lemma_lower_mean_is_more_buckets, mean_less, score_for, score_of,
    valid_candidates, whole, Score,
};

verus! {

/// One line of the ranked table: a weapon, as its position in the catalog,
/// and its score as a first guess against the whole catalog.
#[derive(Debug, Clone, Copy)]
pub struct Ranked {
    pub weapon: usize,
    pub score: Score,
}

/// Whether a table ranks the whole catalog: it lists every weapon once, each
/// with its score as a first guess, in ascending order of the mean, weapons
/// of equal mean in catalog order.
pub open spec fn ranks(catalog: Seq<Weapon>, table: Seq<Ranked>) -> bool {
    &&& table.len() == catalog.len()
    &&& forall|i: int|
        0 <= i < table.len() ==> (#[trigger] table[i]).weapon < catalog.len() && table[i].score@
            == score_of(catalog, whole(catalog.len()), table[i].weapon as int)
    &&& forall|i: int, j: int|
        0 <= i < j < table.len() ==> {
            &&& (#[trigger] table[i]).weapon != (#[trigger] table[j]).weapon
            &&& !mean_less(table[j].score@, table[i].score@)
            &&& !mean_less(table[i].score@, table[j].score@) ==> table[i].weapon < table[j].weapon
        }
}

/// Scores every weapon of the catalog as a first guess and lists the weapons
/// from the best opener to the worst.
pub fn openers(catalog: &Vec<Weapon>) -> (table: Vec<Ranked>)
    ensures
        ranks(catalog@, table@),
{
    let n = catalog.len();
    let candidates = all_candidates(catalog);
    let mut table: Vec<Ranked> = Vec::new();
    let mut k: usize = 0;
    while k < n
        invariant
            n == catalog@.len(),
            candidates@ == whole(n as nat),
            valid_candidates(catalog@, candidates@),
            k <= n,
            table@.len() == k,
            forall|i: int|
                0 <= i < table@.len() ==> (#[trigger] table@[i]).weapon < k && table@[i].score@
                    == score_of(catalog@, candidates@, table@[i].weapon as int)
                    && table@[i].score.total == n - 1,
            forall|i: int, j: int|
                0 <= i < j < table@.len() ==> {
                    &&& (#[trigger] table@[i]).weapon != (#[trigger] table@[j]).weapon
                    &&& table@[i].score.buckets >= table@[j].score.buckets
                    &&& table@[i].score.buckets == table@[j].score.buckets ==> table@[i].weapon
                        < table@[j].weapon
                },
        decreases n - k,
    {
        let score = score_for(catalog, &candidates, k);
        let mut at: usize = 0;
        while at < table.len() && !score.better_than(&table[at].score)
            invariant
                at <= table@.len() < n,
                score.total == n - 1,
                forall|i: int|
                    0 <= i < table@.len() ==> (#[trigger] table@[i]).score.total == n - 1,
                forall|i: int| 0 <= i < at ==> (#[trigger] table@[i]).score.buckets >= score.buckets,
            decreases table@.len() - at,
        {
            proof {
                lemma_lower_mean_is_more_buckets(score@, table@[at as int].score@);
            }
            at += 1;
        }
        proof {
            if at < table@.len() {
                lemma_lower_mean_is_more_buckets(score@, table@[at as int].score@);
            }
        }
        table.insert(at, Ranked { weapon: k, score });
        k += 1;
    }
    proof {
        assert forall|i: int, j: int| 0 <= i < j < table@.len() implies {
            &&& (#[trigger] table@[i]).weapon != (#[trigger] table@[j]).weapon
            &&& !mean_less(table@[j].score@, table@[i].score@)
            &&& !mean_less(table@[i].score@, table@[j].score@) ==> table@[i].weapon
                < table@[j].weapon
        } by {
            lemma_lower_mean_is_more_buckets(table@[j].score@, table@[i].score@);
            lemma_lower_mean_is_more_buckets(table@[i].score@, table@[j].score@);
        }
    }
    table
}

} // verus!
