//! The elimination loop: guess, take the feedback, keep the candidates that
//! would have given it, and stop when nothing more can be told apart.

use vstd::prelude::*;
use crate::data::{Attributes, Weapon};
use crate::relations::{matching, signature, Relations};
use crate::score::{
    all_candidates, best_guess, is_best_guess, lemma_best_guess_unique, valid_candidates, whole,
};

verus! {

/// Whether the catalog entry `x` is consistent with the feedback `observed`
/// for the guessed catalog entry `guess`: whether it would have given that
/// feedback had it been the secret.
pub open spec fn consistent(catalog: Seq<Weapon>, x: int, guess: int, observed: Relations) -> bool {
    signature(catalog[x]@, catalog[guess]@) == observed
}

/// The candidates that remain after the feedback `observed` for the guessed
/// catalog entry `guess`: those consistent with it, in their order.
pub open spec fn narrowed(
    catalog: Seq<Weapon>,
    candidates: Seq<usize>,
    guess: int,
    observed: Relations,
) -> Seq<usize> {
    candidates.filter(|x: usize| consistent(catalog, x as int, guess, observed))
}

/// Whether no two of the candidates can be told apart: every one gives the
/// all-channels-match signature against every other.
pub open spec fn indistinguishable(catalog: Seq<Weapon>, candidates: Seq<usize>) -> bool {
    forall|i: int, j: int|
        0 <= i < candidates.len() && 0 <= j < candidates.len() ==> signature(
            catalog[#[trigger] candidates[i] as int]@,
            catalog[#[trigger] candidates[j] as int]@,
        ) == matching()
}

/// Whether the search is over with these candidates: a single candidate is
/// left, or the candidates left cannot be told apart.
pub open spec fn settled(catalog: Seq<Weapon>, candidates: Seq<usize>) -> bool {
    candidates.len() == 1 || indistinguishable(catalog, candidates)
}

/// The all-channels-match signature relates exactly the weapons with the same
/// attributes, so it is symmetric and transitive.
pub proof fn lemma_matching_is_equivalence(a: Attributes, b: Attributes, c: Attributes)
    ensures
        signature(a, a) == matching(),
        signature(a, b) == matching() ==> signature(b, a) == matching(),
        signature(a, c) == matching() && signature(b, c) == matching() ==> signature(a, b)
            == matching(),
{
}

/// Keeps the candidates consistent with the feedback `observed` for the
/// guessed catalog entry `guess`.
pub fn narrow(
    catalog: &Vec<Weapon>,
    candidates: &Vec<usize>,
    guess: usize,
    observed: Relations,
) -> (kept: Vec<usize>)
    requires
        valid_candidates(catalog@, candidates@),
        guess < catalog.len(),
    ensures
        kept@ == narrowed(catalog@, candidates@, guess as int, observed),
        valid_candidates(catalog@, kept@),
        kept@.len() <= candidates@.len(),
        forall|i: int|
            0 <= i < candidates@.len() && !consistent(
                catalog@,
                #[trigger] candidates@[i] as int,
                guess as int,
                observed,
            ) ==> kept@.len() < candidates@.len(),
        forall|x: usize|
            kept@.contains(x) <==> candidates@.contains(x) && consistent(
                catalog@,
                x as int,
                guess as int,
                observed,
            ),
{
    let ghost pred = |x: usize| consistent(catalog@, x as int, guess as int, observed);
    let mut kept: Vec<usize> = Vec::new();
    let mut i: usize = 0;
    proof {
        assert(candidates@.take(0) =~= Seq::<usize>::empty());
        reveal(Seq::filter);
    }
    while i < candidates.len()
        invariant
            valid_candidates(catalog@, candidates@),
            guess < catalog.len(),
            pred == |x: usize| consistent(catalog@, x as int, guess as int, observed),
            i <= candidates.len(),
            kept@ == candidates@.take(i as int).filter(pred),
            kept@.len() <= i,
            forall|k: int| 0 <= k < i && !pred(#[trigger] candidates@[k]) ==> kept@.len() < i,
            forall|k: int| 0 <= k < kept@.len() ==> (#[trigger] kept@[k]) < catalog.len(),
            forall|k: int|
                0 <= k < kept@.len() && i < candidates.len() ==> (#[trigger] kept@[k])
                    < candidates@[i as int],
            forall|k: int, l: int|
                0 <= k < l < kept@.len() ==> (#[trigger] kept@[k]) < (#[trigger] kept@[l]),
        decreases candidates.len() - i,
    {
        let x = candidates[i];
        let keep = Relations::between(&catalog[x].data, &catalog[guess].data) == observed;
        proof {
            let before = candidates@.take(i as int);
            assert(candidates@.take(i + 1) =~= before.push(x));
            before.lemma_filter_push(x, pred);
            assert(keep == pred(x));
        }
        if keep {
            kept.push(x);
        }
        i += 1;
    }
    proof {
        assert(candidates@.take(candidates@.len() as int) =~= candidates@);
        assert forall|x: usize|
            kept@.contains(x) <==> candidates@.contains(x) && consistent(
                catalog@,
                x as int,
                guess as int,
                observed,
            ) by {
            if kept@.contains(x) {
                candidates@.lemma_filter_contains_rev(pred, x);
                let k = choose|k: int| 0 <= k < kept@.len() && kept@[k] == x;
                candidates@.lemma_filter_pred(pred, k);
            }
            if candidates@.contains(x) && pred(x) {
                let k = choose|k: int| 0 <= k < candidates@.len() && candidates@[k] == x;
                candidates@.lemma_filter_contains(pred, k);
            }
        }
    }
    kept
}

/// Feedback that is the true signature of a secret against the guess never
/// eliminates that secret: a candidate set that holds the secret still holds
/// it after narrowing.
pub proof fn lemma_secret_survives(
    catalog: Seq<Weapon>,
    candidates: Seq<usize>,
    secret: usize,
    guess: int,
)
    requires
        candidates.contains(secret),
    ensures
        narrowed(
            catalog,
            candidates,
            guess,
            signature(catalog[secret as int]@, catalog[guess]@),
        ).contains(secret),
{
    let observed = signature(catalog[secret as int]@, catalog[guess]@);
    let pred = |x: usize| consistent(catalog, x as int, guess, observed);
    let k = choose|k: int| 0 <= k < candidates.len() && candidates[k] == secret;
    candidates.lemma_filter_contains(pred, k);
}

/// Narrowing by a candidate's own feedback makes progress: the candidates
/// that remain are fewer, or else they cannot be told apart and the search is
/// over. So a candidate set shrinks with every guess that does not end the
/// search.
pub proof fn lemma_narrowing_progress(
    catalog: Seq<Weapon>,
    candidates: Seq<usize>,
    p: int,
    observed: Relations,
)
    requires
        0 <= p < candidates.len(),
    ensures
        narrowed(catalog, candidates, candidates[p] as int, observed).len() <= candidates.len(),
        narrowed(catalog, candidates, candidates[p] as int, observed).len() < candidates.len()
            || indistinguishable(
            catalog,
            narrowed(catalog, candidates, candidates[p] as int, observed),
        ),
{
    let guess = candidates[p] as int;
    let pred = |x: usize| consistent(catalog, x as int, guess, observed);
    let rest = candidates.filter(pred);
    candidates.lemma_filter_len(pred);
    if observed == matching() {
        assert forall|i: int, j: int| 0 <= i < rest.len() && 0 <= j < rest.len() implies signature(
            catalog[#[trigger] rest[i] as int]@,
            catalog[#[trigger] rest[j] as int]@,
        ) == matching() by {
            candidates.lemma_filter_pred(pred, i);
            candidates.lemma_filter_pred(pred, j);
            lemma_matching_is_equivalence(
                catalog[rest[i] as int]@,
                catalog[rest[j] as int]@,
                catalog[guess]@,
            );
        }
    } else {
        lemma_matching_is_equivalence(catalog[guess]@, catalog[guess]@, catalog[guess]@);
        lemma_filter_drops(candidates, pred, p);
    }
}

/// A filter that rejects some element returns fewer elements than it was
/// given.
proof fn lemma_filter_drops(s: Seq<usize>, pred: spec_fn(usize) -> bool, k: int)
    requires
        0 <= k < s.len(),
        !pred(s[k]),
    ensures
        s.filter(pred).len() < s.len(),
    decreases s.len(),
{
    reveal(Seq::filter);
    let front = s.drop_last();
    front.lemma_filter_len(pred);
    if k < s.len() - 1 {
        lemma_filter_drops(front, pred, k);
    }
}

/// Whether no two of the candidates can be told apart.
pub fn cannot_tell_apart(catalog: &Vec<Weapon>, candidates: &Vec<usize>) -> (r: bool)
    requires
        valid_candidates(catalog@, candidates@),
    ensures
        r == indistinguishable(catalog@, candidates@),
{
    if candidates.len() == 0 {
        return true;
    }
    let first = &catalog[candidates[0]].data;
    let all_match = Relations::default();
    let mut i: usize = 0;
    while i < candidates.len()
        invariant
            valid_candidates(catalog@, candidates@),
            candidates.len() > 0,
            *first == catalog@[candidates@[0] as int].data,
            all_match == matching(),
            i <= candidates.len(),
            forall|k: int|
                0 <= k < i ==> signature(
                    catalog@[#[trigger] candidates@[k] as int]@,
                    catalog@[candidates@[0] as int]@,
                ) == matching(),
        decreases candidates.len() - i,
    {
        if Relations::between(&catalog[candidates[i]].data, first) != all_match {
            return false;
        }
        i += 1;
    }
    proof {
        assert forall|a: int, b: int|
            0 <= a < candidates@.len() && 0 <= b < candidates@.len() implies signature(
            catalog@[#[trigger] candidates@[a] as int]@,
            catalog@[#[trigger] candidates@[b] as int]@,
        ) == matching() by {
            lemma_matching_is_equivalence(
                catalog@[candidates@[a] as int]@,
                catalog@[candidates@[b] as int]@,
                catalog@[candidates@[0] as int]@,
            );
        }
    }
    true
}

/// The state of a search between two guesses: a candidate set of at least two
/// candidates, and a number of guesses already made that leaves room for one
/// guess per candidate.
pub open spec fn searching(catalog: Seq<Weapon>, candidates: Seq<usize>, tries: nat) -> bool {
    &&& valid_candidates(catalog, candidates)
    &&& candidates.len() >= 2
    &&& tries + candidates.len() <= catalog.len()
}

/// What one round of guess and feedback leads to.
#[derive(Debug)]
pub enum Step {
    /// More than one candidate remains and they can be told apart: the search
    /// goes on with them, `tries` guesses having been made.
    Continue { candidates: Vec<usize>, tries: usize },
    /// The search is over: `remaining` holds every candidate that fits all the
    /// feedback. `attempts` counts the guesses made and one more, the guess
    /// that confirms the result.
    Found { attempts: usize, remaining: Vec<usize> },
    /// No candidate fits the feedback: the answers given contradict each
    /// other.
    Contradiction,
}

/// Takes the feedback `observed` for the guess at position `p` of
/// `candidates`, `tries` guesses having been made before it.
pub fn step(
    catalog: &Vec<Weapon>,
    candidates: &Vec<usize>,
    tries: usize,
    p: usize,
    observed: Relations,
) -> (r: Step)
    requires
        valid_candidates(catalog@, candidates@),
        p < candidates.len(),
        tries + 2 <= usize::MAX,
    ensures
        match r {
            Step::Continue { candidates: rest, tries: made } => {
                &&& rest@ == narrowed(catalog@, candidates@, candidates@[p as int] as int, observed)
                &&& !settled(catalog@, rest@)
                &&& valid_candidates(catalog@, rest@)
                &&& 2 <= rest@.len() < candidates@.len()
                &&& made == tries + 1
            },
            Step::Found { attempts, remaining } => {
                &&& remaining@ == narrowed(
                    catalog@,
                    candidates@,
                    candidates@[p as int] as int,
                    observed,
                )
                &&& remaining@.len() > 0
                &&& settled(catalog@, remaining@)
                &&& valid_candidates(catalog@, remaining@)
                &&& attempts == tries + 2
            },
            Step::Contradiction => narrowed(
                catalog@,
                candidates@,
                candidates@[p as int] as int,
                observed,
            ).len() == 0,
        },
{
    let rest = narrow(catalog, candidates, candidates[p], observed);
    proof {
        lemma_narrowing_progress(catalog@, candidates@, p as int, observed);
    }
    if rest.len() == 0 {
        Step::Contradiction
    } else if rest.len() == 1 || cannot_tell_apart(catalog, &rest) {
        Step::Found { attempts: tries + 2, remaining: rest }
    } else {
        Step::Continue { candidates: rest, tries: tries + 1 }
    }
}

/// Why a search cannot be made.
#[derive(Debug, Clone, Copy, PartialEq, Eq, Structural)]
pub enum SolveError {
    /// The catalog holds fewer than two weapons: there is nothing to deduce.
    TooFewItems,
    /// The secret named is no entry of the catalog.
    UnknownSecret,
}

/// A search that is fed from outside, one feedback at a time. It holds the
/// candidates that remain, the number of guesses answered so far, and the
/// guess that is now to be put to the player.
pub struct Search<'a> {
    catalog: &'a Vec<Weapon>,
    candidates: Vec<usize>,
    tries: usize,
    position: usize,
}

/// What the answer to a guess leads to.
pub enum Round<'a> {
    /// The search goes on: the next guess is ready.
    Continue(Search<'a>),
    /// The search is over: `remaining` holds every candidate that fits all the
    /// feedback. `attempts` counts the guesses made and one more, the guess
    /// that confirms the result.
    Found { attempts: usize, remaining: Vec<usize> },
    /// No candidate fits the feedback: the answers given contradict each
    /// other.
    Contradiction,
}

impl<'a> Search<'a> {
    #[verifier::type_invariant]
    spec fn well_formed(self) -> bool {
        &&& searching(self.catalog@, self.candidates@, self.tries as nat)
        &&& is_best_guess(self.catalog@, self.candidates@, self.position as int)
    }

    /// The catalog searched.
    pub closed spec fn catalog(self) -> Seq<Weapon> {
        self.catalog@
    }

    /// The candidates that remain.
    pub closed spec fn candidates(self) -> Seq<usize> {
        self.candidates@
    }

    /// The number of guesses answered so far.
    pub closed spec fn tries(self) -> nat {
        self.tries as nat
    }

    /// The position, among the candidates, of the guess to make next.
    pub closed spec fn position(self) -> int {
        self.position as int
    }

    /// Starts a search over the whole catalog. A catalog of fewer than two
    /// weapons is refused.
    pub fn start(catalog: &'a Vec<Weapon>) -> (r: Result<Search<'a>, SolveError>)
        ensures
            catalog@.len() < 2 ==> r == Err::<Search<'a>, SolveError>(SolveError::TooFewItems),
            catalog@.len() >= 2 ==> r.is_ok() && r.unwrap().catalog() == catalog@
                && r.unwrap().candidates() == whole(catalog@.len()) && r.unwrap().tries() == 0,
    {
        if catalog.len() < 2 {
            return Err(SolveError::TooFewItems);
        }
        let candidates = all_candidates(catalog);
        let position = best_guess(catalog, &candidates);
        Ok(Search { catalog, candidates, tries: 0, position })
    }

    /// The guess to make next, as a position in the catalog: the best next
    /// guess among the candidates that remain.
    pub fn guess(&self) -> (g: usize)
        ensures
            is_best_guess(self.catalog(), self.candidates(), self.position()),
            g == self.candidates()[self.position()],
            g < self.catalog().len(),
    {
        proof {
            use_type_invariant(self);
        }
        self.candidates[self.position]
    }

    /// The number of candidates that remain, the next guess among them.
    pub fn remaining(&self) -> (n: usize)
        ensures
            n == self.candidates().len(),
            n >= 2,
    {
        proof {
            use_type_invariant(self);
        }
        self.candidates.len()
    }

    /// Takes the feedback `observed` for the guess that `guess` gave.
    pub fn answer(self, observed: Relations) -> (r: Round<'a>)
        ensures
            match r {
                Round::Continue(next) => {
                    &&& next.catalog() == self.catalog()
                    &&& next.candidates() == narrowed(
                        self.catalog(),
                        self.candidates(),
                        self.candidates()[self.position()] as int,
                        observed,
                    )
                    &&& !settled(next.catalog(), next.candidates())
                    &&& next.candidates().len() < self.candidates().len()
                    &&& next.tries() == self.tries() + 1
                },
                Round::Found { attempts, remaining } => {
                    &&& remaining@ == narrowed(
                        self.catalog(),
                        self.candidates(),
                        self.candidates()[self.position()] as int,
                        observed,
                    )
                    &&& remaining@.len() > 0
                    &&& settled(self.catalog(), remaining@)
                    &&& attempts == self.tries() + 2
                    &&& attempts <= self.catalog().len()
                },
                Round::Contradiction => narrowed(
                    self.catalog(),
                    self.candidates(),
                    self.candidates()[self.position()] as int,
                    observed,
                ).len() == 0,
            },
    {
        proof {
            use_type_invariant(&self);
            assert(self.catalog@.len() == self.catalog.len());
        }
        match step(self.catalog, &self.candidates, self.tries, self.position, observed) {
            Step::Continue { candidates, tries } => {
                let position = best_guess(self.catalog, &candidates);
                Round::Continue(Search { catalog: self.catalog, candidates, tries, position })
            },
            Step::Found { attempts, remaining } => Round::Found { attempts, remaining },
            Step::Contradiction => Round::Contradiction,
        }
    }
}

/// How a search ends: the number of attempts and the candidates that remain.
pub struct Outcome {
    pub attempts: nat,
    pub remaining: Seq<usize>,
}

/// The result of a search for a known secret.
#[derive(Debug)]
pub struct Solved {
    /// Guesses made, with one more where the search ended by running out of
    /// distinctions and not by guessing the secret itself.
    pub attempts: usize,
    /// The candidates that remain, as positions in the catalog: the secret
    /// alone where it was guessed, else every weapon that cannot be told from
    /// it.
    pub remaining: Vec<usize>,
}

impl View for Solved {
    type V = Outcome;

    open spec fn view(&self) -> Outcome {
        Outcome { attempts: self.attempts as nat, remaining: self.remaining@ }
    }
}

/// The position, among the candidates, of the best next guess.
pub open spec fn best_position(catalog: Seq<Weapon>, candidates: Seq<usize>) -> int {
    choose|p: int| is_best_guess(catalog, candidates, p)
}

/// How the search for the catalog entry `secret` ends from the given
/// candidates, `tries` guesses having been made. Each round guesses the best
/// next guess and narrows the candidates by the secret's feedback. Guessing
/// the secret itself ends the search with the secret alone. Otherwise it
/// ends, with one attempt more, once the candidates left are settled; it
/// would end likewise if a round eliminated nothing.
pub open spec fn outcome(
    catalog: Seq<Weapon>,
    candidates: Seq<usize>,
    secret: usize,
    tries: nat,
) -> Outcome
    decreases candidates.len(),
{
    let guess = candidates[best_position(catalog, candidates)];
    let rest = narrowed(
        catalog,
        candidates,
        guess as int,
        signature(catalog[secret as int]@, catalog[guess as int]@),
    );
    if guess == secret {
        Outcome { attempts: tries + 1, remaining: seq![secret] }
    } else if settled(catalog, rest) || rest.len() >= candidates.len() {
        Outcome { attempts: tries + 2, remaining: rest }
    } else {
        outcome(catalog, rest, secret, tries + 1)
    }
}

/// Searches for the catalog entry `secret`, taking as feedback the secret's
/// true signature against every guess.
pub fn solve(catalog: &Vec<Weapon>, secret: usize) -> (r: Result<Solved, SolveError>)
    ensures
        catalog@.len() < 2 ==> r == Err::<Solved, SolveError>(SolveError::TooFewItems),
        catalog@.len() >= 2 && secret >= catalog@.len() ==> r == Err::<Solved, SolveError>(
            SolveError::UnknownSecret,
        ),
        catalog@.len() >= 2 && secret < catalog@.len() ==> r.is_ok(),
        r matches Ok(s) ==> {
            &&& s@ == outcome(catalog@, whole(catalog@.len()), secret, 0)
            &&& s.remaining@.contains(secret)
            &&& settled(catalog@, s.remaining@)
            &&& valid_candidates(catalog@, s.remaining@)
            &&& 1 <= s.attempts <= catalog@.len()
        },
{
    if catalog.len() < 2 {
        return Err(SolveError::TooFewItems);
    }
    if secret >= catalog.len() {
        return Err(SolveError::UnknownSecret);
    }
    let mut candidates = all_candidates(catalog);
    let mut tries: usize = 0;
    proof {
        assert(candidates@[secret as int] == secret);
    }
    loop
        invariant
            secret < catalog.len(),
            searching(catalog@, candidates@, tries as nat),
            candidates@.contains(secret),
            outcome(catalog@, whole(catalog@.len()), secret, 0) == outcome(
                catalog@,
                candidates@,
                secret,
                tries as nat,
            ),
        decreases candidates@.len(),
    {
        let p = best_guess(catalog, &candidates);
        let guess = candidates[p];
        let observed = Relations::between(&catalog[secret].data, &catalog[guess].data);
        proof {
            lemma_best_guess_unique(
                catalog@,
                candidates@,
                p as int,
                best_position(catalog@, candidates@),
            );
            lemma_secret_survives(catalog@, candidates@, secret, guess as int);
        }
        if guess == secret {
            let mut remaining: Vec<usize> = Vec::new();
            remaining.push(secret);
            proof {
                assert(remaining@ =~= seq![secret]);
                assert(remaining@[0] == secret);
            }
            return Ok(Solved { attempts: tries + 1, remaining });
        }
        match step(catalog, &candidates, tries, p, observed) {
            Step::Continue { candidates: rest, tries: made } => {
                candidates = rest;
                tries = made;
            },
            Step::Found { attempts, remaining } => {
                return Ok(Solved { attempts, remaining });
            },
            Step::Contradiction => {
                proof {
                    let rest = narrowed(catalog@, candidates@, guess as int, observed);
                    assert(rest.contains(secret));
                }
                return vstd::pervasive::unreached();
            },
        }
    }
}

/// The result of searching for every weapon of a catalog in turn.
#[derive(Debug)]
pub struct Simulation {
    /// The result of the search for each weapon, in catalog order.
    pub runs: Vec<Solved>,
    /// The attempts of all searches together.
    pub attempts: u128,
    /// The candidates that remained beside the secret, over all searches.
    /// Telling the secret from them takes half as many further guesses on
    /// average, so a catalog's mean number of guesses is
    /// `(attempts + ties / 2) / runs.len()`.
    pub ties: u128,
}

/// The sum of the attempts of the first `n` runs.
pub open spec fn attempts_sum(runs: Seq<Solved>, n: int) -> nat
    decreases n,
{
    if n <= 0 {
        0
    } else {
        attempts_sum(runs, n - 1) + runs[n - 1].attempts as nat
    }
}

/// The sum, over the first `n` runs, of the candidates that remained beside
/// the secret.
pub open spec fn ties_sum(runs: Seq<Solved>, n: int) -> nat
    decreases n,
{
    if n <= 0 {
        0
    } else {
        ties_sum(runs, n - 1) + (runs[n - 1].remaining@.len() - 1) as nat
    }
}

/// Candidates of a catalog are at most as many as its entries.
proof fn lemma_candidates_fit(catalog: Seq<Weapon>, candidates: Seq<usize>, n: int)
    requires
        valid_candidates(catalog, candidates),
        0 <= n <= candidates.len(),
    ensures
        n > 0 ==> n <= candidates[n - 1] + 1,
        n == candidates.len() ==> n <= catalog.len(),
    decreases n,
{
    if n > 1 {
        lemma_candidates_fit(catalog, candidates, n - 1);
    }
    if n > 0 {
        assert(candidates[n - 1] < catalog.len());
    }
}

/// Searches for every weapon of the catalog in turn, each search starting
/// from the whole catalog, and adds up what the searches took.
pub fn simulate(catalog: &Vec<Weapon>) -> (r: Result<Simulation, SolveError>)
    ensures
        catalog@.len() < 2 ==> r == Err::<Simulation, SolveError>(SolveError::TooFewItems),
        catalog@.len() >= 2 ==> r.is_ok(),
        r matches Ok(sim) ==> {
            &&& sim.runs@.len() == catalog@.len()
            &&& forall|i: int|
                0 <= i < catalog@.len() ==> (#[trigger] sim.runs@[i])@ == outcome(
                    catalog@,
                    whole(catalog@.len()),
                    i as usize,
                    0,
                )
            &&& sim.attempts == attempts_sum(sim.runs@, catalog@.len() as int)
            &&& sim.ties == ties_sum(sim.runs@, catalog@.len() as int)
        },
{
    let n = catalog.len();
    if n < 2 {
        return Err(SolveError::TooFewItems);
    }
    let mut runs: Vec<Solved> = Vec::new();
    let mut attempts: u128 = 0;
    let mut ties: u128 = 0;
    let mut secret: usize = 0;
    while secret < n
        invariant
            n == catalog@.len(),
            n >= 2,
            secret <= n,
            runs@.len() == secret,
            forall|i: int|
                0 <= i < secret ==> (#[trigger] runs@[i])@ == outcome(
                    catalog@,
                    whole(catalog@.len()),
                    i as usize,
                    0,
                ),
            attempts == attempts_sum(runs@, secret as int),
            ties == ties_sum(runs@, secret as int),
            attempts <= secret * n,
            ties <= secret * n,
        decreases n - secret,
    {
        match solve(catalog, secret) {
            Ok(run) => {
                let ghost before = runs@;
                proof {
                    lemma_candidates_fit(catalog@, run.remaining@, run.remaining@.len() as int);
                    assert(secret * n + n == (secret + 1) * n) by (nonlinear_arith);
                    assert((secret + 1) * n <= n * n) by (nonlinear_arith)
                        requires
                            secret + 1 <= n,
                    ;
                    assert(n * n <= 0xFFFF_FFFF_FFFF_FFFF * 0xFFFF_FFFF_FFFF_FFFF)
                        by (nonlinear_arith)
                        requires
                            0 <= n <= 0xFFFF_FFFF_FFFF_FFFF,
                    ;
                }
                attempts = attempts + run.attempts as u128;
                ties = ties + (run.remaining.len() - 1) as u128;
                runs.push(run);
                proof {
                    lemma_sums_keep(before, runs@, secret as int);
                }
            },
            Err(_) => {
                return vstd::pervasive::unreached();
            },
        }
        secret += 1;
    }
    Ok(Simulation { runs, attempts, ties })
}

/// The sums over the first `n` runs depend on those runs only.
proof fn lemma_sums_keep(a: Seq<Solved>, b: Seq<Solved>, n: int)
    requires
        0 <= n <= a.len(),
        n <= b.len(),
        forall|i: int| 0 <= i < n ==> a[i] == b[i],
    ensures
        attempts_sum(a, n) == attempts_sum(b, n),
        ties_sum(a, n) == ties_sum(b, n),
    decreases n,
{
    if n > 0 {
        lemma_sums_keep(a, b, n - 1);
    }
}

} // verus!
