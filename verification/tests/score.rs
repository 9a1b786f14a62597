use terradle_solver::data::{Class, Knockback, ObtainingMethod, SellValue, Speed, Weapon, WeaponData};
use terradle_solver::openers::openers;
use terradle_solver::score::{all_candidates, best_guess, next_guess, score_for, Score};

fn weapon(name: &str, damage: u16, rarity: u16) -> Weapon {
    Weapon {
        data: WeaponData {
            id: 0,
            name: String::from(name),
            damage,
            damage_type: Class::Melee,
            knockback: Knockback::Average,
            speed: Speed::Average,
            rarity,
            sell: SellValue::parse(""),
            obtained: vec![ObtainingMethod::Drop],
            material: false,
            autoswing: false,
        },
    }
}

fn distinct_pair() -> Vec<Weapon> {
    let a = Weapon {
        data: WeaponData {
            id: 1,
            name: String::from("A"),
            damage: 10,
            damage_type: Class::Melee,
            knockback: Knockback::Weak,
            speed: Speed::Slow,
            rarity: 1,
            sell: SellValue::parse("1 Silver"),
            obtained: vec![ObtainingMethod::Drop],
            material: false,
            autoswing: false,
        },
    };
    let b = Weapon {
        data: WeaponData {
            id: 2,
            name: String::from("B"),
            damage: 20,
            damage_type: Class::Magic,
            knockback: Knockback::Strong,
            speed: Speed::Fast,
            rarity: 4,
            sell: SellValue::parse("2 Gold"),
            obtained: vec![ObtainingMethod::Buy],
            material: true,
            autoswing: true,
        },
    };
    vec![a, b]
}

fn mean(s: Score) -> f64 {
    s.total as f64 / s.buckets as f64
}

#[test]
fn two_distinct_items_both_score_one() {
    let catalog = distinct_pair();
    let all = all_candidates(&catalog);
    let first = score_for(&catalog, &all, 0);
    let second = score_for(&catalog, &all, 1);
    assert_eq!(first, Score { total: 1, buckets: 1 });
    assert_eq!(second, Score { total: 1, buckets: 1 });
    assert_eq!(mean(first), 1.0);
    assert_eq!(mean(second), 1.0);
}

#[test]
fn openers_on_two_distinct_items_ranks_both_with_score_one() {
    let catalog = distinct_pair();
    let table = openers(&catalog);
    assert_eq!(table.len(), 2);
    assert_eq!(table[0].weapon, 0);
    assert_eq!(table[1].weapon, 1);
    assert_eq!(mean(table[0].score), 1.0);
    assert_eq!(mean(table[1].score), 1.0);
}

#[test]
fn occupancies_add_up_to_the_other_candidates() {
    let catalog = vec![
        weapon("a", 1, 1),
        weapon("b", 2, 1),
        weapon("c", 3, 1),
        weapon("d", 3, 2),
        weapon("e", 3, 2),
        weapon("f", 9, 9),
    ];
    let all = all_candidates(&catalog);
    for g in 0..all.len() {
        assert_eq!(score_for(&catalog, &all, g).total, catalog.len() - 1);
    }
    let some = vec![1, 3, 4];
    for g in 0..some.len() {
        assert_eq!(score_for(&catalog, &some, g).total, 2);
    }
}

#[test]
fn score_counts_distinct_feedback_patterns() {
    let catalog = vec![
        weapon("low", 1, 1),
        weapon("mid", 5, 1),
        weapon("mid twin", 5, 1),
        weapon("high", 9, 1),
    ];
    let all = all_candidates(&catalog);
    assert_eq!(score_for(&catalog, &all, 0), Score { total: 3, buckets: 1 });
    assert_eq!(score_for(&catalog, &all, 1), Score { total: 3, buckets: 3 });
    assert_eq!(score_for(&catalog, &all, 2), Score { total: 3, buckets: 3 });
    assert_eq!(score_for(&catalog, &all, 3), Score { total: 3, buckets: 1 });
    assert_eq!(mean(score_for(&catalog, &all, 0)), 3.0);
    assert_eq!(mean(score_for(&catalog, &all, 1)), 1.0);
}

#[test]
fn score_excludes_the_guess_by_position_not_by_attributes() {
    let catalog = vec![weapon("twin", 5, 1), weapon("twin", 5, 1)];
    let all = all_candidates(&catalog);
    assert_eq!(score_for(&catalog, &all, 0), Score { total: 1, buckets: 1 });
    assert_eq!(score_for(&catalog, &all, 1), Score { total: 1, buckets: 1 });
}

#[test]
fn score_of_a_lone_candidate_has_no_buckets() {
    let catalog = vec![weapon("only", 5, 1), weapon("other", 6, 1)];
    assert_eq!(score_for(&catalog, &vec![1], 0), Score { total: 0, buckets: 0 });
}

#[test]
fn score_with_one_other_candidate_is_that_single_count() {
    let catalog = vec![weapon("a", 1, 1), weapon("b", 2, 1), weapon("c", 3, 1)];
    assert_eq!(score_for(&catalog, &vec![0, 2], 1), Score { total: 1, buckets: 1 });
}

#[test]
fn better_than_compares_means_exactly() {
    let a = Score { total: 3, buckets: 3 };
    let b = Score { total: 3, buckets: 2 };
    let c = Score { total: 6, buckets: 4 };
    assert!(a.better_than(&b));
    assert!(!b.better_than(&a));
    assert!(!b.better_than(&c));
    assert!(!c.better_than(&b));
    assert!(!a.better_than(&a));
    let wide = Score { total: usize::MAX, buckets: usize::MAX };
    let wider = Score { total: usize::MAX, buckets: usize::MAX - 1 };
    assert!(wide.better_than(&wider));
    assert!(!wider.better_than(&wide));
}

#[test]
fn best_guess_has_the_lowest_mean() {
    let catalog = vec![
        weapon("low", 1, 1),
        weapon("mid", 5, 1),
        weapon("high", 9, 1),
    ];
    let all = all_candidates(&catalog);
    assert_eq!(best_guess(&catalog, &all), 1);
    assert_eq!(next_guess(&catalog).data.name, "mid");
}

#[test]
fn best_guess_breaks_ties_by_catalog_order() {
    let catalog = distinct_pair();
    let all = all_candidates(&catalog);
    assert_eq!(best_guess(&catalog, &all), 0);
    assert_eq!(next_guess(&catalog).data.name, "A");
    let catalog = vec![
        weapon("low", 1, 1),
        weapon("mid", 5, 1),
        weapon("mid twin", 5, 1),
        weapon("high", 9, 1),
    ];
    let all = all_candidates(&catalog);
    assert_eq!(best_guess(&catalog, &all), 1);
    assert_eq!(best_guess(&catalog, &vec![0, 2, 3]), 1);
    assert_eq!(best_guess(&catalog, &vec![0, 3]), 0);
    assert_eq!(best_guess(&catalog, &vec![3]), 0);
}

#[test]
fn all_candidates_lists_every_position() {
    assert_eq!(all_candidates(&Vec::new()), Vec::<usize>::new());
    assert_eq!(all_candidates(&distinct_pair()), vec![0, 1]);
}

#[test]
fn openers_sorts_ascending_and_keeps_catalog_order_among_ties() {
    let catalog = vec![
        weapon("low", 1, 1),
        weapon("mid", 5, 1),
        weapon("mid twin", 5, 1),
        weapon("high", 9, 1),
    ];
    let table = openers(&catalog);
    let order: Vec<usize> = table.iter().map(|r| r.weapon).collect();
    assert_eq!(order, vec![1, 2, 0, 3]);
    let means: Vec<f64> = table.iter().map(|r| mean(r.score)).collect();
    assert_eq!(means, vec![1.0, 1.0, 3.0, 3.0]);
    let all = all_candidates(&catalog);
    for r in &table {
        assert_eq!(r.score, score_for(&catalog, &all, r.weapon));
    }
}

#[test]
fn openers_on_small_catalogs() {
    assert_eq!(openers(&Vec::new()).len(), 0);
    let one = vec![weapon("only", 1, 1)];
    let table = openers(&one);
    assert_eq!(table.len(), 1);
    assert_eq!(table[0].weapon, 0);
    assert_eq!(table[0].score, Score { total: 0, buckets: 0 });
}
