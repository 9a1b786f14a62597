use terradle_solver::data::{Class, Knockback, ObtainingMethod, SellValue, Speed, WeaponData};
use terradle_solver::relations::{Bucket, Relation, Relations, POSSIBLE_BUCKETS};

fn base() -> WeaponData {
    WeaponData {
        id: 1,
        name: String::from("Copper Shortsword"),
        damage: 5,
        damage_type: Class::Melee,
        knockback: Knockback::Weak,
        speed: Speed::Fast,
        rarity: 0,
        sell: SellValue::parse("70 Copper"),
        obtained: vec![ObtainingMethod::Crafting],
        material: false,
        autoswing: false,
    }
}

fn all_match() -> Relations {
    Relations {
        c: true,
        d: Relation::Equal,
        k: Relation::Equal,
        s: Relation::Equal,
        r: Relation::Equal,
        a: true,
        m: true,
        o: Relation::Equal,
    }
}

#[test]
fn default_is_all_channels_match() {
    assert_eq!(Relations::default(), all_match());
}

#[test]
fn self_signature_is_default() {
    let w = base();
    assert_eq!(Relations::between(&w, &w), Relations::default());
    assert_eq!(Relations::between(&w, &w).bucket(), 1462);
}

#[test]
fn self_signature_lands_in_default_bucket_for_other_weapon() {
    let mut w = base();
    w.damage_type = Class::Summon;
    w.damage = 65535;
    w.knockback = Knockback::Insane;
    w.speed = Speed::Snail;
    w.rarity = 11;
    w.obtained = vec![];
    w.material = true;
    w.autoswing = true;
    assert_eq!(Relations::between(&w, &w).bucket(), Relations::default().bucket());
}

#[test]
fn default_bucket_value() {
    assert_eq!(Relations::default().bucket(), 1462);
}

#[test]
fn bucket_count_is_product_of_channel_sizes() {
    assert_eq!(POSSIBLE_BUCKETS, 2 * 3 * 3 * 3 * 3 * 2 * 2 * 3);
}

#[test]
fn lowest_and_highest_bucket() {
    let lowest = Relations {
        c: false,
        d: Relation::Less,
        k: Relation::Less,
        s: Relation::Less,
        r: Relation::Less,
        a: false,
        m: false,
        o: Relation::Less,
    };
    let highest = Relations {
        c: true,
        d: Relation::Greater,
        k: Relation::Greater,
        s: Relation::Greater,
        r: Relation::Greater,
        a: true,
        m: true,
        o: Relation::Greater,
    };
    assert_eq!(lowest.bucket(), 0);
    assert_eq!(highest.bucket(), POSSIBLE_BUCKETS - 1);
}

#[test]
fn bucket_weights_each_channel() {
    let mut r = Relations {
        c: false,
        d: Relation::Less,
        k: Relation::Less,
        s: Relation::Less,
        r: Relation::Less,
        a: false,
        m: false,
        o: Relation::Less,
    };
    r.o = Relation::Equal;
    assert_eq!(r.bucket(), 1);
    r.o = Relation::Less;
    r.m = true;
    assert_eq!(r.bucket(), 3);
    r.m = false;
    r.a = true;
    assert_eq!(r.bucket(), 6);
    r.a = false;
    r.r = Relation::Equal;
    assert_eq!(r.bucket(), 12);
    r.r = Relation::Less;
    r.s = Relation::Equal;
    assert_eq!(r.bucket(), 36);
    r.s = Relation::Less;
    r.k = Relation::Equal;
    assert_eq!(r.bucket(), 108);
    r.k = Relation::Less;
    r.d = Relation::Greater;
    assert_eq!(r.bucket(), 648);
    r.d = Relation::Less;
    r.c = true;
    assert_eq!(r.bucket(), 972);
}

#[test]
fn decode_encode_round_trip_over_every_bucket() {
    for b in 0..POSSIBLE_BUCKETS {
        let r = Relations::from_bucket(b).unwrap();
        assert_eq!(r.bucket(), b);
    }
}

#[test]
fn encode_decode_round_trip_over_every_signature() {
    let flags = [false, true];
    let rels = [Relation::Less, Relation::Equal, Relation::Greater];
    let mut seen = vec![false; POSSIBLE_BUCKETS];
    for c in flags {
        for d in rels {
            for k in rels {
                for s in rels {
                    for r in rels {
                        for a in flags {
                            for m in flags {
                                for o in rels {
                                    let sig = Relations { c, d, k, s, r, a, m, o };
                                    let b = sig.bucket();
                                    assert!(b < POSSIBLE_BUCKETS);
                                    assert!(!seen[b]);
                                    seen[b] = true;
                                    assert_eq!(Relations::from_bucket(b), Some(sig));
                                }
                            }
                        }
                    }
                }
            }
        }
    }
    assert!(seen.iter().all(|x| *x));
}

#[test]
fn from_bucket_rejects_out_of_range() {
    assert_eq!(Relations::from_bucket(POSSIBLE_BUCKETS), None);
    assert_eq!(Relations::from_bucket(usize::MAX), None);
    assert!(Relations::from_bucket(POSSIBLE_BUCKETS - 1).is_some());
}

#[test]
fn ordered_channels_compare_reference_to_guess() {
    let guess = base();
    let mut reference = base();
    reference.damage = 4;
    reference.knockback = Knockback::Strong;
    reference.speed = Speed::Slow;
    reference.rarity = 3;
    let sig = Relations::between(&reference, &guess);
    assert_eq!(sig.d, Relation::Less);
    assert_eq!(sig.k, Relation::Greater);
    assert_eq!(sig.s, Relation::Less);
    assert_eq!(sig.r, Relation::Greater);
    assert!(sig.c && sig.a && sig.m);
    assert_eq!(sig.o, Relation::Equal);
    let back = Relations::between(&guess, &reference);
    assert_eq!(back.d, Relation::Greater);
    assert_eq!(back.k, Relation::Less);
    assert_eq!(back.s, Relation::Greater);
    assert_eq!(back.r, Relation::Less);
}

#[test]
fn ladders_compare_by_position_not_by_name() {
    let mut slow = base();
    slow.speed = Speed::ExtremelySlow;
    let mut snail = base();
    snail.speed = Speed::Snail;
    assert_eq!(Relations::between(&snail, &slow).s, Relation::Less);
    let mut none = base();
    none.knockback = Knockback::NoKnockback;
    let mut insane = base();
    insane.knockback = Knockback::Insane;
    assert_eq!(Relations::between(&insane, &none).k, Relation::Greater);
    assert_eq!(Speed::Snail.rank(), 0);
    assert_eq!(Speed::InsanelyFast.rank(), 7);
    assert_eq!(Knockback::NoKnockback.rank(), 0);
    assert_eq!(Knockback::Average.rank(), 4);
    assert_eq!(Knockback::Insane.rank(), 8);
    assert_eq!(Speed::Average.rank(), 4);
}

#[test]
fn flag_channels_compare_by_equality() {
    let guess = base();
    let mut reference = base();
    reference.damage_type = Class::Magic;
    reference.autoswing = true;
    reference.material = true;
    let sig = Relations::between(&reference, &guess);
    assert!(!sig.c);
    assert!(!sig.a);
    assert!(!sig.m);
}

#[test]
fn obtainability_equal_sets() {
    let mut a = base();
    let mut b = base();
    a.obtained = vec![ObtainingMethod::Drop, ObtainingMethod::Chest];
    b.obtained = vec![ObtainingMethod::Chest, ObtainingMethod::Drop, ObtainingMethod::Chest];
    assert_eq!(Relations::between(&a, &b).o, Relation::Equal);
}

#[test]
fn obtainability_two_empty_sets_are_equal() {
    let mut a = base();
    let mut b = base();
    a.obtained = vec![];
    b.obtained = vec![];
    assert_eq!(Relations::between(&a, &b).o, Relation::Equal);
}

#[test]
fn obtainability_disjoint_sets() {
    let mut a = base();
    let mut b = base();
    a.obtained = vec![ObtainingMethod::Drop, ObtainingMethod::Fishing];
    b.obtained = vec![ObtainingMethod::Buy];
    assert_eq!(Relations::between(&a, &b).o, Relation::Less);
    b.obtained = vec![];
    assert_eq!(Relations::between(&a, &b).o, Relation::Less);
}

#[test]
fn obtainability_overlapping_sets() {
    let mut a = base();
    let mut b = base();
    a.obtained = vec![ObtainingMethod::Drop, ObtainingMethod::Fishing];
    b.obtained = vec![ObtainingMethod::Fishing, ObtainingMethod::Buy];
    assert_eq!(Relations::between(&a, &b).o, Relation::Greater);
    b.obtained = vec![ObtainingMethod::Fishing];
    assert_eq!(Relations::between(&a, &b).o, Relation::Greater);
}

#[test]
fn conversions_agree_with_the_named_functions() {
    let guess = base();
    let mut reference = base();
    reference.rarity = 9;
    reference.obtained = vec![ObtainingMethod::Buy];
    let sig = Relations::from((&reference, &guess));
    assert_eq!(sig, Relations::between(&reference, &guess));
    let bucket: Bucket = sig.into();
    assert_eq!(bucket, sig.bucket());
    assert_ne!(bucket, Relations::default().bucket());
}

#[test]
fn class_has_no_order() {
    assert_eq!(Class::Melee.partial_cmp(&Class::Ranged), None);
    assert_eq!(Class::Melee.partial_cmp(&Class::Melee), None);
    assert!(!(Class::Melee < Class::Magic));
    assert!(!(Class::Magic < Class::Melee));
    assert!(Class::Melee == Class::Melee);
}
