//! The feedback signature: how a reference weapon compares to a guessed one on
//! each of the eight channels, and the bucket index that encodes it.

use vstd::prelude::*;
use vstd::std_specs::convert::FromSpecImpl;
use crate::data::{Attributes, ObtainingMethod, WeaponData};

verus! {

/// Outcome of one three-valued channel.
///
/// On the ordered channels (damage, knockback, speed, rarity) it says how the
/// reference weapon's value stands to the guessed weapon's. On the
/// obtainability channel `Equal` means equal sets, `Less` disjoint sets and
/// `Greater` sets that overlap without being equal.
#[derive(Debug, Clone, Copy, PartialEq, Eq, Structural)]
pub enum Relation {
    Less,
    Equal,
    Greater,
}

/// The feedback signature of an ordered pair (reference, guess): one outcome
/// per channel, in the fixed channel order class, damage, knockback, speed,
/// rarity, autoswing, material, obtainability.
#[derive(Debug, Clone, Copy, PartialEq, Eq, Structural)]
pub struct Relations {
    /// Same damage class.
    pub c: bool,
    /// Damage.
    pub d: Relation,
    /// Knockback.
    pub k: Relation,
    /// Speed.
    pub s: Relation,
    /// Rarity.
    pub r: Relation,
    /// Same autoswing flag.
    pub a: bool,
    /// Same crafting-material flag.
    pub m: bool,
    /// Obtainability.
    pub o: Relation,
}

/// How `a` stands to `b` in the usual order of the naturals.
pub open spec fn compare(a: nat, b: nat) -> Relation {
    if a < b {
        Relation::Less
    } else if a == b {
        Relation::Equal
    } else {
        Relation::Greater
    }
}

/// How two sets of obtaining methods relate. Equality is tested first, so two
/// empty sets are equal and not disjoint.
pub open spec fn overlap(a: Set<ObtainingMethod>, b: Set<ObtainingMethod>) -> Relation {
    if a =~= b {
        Relation::Equal
    } else if a.disjoint(b) {
        Relation::Less
    } else {
        Relation::Greater
    }
}

/// The signature of `reference` against `guess`.
pub open spec fn signature(reference: Attributes, guess: Attributes) -> Relations {
    Relations {
        c: reference.class == guess.class,
        d: compare(reference.damage, guess.damage),
        k: compare(reference.knockback, guess.knockback),
        s: compare(reference.speed, guess.speed),
        r: compare(reference.rarity, guess.rarity),
        a: reference.autoswing == guess.autoswing,
        m: reference.material == guess.material,
        o: overlap(reference.obtained, guess.obtained),
    }
}

/// The signature on which every channel matches. Two weapons related by it
/// cannot be told apart.
pub open spec fn matching() -> Relations {
    Relations {
        c: true,
        d: Relation::Equal,
        k: Relation::Equal,
        s: Relation::Equal,
        r: Relation::Equal,
        a: true,
        m: true,
        o: Relation::Equal,
    }
}

impl Default for Relations {
    /// The all-channels-match signature.
    fn default() -> (r: Relations)
        ensures
            r == matching(),
    {
        Relations {
            c: true,
            d: Relation::Equal,
            k: Relation::Equal,
            s: Relation::Equal,
            r: Relation::Equal,
            a: true,
            m: true,
            o: Relation::Equal,
        }
    }
}

fn compare_u16(a: u16, b: u16) -> (r: Relation)
    ensures
        r == compare(a as nat, b as nat),
{
    if a < b {
        Relation::Less
    } else if a == b {
        Relation::Equal
    } else {
        Relation::Greater
    }
}

fn compare_u8(a: u8, b: u8) -> (r: Relation)
    ensures
        r == compare(a as nat, b as nat),
{
    if a < b {
        Relation::Less
    } else if a == b {
        Relation::Equal
    } else {
        Relation::Greater
    }
}

/// Whether `m` occurs in `v`.
fn has_method(v: &Vec<ObtainingMethod>, m: ObtainingMethod) -> (r: bool)
    ensures
        r == v@.to_set().contains(m),
{
    let mut i: usize = 0;
    while i < v.len()
        invariant
            i <= v.len(),
            forall|j: int| 0 <= j < i ==> v@[j] != m,
        decreases v.len() - i,
    {
        if v[i] == m {
            return true;
        }
        i += 1;
    }
    false
}

/// How the sets behind two lists of obtaining methods relate.
fn compare_methods(a: &Vec<ObtainingMethod>, b: &Vec<ObtainingMethod>) -> (r: Relation)
    ensures
        r == overlap(a@.to_set(), b@.to_set()),
{
    let a_drop = has_method(a, ObtainingMethod::Drop);
    let a_crafting = has_method(a, ObtainingMethod::Crafting);
    let a_chest = has_method(a, ObtainingMethod::Chest);
    let a_fishing = has_method(a, ObtainingMethod::Fishing);
    let a_buy = has_method(a, ObtainingMethod::Buy);
    let b_drop = has_method(b, ObtainingMethod::Drop);
    let b_crafting = has_method(b, ObtainingMethod::Crafting);
    let b_chest = has_method(b, ObtainingMethod::Chest);
    let b_fishing = has_method(b, ObtainingMethod::Fishing);
    let b_buy = has_method(b, ObtainingMethod::Buy);
    let equal = a_drop == b_drop && a_crafting == b_crafting && a_chest == b_chest && a_fishing
        == b_fishing && a_buy == b_buy;
    let disjoint = !(a_drop && b_drop) && !(a_crafting && b_crafting) && !(a_chest && b_chest)
        && !(a_fishing && b_fishing) && !(a_buy && b_buy);
    proof {
        let sa = a@.to_set();
        let sb = b@.to_set();
        assert(equal == (sa =~= sb)) by {
            if equal {
                assert forall|m: ObtainingMethod| sa.contains(m) == sb.contains(m) by {
                    match m {
                        ObtainingMethod::Drop => {},
                        ObtainingMethod::Crafting => {},
                        ObtainingMethod::Chest => {},
                        ObtainingMethod::Fishing => {},
                        ObtainingMethod::Buy => {},
                    }
                }
            }
        }
        assert(disjoint == sa.disjoint(sb)) by {
            if disjoint {
                assert forall|m: ObtainingMethod| !(sa.contains(m) && sb.contains(m)) by {
                    match m {
                        ObtainingMethod::Drop => {},
                        ObtainingMethod::Crafting => {},
                        ObtainingMethod::Chest => {},
                        ObtainingMethod::Fishing => {},
                        ObtainingMethod::Buy => {},
                    }
                }
            }
        }
    }
    if equal {
        Relation::Equal
    } else if disjoint {
        Relation::Less
    } else {
        Relation::Greater
    }
}

impl Relations {
    /// The signature of `reference` against `guess`: each channel's comparison
    /// applied to the pair in that order.
    pub fn between(reference: &WeaponData, guess: &WeaponData) -> (r: Relations)
        ensures
            r == signature(reference@, guess@),
    {
        Relations {
            c: reference.damage_type == guess.damage_type,
            d: compare_u16(reference.damage, guess.damage),
            k: compare_u8(reference.knockback.rank(), guess.knockback.rank()),
            s: compare_u8(reference.speed.rank(), guess.speed.rank()),
            r: compare_u16(reference.rarity, guess.rarity),
            a: reference.autoswing == guess.autoswing,
            m: reference.material == guess.material,
            o: compare_methods(&reference.obtained, &guess.obtained),
        }
    }
}

/// A bucket index: the integer that stands for one signature.
pub type Bucket = usize;

/// Number of distinct signatures, the product of the channels' outcome counts
/// (2 * 3 * 3 * 3 * 3 * 2 * 2 * 3). Every bucket index is below it.
pub const POSSIBLE_BUCKETS: usize = 1944;

/// Digit of a two-valued channel: 1 for a match, 0 otherwise.
pub open spec fn flag_digit(b: bool) -> nat {
    if b {
        1
    } else {
        0
    }
}

/// Digit of a three-valued channel.
pub open spec fn relation_digit(r: Relation) -> nat {
    match r {
        Relation::Less => 0,
        Relation::Equal => 1,
        Relation::Greater => 2,
    }
}

/// The three-valued outcome whose digit is `d`.
pub open spec fn digit_relation(d: nat) -> Relation {
    if d == 0 {
        Relation::Less
    } else if d == 1 {
        Relation::Equal
    } else {
        Relation::Greater
    }
}

/// Mixed-radix encoding of a signature, most significant channel first, in
/// the channel order with bases 2, 3, 3, 3, 3, 2, 2, 3.
pub open spec fn encode(r: Relations) -> nat {
    positional_value(
        flag_digit(r.c),
        relation_digit(r.d),
        relation_digit(r.k),
        relation_digit(r.s),
        relation_digit(r.r),
        flag_digit(r.a),
        flag_digit(r.m),
        relation_digit(r.o),
    )
}

/// The signature whose encoding is `b`, for `b` below the number of buckets:
/// the digits are taken off one by one, least significant channel first.
pub open spec fn decode(b: nat) -> Relations {
    let above_o = b / 3;
    let above_m = above_o / 2;
    let above_a = above_m / 2;
    let above_r = above_a / 3;
    let above_s = above_r / 3;
    let above_k = above_s / 3;
    let above_d = above_k / 3;
    Relations {
        c: above_d % 2 == 1,
        d: digit_relation(above_k % 3),
        k: digit_relation(above_s % 3),
        s: digit_relation(above_r % 3),
        r: digit_relation(above_a % 3),
        a: above_m % 2 == 1,
        m: above_o % 2 == 1,
        o: digit_relation(b % 3),
    }
}

/// The bucket of the all-channels-match signature.
pub open spec fn matching_bucket() -> nat {
    1462
}

/// The number with the given digits in the bases 2, 3, 3, 3, 3, 2, 2, 3, most
/// significant first. It is opaque, so that proofs about signatures do not
/// drag the arithmetic along: reveal it to compute with given digits.
#[verifier::opaque]
pub open spec fn positional_value(
    c: nat,
    d: nat,
    k: nat,
    s: nat,
    r: nat,
    a: nat,
    m: nat,
    o: nat,
) -> nat {
    ((((((c * 3 + d) * 3 + k) * 3 + s) * 3 + r) * 2 + a) * 2 + m) * 3 + o
}

/// Taking the digits off a number gives back the digits it was made of.
proof fn lemma_digits_of_positional(
    c: nat,
    d: nat,
    k: nat,
    s: nat,
    r: nat,
    a: nat,
    m: nat,
    o: nat,
)
    requires
        c < 2,
        d < 3,
        k < 3,
        s < 3,
        r < 3,
        a < 2,
        m < 2,
        o < 3,
    ensures
        positional_value(c, d, k, s, r, a, m, o) < POSSIBLE_BUCKETS,
        positional_value(c, d, k, s, r, a, m, o) % 3 == o,
        positional_value(c, d, k, s, r, a, m, o) / 3 % 2 == m,
        positional_value(c, d, k, s, r, a, m, o) / 3 / 2 % 2 == a,
        positional_value(c, d, k, s, r, a, m, o) / 3 / 2 / 2 % 3 == r,
        positional_value(c, d, k, s, r, a, m, o) / 3 / 2 / 2 / 3 % 3 == s,
        positional_value(c, d, k, s, r, a, m, o) / 3 / 2 / 2 / 3 / 3 % 3 == k,
        positional_value(c, d, k, s, r, a, m, o) / 3 / 2 / 2 / 3 / 3 / 3 % 3 == d,
        positional_value(c, d, k, s, r, a, m, o) / 3 / 2 / 2 / 3 / 3 / 3 / 3 % 2 == c,
{
    reveal(positional_value);
    let upto_d = c * 3 + d;
    let upto_k = upto_d * 3 + k;
    let upto_s = upto_k * 3 + s;
    let upto_r = upto_s * 3 + r;
    let upto_a = upto_r * 2 + a;
    let upto_m = upto_a * 2 + m;
    let b = upto_m * 3 + o;
    assert(b / 3 == upto_m);
    assert(upto_m / 2 == upto_a);
    assert(upto_a / 2 == upto_r);
    assert(upto_r / 3 == upto_s);
    assert(upto_s / 3 == upto_k);
    assert(upto_k / 3 == upto_d);
    assert(upto_d / 3 == c);
}

/// A number below the number of buckets is made of the digits taken off it.
proof fn lemma_positional_of_digits(b: nat)
    requires
        b < POSSIBLE_BUCKETS,
    ensures
        positional_value(
            b / 3 / 2 / 2 / 3 / 3 / 3 / 3 % 2,
            b / 3 / 2 / 2 / 3 / 3 / 3 % 3,
            b / 3 / 2 / 2 / 3 / 3 % 3,
            b / 3 / 2 / 2 / 3 % 3,
            b / 3 / 2 / 2 % 3,
            b / 3 / 2 % 2,
            b / 3 % 2,
            b % 3,
        ) == b,
{
    reveal(positional_value);
    let above_o = b / 3;
    let above_m = above_o / 2;
    let above_a = above_m / 2;
    let above_r = above_a / 3;
    let above_s = above_r / 3;
    let above_k = above_s / 3;
    let above_d = above_k / 3;
    assert(above_d < 2);
    assert(b == above_o * 3 + b % 3);
    assert(above_o == above_m * 2 + above_o % 2);
    assert(above_m == above_a * 2 + above_m % 2);
    assert(above_a == above_r * 3 + above_a % 3);
    assert(above_r == above_s * 3 + above_r % 3);
    assert(above_s == above_k * 3 + above_s % 3);
    assert(above_k == above_d * 3 + above_k % 3);
}

fn flag_value(b: bool) -> (d: usize)
    ensures
        d == flag_digit(b),
        d < 2,
{
    if b {
        1
    } else {
        0
    }
}

fn relation_value(r: Relation) -> (d: usize)
    ensures
        d == relation_digit(r),
        d < 3,
{
    match r {
        Relation::Less => 0,
        Relation::Equal => 1,
        Relation::Greater => 2,
    }
}

fn relation_of(d: usize) -> (r: Relation)
    requires
        d < 3,
    ensures
        r == digit_relation(d as nat),
{
    if d == 0 {
        Relation::Less
    } else if d == 1 {
        Relation::Equal
    } else {
        Relation::Greater
    }
}

/// The number with the given digits in the bases 2, 3, 3, 3, 3, 2, 2, 3, most
/// significant first.
fn positional(
    c: usize,
    d: usize,
    k: usize,
    s: usize,
    r: usize,
    a: usize,
    m: usize,
    o: usize,
) -> (index: usize)
    requires
        c < 2,
        d < 3,
        k < 3,
        s < 3,
        r < 3,
        a < 2,
        m < 2,
        o < 3,
    ensures
        index == positional_value(
            c as nat,
            d as nat,
            k as nat,
            s as nat,
            r as nat,
            a as nat,
            m as nat,
            o as nat,
        ),
        index < POSSIBLE_BUCKETS,
{
    reveal(positional_value);
    ((((((c * 3 + d) * 3 + k) * 3 + s) * 3 + r) * 2 + a) * 2 + m) * 3 + o
}

impl Relations {
    /// The bucket index of this signature.
    pub fn bucket(&self) -> (index: Bucket)
        ensures
            index == encode(*self),
            index < POSSIBLE_BUCKETS,
    {
        positional(
            flag_value(self.c),
            relation_value(self.d),
            relation_value(self.k),
            relation_value(self.s),
            relation_value(self.r),
            flag_value(self.a),
            flag_value(self.m),
            relation_value(self.o),
        )
    }

    /// The signature that a bucket index stands for, if it stands for one.
    pub fn from_bucket(index: Bucket) -> (r: Option<Relations>)
        ensures
            index < POSSIBLE_BUCKETS ==> r == Some(decode(index as nat)),
            index >= POSSIBLE_BUCKETS ==> r.is_none(),
    {
        if index >= POSSIBLE_BUCKETS {
            return None;
        }
        let above_o = index / 3;
        let above_m = above_o / 2;
        let above_a = above_m / 2;
        let above_r = above_a / 3;
        let above_s = above_r / 3;
        let above_k = above_s / 3;
        let above_d = above_k / 3;
        Some(
            Relations {
                c: above_d % 2 == 1,
                d: relation_of(above_k % 3),
                k: relation_of(above_s % 3),
                s: relation_of(above_r % 3),
                r: relation_of(above_a % 3),
                a: above_m % 2 == 1,
                m: above_o % 2 == 1,
                o: relation_of(index % 3),
            },
        )
    }
}

/// A weapon compared with itself, or with any weapon of the same attributes,
/// gives the all-channels-match signature, and that signature always lands in
/// the same fixed bucket.
pub proof fn lemma_self_signature_matches(a: Attributes)
    ensures
        signature(a, a) == matching(),
        encode(signature(a, a)) == matching_bucket(),
{
    reveal(positional_value);
}

/// Every signature encodes to a bucket index below the number of buckets.
pub proof fn lemma_encode_in_range(r: Relations)
    ensures
        encode(r) < POSSIBLE_BUCKETS,
{
    lemma_digits_of_positional(
        flag_digit(r.c),
        relation_digit(r.d),
        relation_digit(r.k),
        relation_digit(r.s),
        relation_digit(r.r),
        flag_digit(r.a),
        flag_digit(r.m),
        relation_digit(r.o),
    );
}

/// Decoding undoes encoding: every signature is recovered from its bucket.
pub proof fn lemma_decode_encode(r: Relations)
    ensures
        decode(encode(r)) == r,
{
    lemma_digits_of_positional(
        flag_digit(r.c),
        relation_digit(r.d),
        relation_digit(r.k),
        relation_digit(r.s),
        relation_digit(r.r),
        flag_digit(r.a),
        flag_digit(r.m),
        relation_digit(r.o),
    );
}

/// Encoding undoes decoding: every bucket index below the number of buckets
/// is the bucket of exactly the signature it decodes to.
pub proof fn lemma_encode_decode(b: nat)
    requires
        b < POSSIBLE_BUCKETS,
    ensures
        encode(decode(b)) == b,
{
    lemma_positional_of_digits(b);
}

/// Two signatures with the same bucket are the same signature.
pub proof fn lemma_encode_injective(x: Relations, y: Relations)
    requires
        encode(x) == encode(y),
    ensures
        x == y,
{
    lemma_decode_encode(x);
    lemma_decode_encode(y);
}

impl<'a, 'b> From<(&'a WeaponData, &'b WeaponData)> for Relations {
    /// The signature of the first weapon, the reference, against the second,
    /// the guess.
    fn from(value: (&'a WeaponData, &'b WeaponData)) -> (r: Relations) {
        Relations::between(value.0, value.1)
    }
}

impl<'a, 'b> FromSpecImpl<(&'a WeaponData, &'b WeaponData)> for Relations {
    open spec fn obeys_from_spec() -> bool {
        true
    }

    open spec fn from_spec(value: (&'a WeaponData, &'b WeaponData)) -> Relations {
        signature(value.0@, value.1@)
    }
}

impl From<Relations> for Bucket {
    /// The bucket index of a signature.
    fn from(val: Relations) -> (index: Bucket) {
        val.bucket()
    }
}

impl FromSpecImpl<Relations> for Bucket {
    open spec fn obeys_from_spec() -> bool {
        true
    }

    open spec fn from_spec(val: Relations) -> Bucket {
        encode(val) as usize
    }
}

} // verus!
