//! The catalog's data model: one weapon and the attributes it is compared by.

use std::cmp::Ordering;
use vstd::prelude::*;
use vstd::std_specs::cmp::PartialOrdSpecImpl;
use vstd::std_specs::convert::FromSpecImpl;
use crate::text::{chars_of, decimal_u16, parse_u16_chars, same_chars, split_words, words};

verus! {

/// Damage class of a weapon. Classes are unordered: only equality is meaningful.
#[derive(Debug, Clone, Copy, PartialEq, Eq, Structural)]
pub enum Class {
    Melee,
    Ranged,
    Magic,
    Summon,
    Classless,
}

impl PartialOrd for Class {
    /// No class is less or greater than another, nor than itself.
    fn partial_cmp(&self, _other: &Self) -> (r: Option<Ordering>) {
        None
    }
}

impl PartialOrdSpecImpl for Class {
    open spec fn obeys_partial_cmp_spec() -> bool {
        true
    }

    open spec fn partial_cmp_spec(&self, _other: &Self) -> Option<Ordering> {
        None
    }
}

/// Use speed, a ladder of tiers from slowest to fastest.
#[derive(Debug, Clone, Copy, PartialEq, Eq, PartialOrd, Ord, Structural)]
pub enum Speed {
    Snail,
    ExtremelySlow,
    VerySlow,
    Slow,
    Average,
    Fast,
    VeryFast,
    InsanelyFast,
}

impl Speed {
    /// Position of the tier on the ladder, slowest first.
    pub open spec fn position(self) -> nat {
        match self {
            Speed::Snail => 0,
            Speed::ExtremelySlow => 1,
            Speed::VerySlow => 2,
            Speed::Slow => 3,
            Speed::Average => 4,
            Speed::Fast => 5,
            Speed::VeryFast => 6,
            Speed::InsanelyFast => 7,
        }
    }

    /// Position of the tier on the ladder, slowest first.
    pub fn rank(&self) -> (r: u8)
        ensures
            r == self.position(),
    {
        match self {
            Speed::Snail => 0,
            Speed::ExtremelySlow => 1,
            Speed::VerySlow => 2,
            Speed::Slow => 3,
            Speed::Average => 4,
            Speed::Fast => 5,
            Speed::VeryFast => 6,
            Speed::InsanelyFast => 7,
        }
    }
}

/// Knockback strength, a ladder of tiers from none to strongest.
#[derive(Debug, Clone, Copy, PartialEq, Eq, PartialOrd, Ord, Structural)]
pub enum Knockback {
    NoKnockback,
    ExtremelyWeak,
    VeryWeak,
    Weak,
    Average,
    Strong,
    VeryStrong,
    ExtremelyStrong,
    Insane,
}

impl Knockback {
    /// Position of the tier on the ladder, weakest first.
    pub open spec fn position(self) -> nat {
        match self {
            Knockback::NoKnockback => 0,
            Knockback::ExtremelyWeak => 1,
            Knockback::VeryWeak => 2,
            Knockback::Weak => 3,
            Knockback::Average => 4,
            Knockback::Strong => 5,
            Knockback::VeryStrong => 6,
            Knockback::ExtremelyStrong => 7,
            Knockback::Insane => 8,
        }
    }

    /// Position of the tier on the ladder, weakest first.
    pub fn rank(&self) -> (r: u8)
        ensures
            r == self.position(),
    {
        match self {
            Knockback::NoKnockback => 0,
            Knockback::ExtremelyWeak => 1,
            Knockback::VeryWeak => 2,
            Knockback::Weak => 3,
            Knockback::Average => 4,
            Knockback::Strong => 5,
            Knockback::VeryStrong => 6,
            Knockback::ExtremelyStrong => 7,
            Knockback::Insane => 8,
        }
    }
}

/// One way of coming by a weapon.
#[derive(Debug, Clone, Copy, Hash, PartialEq, Eq, Structural)]
pub enum ObtainingMethod {
    Drop,
    Crafting,
    Chest,
    Fishing,
    Buy,
}

/// What a weapon is compared by: the mathematical content of a catalog entry.
pub struct Attributes {
    pub class: Class,
    pub damage: nat,
    pub knockback: nat,
    pub speed: nat,
    pub rarity: nat,
    pub autoswing: bool,
    pub material: bool,
    pub obtained: Set<ObtainingMethod>,
}

/// A catalog entry as loaded. `obtained` lists the ways of obtaining the
/// weapon; it stands for the set of its elements, so order and repetition
/// carry no meaning.
#[derive(Debug, Clone)]
pub struct WeaponData {
    pub id: u16,
    pub name: String,
    pub damage: u16,
    pub damage_type: Class,
    pub knockback: Knockback,
    pub speed: Speed,
    pub rarity: u16,
    pub sell: SellValue,
    pub obtained: Vec<ObtainingMethod>,
    pub material: bool,
    pub autoswing: bool,
}

impl View for WeaponData {
    type V = Attributes;

    open spec fn view(&self) -> Attributes {
        Attributes {
            class: self.damage_type,
            damage: self.damage as nat,
            knockback: self.knockback.position(),
            speed: self.speed.position(),
            rarity: self.rarity as nat,
            autoswing: self.autoswing,
            material: self.material,
            obtained: self.obtained@.to_set(),
        }
    }
}

/// One weapon of the catalog.
#[derive(Debug, Clone)]
pub struct Weapon {
    pub data: WeaponData,
}

impl View for Weapon {
    type V = Attributes;

    open spec fn view(&self) -> Attributes {
        self.data@
    }
}

/// The catalog as it is delivered: the list of all weapons.
#[derive(Debug)]
pub struct Weapons {
    pub weapon_data: Vec<Weapon>,
}

/// A price in the four coin denominations.
#[derive(Debug, Clone, Copy)]
pub struct SellValue {
    platinum: u16,
    gold: u8,
    silver: u8,
    copper: u8,
}

/// A coin denomination, largest first.
#[derive(Debug, Clone, Copy, PartialEq, Eq, Structural)]
pub enum Coin {
    Platinum,
    Gold,
    Silver,
    Copper,
}

/// The amount read for each denomination of a price text.
#[derive(Debug, Clone, Copy, PartialEq, Eq, Structural)]
pub struct Amounts {
    pub platinum: u16,
    pub gold: u16,
    pub silver: u16,
    pub copper: u16,
}

impl Amounts {
    /// No coin of any denomination.
    pub open spec fn zero() -> Amounts {
        Amounts { platinum: 0, gold: 0, silver: 0, copper: 0 }
    }

    /// These amounts with the one of `coin` replaced by `amount`.
    pub open spec fn with(self, coin: Coin, amount: u16) -> Amounts {
        match coin {
            Coin::Platinum => Amounts { platinum: amount, ..self },
            Coin::Gold => Amounts { gold: amount, ..self },
            Coin::Silver => Amounts { silver: amount, ..self },
            Coin::Copper => Amounts { copper: amount, ..self },
        }
    }
}

/// The denomination that a word names, if it names one.
pub open spec fn coin_named(word: Seq<char>) -> Option<Coin> {
    if word == "Platinum"@ {
        Some(Coin::Platinum)
    } else if word == "Gold"@ {
        Some(Coin::Gold)
    } else if word == "Silver"@ {
        Some(Coin::Silver)
    } else if word == "Copper"@ {
        Some(Coin::Copper)
    } else {
        None
    }
}

/// Reads the words of a price from position `i` on, starting from the amounts
/// `acc`. A number followed by the name of a denomination sets that
/// denomination, a later setting replacing an earlier one, and reading goes on
/// after the name. Every other word is passed over, and so is a number that
/// is the last word.
pub open spec fn read_amounts(words: Seq<Seq<char>>, i: int, acc: Amounts) -> Amounts
    decreases words.len() - i,
{
    if i < 0 || i >= words.len() {
        acc
    } else if i + 1 < words.len() && decimal_u16(words[i]).is_some() && coin_named(
        words[i + 1],
    ).is_some() {
        read_amounts(
            words,
            i + 2,
            acc.with(coin_named(words[i + 1]).unwrap(), decimal_u16(words[i]).unwrap()),
        )
    } else {
        read_amounts(words, i + 1, acc)
    }
}

/// The amounts that a price text states: every denomination is optional and
/// counts as zero where the text does not set it.
pub open spec fn priced(text: Seq<char>) -> Amounts {
    read_amounts(words(text), 0, Amounts::zero())
}

/// Reads the name of a denomination.
fn coin_of(word: &Vec<char>) -> (r: Option<Coin>)
    ensures
        r == coin_named(word@),
{
    if same_chars(word, &chars_of("Platinum")) {
        Some(Coin::Platinum)
    } else if same_chars(word, &chars_of("Gold")) {
        Some(Coin::Gold)
    } else if same_chars(word, &chars_of("Silver")) {
        Some(Coin::Silver)
    } else if same_chars(word, &chars_of("Copper")) {
        Some(Coin::Copper)
    } else {
        None
    }
}

impl SellValue {
    /// Platinum coins.
    pub closed spec fn spec_platinum(&self) -> u16 {
        self.platinum
    }

    /// Gold coins.
    pub closed spec fn spec_gold(&self) -> u8 {
        self.gold
    }

    /// Silver coins.
    pub closed spec fn spec_silver(&self) -> u8 {
        self.silver
    }

    /// Copper coins.
    pub closed spec fn spec_copper(&self) -> u8 {
        self.copper
    }

    /// Platinum coins.
    #[verifier::when_used_as_spec(spec_platinum)]
    pub fn platinum(&self) -> (n: u16)
        ensures
            n == self.spec_platinum(),
    {
        self.platinum
    }

    /// Gold coins.
    #[verifier::when_used_as_spec(spec_gold)]
    pub fn gold(&self) -> (n: u8)
        ensures
            n == self.spec_gold(),
    {
        self.gold
    }

    /// Silver coins.
    #[verifier::when_used_as_spec(spec_silver)]
    pub fn silver(&self) -> (n: u8)
        ensures
            n == self.spec_silver(),
    {
        self.silver
    }

    /// Copper coins.
    #[verifier::when_used_as_spec(spec_copper)]
    pub fn copper(&self) -> (n: u8)
        ensures
            n == self.spec_copper(),
    {
        self.copper
    }

    /// The price in copper coins, a coin being worth a hundred of the next
    /// smaller denomination.
    pub open spec fn total_copper(&self) -> nat {
        (self.copper() + self.silver() * 100 + self.gold() * 10_000 + self.platinum()
            * 1_000_000) as nat
    }

    /// Reads a price written as amounts and denominations, such as
    /// `1 Gold 50 Silver`. The amount of platinum is kept whole; those of
    /// gold, silver and copper are kept modulo 256, the width of their fields.
    pub fn parse(text: &str) -> (v: SellValue)
        ensures
            v.platinum() == priced(text@).platinum,
            v.gold() == priced(text@).gold % 256,
            v.silver() == priced(text@).silver % 256,
            v.copper() == priced(text@).copper % 256,
    {
        let chars = chars_of(text);
        let parts = split_words(&chars);
        let ghost ws = words(text@);
        let mut acc = Amounts { platinum: 0, gold: 0, silver: 0, copper: 0 };
        let mut i: usize = 0;
        while i < parts.len()
            invariant
                ws == words(text@),
                parts@.len() == ws.len(),
                forall|j: int| 0 <= j < parts@.len() ==> (#[trigger] parts@[j])@ == ws[j],
                i <= parts.len(),
                priced(text@) == read_amounts(ws, i as int, acc),
            decreases parts.len() - i,
        {
            let amount = parse_u16_chars(&parts[i]);
            let coin = if i + 1 < parts.len() {
                coin_of(&parts[i + 1])
            } else {
                None
            };
            match (amount, coin) {
                (Some(n), Some(c)) => {
                    acc =
                    match c {
                        Coin::Platinum => Amounts { platinum: n, ..acc },
                        Coin::Gold => Amounts { gold: n, ..acc },
                        Coin::Silver => Amounts { silver: n, ..acc },
                        Coin::Copper => Amounts { copper: n, ..acc },
                    };
                    i += 2;
                },
                _ => {
                    i += 1;
                },
            }
        }
        SellValue {
            platinum: acc.platinum,
            gold: (acc.gold % 256) as u8,
            silver: (acc.silver % 256) as u8,
            copper: (acc.copper % 256) as u8,
        }
    }
}

impl From<SellValue> for u64 {
    /// The price in copper coins.
    fn from(val: SellValue) -> (total: u64) {
        val.copper as u64 + val.silver as u64 * 100 + val.gold as u64 * 100 * 100
            + val.platinum as u64 * 100 * 100 * 100
    }
}

impl FromSpecImpl<SellValue> for u64 {
    open spec fn obeys_from_spec() -> bool {
        true
    }

    open spec fn from_spec(val: SellValue) -> u64 {
        val.total_copper() as u64
    }
}

} // verus!
