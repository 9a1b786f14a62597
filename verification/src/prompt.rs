//! The interactive feedback round: the eight questions put to the player for
//! one guess, and the signature that the eight answers amount to.

use std::cmp::Ordering;
use vstd::prelude::*;
use crate::relations::{Relation, Relations};
use crate::text::same_text;

verus! {

/// One question of the feedback round, with the answers offered for it.
pub struct Question {
    /// The text shown to the player.
    pub prompt: &'static str,
    /// The literal answers to choose from, the matching one first.
    pub choices: Vec<&'static str>,
}

/// What a yes/no answer says: `true` exactly for "Yes".
pub open spec fn answer_flag(s: Seq<char>) -> bool {
    s == "Yes"@
}

/// What a three-way answer says. "Higher", "Faster" and "Partially" read as
/// greater, "Lower", "Slower" and "No" as less, anything else as equal.
pub open spec fn answer_ordering(s: Seq<char>) -> Ordering {
    if s == "Higher"@ || s == "Faster"@ || s == "Partially"@ {
        Ordering::Greater
    } else if s == "Lower"@ || s == "Slower"@ || s == "No"@ {
        Ordering::Less
    } else {
        Ordering::Equal
    }
}

/// The channel outcome that an ordering stands for.
pub open spec fn ordering_relation(o: Ordering) -> Relation {
    match o {
        Ordering::Less => Relation::Less,
        Ordering::Equal => Relation::Equal,
        Ordering::Greater => Relation::Greater,
    }
}

/// The signature that eight answers amount to, one answer per channel in the
/// channel order.
pub open spec fn answered(
    class: Seq<char>,
    damage: Seq<char>,
    knockback: Seq<char>,
    speed: Seq<char>,
    rarity: Seq<char>,
    autoswing: Seq<char>,
    material: Seq<char>,
    obtainability: Seq<char>,
) -> Relations {
    Relations {
        c: answer_flag(class),
        d: ordering_relation(answer_ordering(damage)),
        k: ordering_relation(answer_ordering(knockback)),
        s: ordering_relation(answer_ordering(speed)),
        r: ordering_relation(answer_ordering(rarity)),
        a: answer_flag(autoswing),
        m: answer_flag(material),
        o: ordering_relation(answer_ordering(obtainability)),
    }
}

/// Reads a yes/no answer.
pub fn bool_inquire(s: &str) -> (r: bool)
    ensures
        r == answer_flag(s@),
{
    same_text(s, "Yes")
}

/// Reads a three-way answer.
pub fn ord_inquire(s: &str) -> (r: Ordering)
    ensures
        r == answer_ordering(s@),
{
    if same_text(s, "Higher") || same_text(s, "Faster") || same_text(s, "Partially") {
        Ordering::Greater
    } else if same_text(s, "Lower") || same_text(s, "Slower") || same_text(s, "No") {
        Ordering::Less
    } else {
        Ordering::Equal
    }
}

/// The channel outcome that an ordering stands for.
pub fn relation_from(o: Ordering) -> (r: Relation)
    ensures
        r == ordering_relation(o),
{
    match o {
        Ordering::Less => Relation::Less,
        Ordering::Equal => Relation::Equal,
        Ordering::Greater => Relation::Greater,
    }
}

/// Assembles the observed signature from the player's eight answers, one per
/// channel in the channel order.
pub fn inquire_rel(
    class: &str,
    damage: &str,
    knockback: &str,
    speed: &str,
    rarity: &str,
    autoswing: &str,
    material: &str,
    obtainability: &str,
) -> (r: Relations)
    ensures
        r == answered(
            class@,
            damage@,
            knockback@,
            speed@,
            rarity@,
            autoswing@,
            material@,
            obtainability@,
        ),
{
    Relations {
        c: bool_inquire(class),
        d: relation_from(ord_inquire(damage)),
        k: relation_from(ord_inquire(knockback)),
        s: relation_from(ord_inquire(speed)),
        r: relation_from(ord_inquire(rarity)),
        a: bool_inquire(autoswing),
        m: bool_inquire(material),
        o: relation_from(ord_inquire(obtainability)),
    }
}

impl Question {
    /// The answers offered, as texts.
    pub open spec fn choice_texts(self) -> Seq<Seq<char>> {
        self.choices@.map_values(|c: &'static str| c@)
    }
}

/// Number of questions in one feedback round, one per channel.
pub const QUESTIONS: usize = 8;

/// The text of the question for the channel at position `i` of the channel
/// order.
pub open spec fn prompt_text(i: int) -> Seq<char> {
    if i == 0 {
        "Was the class correct?"@
    } else if i == 1 {
        "Was the damage correct?"@
    } else if i == 2 {
        "Was the knockback correct?"@
    } else if i == 3 {
        "Was the speed correct?"@
    } else if i == 4 {
        "Was the rarity correct?"@
    } else if i == 5 {
        "Was the autoswing correct?"@
    } else if i == 6 {
        "Was the usability in recipies correct?"@
    } else {
        "Was the obtainability correct?"@
    }
}

/// The answers offered for the channel at position `i` of the channel order.
pub open spec fn offered(i: int) -> Seq<Seq<char>> {
    if i == 0 || i == 5 || i == 6 {
        seq!["Yes"@, "No"@]
    } else if i == 3 {
        seq!["Correct"@, "Slower"@, "Faster"@]
    } else if i == 7 {
        seq!["Yes"@, "No"@, "Partially"@]
    } else {
        seq!["Correct"@, "Lower"@, "Higher"@]
    }
}

fn two_way(prompt: &'static str, first: &'static str, second: &'static str) -> (q: Question)
    ensures
        q.prompt@ == prompt@,
        q.choice_texts() == seq![first@, second@],
{
    let mut choices: Vec<&'static str> = Vec::new();
    choices.push(first);
    choices.push(second);
    let q = Question { prompt, choices };
    assert(q.choice_texts() =~= seq![first@, second@]);
    q
}

fn three_way(
    prompt: &'static str,
    first: &'static str,
    second: &'static str,
    third: &'static str,
) -> (q: Question)
    ensures
        q.prompt@ == prompt@,
        q.choice_texts() == seq![first@, second@, third@],
{
    let mut choices: Vec<&'static str> = Vec::new();
    choices.push(first);
    choices.push(second);
    choices.push(third);
    let q = Question { prompt, choices };
    assert(q.choice_texts() =~= seq![first@, second@, third@]);
    q
}

/// The eight questions of one feedback round, in the channel order. The
/// answers to them, in the same order, are what `inquire_rel` takes.
pub fn questions() -> (qs: Vec<Question>)
    ensures
        qs@.len() == QUESTIONS,
        forall|i: int|
            0 <= i < QUESTIONS ==> (#[trigger] qs@[i]).prompt@ == prompt_text(i)
                && qs@[i].choice_texts() == offered(i),
{
    let mut qs: Vec<Question> = Vec::new();
    qs.push(two_way("Was the class correct?", "Yes", "No"));
    qs.push(three_way("Was the damage correct?", "Correct", "Lower", "Higher"));
    qs.push(three_way("Was the knockback correct?", "Correct", "Lower", "Higher"));
    qs.push(three_way("Was the speed correct?", "Correct", "Slower", "Faster"));
    qs.push(three_way("Was the rarity correct?", "Correct", "Lower", "Higher"));
    qs.push(two_way("Was the autoswing correct?", "Yes", "No"));
    qs.push(two_way("Was the usability in recipies correct?", "Yes", "No"));
    qs.push(three_way("Was the obtainability correct?", "Yes", "No", "Partially"));
    qs
}

} // verus!
