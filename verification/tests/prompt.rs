use std::cmp::Ordering;
use terradle_solver::prompt::{
    bool_inquire, inquire_rel, ord_inquire, questions, relation_from, QUESTIONS,
};
use terradle_solver::relations::{Relation, Relations};

#[test]
fn bool_inquire_reads_yes_only() {
    assert!(bool_inquire("Yes"));
    assert!(!bool_inquire("No"));
    assert!(!bool_inquire("yes"));
    assert!(!bool_inquire("Yes "));
    assert!(!bool_inquire(""));
    assert!(!bool_inquire("Partially"));
}

#[test]
fn ord_inquire_reads_greater() {
    assert_eq!(ord_inquire("Higher"), Ordering::Greater);
    assert_eq!(ord_inquire("Faster"), Ordering::Greater);
    assert_eq!(ord_inquire("Partially"), Ordering::Greater);
}

#[test]
fn ord_inquire_reads_less() {
    assert_eq!(ord_inquire("Lower"), Ordering::Less);
    assert_eq!(ord_inquire("Slower"), Ordering::Less);
    assert_eq!(ord_inquire("No"), Ordering::Less);
}

#[test]
fn ord_inquire_reads_anything_else_as_equal() {
    assert_eq!(ord_inquire("Correct"), Ordering::Equal);
    assert_eq!(ord_inquire("Yes"), Ordering::Equal);
    assert_eq!(ord_inquire(""), Ordering::Equal);
    assert_eq!(ord_inquire("higher"), Ordering::Equal);
    assert_eq!(ord_inquire("Highe"), Ordering::Equal);
    assert_eq!(ord_inquire("Higher!"), Ordering::Equal);
}

#[test]
fn relation_from_keeps_the_variant() {
    assert_eq!(relation_from(Ordering::Less), Relation::Less);
    assert_eq!(relation_from(Ordering::Equal), Relation::Equal);
    assert_eq!(relation_from(Ordering::Greater), Relation::Greater);
}

#[test]
fn all_correct_answers_give_the_default_signature() {
    let r = inquire_rel("Yes", "Correct", "Correct", "Correct", "Correct", "Yes", "Yes", "Yes");
    assert_eq!(r, Relations::default());
}

#[test]
fn answers_map_channel_by_channel() {
    let r = inquire_rel("No", "Lower", "Higher", "Slower", "Correct", "Yes", "No", "Partially");
    assert_eq!(
        r,
        Relations {
            c: false,
            d: Relation::Less,
            k: Relation::Greater,
            s: Relation::Less,
            r: Relation::Equal,
            a: true,
            m: false,
            o: Relation::Greater,
        }
    );
    let r = inquire_rel("Yes", "Higher", "Lower", "Faster", "Lower", "No", "Yes", "No");
    assert_eq!(
        r,
        Relations {
            c: true,
            d: Relation::Greater,
            k: Relation::Less,
            s: Relation::Greater,
            r: Relation::Less,
            a: false,
            m: true,
            o: Relation::Less,
        }
    );
}

#[test]
fn there_are_eight_questions_in_channel_order() {
    let qs = questions();
    assert_eq!(QUESTIONS, 8);
    assert_eq!(qs.len(), 8);
    let prompts: Vec<&str> = qs.iter().map(|q| q.prompt).collect();
    assert_eq!(
        prompts,
        vec![
            "Was the class correct?",
            "Was the damage correct?",
            "Was the knockback correct?",
            "Was the speed correct?",
            "Was the rarity correct?",
            "Was the autoswing correct?",
            "Was the usability in recipies correct?",
            "Was the obtainability correct?",
        ]
    );
}

#[test]
fn each_question_offers_its_literal_answers() {
    let qs = questions();
    assert_eq!(qs[0].choices, vec!["Yes", "No"]);
    assert_eq!(qs[1].choices, vec!["Correct", "Lower", "Higher"]);
    assert_eq!(qs[2].choices, vec!["Correct", "Lower", "Higher"]);
    assert_eq!(qs[3].choices, vec!["Correct", "Slower", "Faster"]);
    assert_eq!(qs[4].choices, vec!["Correct", "Lower", "Higher"]);
    assert_eq!(qs[5].choices, vec!["Yes", "No"]);
    assert_eq!(qs[6].choices, vec!["Yes", "No"]);
    assert_eq!(qs[7].choices, vec!["Yes", "No", "Partially"]);
}

#[test]
fn first_choice_of_every_question_is_the_matching_answer() {
    let qs = questions();
    let first: Vec<&str> = qs.iter().map(|q| q.choices[0]).collect();
    let r = inquire_rel(
        first[0], first[1], first[2], first[3], first[4], first[5], first[6], first[7],
    );
    assert_eq!(r, Relations::default());
}
