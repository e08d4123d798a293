use shadow_soldiers_dialog::dialogue::{Dialogue, DialogueOption, PassiveCheck};
use shadow_soldiers_dialog::player::Player;
use shadow_soldiers_dialog::resolve::{
    decide_challenge, enter_dialogue, resolve_challenge, resolve_challenge_with_dice,
    resolve_passive_check_with_dice, roll_dice, select_option, Outcome,
};
use shadow_soldiers_dialog::time::Time;

fn challenge_option(attribute: &str, number: i32) -> DialogueOption {
    DialogueOption {
        challenge_attribute: Some(attribute.to_string()),
        challenge_number: Some(number),
        success_dialogue: Some("Won".to_string()),
        failure_dialogue: Some("Lost".to_string()),
        ..DialogueOption::default()
    }
}

#[test]
fn decision_table_matches_the_priority_rule() {
    for die1 in 1..=6 {
        for die2 in 1..=6 {
            for &(skill, target) in &[(0, 7), (5, 12), (4, 12), (0, 100), (50, 2), (-3, 2)] {
                let expected = if die1 == 6 && die2 == 6 {
                    Outcome::Success
                } else if die1 == 1 && die2 == 1 {
                    Outcome::Failure
                } else if die1 + die2 + skill >= target {
                    Outcome::Success
                } else {
                    Outcome::Failure
                };
                assert_eq!(decide_challenge(skill, target, die1, die2), expected);
            }
        }
    }
}

#[test]
fn double_sixes_always_succeed() {
    assert_eq!(decide_challenge(0, 100, 6, 6), Outcome::Success);
}

#[test]
fn double_ones_always_fail() {
    assert_eq!(decide_challenge(50, 2, 1, 1), Outcome::Failure);
}

#[test]
fn boundary_total_succeeds_and_one_below_fails() {
    assert_eq!(decide_challenge(5, 12, 3, 4), Outcome::Success);
    assert_eq!(decide_challenge(4, 12, 3, 4), Outcome::Failure);
}

#[test]
fn resolver_uses_the_named_derived_skill() {
    let mut p = Player::default();
    p.tech = 4;
    p.rocketry_mod = 3;
    let option = challenge_option("rocketry", 12);
    assert_eq!(resolve_challenge_with_dice(&p, &option, 3, 2), Outcome::Success);
    assert_eq!(resolve_challenge_with_dice(&p, &option, 2, 2), Outcome::Failure);
}

#[test]
fn unknown_attribute_counts_as_zero_skill() {
    let p = Player::default();
    let option = challenge_option("telepathy", 5);
    assert_eq!(resolve_challenge_with_dice(&p, &option, 2, 3), Outcome::Success);
    assert_eq!(resolve_challenge_with_dice(&p, &option, 2, 2), Outcome::Failure);
}

#[test]
fn rolled_dice_stay_on_the_faces() {
    for _ in 0..200 {
        let (d1, d2) = roll_dice();
        assert!((1..=6).contains(&d1));
        assert!((1..=6).contains(&d2));
    }
}

#[test]
fn rolled_resolution_returns_an_outcome() {
    let p = Player::default();
    let option = challenge_option("checkmate", 7);
    let outcome = resolve_challenge(&p, &option);
    assert!(outcome == Outcome::Success || outcome == Outcome::Failure);
}

#[test]
fn passive_check_resolves_like_a_challenge() {
    let mut p = Player::default();
    p.bur = 4;
    p.dossier_mod = 1;
    let check = PassiveCheck {
        skill: "dossier".to_string(),
        target: 10,
        success_text: Some("You recall the file.".to_string()),
        failure_text: Some("The name escapes you.".to_string()),
        speaker: Some("Archivist".to_string()),
    };
    let won = resolve_passive_check_with_dice(&p, &check, 3, 2);
    assert_eq!(won, Outcome::Success);
    assert_eq!(check.text_for(won), &Some("You recall the file.".to_string()));
    let lost = resolve_passive_check_with_dice(&p, &check, 2, 2);
    assert_eq!(lost, Outcome::Failure);
    assert_eq!(check.text_for(lost), &Some("The name escapes you.".to_string()));
}

#[test]
fn selecting_a_challenge_option_follows_the_outcome() {
    let mut p = Player::default();
    p.tech = 4;
    let option = challenge_option("checkmate", 8);
    let target = select_option(&mut p, &option, 3, 3);
    assert_eq!(target, Some("Won".to_string()));
    let target = select_option(&mut p, &option, 2, 1);
    assert_eq!(target, Some("Lost".to_string()));
}

#[test]
fn selecting_an_unconditional_option_follows_success() {
    let mut p = Player::default();
    let option = DialogueOption::default();
    let target = select_option(&mut p, &option, 1, 1);
    assert_eq!(target, Some("Start".to_string()));
}

#[test]
fn selecting_applies_flags_and_items_before_moving() {
    let mut p = Player::default();
    let option = DialogueOption {
        item_to_pickup: Some("rusty key".to_string()),
        flags: Some(vec!["clock_opened".to_string(), "curious".to_string()]),
        ..DialogueOption::default()
    };
    let target = select_option(&mut p, &option, 2, 5);
    assert_eq!(target, Some("Start".to_string()));
    assert!(p.has_flag(&"clock_opened".to_string()));
    assert!(p.has_flag(&"curious".to_string()));
    assert_eq!(p.items, vec!["rusty key".to_string()]);
}

#[test]
fn entering_a_dialogue_applies_its_side_effects() {
    let mut p = Player::default();
    let mut clock = Time { day: 1, hour: 3, minute: 30 };
    let d = Dialogue {
        xp_reward: Some(120),
        time: Some(125),
        ..Dialogue::default()
    };
    enter_dialogue(&mut p, &mut clock, &"Cellar".to_string(), &d);
    assert!(p.has_entered(&"Cellar".to_string()));
    assert_eq!(p.xp, 20);
    assert_eq!(p.skill_points, 1);
    assert_eq!(clock, Time { day: 1, hour: 5, minute: 35 });
}
