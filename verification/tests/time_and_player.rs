use shadow_soldiers_dialog::player::{Player, Skill};
use shadow_soldiers_dialog::time::Time;

#[test]
fn advance_small_amount_carries_minutes_into_hours() {
    let mut t = Time { day: 1, hour: 3, minute: 30 };
    t.advance(125);
    assert_eq!(t, Time { day: 1, hour: 5, minute: 35 });
}

#[test]
fn advance_full_day_only_moves_the_day() {
    let mut t = Time { day: 1, hour: 3, minute: 30 };
    t.advance(1440);
    assert_eq!(t, Time { day: 2, hour: 3, minute: 30 });
}

#[test]
fn advance_minute_overflow_carries_once() {
    let mut t = Time { day: 0, hour: 23, minute: 59 };
    t.advance(1);
    assert_eq!(t, Time { day: 1, hour: 0, minute: 0 });
}

#[test]
fn advance_zero_changes_nothing() {
    let mut t = Time { day: 7, hour: 12, minute: 0 };
    t.advance(0);
    assert_eq!(t, Time { day: 7, hour: 12, minute: 0 });
}

#[test]
fn add_xp_levels_up_per_hundred() {
    let mut p = Player::default();
    p.add_xp(250);
    assert_eq!(p.xp, 50);
    assert_eq!(p.skill_points, 2);
}

#[test]
fn add_xp_below_level_keeps_points() {
    let mut p = Player::default();
    p.add_xp(99);
    assert_eq!(p.xp, 99);
    assert_eq!(p.skill_points, 0);
}

#[test]
fn balanced_character_is_valid() {
    let mut p = Player::default();
    p.tech = 3;
    p.arts = 3;
    p.bur = 3;
    p.und = 3;
    assert!(p.is_valid());
    assert_eq!(p.total_points(), 12);
    assert_eq!(p.remaining_points(), 0);
}

#[test]
fn maxed_character_is_not_valid() {
    let mut p = Player::default();
    p.tech = 6;
    p.arts = 6;
    p.bur = 6;
    p.und = 6;
    assert!(!p.is_valid());
}

#[test]
fn out_of_range_attribute_is_not_valid() {
    let mut p = Player::default();
    p.tech = 9;
    p.arts = 1;
    p.bur = 1;
    p.und = 1;
    assert!(!p.is_valid());
}

#[test]
fn fresh_player_is_not_valid() {
    let p = Player::default();
    assert_eq!(p.total_points(), 4);
    assert_eq!(p.remaining_points(), 8);
    assert!(!p.is_valid());
}

#[test]
fn derived_skill_adds_modifier_to_base() {
    let mut p = Player::default();
    p.tech = 4;
    p.checkmate_mod = 2;
    assert_eq!(p.checkmate(), 6);
    assert_eq!(p.derived_skill("checkmate"), 6);
    p.und = 5;
    p.gizmo_mod = -1;
    assert_eq!(p.gizmo(), 4);
    assert_eq!(p.derived_skill("gizmo"), 4);
}

#[test]
fn unknown_skill_name_resolves_to_zero() {
    let mut p = Player::default();
    p.tech = 6;
    assert_eq!(p.derived_skill("alchemy"), 0);
    assert!(Player::skill_from_name("alchemy").is_none());
    assert_eq!(Player::skill_from_name("oldtime religion"), Some(Skill::OldtimeReligion));
    assert_eq!(Player::skill_from_name("civic engineering"), Some(Skill::CivicEngineering));
}

#[test]
fn flags_behave_like_a_set() {
    let mut p = Player::default();
    let flag = "met_the_clock".to_string();
    assert!(!p.has_flag(&flag));
    p.set_flag(flag.clone());
    p.set_flag(flag.clone());
    assert!(p.has_flag(&flag));
    assert_eq!(p.flags.len(), 1);
}

#[test]
fn visited_dialogues_are_remembered() {
    let mut p = Player::default();
    let key = "Start".to_string();
    assert!(!p.has_entered(&key));
    p.mark_entered(key.clone());
    assert!(p.has_entered(&key));
}

#[test]
fn items_keep_duplicates_in_order() {
    let mut p = Player::default();
    p.add_item("coin".to_string());
    p.add_item("coin".to_string());
    assert_eq!(p.items, vec!["coin".to_string(), "coin".to_string()]);
}
