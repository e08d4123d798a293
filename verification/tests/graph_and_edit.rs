use shadow_soldiers_dialog::dialogue::{Dialogue, DialogueOption};
use shadow_soldiers_dialog::edit::{apply_edit, DialogueEdit};
use shadow_soldiers_dialog::graph::{
    create_dialogue, create_locations, Conversation, DialogueMap, Location,
};

#[test]
fn insert_replaces_what_a_key_held() {
    let mut g = DialogueMap::new();
    g.insert("A".to_string(), Dialogue::default());
    let replacement = Dialogue {
        speaker: "Someone".to_string(),
        ..Dialogue::default()
    };
    g.insert("A".to_string(), replacement);
    assert_eq!(g.len(), 1);
    assert_eq!(g.get(&"A".to_string()).unwrap().speaker, "Someone");
}

#[test]
fn get_of_a_missing_key_is_none() {
    let g = DialogueMap::new();
    assert!(g.get(&"nope".to_string()).is_none());
    assert!(!g.contains_key(&"nope".to_string()));
}

#[test]
fn remove_takes_the_entry_out() {
    let mut g = DialogueMap::new();
    g.insert("A".to_string(), Dialogue::default());
    let removed = g.remove(&"A".to_string());
    assert!(removed.is_some());
    assert!(g.is_empty());
    assert!(g.remove(&"A".to_string()).is_none());
}

#[test]
fn rename_moves_a_dialogue_to_a_new_key() {
    let mut g = DialogueMap::new();
    g.insert("Old".to_string(), Dialogue::default());
    assert!(g.rename(&"Old".to_string(), "New".to_string()));
    assert!(!g.contains_key(&"Old".to_string()));
    assert!(g.contains_key(&"New".to_string()));
    assert!(!g.rename(&"Gone".to_string(), "Other".to_string()));
}

#[test]
fn created_dialogues_get_numbered_keys() {
    let mut g = DialogueMap::new();
    let first = create_dialogue(&mut g);
    assert_eq!(first, "Dialogue_1");
    let second = create_dialogue(&mut g);
    assert_eq!(second, "Dialogue_2");
    let d = g.get(&first).unwrap();
    assert_eq!(d.speaker, "New Speaker");
    assert_eq!(d.intro, "New Intro Text");
    assert!(d.options.is_empty());
    assert!(!d.is_hidden);
}

#[test]
fn visible_keys_skip_hidden_dialogues() {
    let mut g = DialogueMap::new();
    g.insert("Seen".to_string(), Dialogue {
        is_hidden: false,
        ..Dialogue::default()
    });
    g.insert("Unseen".to_string(), Dialogue::default());
    assert_eq!(g.visible_keys(), vec!["Seen".to_string()]);
}

#[test]
fn locations_collect_dialogues_conversations_and_exits() {
    let mut l = Location::new("Vestibule".to_string());
    l.add_dialogue("Start".to_string(), Dialogue::default());
    let mut c = Conversation::new("Clock talk".to_string());
    c.add_dialogue("Tick".to_string(), Dialogue::default());
    l.add_conversation("clock".to_string(), c);
    l.add_exit("FirstFloor".to_string());
    assert_eq!(l.dialogues.len(), 1);
    assert_eq!(l.conversations.len(), 1);
    assert_eq!(l.exits, vec!["FirstFloor".to_string()]);
}

#[test]
fn the_starting_world_holds_the_vestibule_opening() {
    let locations = create_locations();
    assert_eq!(locations.len(), 1);
    let (name, vestibule) = &locations[0];
    assert_eq!(name, "Vestibule");
    assert_eq!(vestibule.name, "Vestibule");
    let start = vestibule.dialogues.get(&"Start".to_string()).expect("opening dialogue");
    assert_eq!(start.speaker, "");
    assert_eq!(start.options.len(), 3);
    assert_eq!(start.options[0].description, "Inspect the grandfather clock.");
    assert_eq!(start.options[0].success_dialogue, Some("InspectClock".to_string()));
    assert_eq!(start.options[2].success_dialogue, Some("FirstFloor".to_string()));
    assert!(!start.is_hidden);
}

#[test]
fn edits_set_the_named_fields() {
    let mut d = Dialogue::default();
    assert!(apply_edit(&mut d, DialogueEdit::SetSpeaker("Clerk".to_string())));
    assert!(apply_edit(&mut d, DialogueEdit::SetIntro("Next!".to_string())));
    assert!(apply_edit(&mut d, DialogueEdit::SetXpReward(Some(10))));
    assert!(apply_edit(&mut d, DialogueEdit::SetHidden(false)));
    assert!(apply_edit(&mut d, DialogueEdit::SetTime(None)));
    assert_eq!(d.speaker, "Clerk");
    assert_eq!(d.intro, "Next!");
    assert_eq!(d.xp_reward, Some(10));
    assert!(!d.is_hidden);
    assert_eq!(d.time, None);
}

#[test]
fn option_edits_touch_only_the_named_option() {
    let mut d = Dialogue {
        options: vec![DialogueOption::default(), DialogueOption::default()],
        ..Dialogue::default()
    };
    assert!(apply_edit(&mut d, DialogueEdit::SetOptionDescription(1, "Run.".to_string())));
    assert!(apply_edit(&mut d, DialogueEdit::SetOptionChallengeAttribute(1, Some("gunsmoke".to_string()))));
    assert!(apply_edit(&mut d, DialogueEdit::SetOptionChallengeNumber(1, Some(11))));
    assert_eq!(d.options[0], DialogueOption::default());
    assert_eq!(d.options[1].description, "Run.");
    assert_eq!(d.options[1].challenge_attribute, Some("gunsmoke".to_string()));
    assert_eq!(d.options[1].challenge_number, Some(11));
}

#[test]
fn an_out_of_range_edit_applies_nothing() {
    let mut d = Dialogue::default();
    let before = d.clone();
    assert!(!apply_edit(&mut d, DialogueEdit::SetOptionDescription(5, "?".to_string())));
    assert!(!apply_edit(&mut d, DialogueEdit::SetCheckTarget(0, 3)));
    assert_eq!(d, before);
}

#[test]
fn adding_an_option_and_a_check_appends_defaults() {
    let mut d = Dialogue::default();
    assert!(apply_edit(&mut d, DialogueEdit::AddOption));
    assert_eq!(d.options.len(), 2);
    assert_eq!(d.options[1], DialogueOption::default());
    assert!(apply_edit(&mut d, DialogueEdit::AddPassiveCheck));
    assert_eq!(d.passive_check.len(), 1);
    assert!(apply_edit(&mut d, DialogueEdit::SetCheckSkill(0, "quota".to_string())));
    assert!(apply_edit(&mut d, DialogueEdit::SetCheckTarget(0, 7)));
    assert!(apply_edit(&mut d, DialogueEdit::SetCheckSpeaker(0, Some("Clerk".to_string()))));
    assert_eq!(d.passive_check[0].skill, "quota");
    assert_eq!(d.passive_check[0].target, 7);
}
