use shadow_soldiers_dialog::codec::load_graph;
use shadow_soldiers_dialog::dialogue::{Dialogue, DialogueOption, PassiveCheck};
use shadow_soldiers_dialog::graph::DialogueMap;
use shadow_soldiers_dialog::ser::save_graph;
use shadow_soldiers_dialog::validate::{passive_check_is_valid, validate_dialogue, validate_graph};

fn messy_dialogue() -> Dialogue {
    Dialogue {
        speaker: String::new(),
        intro: String::new(),
        options: vec![
            DialogueOption {
                description: String::new(),
                success_dialogue: None,
                ..DialogueOption::default()
            },
            DialogueOption {
                description: "Leave.".to_string(),
                success_dialogue: Some("Exit".to_string()),
                ..DialogueOption::default()
            },
        ],
        passive_check: vec![
            PassiveCheck {
                skill: "dossier".to_string(),
                target: 8,
                success_text: None,
                failure_text: None,
                speaker: Some("Archivist".to_string()),
            },
            PassiveCheck {
                skill: String::new(),
                target: 8,
                success_text: None,
                failure_text: None,
                speaker: Some("Nobody".to_string()),
            },
            PassiveCheck {
                skill: "quota".to_string(),
                target: 0,
                success_text: None,
                failure_text: None,
                speaker: Some("Clerk".to_string()),
            },
            PassiveCheck {
                skill: "robot".to_string(),
                target: 3,
                success_text: None,
                failure_text: None,
                speaker: None,
            },
        ],
        xp_reward: None,
        is_hidden: false,
        time: None,
    }
}

#[test]
fn defaulting_fills_empty_texts_and_targets() {
    let mut d = messy_dialogue();
    validate_dialogue(&mut d);
    assert_eq!(d.speaker, "Error");
    assert_eq!(d.intro, "No dialogue available.");
    assert_eq!(d.options[0].description, "Continue");
    assert_eq!(d.options[0].success_dialogue, Some("Start".to_string()));
    assert_eq!(d.options[1].description, "Leave.");
    assert_eq!(d.options[1].success_dialogue, Some("Exit".to_string()));
}

#[test]
fn defaulting_replaces_an_empty_option_list() {
    let mut d = Dialogue {
        options: vec![],
        ..Dialogue::default()
    };
    validate_dialogue(&mut d);
    assert_eq!(d.options.len(), 1);
    assert_eq!(d.options[0], DialogueOption::default());
}

#[test]
fn invalid_passive_checks_are_dropped_and_valid_ones_kept() {
    let mut d = messy_dialogue();
    validate_dialogue(&mut d);
    assert_eq!(d.passive_check.len(), 1);
    assert_eq!(d.passive_check[0].skill, "dossier");
    for c in &d.passive_check {
        assert!(passive_check_is_valid(c));
    }
}

#[test]
fn validation_is_idempotent_on_a_messy_dialogue() {
    let mut once = messy_dialogue();
    validate_dialogue(&mut once);
    let mut twice = once.clone();
    validate_dialogue(&mut twice);
    assert_eq!(once, twice);
}

#[test]
fn validation_of_a_graph_is_idempotent() {
    let mut g = DialogueMap::new();
    g.insert("A".to_string(), messy_dialogue());
    g.insert("B".to_string(), Dialogue::default());
    validate_graph(&mut g);
    let once = g.clone();
    validate_graph(&mut g);
    assert_eq!(once, g);
}

#[test]
fn loading_an_empty_stream_yields_the_fallback_graph() {
    let g = load_graph(b"");
    assert_eq!(g.len(), 1);
    let d = g.get(&"Default".to_string()).expect("fallback entry");
    assert_eq!(d.speaker, "Error");
    assert_eq!(d.intro, "No dialogue available.");
    assert_eq!(d.options.len(), 1);
    assert!(d.is_hidden);
}

#[test]
fn loading_garbage_yields_the_fallback_graph() {
    let g = load_graph(b"this is not a graph at all {{{");
    assert_eq!(g.len(), 1);
    assert!(g.get(&"Default".to_string()).is_some());
}

#[test]
fn loading_an_empty_object_yields_an_empty_graph() {
    let g = load_graph(b"{}");
    assert!(g.is_empty());
}

#[test]
fn saving_an_empty_graph_writes_an_empty_object() {
    let g = DialogueMap::new();
    assert_eq!(save_graph(&g), b"{}".to_vec());
}

#[test]
fn a_small_dialogue_serializes_to_the_fixed_field_order() {
    let mut g = DialogueMap::new();
    g.insert(
        "A".to_string(),
        Dialogue {
            speaker: "N".to_string(),
            intro: "Hi".to_string(),
            options: vec![],
            passive_check: vec![],
            xp_reward: Some(-5),
            is_hidden: false,
            time: None,
        },
    );
    let bytes = save_graph(&g);
    let expected = "{\"A\":{\"speaker\":\"N\",\"intro\":\"Hi\",\"options\":[],\"passive_check\":[],\"xp_reward\":-5,\"is_hidden\":false,\"time\":null}}";
    assert_eq!(String::from_utf8(bytes).unwrap(), expected);
}

#[test]
fn escaped_text_survives_a_round_trip() {
    let mut g = DialogueMap::new();
    g.insert(
        "K".to_string(),
        Dialogue {
            speaker: "He said \"no\" \\ twice".to_string(),
            intro: "line one\nline two\ttabbed\rcaf\u{e9} \u{1F600} \u{1}".to_string(),
            ..Dialogue::default()
        },
    );
    validate_graph(&mut g);
    let reloaded = load_graph(&save_graph(&g));
    assert_eq!(g, reloaded);
}

#[test]
fn a_full_graph_survives_a_round_trip() {
    let mut g = DialogueMap::new();
    g.insert(
        "Start".to_string(),
        Dialogue {
            speaker: "Narrator".to_string(),
            intro: "You wake up.".to_string(),
            options: vec![
                DialogueOption {
                    description: "Check the clock.".to_string(),
                    challenge_attribute: Some("gizmo".to_string()),
                    challenge_number: Some(9),
                    success_dialogue: Some("Clock".to_string()),
                    failure_dialogue: Some("Stuck".to_string()),
                    item_to_pickup: Some("spring".to_string()),
                    visible_when: Some("curious".to_string()),
                    flags: Some(vec!["looked".to_string(), "awake".to_string()]),
                },
                DialogueOption::default(),
            ],
            passive_check: vec![PassiveCheck {
                skill: "delusion".to_string(),
                target: 6,
                success_text: Some("A hunch.".to_string()),
                failure_text: None,
                speaker: Some("Inner voice".to_string()),
            }],
            xp_reward: Some(25),
            is_hidden: false,
            time: Some(2147483647),
        },
    );
    g.insert("Clock".to_string(), Dialogue::default());
    g.insert(
        "Stuck".to_string(),
        Dialogue {
            xp_reward: Some(-2147483648),
            ..Dialogue::default()
        },
    );
    validate_graph(&mut g);
    let bytes = save_graph(&g);
    let reloaded = load_graph(&bytes);
    assert_eq!(g, reloaded);
    let again = load_graph(&save_graph(&reloaded));
    assert_eq!(reloaded, again);
}

#[test]
fn duplicate_keys_are_rejected_as_malformed() {
    let mut g = DialogueMap::new();
    g.insert("A".to_string(), Dialogue::default());
    let bytes = save_graph(&g);
    let text = String::from_utf8(bytes).unwrap();
    let inner = &text[1..text.len() - 1];
    let doubled = format!("{{{},{}}}", inner, inner);
    let loaded = load_graph(doubled.as_bytes());
    assert_eq!(loaded.len(), 1);
    assert!(loaded.get(&"Default".to_string()).is_some());
}

#[test]
fn trailing_bytes_are_rejected_as_malformed() {
    let loaded = load_graph(b"{} ");
    assert_eq!(loaded.len(), 1);
    assert!(loaded.get(&"Default".to_string()).is_some());
}

#[test]
fn loading_applies_the_defaulting_pass() {
    let mut g = DialogueMap::new();
    g.insert("A".to_string(), Dialogue {
        speaker: String::new(),
        intro: "text".to_string(),
        options: vec![],
        passive_check: vec![PassiveCheck {
            skill: String::new(),
            target: 1,
            success_text: None,
            failure_text: None,
            speaker: None,
        }],
        xp_reward: None,
        is_hidden: false,
        time: None,
    });
    let loaded = load_graph(&save_graph(&g));
    let d = loaded.get(&"A".to_string()).expect("entry kept");
    assert_eq!(d.speaker, "Error");
    assert_eq!(d.options.len(), 1);
    assert!(d.passive_check.is_empty());
}
