//! The entities of the narrative graph: dialogues, player-facing options
//! and passive checks, with their mathematical views and default values.

use vstd::prelude::*;

verus! {

/// The key the default success target points at, and the root of a graph.
pub open spec fn root_key() -> Seq<char> {
    "Start"@
}

/// The key under which the fallback dialogue is stored when a graph
/// cannot be parsed at all.
pub open spec fn fallback_key() -> Seq<char> {
    "Default"@
}

/// A single player-facing choice attached to a dialogue.
#[derive(Clone, Debug, PartialEq)]
pub struct DialogueOption {
    pub description: String,
    pub challenge_attribute: Option<String>,
    pub challenge_number: Option<i32>,
    pub success_dialogue: Option<String>,
    pub failure_dialogue: Option<String>,
    pub item_to_pickup: Option<String>,
    pub visible_when: Option<String>,
    pub flags: Option<Vec<String>>,
}

/// A `DialogueOption` as mathematical values.
#[verifier::ext_equal]
pub ghost struct OptionV {
    pub description: Seq<char>,
    pub challenge_attribute: Option<Seq<char>>,
    pub challenge_number: Option<int>,
    pub success_dialogue: Option<Seq<char>>,
    pub failure_dialogue: Option<Seq<char>>,
    pub item_to_pickup: Option<Seq<char>>,
    pub visible_when: Option<Seq<char>>,
    pub flags: Option<Seq<Seq<char>>>,
}

impl View for DialogueOption {
    type V = OptionV;

    open spec fn view(&self) -> OptionV {
        OptionV {
            description: self.description@,
            challenge_attribute: self.challenge_attribute.deep_view(),
            challenge_number: match self.challenge_number {
                Some(n) => Some(n as int),
                None => None,
            },
            success_dialogue: self.success_dialogue.deep_view(),
            failure_dialogue: self.failure_dialogue.deep_view(),
            item_to_pickup: self.item_to_pickup.deep_view(),
            visible_when: self.visible_when.deep_view(),
            flags: match self.flags {
                Some(f) => Some(f.deep_view()),
                None => None,
            },
        }
    }
}

impl DeepView for DialogueOption {
    type V = OptionV;

    open spec fn deep_view(&self) -> OptionV {
        self.view()
    }
}

/// An automatic check evaluated on dialogue entry, independent of player
/// choice.
#[derive(Clone, Debug, PartialEq)]
pub struct PassiveCheck {
    pub skill: String,
    pub target: i32,
    pub success_text: Option<String>,
    pub failure_text: Option<String>,
    pub speaker: Option<String>,
}

/// A `PassiveCheck` as mathematical values.
#[verifier::ext_equal]
pub ghost struct CheckV {
    pub skill: Seq<char>,
    pub target: int,
    pub success_text: Option<Seq<char>>,
    pub failure_text: Option<Seq<char>>,
    pub speaker: Option<Seq<char>>,
}

impl View for PassiveCheck {
    type V = CheckV;

    open spec fn view(&self) -> CheckV {
        CheckV {
            skill: self.skill@,
            target: self.target as int,
            success_text: self.success_text.deep_view(),
            failure_text: self.failure_text.deep_view(),
            speaker: self.speaker.deep_view(),
        }
    }
}

impl DeepView for PassiveCheck {
    type V = CheckV;

    open spec fn deep_view(&self) -> CheckV {
        self.view()
    }
}

/// A node in the narrative graph.
#[derive(Clone, Debug, PartialEq)]
pub struct Dialogue {
    pub speaker: String,
    pub intro: String,
    pub options: Vec<DialogueOption>,
    pub passive_check: Vec<PassiveCheck>,
    pub xp_reward: Option<i32>,
    pub is_hidden: bool,
    pub time: Option<i32>,
}

/// A `Dialogue` as mathematical values.
#[verifier::ext_equal]
pub ghost struct DialogueV {
    pub speaker: Seq<char>,
    pub intro: Seq<char>,
    pub options: Seq<OptionV>,
    pub passive_check: Seq<CheckV>,
    pub xp_reward: Option<int>,
    pub is_hidden: bool,
    pub time: Option<int>,
}

impl View for Dialogue {
    type V = DialogueV;

    open spec fn view(&self) -> DialogueV {
        DialogueV {
            speaker: self.speaker@,
            intro: self.intro@,
            options: self.options.deep_view(),
            passive_check: self.passive_check.deep_view(),
            xp_reward: match self.xp_reward {
                Some(n) => Some(n as int),
                None => None,
            },
            is_hidden: self.is_hidden,
            time: match self.time {
                Some(n) => Some(n as int),
                None => None,
            },
        }
    }
}

impl DeepView for Dialogue {
    type V = DialogueV;

    open spec fn deep_view(&self) -> DialogueV {
        self.view()
    }
}

/// The option's numeric field fits a 32-bit machine integer, as every
/// option held by executable code does.
pub open spec fn option_bounded(o: OptionV) -> bool {
    match o.challenge_number {
        Some(v) => i32::MIN <= v <= i32::MAX,
        None => true,
    }
}

/// The check's target fits a 32-bit machine integer.
pub open spec fn check_bounded(c: CheckV) -> bool {
    i32::MIN <= c.target <= i32::MAX
}

/// Every numeric field of the dialogue and of its options and checks
/// fits a 32-bit machine integer.
pub open spec fn dialogue_bounded(d: DialogueV) -> bool {
    &&& match d.xp_reward {
        Some(v) => i32::MIN <= v <= i32::MAX,
        None => true,
    }
    &&& match d.time {
        Some(v) => i32::MIN <= v <= i32::MAX,
        None => true,
    }
    &&& forall|k: int| 0 <= k < d.options.len() ==> option_bounded(#[trigger] d.options[k])
    &&& forall|k: int| 0 <= k < d.passive_check.len() ==> check_bounded(
        #[trigger] d.passive_check[k],
    )
}

/// A passive check is valid iff its skill name is non-empty, its target is
/// positive and it names a speaker.
pub open spec fn check_valid(c: CheckV) -> bool {
    &&& c.skill.len() > 0
    &&& c.target > 0
    &&& c.speaker is Some
}

/// An option carries a challenge iff both the attribute name and the
/// target number are present.
pub open spec fn option_is_challenge(o: OptionV) -> bool {
    o.challenge_attribute is Some && o.challenge_number is Some
}

/// The default "Continue" option: no challenge, success pointing at the
/// root key.
pub open spec fn default_option_view() -> OptionV {
    OptionV {
        description: "Continue"@,
        challenge_attribute: None,
        challenge_number: None,
        success_dialogue: Some(root_key()),
        failure_dialogue: None,
        item_to_pickup: None,
        visible_when: None,
        flags: None,
    }
}

/// The default passive check: an empty skill with target 1 and no
/// speaker; it is invalid on purpose until the author fills it in.
pub open spec fn default_check_view() -> CheckV {
    CheckV { skill: Seq::empty(), target: 1, success_text: None, failure_text: None, speaker: None }
}

/// The fallback dialogue: a hidden error node with one "Continue" option.
pub open spec fn default_dialogue_view() -> DialogueV {
    DialogueV {
        speaker: "Error"@,
        intro: "No dialogue available."@,
        options: seq![default_option_view()],
        passive_check: Seq::empty(),
        xp_reward: None,
        is_hidden: true,
        time: Some(1),
    }
}

impl Default for DialogueOption {
    /// The unconditional "Continue" choice.
    fn default() -> (r: DialogueOption)
        ensures
            r@ == default_option_view(),
    {
        DialogueOption {
            description: "Continue".to_owned(),
            challenge_attribute: None,
            challenge_number: None,
            success_dialogue: Some("Start".to_owned()),
            failure_dialogue: None,
            item_to_pickup: None,
            visible_when: None,
            flags: None,
        }
    }
}

impl Default for PassiveCheck {
    /// An empty check for an editor to fill in; invalid until it is.
    fn default() -> (r: PassiveCheck)
        ensures
            r@ == default_check_view(),
            !check_valid(r@),
    {
        let r = PassiveCheck {
            skill: String::new(),
            target: 1,
            success_text: None,
            failure_text: None,
            speaker: None,
        };
        proof {
            assert(r@.skill =~= Seq::<char>::empty());
        }
        r
    }
}

impl Default for Dialogue {
    /// The fallback dialogue used when loading fails.
    fn default() -> (r: Dialogue)
        ensures
            r@ == default_dialogue_view(),
    {
        let mut options: Vec<DialogueOption> = Vec::new();
        options.push(DialogueOption::default());
        let r = Dialogue {
            speaker: "Error".to_owned(),
            intro: "No dialogue available.".to_owned(),
            options,
            passive_check: Vec::new(),
            xp_reward: None,
            is_hidden: true,
            time: Some(1),
        };
        proof {
            assert(r@.options =~= seq![default_option_view()]);
            assert(r@.passive_check =~= Seq::<CheckV>::empty());
            assert(r@ =~= default_dialogue_view());
        }
        r
    }
}

} // verus!
