//! Editing a dialogue through explicit edit commands: the UI produces an
//! intent (set this field to that value), the core applies it. This keeps
//! all mutation of the data model in verified code.

use vstd::prelude::*;

verus! {

use crate::dialogue::{
    default_check_view,
    default_option_view,
    CheckV,
    Dialogue,
    DialogueOption,
    DialogueV,
    OptionV,
    PassiveCheck,
};

/// One edit intent against a dialogue. Indexed variants name the option
/// or passive check they touch; an index past the end applies nothing.
pub enum DialogueEdit {
    SetSpeaker(String),
    SetIntro(String),
    SetXpReward(Option<i32>),
    SetHidden(bool),
    SetTime(Option<i32>),
    AddOption,
    AddPassiveCheck,
    SetOptionDescription(usize, String),
    SetOptionChallengeAttribute(usize, Option<String>),
    SetOptionChallengeNumber(usize, Option<i32>),
    SetOptionSuccess(usize, Option<String>),
    SetOptionFailure(usize, Option<String>),
    SetOptionItem(usize, Option<String>),
    SetOptionVisibleWhen(usize, Option<String>),
    SetCheckSkill(usize, String),
    SetCheckTarget(usize, i32),
    SetCheckSuccessText(usize, Option<String>),
    SetCheckFailureText(usize, Option<String>),
    SetCheckSpeaker(usize, Option<String>),
}

/// A `DialogueEdit` as mathematical values.
pub ghost enum EditV {
    SetSpeaker(Seq<char>),
    SetIntro(Seq<char>),
    SetXpReward(Option<int>),
    SetHidden(bool),
    SetTime(Option<int>),
    AddOption,
    AddPassiveCheck,
    SetOptionDescription(int, Seq<char>),
    SetOptionChallengeAttribute(int, Option<Seq<char>>),
    SetOptionChallengeNumber(int, Option<int>),
    SetOptionSuccess(int, Option<Seq<char>>),
    SetOptionFailure(int, Option<Seq<char>>),
    SetOptionItem(int, Option<Seq<char>>),
    SetOptionVisibleWhen(int, Option<Seq<char>>),
    SetCheckSkill(int, Seq<char>),
    SetCheckTarget(int, int),
    SetCheckSuccessText(int, Option<Seq<char>>),
    SetCheckFailureText(int, Option<Seq<char>>),
    SetCheckSpeaker(int, Option<Seq<char>>),
}

impl View for DialogueEdit {
    type V = EditV;

    open spec fn view(&self) -> EditV {
        match self {
            DialogueEdit::SetSpeaker(s) => EditV::SetSpeaker(s@),
            DialogueEdit::SetIntro(s) => EditV::SetIntro(s@),
            DialogueEdit::SetXpReward(s) => EditV::SetXpReward(
                match s {
                    Some(n) => Some(*n as int),
                    None => None,
                },
            ),
            DialogueEdit::SetHidden(s) => EditV::SetHidden(*s),
            DialogueEdit::SetTime(s) => EditV::SetTime(
                match s {
                    Some(n) => Some(*n as int),
                    None => None,
                },
            ),
            DialogueEdit::AddOption => EditV::AddOption,
            DialogueEdit::AddPassiveCheck => EditV::AddPassiveCheck,
            DialogueEdit::SetOptionDescription(i, s) => EditV::SetOptionDescription(*i as int, s@),
            DialogueEdit::SetOptionChallengeAttribute(i, s) => EditV::SetOptionChallengeAttribute(*i as int, s.deep_view()),
            DialogueEdit::SetOptionChallengeNumber(i, s) => EditV::SetOptionChallengeNumber(
                *i as int,
                match s {
                    Some(n) => Some(*n as int),
                    None => None,
                },
            ),
            DialogueEdit::SetOptionSuccess(i, s) => EditV::SetOptionSuccess(*i as int, s.deep_view()),
            DialogueEdit::SetOptionFailure(i, s) => EditV::SetOptionFailure(*i as int, s.deep_view()),
            DialogueEdit::SetOptionItem(i, s) => EditV::SetOptionItem(*i as int, s.deep_view()),
            DialogueEdit::SetOptionVisibleWhen(i, s) => EditV::SetOptionVisibleWhen(*i as int, s.deep_view()),
            DialogueEdit::SetCheckSkill(i, s) => EditV::SetCheckSkill(*i as int, s@),
            DialogueEdit::SetCheckTarget(i, s) => EditV::SetCheckTarget(*i as int, *s as int),
            DialogueEdit::SetCheckSuccessText(i, s) => EditV::SetCheckSuccessText(*i as int, s.deep_view()),
            DialogueEdit::SetCheckFailureText(i, s) => EditV::SetCheckFailureText(*i as int, s.deep_view()),
            DialogueEdit::SetCheckSpeaker(i, s) => EditV::SetCheckSpeaker(*i as int, s.deep_view()),
        }
    }
}

/// What one edit does to a dialogue: the named field changes, all else
/// stays; an out-of-range index changes nothing; adding appends the
/// default option or check.
pub open spec fn apply_edit_spec(d: DialogueV, e: EditV) -> DialogueV {
    match e {
        EditV::SetSpeaker(x) => DialogueV { speaker: x, ..d },
        EditV::SetIntro(x) => DialogueV { intro: x, ..d },
        EditV::SetXpReward(x) => DialogueV { xp_reward: x, ..d },
        EditV::SetHidden(x) => DialogueV { is_hidden: x, ..d },
        EditV::SetTime(x) => DialogueV { time: x, ..d },
        EditV::AddOption => DialogueV { options: d.options.push(default_option_view()), ..d },
        EditV::AddPassiveCheck => DialogueV {
            passive_check: d.passive_check.push(default_check_view()),
            ..d
        },
        EditV::SetOptionDescription(i, x) => {
            if 0 <= i < d.options.len() {
                DialogueV {
                    options: d.options.update(i, OptionV { description: x, ..d.options[i] }),
                    ..d
                }
            } else {
                d
            }
        },
        EditV::SetOptionChallengeAttribute(i, x) => {
            if 0 <= i < d.options.len() {
                DialogueV {
                    options: d.options.update(i, OptionV { challenge_attribute: x, ..d.options[i] }),
                    ..d
                }
            } else {
                d
            }
        },
        EditV::SetOptionChallengeNumber(i, x) => {
            if 0 <= i < d.options.len() {
                DialogueV {
                    options: d.options.update(i, OptionV { challenge_number: x, ..d.options[i] }),
                    ..d
                }
            } else {
                d
            }
        },
        EditV::SetOptionSuccess(i, x) => {
            if 0 <= i < d.options.len() {
                DialogueV {
                    options: d.options.update(i, OptionV { success_dialogue: x, ..d.options[i] }),
                    ..d
                }
            } else {
                d
            }
        },
        EditV::SetOptionFailure(i, x) => {
            if 0 <= i < d.options.len() {
                DialogueV {
                    options: d.options.update(i, OptionV { failure_dialogue: x, ..d.options[i] }),
                    ..d
                }
            } else {
                d
            }
        },
        EditV::SetOptionItem(i, x) => {
            if 0 <= i < d.options.len() {
                DialogueV {
                    options: d.options.update(i, OptionV { item_to_pickup: x, ..d.options[i] }),
                    ..d
                }
            } else {
                d
            }
        },
        EditV::SetOptionVisibleWhen(i, x) => {
            if 0 <= i < d.options.len() {
                DialogueV {
                    options: d.options.update(i, OptionV { visible_when: x, ..d.options[i] }),
                    ..d
                }
            } else {
                d
            }
        },
        EditV::SetCheckSkill(i, x) => {
            if 0 <= i < d.passive_check.len() {
                DialogueV {
                    passive_check: d.passive_check.update(
                        i,
                        CheckV { skill: x, ..d.passive_check[i] },
                    ),
                    ..d
                }
            } else {
                d
            }
        },
        EditV::SetCheckTarget(i, x) => {
            if 0 <= i < d.passive_check.len() {
                DialogueV {
                    passive_check: d.passive_check.update(
                        i,
                        CheckV { target: x, ..d.passive_check[i] },
                    ),
                    ..d
                }
            } else {
                d
            }
        },
        EditV::SetCheckSuccessText(i, x) => {
            if 0 <= i < d.passive_check.len() {
                DialogueV {
                    passive_check: d.passive_check.update(
                        i,
                        CheckV { success_text: x, ..d.passive_check[i] },
                    ),
                    ..d
                }
            } else {
                d
            }
        },
        EditV::SetCheckFailureText(i, x) => {
            if 0 <= i < d.passive_check.len() {
                DialogueV {
                    passive_check: d.passive_check.update(
                        i,
                        CheckV { failure_text: x, ..d.passive_check[i] },
                    ),
                    ..d
                }
            } else {
                d
            }
        },
        EditV::SetCheckSpeaker(i, x) => {
            if 0 <= i < d.passive_check.len() {
                DialogueV {
                    passive_check: d.passive_check.update(
                        i,
                        CheckV { speaker: x, ..d.passive_check[i] },
                    ),
                    ..d
                }
            } else {
                d
            }
        },
    }
}

/// Apply one edit intent to a dialogue in place. Returns whether the
/// edit took effect (an out-of-range index does not).
pub fn apply_edit(d: &mut Dialogue, e: DialogueEdit) -> (applied: bool)
    ensures
        final(d)@ == apply_edit_spec(old(d)@, e@),
{
    match e {
        DialogueEdit::SetSpeaker(x) => {
            d.speaker = x;
            proof {
                assert(d@ =~= apply_edit_spec(old(d)@, e@));
            }
            true
        },
        DialogueEdit::SetIntro(x) => {
            d.intro = x;
            proof {
                assert(d@ =~= apply_edit_spec(old(d)@, e@));
            }
            true
        },
        DialogueEdit::SetXpReward(x) => {
            d.xp_reward = x;
            proof {
                assert(d@ =~= apply_edit_spec(old(d)@, e@));
            }
            true
        },
        DialogueEdit::SetHidden(x) => {
            d.is_hidden = x;
            proof {
                assert(d@ =~= apply_edit_spec(old(d)@, e@));
            }
            true
        },
        DialogueEdit::SetTime(x) => {
            d.time = x;
            proof {
                assert(d@ =~= apply_edit_spec(old(d)@, e@));
            }
            true
        },
        DialogueEdit::AddOption => {
            d.options.push(DialogueOption::default());
            proof {
                assert(d.options.deep_view() =~= old(d).options.deep_view().push(
                    default_option_view(),
                ));
                assert(d@ =~= apply_edit_spec(old(d)@, e@));
            }
            true
        },
        DialogueEdit::AddPassiveCheck => {
            d.passive_check.push(PassiveCheck::default());
            proof {
                assert(d.passive_check.deep_view() =~= old(d).passive_check.deep_view().push(
                    default_check_view(),
                ));
                assert(d@ =~= apply_edit_spec(old(d)@, e@));
            }
            true
        },
        DialogueEdit::SetOptionDescription(i, x) => {
            if i < d.options.len() {
                let ghost before = d.options.deep_view();
                let mut o = d.options.remove(i);
                proof {
                    assert(o@ == before[i as int]);
                }
                o.description = x;
                d.options.insert(i, o);
                proof {
                    assert(d.options.deep_view() =~= before.update(i as int, o@));
                    assert(d@ =~= apply_edit_spec(old(d)@, e@));
                }
                true
            } else {
                proof {
                    assert(d@ =~= apply_edit_spec(old(d)@, e@));
                }
                false
            }
        },
        DialogueEdit::SetOptionChallengeAttribute(i, x) => {
            if i < d.options.len() {
                let ghost before = d.options.deep_view();
                let mut o = d.options.remove(i);
                proof {
                    assert(o@ == before[i as int]);
                }
                o.challenge_attribute = x;
                d.options.insert(i, o);
                proof {
                    assert(d.options.deep_view() =~= before.update(i as int, o@));
                    assert(d@ =~= apply_edit_spec(old(d)@, e@));
                }
                true
            } else {
                proof {
                    assert(d@ =~= apply_edit_spec(old(d)@, e@));
                }
                false
            }
        },
        DialogueEdit::SetOptionChallengeNumber(i, x) => {
            if i < d.options.len() {
                let ghost before = d.options.deep_view();
                let mut o = d.options.remove(i);
                proof {
                    assert(o@ == before[i as int]);
                }
                o.challenge_number = x;
                d.options.insert(i, o);
                proof {
                    assert(d.options.deep_view() =~= before.update(i as int, o@));
                    assert(d@ =~= apply_edit_spec(old(d)@, e@));
                }
                true
            } else {
                proof {
                    assert(d@ =~= apply_edit_spec(old(d)@, e@));
                }
                false
            }
        },
        DialogueEdit::SetOptionSuccess(i, x) => {
            if i < d.options.len() {
                let ghost before = d.options.deep_view();
                let mut o = d.options.remove(i);
                proof {
                    assert(o@ == before[i as int]);
                }
                o.success_dialogue = x;
                d.options.insert(i, o);
                proof {
                    assert(d.options.deep_view() =~= before.update(i as int, o@));
                    assert(d@ =~= apply_edit_spec(old(d)@, e@));
                }
                true
            } else {
                proof {
                    assert(d@ =~= apply_edit_spec(old(d)@, e@));
                }
                false
            }
        },
        DialogueEdit::SetOptionFailure(i, x) => {
            if i < d.options.len() {
                let ghost before = d.options.deep_view();
                let mut o = d.options.remove(i);
                proof {
                    assert(o@ == before[i as int]);
                }
                o.failure_dialogue = x;
                d.options.insert(i, o);
                proof {
                    assert(d.options.deep_view() =~= before.update(i as int, o@));
                    assert(d@ =~= apply_edit_spec(old(d)@, e@));
                }
                true
            } else {
                proof {
                    assert(d@ =~= apply_edit_spec(old(d)@, e@));
                }
                false
            }
        },
        DialogueEdit::SetOptionItem(i, x) => {
            if i < d.options.len() {
                let ghost before = d.options.deep_view();
                let mut o = d.options.remove(i);
                proof {
                    assert(o@ == before[i as int]);
                }
                o.item_to_pickup = x;
                d.options.insert(i, o);
                proof {
                    assert(d.options.deep_view() =~= before.update(i as int, o@));
                    assert(d@ =~= apply_edit_spec(old(d)@, e@));
                }
                true
            } else {
                proof {
                    assert(d@ =~= apply_edit_spec(old(d)@, e@));
                }
                false
            }
        },
        DialogueEdit::SetOptionVisibleWhen(i, x) => {
            if i < d.options.len() {
                let ghost before = d.options.deep_view();
                let mut o = d.options.remove(i);
                proof {
                    assert(o@ == before[i as int]);
                }
                o.visible_when = x;
                d.options.insert(i, o);
                proof {
                    assert(d.options.deep_view() =~= before.update(i as int, o@));
                    assert(d@ =~= apply_edit_spec(old(d)@, e@));
                }
                true
            } else {
                proof {
                    assert(d@ =~= apply_edit_spec(old(d)@, e@));
                }
                false
            }
        },
        DialogueEdit::SetCheckSkill(i, x) => {
            if i < d.passive_check.len() {
                let ghost before = d.passive_check.deep_view();
                let mut c = d.passive_check.remove(i);
                proof {
                    assert(c@ == before[i as int]);
                }
                c.skill = x;
                d.passive_check.insert(i, c);
                proof {
                    assert(d.passive_check.deep_view() =~= before.update(i as int, c@));
                    assert(d@ =~= apply_edit_spec(old(d)@, e@));
                }
                true
            } else {
                proof {
                    assert(d@ =~= apply_edit_spec(old(d)@, e@));
                }
                false
            }
        },
        DialogueEdit::SetCheckTarget(i, x) => {
            if i < d.passive_check.len() {
                let ghost before = d.passive_check.deep_view();
                let mut c = d.passive_check.remove(i);
                proof {
                    assert(c@ == before[i as int]);
                }
                c.target = x;
                d.passive_check.insert(i, c);
                proof {
                    assert(d.passive_check.deep_view() =~= before.update(i as int, c@));
                    assert(d@ =~= apply_edit_spec(old(d)@, e@));
                }
                true
            } else {
                proof {
                    assert(d@ =~= apply_edit_spec(old(d)@, e@));
                }
                false
            }
        },
        DialogueEdit::SetCheckSuccessText(i, x) => {
            if i < d.passive_check.len() {
                let ghost before = d.passive_check.deep_view();
                let mut c = d.passive_check.remove(i);
                proof {
                    assert(c@ == before[i as int]);
                }
                c.success_text = x;
                d.passive_check.insert(i, c);
                proof {
                    assert(d.passive_check.deep_view() =~= before.update(i as int, c@));
                    assert(d@ =~= apply_edit_spec(old(d)@, e@));
                }
                true
            } else {
                proof {
                    assert(d@ =~= apply_edit_spec(old(d)@, e@));
                }
                false
            }
        },
        DialogueEdit::SetCheckFailureText(i, x) => {
            if i < d.passive_check.len() {
                let ghost before = d.passive_check.deep_view();
                let mut c = d.passive_check.remove(i);
                proof {
                    assert(c@ == before[i as int]);
                }
                c.failure_text = x;
                d.passive_check.insert(i, c);
                proof {
                    assert(d.passive_check.deep_view() =~= before.update(i as int, c@));
                    assert(d@ =~= apply_edit_spec(old(d)@, e@));
                }
                true
            } else {
                proof {
                    assert(d@ =~= apply_edit_spec(old(d)@, e@));
                }
                false
            }
        },
        DialogueEdit::SetCheckSpeaker(i, x) => {
            if i < d.passive_check.len() {
                let ghost before = d.passive_check.deep_view();
                let mut c = d.passive_check.remove(i);
                proof {
                    assert(c@ == before[i as int]);
                }
                c.speaker = x;
                d.passive_check.insert(i, c);
                proof {
                    assert(d.passive_check.deep_view() =~= before.update(i as int, c@));
                    assert(d@ =~= apply_edit_spec(old(d)@, e@));
                }
                true
            } else {
                proof {
                    assert(d@ =~= apply_edit_spec(old(d)@, e@));
                }
                false
            }
        },
    }
}

} // verus!
