//! The skill-check mechanic: two d6 rolls, the priority decision rule,
//! and the side effects of entering dialogues and selecting options.

use vstd::prelude::*;

verus! {

use crate::dialogue::{option_is_challenge, Dialogue, DialogueOption, OptionV, PassiveCheck};
use crate::player::{
    derived_by_name_fits,
    derived_by_name_spec,
    player_counts_ok,
    Player,
    PlayerV,
    XP_PER_LEVEL,
};
use crate::time::{advance_spec, time_normalized, Time};

/// How a skill check ends.
#[derive(Clone, Copy, Debug, PartialEq, Eq, Structural)]
pub enum Outcome {
    Success,
    Failure,
}

/// The decision rule, in priority order: double sixes always succeed,
/// double ones always fail, otherwise the roll sum plus the derived skill
/// value must reach the target.
pub open spec fn decide_spec(skill: int, target: int, die1: int, die2: int) -> Outcome {
    if die1 == 6 && die2 == 6 {
        Outcome::Success
    } else if die1 == 1 && die2 == 1 {
        Outcome::Failure
    } else if die1 + die2 + skill >= target {
        Outcome::Success
    } else {
        Outcome::Failure
    }
}

/// Relies on rand's `thread_rng` and `Rng::gen_range`: a sample drawn
/// from `1..=6` lies within those bounds.
#[verifier::external_body]
fn roll_die() -> (r: i32)
    ensures
        1 <= r <= 6,
{
    rand::Rng::gen_range(&mut rand::thread_rng(), 1..=6)
}

/// Two independent d6 draws.
pub fn roll_dice() -> (r: (i32, i32))
    ensures
        1 <= r.0 <= 6,
        1 <= r.1 <= 6,
{
    (roll_die(), roll_die())
}

/// Apply the decision rule to given rolls.
pub fn decide_challenge(skill: i32, target: i32, die1: i32, die2: i32) -> (r: Outcome)
    requires
        1 <= die1 <= 6,
        1 <= die2 <= 6,
    ensures
        r == decide_spec(skill as int, target as int, die1 as int, die2 as int),
{
    if die1 == 6 && die2 == 6 {
        Outcome::Success
    } else if die1 == 1 && die2 == 1 {
        Outcome::Failure
    } else if die1 as i64 + die2 as i64 + skill as i64 >= target as i64 {
        Outcome::Success
    } else {
        Outcome::Failure
    }
}

/// What a challenge option resolves to under given rolls.
pub open spec fn resolve_spec(p: PlayerV, o: OptionV, die1: int, die2: int) -> Outcome
    recommends
        option_is_challenge(o),
{
    decide_spec(
        derived_by_name_spec(p, o.challenge_attribute.unwrap()),
        o.challenge_number.unwrap(),
        die1,
        die2,
    )
}

impl DialogueOption {
    /// Whether selecting this option triggers a skill check.
    pub fn has_challenge(&self) -> (r: bool)
        ensures
            r == option_is_challenge(self@),
    {
        self.challenge_attribute.is_some() && self.challenge_number.is_some()
    }
}

/// Resolve a challenge option with the given rolls: look the attribute
/// name up in the player's derived skills and apply the decision rule.
pub fn resolve_challenge_with_dice(
    player: &Player,
    option: &DialogueOption,
    die1: i32,
    die2: i32,
) -> (r: Outcome)
    requires
        option_is_challenge(option@),
        derived_by_name_fits(player@, option@.challenge_attribute.unwrap()),
        1 <= die1 <= 6,
        1 <= die2 <= 6,
    ensures
        r == resolve_spec(player@, option@, die1 as int, die2 as int),
{
    match (&option.challenge_attribute, option.challenge_number) {
        (Some(name), Some(number)) => {
            let skill = player.derived_skill(name.as_str());
            decide_challenge(skill, number, die1, die2)
        },
        _ => vstd::pervasive::unreached(),
    }
}

/// Resolve a challenge option with fresh rolls. The outcome is the
/// decision rule applied to some pair of d6 values.
pub fn resolve_challenge(player: &Player, option: &DialogueOption) -> (r: Outcome)
    requires
        option_is_challenge(option@),
        derived_by_name_fits(player@, option@.challenge_attribute.unwrap()),
    ensures
        exists|die1: int, die2: int|
            1 <= die1 <= 6 && 1 <= die2 <= 6 && r == resolve_spec(player@, option@, die1, die2),
{
    let (die1, die2) = roll_dice();
    let r = resolve_challenge_with_dice(player, option, die1, die2);
    proof {
        assert(1 <= die1 as int <= 6 && 1 <= die2 as int <= 6 && r == resolve_spec(
            player@,
            option@,
            die1 as int,
            die2 as int,
        ));
    }
    r
}

/// What a passive check resolves to under given rolls: the same rule as
/// an option challenge, with the check's skill name and target.
pub open spec fn passive_spec(p: PlayerV, c: crate::dialogue::CheckV, die1: int, die2: int) -> Outcome {
    decide_spec(derived_by_name_spec(p, c.skill), c.target, die1, die2)
}

/// Resolve a passive check with the given rolls.
pub fn resolve_passive_check_with_dice(
    player: &Player,
    check: &PassiveCheck,
    die1: i32,
    die2: i32,
) -> (r: Outcome)
    requires
        derived_by_name_fits(player@, check@.skill),
        1 <= die1 <= 6,
        1 <= die2 <= 6,
    ensures
        r == passive_spec(player@, check@, die1 as int, die2 as int),
{
    let skill = player.derived_skill(check.skill.as_str());
    decide_challenge(skill, check.target, die1, die2)
}

impl PassiveCheck {
    /// The flavor text a resolved passive check displays, if any.
    pub fn text_for<'a>(&'a self, outcome: Outcome) -> (r: &'a Option<String>)
        ensures
            outcome == Outcome::Success ==> r.deep_view() == self@.success_text,
            outcome == Outcome::Failure ==> r.deep_view() == self@.failure_text,
    {
        match outcome {
            Outcome::Success => &self.success_text,
            Outcome::Failure => &self.failure_text,
        }
    }
}

/// The flags an option sets on selection.
pub open spec fn option_flags_set(o: OptionV) -> Set<Seq<char>> {
    match o.flags {
        Some(f) => f.to_set(),
        None => Set::empty(),
    }
}

/// The player's items after picking up what an option grants.
pub open spec fn items_after_pickup(items: Seq<Seq<char>>, o: OptionV) -> Seq<Seq<char>> {
    match o.item_to_pickup {
        Some(item) => items.push(item),
        None => items,
    }
}

/// The key the graph moves to after an option resolves: on success the
/// success target, on failure the failure target; an unconditional option
/// always follows its success target. `None` means "stay".
pub open spec fn option_target(o: OptionV, outcome: Outcome) -> Option<Seq<char>> {
    if option_is_challenge(o) {
        match outcome {
            Outcome::Success => o.success_dialogue,
            Outcome::Failure => o.failure_dialogue,
        }
    } else {
        o.success_dialogue
    }
}

/// The player's state after selecting an option: its flags set and its
/// item picked up; nothing else changes.
pub open spec fn player_after_select(p: PlayerV, o: OptionV) -> PlayerV {
    PlayerV {
        flags: p.flags + option_flags_set(o),
        items: items_after_pickup(p.items, o),
        ..p
    }
}

/// Select an option: set its flags, pick up its item, resolve its
/// challenge (if any) with the given rolls, and return the key of the
/// dialogue to move to, or `None` to stay.
pub fn select_option(player: &mut Player, option: &DialogueOption, die1: i32, die2: i32) -> (r:
    Option<String>)
    requires
        1 <= die1 <= 6,
        1 <= die2 <= 6,
        option_is_challenge(option@) ==> derived_by_name_fits(
            old(player)@,
            option@.challenge_attribute.unwrap(),
        ),
    ensures
        final(player)@ == player_after_select(old(player)@, option@),
        ({
            let outcome = resolve_spec(old(player)@, option@, die1 as int, die2 as int);
            r.deep_view() == option_target(option@, outcome)
        }),
{
    let ghost p0 = player@;
    match &option.flags {
        Some(fv) => {
            let ghost fdv = fv.deep_view();
            let mut i: usize = 0;
            #[verifier::loop_isolation(false)]
            while i < fv.len()
                invariant
                    0 <= i <= fdv.len(),
                    fdv.len() == fv@.len(),
                    player@ == (PlayerV { flags: p0.flags + fdv.take(i as int).to_set(), ..p0 }),
                decreases fdv.len() - i,
            {
                proof {
                    assert(fdv[i as int] == fv@[i as int]@);
                }
                player.set_flag(fv[i].clone());
                proof {
                    assert(fdv.take(i as int + 1).drop_last() =~= fdv.take(i as int));
                    assert(fdv.take(i as int + 1) =~= fdv.take(i as int).push(fdv[i as int]));
                    crate::player::lemma_push_to_set(fdv.take(i as int), fdv[i as int]);
                    assert(p0.flags + fdv.take(i as int + 1).to_set() =~= (p0.flags + fdv.take(
                        i as int,
                    ).to_set()).insert(fdv[i as int]));
                    assert(player@ =~= (PlayerV {
                        flags: p0.flags + fdv.take(i as int + 1).to_set(),
                        ..p0
                    }));
                }
                i = i + 1;
            }
            proof {
                assert(fdv.take(fdv.len() as int) =~= fdv);
                assert(option_flags_set(option@) == fdv.to_set());
            }
        },
        None => {
            proof {
                assert(p0.flags + option_flags_set(option@) =~= p0.flags);
                assert(player@ =~= (PlayerV { flags: p0.flags + option_flags_set(option@), ..p0 }));
            }
        },
    }
    match &option.item_to_pickup {
        Some(item) => {
            player.add_item(item.clone());
        },
        None => {},
    }
    proof {
        assert(player@ =~= player_after_select(p0, option@));
    }
    let goto = if option.has_challenge() {
        let outcome = resolve_challenge_with_dice(player, option, die1, die2);
        proof {
            assert(derived_by_name_spec(player@, option@.challenge_attribute.unwrap())
                == derived_by_name_spec(p0, option@.challenge_attribute.unwrap()));
        }
        match outcome {
            Outcome::Success => &option.success_dialogue,
            Outcome::Failure => &option.failure_dialogue,
        }
    } else {
        &option.success_dialogue
    };
    match goto {
        Some(key) => Some(key.clone()),
        None => None,
    }
}

/// Enter a dialogue: record its key as visited, grant its XP reward, and
/// advance the clock by its time cost. The visited set lets a driver skip
/// one-time effects on a later entry.
pub fn enter_dialogue(player: &mut Player, clock: &mut Time, key: &String, dialogue: &Dialogue)
    requires
        player_counts_ok(old(player)@),
        match dialogue@.xp_reward {
            Some(x) => {
                &&& 0 <= x
                &&& old(player)@.xp + x <= i32::MAX
                &&& old(player)@.skill_points + (old(player)@.xp + x) / (XP_PER_LEVEL as int)
                    <= i32::MAX
            },
            None => true,
        },
        match dialogue@.time {
            Some(t) => {
                &&& 0 <= t
                &&& time_normalized(old(clock)@)
                &&& old(clock)@.day + t / 1440 + 1 <= i32::MAX
            },
            None => true,
        },
    ensures
        final(player)@ == (PlayerV {
            dialogues_entered: old(player)@.dialogues_entered.insert(key@),
            xp: match dialogue@.xp_reward {
                Some(x) => (old(player)@.xp + x) % (XP_PER_LEVEL as int),
                None => old(player)@.xp,
            },
            skill_points: match dialogue@.xp_reward {
                Some(x) => old(player)@.skill_points + (old(player)@.xp + x) / (XP_PER_LEVEL as int),
                None => old(player)@.skill_points,
            },
            ..old(player)@
        }),
        final(clock)@ == match dialogue@.time {
            Some(t) => advance_spec(old(clock)@, t),
            None => old(clock)@,
        },
        player_counts_ok(final(player)@),
{
    let ghost p0 = player@;
    player.mark_entered(crate::graph::clone_string(key));
    match dialogue.xp_reward {
        Some(x) => {
            player.add_xp(x);
        },
        None => {},
    }
    proof {
        assert(player@ =~= (PlayerV {
            dialogues_entered: p0.dialogues_entered.insert(key@),
            xp: match dialogue@.xp_reward {
                Some(x) => (p0.xp + x) % (XP_PER_LEVEL as int),
                None => p0.xp,
            },
            skill_points: match dialogue@.xp_reward {
                Some(x) => p0.skill_points + (p0.xp + x) / (XP_PER_LEVEL as int),
                None => p0.skill_points,
            },
            ..p0
        }));
    }
    match dialogue.time {
        Some(t) => {
            clock.advance(t);
        },
        None => {},
    }
}

} // verus!
