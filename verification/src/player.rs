//! The protagonist's mutable state: four base attributes, one modifier per
//! skill, items, XP and skill points, visited dialogues and narrative flags.

use vstd::prelude::*;

verus! {

use crate::text::str_eq;

/// The fixed number of attribute points a finished character distributes
/// over the four base attributes.
pub const POINT_BUDGET: i32 = 12;

/// XP needed for one skill point.
pub const XP_PER_LEVEL: i32 = 100;

/// A named skill. Each skill is governed by exactly one base attribute.
#[derive(Clone, Copy, Debug, PartialEq, Eq, Structural)]
pub enum Skill {
    Checkmate,
    Rocketry,
    Pathology,
    CivicEngineering,
    Apparatchik,
    Quota,
    Robot,
    Dossier,
    Delusion,
    Arts2,
    Arts3,
    Arts4,
    Gunsmoke,
    Prohibition,
    Gizmo,
    OldtimeReligion,
}

/// The player's state for one session.
#[derive(Clone, Debug, PartialEq)]
pub struct Player {
    pub tech: i32,
    pub arts: i32,
    pub bur: i32,
    pub und: i32,
    pub checkmate_mod: i32,
    pub rocketry_mod: i32,
    pub pathology_mod: i32,
    pub civic_engineering_mod: i32,
    pub apparatchik_mod: i32,
    pub quota_mod: i32,
    pub robot_mod: i32,
    pub dossier_mod: i32,
    pub delusion_mod: i32,
    pub arts2_mod: i32,
    pub arts3_mod: i32,
    pub arts4_mod: i32,
    pub gunsmoke_mod: i32,
    pub prohibition_mod: i32,
    pub gizmo_mod: i32,
    pub oldtime_religion_mod: i32,
    pub items: Vec<String>,
    pub xp: i32,
    pub skill_points: i32,
    pub dialogues_entered: Vec<String>,
    pub flags: Vec<String>,
}

/// The player as mathematical values: integers, a sequence of item names,
/// and sets for the visited dialogues and the flags.
#[verifier::ext_equal]
pub ghost struct PlayerV {
    pub tech: int,
    pub arts: int,
    pub bur: int,
    pub und: int,
    pub checkmate_mod: int,
    pub rocketry_mod: int,
    pub pathology_mod: int,
    pub civic_engineering_mod: int,
    pub apparatchik_mod: int,
    pub quota_mod: int,
    pub robot_mod: int,
    pub dossier_mod: int,
    pub delusion_mod: int,
    pub arts2_mod: int,
    pub arts3_mod: int,
    pub arts4_mod: int,
    pub gunsmoke_mod: int,
    pub prohibition_mod: int,
    pub gizmo_mod: int,
    pub oldtime_religion_mod: int,
    pub items: Seq<Seq<char>>,
    pub xp: int,
    pub skill_points: int,
    pub dialogues_entered: Set<Seq<char>>,
    pub flags: Set<Seq<char>>,
}

impl View for Player {
    type V = PlayerV;

    open spec fn view(&self) -> PlayerV {
        PlayerV {
            tech: self.tech as int,
            arts: self.arts as int,
            bur: self.bur as int,
            und: self.und as int,
            checkmate_mod: self.checkmate_mod as int,
            rocketry_mod: self.rocketry_mod as int,
            pathology_mod: self.pathology_mod as int,
            civic_engineering_mod: self.civic_engineering_mod as int,
            apparatchik_mod: self.apparatchik_mod as int,
            quota_mod: self.quota_mod as int,
            robot_mod: self.robot_mod as int,
            dossier_mod: self.dossier_mod as int,
            delusion_mod: self.delusion_mod as int,
            arts2_mod: self.arts2_mod as int,
            arts3_mod: self.arts3_mod as int,
            arts4_mod: self.arts4_mod as int,
            gunsmoke_mod: self.gunsmoke_mod as int,
            prohibition_mod: self.prohibition_mod as int,
            gizmo_mod: self.gizmo_mod as int,
            oldtime_religion_mod: self.oldtime_religion_mod as int,
            items: self.items.deep_view(),
            xp: self.xp as int,
            skill_points: self.skill_points as int,
            dialogues_entered: self.dialogues_entered.deep_view().to_set(),
            flags: self.flags.deep_view().to_set(),
        }
    }
}

/// The base attribute governing `s`, as a value of the player.
pub open spec fn skill_base(p: PlayerV, s: Skill) -> int {
    match s {
        Skill::Checkmate | Skill::Rocketry | Skill::Pathology | Skill::CivicEngineering => p.tech,
        Skill::Apparatchik | Skill::Quota | Skill::Robot | Skill::Dossier => p.bur,
        Skill::Delusion | Skill::Arts2 | Skill::Arts3 | Skill::Arts4 => p.arts,
        Skill::Gunsmoke | Skill::Prohibition | Skill::Gizmo | Skill::OldtimeReligion => p.und,
    }
}

/// The player's modifier for `s`.
pub open spec fn skill_modifier(p: PlayerV, s: Skill) -> int {
    match s {
        Skill::Checkmate => p.checkmate_mod,
        Skill::Rocketry => p.rocketry_mod,
        Skill::Pathology => p.pathology_mod,
        Skill::CivicEngineering => p.civic_engineering_mod,
        Skill::Apparatchik => p.apparatchik_mod,
        Skill::Quota => p.quota_mod,
        Skill::Robot => p.robot_mod,
        Skill::Dossier => p.dossier_mod,
        Skill::Delusion => p.delusion_mod,
        Skill::Arts2 => p.arts2_mod,
        Skill::Arts3 => p.arts3_mod,
        Skill::Arts4 => p.arts4_mod,
        Skill::Gunsmoke => p.gunsmoke_mod,
        Skill::Prohibition => p.prohibition_mod,
        Skill::Gizmo => p.gizmo_mod,
        Skill::OldtimeReligion => p.oldtime_religion_mod,
    }
}

/// The derived skill value: governing base attribute plus modifier.
pub open spec fn skill_value_spec(p: PlayerV, s: Skill) -> int {
    skill_base(p, s) + skill_modifier(p, s)
}

/// The derived value fits the machine integer the accessors return.
pub open spec fn skill_fits(p: PlayerV, s: Skill) -> bool {
    i32::MIN <= skill_value_spec(p, s) <= i32::MAX
}

/// The skill a challenge-attribute name denotes, or `None` for a name
/// outside the closed list.
pub open spec fn skill_of_name(n: Seq<char>) -> Option<Skill> {
    if n == "checkmate"@ {
        Some(Skill::Checkmate)
    } else if n == "rocketry"@ {
        Some(Skill::Rocketry)
    } else if n == "pathology"@ {
        Some(Skill::Pathology)
    } else if n == "civic engineering"@ {
        Some(Skill::CivicEngineering)
    } else if n == "apparatchik"@ {
        Some(Skill::Apparatchik)
    } else if n == "quota"@ {
        Some(Skill::Quota)
    } else if n == "robot"@ {
        Some(Skill::Robot)
    } else if n == "dossier"@ {
        Some(Skill::Dossier)
    } else if n == "delusion"@ {
        Some(Skill::Delusion)
    } else if n == "arts2"@ {
        Some(Skill::Arts2)
    } else if n == "arts3"@ {
        Some(Skill::Arts3)
    } else if n == "arts4"@ {
        Some(Skill::Arts4)
    } else if n == "gunsmoke"@ {
        Some(Skill::Gunsmoke)
    } else if n == "prohibition"@ {
        Some(Skill::Prohibition)
    } else if n == "gizmo"@ {
        Some(Skill::Gizmo)
    } else if n == "oldtime religion"@ {
        Some(Skill::OldtimeReligion)
    } else {
        None
    }
}

/// The value a challenge-attribute name resolves to: the derived skill
/// value for a known name, and 0 for an unknown one.
pub open spec fn derived_by_name_spec(p: PlayerV, n: Seq<char>) -> int {
    match skill_of_name(n) {
        Some(s) => skill_value_spec(p, s),
        None => 0,
    }
}

/// Whatever `derived_by_name_spec` yields for this name fits an `i32`.
pub open spec fn derived_by_name_fits(p: PlayerV, n: Seq<char>) -> bool {
    match skill_of_name(n) {
        Some(s) => skill_fits(p, s),
        None => true,
    }
}

/// Whether all four base attributes lie in 1..=6 and sum to the full
/// point budget: the rule that ends character creation.
pub open spec fn player_built(p: PlayerV) -> bool {
    &&& 1 <= p.tech <= 6
    &&& 1 <= p.arts <= 6
    &&& 1 <= p.bur <= 6
    &&& 1 <= p.und <= 6
    &&& p.tech + p.arts + p.bur + p.und == POINT_BUDGET
}

/// XP and skill points never go negative.
pub open spec fn player_counts_ok(p: PlayerV) -> bool {
    &&& 0 <= p.xp
    &&& 0 <= p.skill_points
}

/// The freshly constructed player: every attribute at the floor value 1,
/// all modifiers 0, nothing collected yet.
pub open spec fn initial_player() -> PlayerV {
    PlayerV {
        tech: 1,
        arts: 1,
        bur: 1,
        und: 1,
        checkmate_mod: 0,
        rocketry_mod: 0,
        pathology_mod: 0,
        civic_engineering_mod: 0,
        apparatchik_mod: 0,
        quota_mod: 0,
        robot_mod: 0,
        dossier_mod: 0,
        delusion_mod: 0,
        arts2_mod: 0,
        arts3_mod: 0,
        arts4_mod: 0,
        gunsmoke_mod: 0,
        prohibition_mod: 0,
        gizmo_mod: 0,
        oldtime_religion_mod: 0,
        items: Seq::empty(),
        xp: 0,
        skill_points: 0,
        dialogues_entered: Set::empty(),
        flags: Set::empty(),
    }
}

impl Default for Player {
    /// A new character before creation: attributes at the floor value.
    fn default() -> (r: Player)
        ensures
            r@ == initial_player(),
    {
        let r = Player {
            tech: 1,
            arts: 1,
            bur: 1,
            und: 1,
            checkmate_mod: 0,
            rocketry_mod: 0,
            pathology_mod: 0,
            civic_engineering_mod: 0,
            apparatchik_mod: 0,
            quota_mod: 0,
            robot_mod: 0,
            dossier_mod: 0,
            delusion_mod: 0,
            arts2_mod: 0,
            arts3_mod: 0,
            arts4_mod: 0,
            gunsmoke_mod: 0,
            prohibition_mod: 0,
            gizmo_mod: 0,
            oldtime_religion_mod: 0,
            items: Vec::new(),
            xp: 0,
            skill_points: 0,
            dialogues_entered: Vec::new(),
            flags: Vec::new(),
        };
        proof {
            assert(r@.items =~= Seq::<Seq<char>>::empty());
            assert(r@.dialogues_entered =~= Set::<Seq<char>>::empty());
            assert(r@.flags =~= Set::<Seq<char>>::empty());
        }
        r
    }
}

impl Player {
    /// The derived value of one skill: governing attribute plus modifier.
    pub fn skill_value(&self, s: Skill) -> (r: i32)
        requires
            skill_fits(self@, s),
        ensures
            r as int == skill_value_spec(self@, s),
    {
        match s {
            Skill::Checkmate => self.tech + self.checkmate_mod,
            Skill::Rocketry => self.tech + self.rocketry_mod,
            Skill::Pathology => self.tech + self.pathology_mod,
            Skill::CivicEngineering => self.tech + self.civic_engineering_mod,
            Skill::Apparatchik => self.bur + self.apparatchik_mod,
            Skill::Quota => self.bur + self.quota_mod,
            Skill::Robot => self.bur + self.robot_mod,
            Skill::Dossier => self.bur + self.dossier_mod,
            Skill::Delusion => self.arts + self.delusion_mod,
            Skill::Arts2 => self.arts + self.arts2_mod,
            Skill::Arts3 => self.arts + self.arts3_mod,
            Skill::Arts4 => self.arts + self.arts4_mod,
            Skill::Gunsmoke => self.und + self.gunsmoke_mod,
            Skill::Prohibition => self.und + self.prohibition_mod,
            Skill::Gizmo => self.und + self.gizmo_mod,
            Skill::OldtimeReligion => self.und + self.oldtime_religion_mod,
        }
    }

    /// The skill a challenge-attribute name denotes, if any.
    pub fn skill_from_name(name: &str) -> (r: Option<Skill>)
        ensures
            r == skill_of_name(name@),
    {
        if str_eq(name, "checkmate") {
            Some(Skill::Checkmate)
        } else if str_eq(name, "rocketry") {
            Some(Skill::Rocketry)
        } else if str_eq(name, "pathology") {
            Some(Skill::Pathology)
        } else if str_eq(name, "civic engineering") {
            Some(Skill::CivicEngineering)
        } else if str_eq(name, "apparatchik") {
            Some(Skill::Apparatchik)
        } else if str_eq(name, "quota") {
            Some(Skill::Quota)
        } else if str_eq(name, "robot") {
            Some(Skill::Robot)
        } else if str_eq(name, "dossier") {
            Some(Skill::Dossier)
        } else if str_eq(name, "delusion") {
            Some(Skill::Delusion)
        } else if str_eq(name, "arts2") {
            Some(Skill::Arts2)
        } else if str_eq(name, "arts3") {
            Some(Skill::Arts3)
        } else if str_eq(name, "arts4") {
            Some(Skill::Arts4)
        } else if str_eq(name, "gunsmoke") {
            Some(Skill::Gunsmoke)
        } else if str_eq(name, "prohibition") {
            Some(Skill::Prohibition)
        } else if str_eq(name, "gizmo") {
            Some(Skill::Gizmo)
        } else if str_eq(name, "oldtime religion") {
            Some(Skill::OldtimeReligion)
        } else {
            None
        }
    }

    /// The value a challenge-attribute name resolves to; an unknown name
    /// resolves to 0.
    pub fn derived_skill(&self, name: &str) -> (r: i32)
        requires
            derived_by_name_fits(self@, name@),
        ensures
            r as int == derived_by_name_spec(self@, name@),
    {
        match Player::skill_from_name(name) {
            Some(s) => self.skill_value(s),
            None => 0,
        }
    }

    pub fn checkmate(&self) -> (r: i32)
        requires
            skill_fits(self@, Skill::Checkmate),
        ensures
            r as int == skill_value_spec(self@, Skill::Checkmate),
    {
        self.skill_value(Skill::Checkmate)
    }

    pub fn rocketry(&self) -> (r: i32)
        requires
            skill_fits(self@, Skill::Rocketry),
        ensures
            r as int == skill_value_spec(self@, Skill::Rocketry),
    {
        self.skill_value(Skill::Rocketry)
    }

    pub fn pathology(&self) -> (r: i32)
        requires
            skill_fits(self@, Skill::Pathology),
        ensures
            r as int == skill_value_spec(self@, Skill::Pathology),
    {
        self.skill_value(Skill::Pathology)
    }

    pub fn civic_engineering(&self) -> (r: i32)
        requires
            skill_fits(self@, Skill::CivicEngineering),
        ensures
            r as int == skill_value_spec(self@, Skill::CivicEngineering),
    {
        self.skill_value(Skill::CivicEngineering)
    }

    pub fn apparatchik(&self) -> (r: i32)
        requires
            skill_fits(self@, Skill::Apparatchik),
        ensures
            r as int == skill_value_spec(self@, Skill::Apparatchik),
    {
        self.skill_value(Skill::Apparatchik)
    }

    pub fn quota(&self) -> (r: i32)
        requires
            skill_fits(self@, Skill::Quota),
        ensures
            r as int == skill_value_spec(self@, Skill::Quota),
    {
        self.skill_value(Skill::Quota)
    }

    pub fn robot(&self) -> (r: i32)
        requires
            skill_fits(self@, Skill::Robot),
        ensures
            r as int == skill_value_spec(self@, Skill::Robot),
    {
        self.skill_value(Skill::Robot)
    }

    pub fn dossier(&self) -> (r: i32)
        requires
            skill_fits(self@, Skill::Dossier),
        ensures
            r as int == skill_value_spec(self@, Skill::Dossier),
    {
        self.skill_value(Skill::Dossier)
    }

    pub fn delusion(&self) -> (r: i32)
        requires
            skill_fits(self@, Skill::Delusion),
        ensures
            r as int == skill_value_spec(self@, Skill::Delusion),
    {
        self.skill_value(Skill::Delusion)
    }

    pub fn arts2(&self) -> (r: i32)
        requires
            skill_fits(self@, Skill::Arts2),
        ensures
            r as int == skill_value_spec(self@, Skill::Arts2),
    {
        self.skill_value(Skill::Arts2)
    }

    pub fn arts3(&self) -> (r: i32)
        requires
            skill_fits(self@, Skill::Arts3),
        ensures
            r as int == skill_value_spec(self@, Skill::Arts3),
    {
        self.skill_value(Skill::Arts3)
    }

    pub fn arts4(&self) -> (r: i32)
        requires
            skill_fits(self@, Skill::Arts4),
        ensures
            r as int == skill_value_spec(self@, Skill::Arts4),
    {
        self.skill_value(Skill::Arts4)
    }

    pub fn gunsmoke(&self) -> (r: i32)
        requires
            skill_fits(self@, Skill::Gunsmoke),
        ensures
            r as int == skill_value_spec(self@, Skill::Gunsmoke),
    {
        self.skill_value(Skill::Gunsmoke)
    }

    pub fn prohibition(&self) -> (r: i32)
        requires
            skill_fits(self@, Skill::Prohibition),
        ensures
            r as int == skill_value_spec(self@, Skill::Prohibition),
    {
        self.skill_value(Skill::Prohibition)
    }

    pub fn gizmo(&self) -> (r: i32)
        requires
            skill_fits(self@, Skill::Gizmo),
        ensures
            r as int == skill_value_spec(self@, Skill::Gizmo),
    {
        self.skill_value(Skill::Gizmo)
    }

    pub fn oldtime_religion(&self) -> (r: i32)
        requires
            skill_fits(self@, Skill::OldtimeReligion),
        ensures
            r as int == skill_value_spec(self@, Skill::OldtimeReligion),
    {
        self.skill_value(Skill::OldtimeReligion)
    }

    /// The sum of the four base attributes.
    pub fn total_points(&self) -> (r: i32)
        requires
            i32::MIN <= self@.tech + self@.arts + self@.bur + self@.und <= i32::MAX,
        ensures
            r as int == self@.tech + self@.arts + self@.bur + self@.und,
    {
        let sum: i64 = self.tech as i64 + self.arts as i64 + self.bur as i64 + self.und as i64;
        sum as i32
    }

    /// How many attribute points remain to allocate during character
    /// creation.
    pub fn remaining_points(&self) -> (r: i32)
        requires
            i32::MIN <= self@.tech + self@.arts + self@.bur + self@.und <= i32::MAX,
            i32::MIN <= POINT_BUDGET - (self@.tech + self@.arts + self@.bur + self@.und) <= i32::MAX,
        ensures
            r as int == POINT_BUDGET - (self@.tech + self@.arts + self@.bur + self@.und),
    {
        let sum: i64 = self.tech as i64 + self.arts as i64 + self.bur as i64 + self.und as i64;
        (POINT_BUDGET as i64 - sum) as i32
    }

    /// Whether the character is completely built: each base attribute in
    /// 1..=6 and the whole point budget spent.
    pub fn is_valid(&self) -> (r: bool)
        ensures
            r == player_built(self@),
    {
        self.tech >= 1 && self.arts >= 1 && self.bur >= 1 && self.und >= 1 && self.tech <= 6
            && self.arts <= 6 && self.bur <= 6 && self.und <= 6 && self.tech + self.arts + self.bur
            + self.und == POINT_BUDGET
    }

    /// Add earned XP; every full hundred converts into one skill point.
    pub fn add_xp(&mut self, amount: i32)
        requires
            0 <= amount,
            player_counts_ok(old(self)@),
            old(self)@.xp + amount <= i32::MAX,
            old(self)@.skill_points + (old(self)@.xp + amount) / (XP_PER_LEVEL as int) <= i32::MAX,
        ensures
            final(self)@ == (PlayerV {
                xp: (old(self)@.xp + amount) % (XP_PER_LEVEL as int),
                skill_points: old(self)@.skill_points + (old(self)@.xp + amount) / (
                XP_PER_LEVEL as int),
                ..old(self)@
            }),
            player_counts_ok(final(self)@),
    {
        let ghost total = old(self)@.xp + amount;
        let ghost sp0 = old(self)@.skill_points;
        self.xp = self.xp + amount;
        #[verifier::loop_isolation(false)]
        while self.xp >= XP_PER_LEVEL
            invariant
                0 <= self.xp,
                sp0 <= self.skill_points as int,
                self.xp + 100 * (self.skill_points - sp0) == total,
                self.skill_points - sp0 <= total / 100,
                self.tech == old(self).tech,
                self.arts == old(self).arts,
                self.bur == old(self).bur,
                self.und == old(self).und,
                self.checkmate_mod == old(self).checkmate_mod,
                self.rocketry_mod == old(self).rocketry_mod,
                self.pathology_mod == old(self).pathology_mod,
                self.civic_engineering_mod == old(self).civic_engineering_mod,
                self.apparatchik_mod == old(self).apparatchik_mod,
                self.quota_mod == old(self).quota_mod,
                self.robot_mod == old(self).robot_mod,
                self.dossier_mod == old(self).dossier_mod,
                self.delusion_mod == old(self).delusion_mod,
                self.arts2_mod == old(self).arts2_mod,
                self.arts3_mod == old(self).arts3_mod,
                self.arts4_mod == old(self).arts4_mod,
                self.gunsmoke_mod == old(self).gunsmoke_mod,
                self.prohibition_mod == old(self).prohibition_mod,
                self.gizmo_mod == old(self).gizmo_mod,
                self.oldtime_religion_mod == old(self).oldtime_religion_mod,
                self.items == old(self).items,
                self.dialogues_entered == old(self).dialogues_entered,
                self.flags == old(self).flags,
            decreases self.xp,
        {
            proof {
                let k = self.skill_points - sp0;
                assert(100 * (k + 1) <= total);
                assert(k + 1 <= total / 100) by (nonlinear_arith)
                    requires
                        100 * (k + 1) <= total,
                        0 <= total,
                ;
            }
            self.xp = self.xp - XP_PER_LEVEL;
            self.skill_points = self.skill_points + 1;
        }
        proof {
            let k = self.skill_points - sp0;
            assert(self.xp + 100 * k == total && 0 <= self.xp < 100);
            assert(k == total / 100 && self.xp == total % 100) by (nonlinear_arith)
                requires
                    self.xp + 100 * k == total,
                    0 <= self.xp < 100,
                    0 <= k,
            ;
        }
    }

    /// Append an item to the inventory (duplicates allowed).
    pub fn add_item(&mut self, item: String)
        ensures
            final(self)@ == (PlayerV { items: old(self)@.items.push(item@), ..old(self)@ }),
    {
        self.items.push(item);
        proof {
            assert(self.items.deep_view() =~= old(self).items.deep_view().push(item@));
        }
    }

    /// Whether a narrative flag is set.
    pub fn has_flag(&self, flag: &String) -> (r: bool)
        ensures
            r == self@.flags.contains(flag@),
    {
        contains_string(&self.flags, flag)
    }

    /// Set a narrative flag; setting it twice is the same as setting it
    /// once.
    pub fn set_flag(&mut self, flag: String)
        ensures
            final(self)@ == (PlayerV { flags: old(self)@.flags.insert(flag@), ..old(self)@ }),
    {
        let ghost fl = flag@;
        if !contains_string(&self.flags, &flag) {
            self.flags.push(flag);
            proof {
                assert(self.flags.deep_view() =~= old(self).flags.deep_view().push(fl));
                lemma_push_to_set(old(self).flags.deep_view(), fl);
                assert(self@ =~= (PlayerV { flags: old(self)@.flags.insert(fl), ..old(self)@ }));
            }
        } else {
            proof {
                assert(old(self)@.flags.insert(fl) =~= old(self)@.flags);
                assert(self@ =~= (PlayerV { flags: old(self)@.flags.insert(fl), ..old(self)@ }));
            }
        }
    }

    /// Whether a dialogue key has been entered before.
    pub fn has_entered(&self, key: &String) -> (r: bool)
        ensures
            r == self@.dialogues_entered.contains(key@),
    {
        contains_string(&self.dialogues_entered, key)
    }

    /// Record a dialogue key as entered.
    pub fn mark_entered(&mut self, key: String)
        ensures
            final(self)@ == (PlayerV {
                dialogues_entered: old(self)@.dialogues_entered.insert(key@),
                ..old(self)@
            }),
    {
        let ghost k = key@;
        if !contains_string(&self.dialogues_entered, &key) {
            self.dialogues_entered.push(key);
            proof {
                assert(self.dialogues_entered.deep_view() =~= old(
                    self,
                ).dialogues_entered.deep_view().push(k));
                lemma_push_to_set(old(self).dialogues_entered.deep_view(), k);
                assert(self@ =~= (PlayerV {
                    dialogues_entered: old(self)@.dialogues_entered.insert(k),
                    ..old(self)@
                }));
            }
        } else {
            proof {
                assert(old(self)@.dialogues_entered.insert(k) =~= old(self)@.dialogues_entered);
                assert(self@ =~= (PlayerV {
                    dialogues_entered: old(self)@.dialogues_entered.insert(k),
                    ..old(self)@
                }));
            }
        }
    }
}

/// Whether some element of `v` holds the same characters as `s`.
pub fn contains_string(v: &Vec<String>, s: &String) -> (r: bool)
    ensures
        r == v.deep_view().to_set().contains(s@),
{
    let mut i: usize = 0;
    while i < v.len()
        invariant
            0 <= i <= v@.len(),
            v.deep_view().len() == v@.len(),
            forall|j: int| 0 <= j < i ==> v.deep_view()[j] != s@,
        decreases v@.len() - i,
    {
        assert(v.deep_view()[i as int] == v@[i as int]@);
        if str_eq(v[i].as_str(), s.as_str()) {
            assert(v.deep_view().contains(s@));
            return true;
        }
        i = i + 1;
    }
    proof {
        assert(!v.deep_view().contains(s@));
    }
    false
}

/// Pushing one element onto a sequence adds exactly it to the sequence's
/// set of elements.
pub proof fn lemma_push_to_set<A>(s: Seq<A>, x: A)
    ensures
        s.push(x).to_set() == s.to_set().insert(x),
{
    assert forall|y: A| s.push(x).to_set().contains(y) implies s.to_set().insert(x).contains(
        y,
    ) by {
        let i = choose|i: int| 0 <= i < s.push(x).len() && s.push(x)[i] == y;
        if i < s.len() {
            assert(s[i] == y);
        }
    }
    assert forall|y: A| s.to_set().insert(x).contains(y) implies s.push(x).to_set().contains(
        y,
    ) by {
        if y == x {
            assert(s.push(x)[s.len() as int] == x);
        } else {
            let i = choose|i: int| 0 <= i < s.len() && s[i] == y;
            assert(s.push(x)[i] == y);
        }
    }
    assert(s.push(x).to_set() =~= s.to_set().insert(x));
}

} // verus!
