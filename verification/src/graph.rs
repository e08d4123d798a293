//! The dialogue graph: a mapping from string keys to dialogues with unique
//! keys and stable order, and the location/conversation containers.

use vstd::prelude::*;

verus! {

use crate::dialogue::{Dialogue, DialogueOption, DialogueV};
use crate::text::{str_eq, usize_dec_string};
use vstd::string::StringExecFns;

/// Whether an association sequence holds the key.
pub open spec fn assoc_has<T>(v: Seq<(Seq<char>, T)>, key: Seq<char>) -> bool {
    exists|i: int| 0 <= i < v.len() && v[i].0 == key
}

/// The first index at which an association sequence holds the key.
pub open spec fn assoc_index<T>(v: Seq<(Seq<char>, T)>, key: Seq<char>) -> int
    decreases v.len(),
{
    if v.len() == 0 {
        0
    } else if v[0].0 == key {
        0
    } else {
        1 + assoc_index(v.drop_first(), key)
    }
}

/// The value an association sequence holds under the key, if any.
pub open spec fn assoc_get<T>(v: Seq<(Seq<char>, T)>, key: Seq<char>) -> Option<T> {
    if assoc_has(v, key) {
        Some(v[assoc_index(v, key)].1)
    } else {
        None
    }
}

/// Insertion into an association sequence: replace in place when the key
/// is present, append when it is not.
pub open spec fn assoc_insert<T>(v: Seq<(Seq<char>, T)>, key: Seq<char>, val: T) -> Seq<
    (Seq<char>, T),
> {
    if assoc_has(v, key) {
        v.update(assoc_index(v, key), (key, val))
    } else {
        v.push((key, val))
    }
}

/// No two entries share a key.
pub open spec fn assoc_unique<T>(v: Seq<(Seq<char>, T)>) -> bool {
    forall|i: int, j: int| 0 <= i < j < v.len() ==> v[i].0 != v[j].0
}

/// The first matching index lies in bounds and matches the key, and no
/// earlier entry does.
pub proof fn lemma_assoc_index<T>(v: Seq<(Seq<char>, T)>, key: Seq<char>)
    requires
        assoc_has(v, key),
    ensures
        0 <= assoc_index(v, key) < v.len(),
        v[assoc_index(v, key)].0 == key,
        forall|j: int| 0 <= j < assoc_index(v, key) ==> v[j].0 != key,
    decreases v.len(),
{
    if v.len() == 0 {
    } else if v[0].0 == key {
    } else {
        let rest = v.drop_first();
        assert(assoc_has(rest, key)) by {
            let i = choose|i: int| 0 <= i < v.len() && v[i].0 == key;
            assert(rest[i - 1] == v[i]);
        }
        lemma_assoc_index(rest, key);
        assert forall|j: int| 0 <= j < assoc_index(v, key) implies v[j].0 != key by {
            if j > 0 {
                assert(rest[j - 1] == v[j]);
            }
        }
    }
}

/// The first index at which `key` appears in `v`, scanning left to right.
pub fn find_key<T: DeepView>(v: &Vec<(String, T)>, key: &String) -> (r: Option<usize>)
    ensures
        match r {
            Some(i) => {
                &&& assoc_has(v.deep_view(), key@)
                &&& i as int == assoc_index(v.deep_view(), key@)
            },
            None => !assoc_has(v.deep_view(), key@),
        },
{
    let ghost dv = v.deep_view();
    proof {
        assert(dv.len() == v@.len());
    }
    let mut i: usize = 0;
    #[verifier::loop_isolation(false)]
    while i < v.len()
        invariant
            0 <= i <= v@.len(),
            forall|j: int| 0 <= j < i ==> dv[j].0 != key@,
        decreases v@.len() - i,
    {
        proof {
            assert(dv[i as int] == (v@[i as int].0@, v@[i as int].1.deep_view()));
        }
        if str_eq(v[i].0.as_str(), key.as_str()) {
            proof {
                lemma_assoc_index(dv, key@);
                assert(i as int == assoc_index(dv, key@)) by {
                    assert(dv[i as int].0 == key@);
                    if assoc_index(dv, key@) < i as int {
                        assert(dv[assoc_index(dv, key@)].0 != key@);
                    }
                }
            }
            return Some(i);
        }
        i = i + 1;
    }
    None
}

/// Replace the value under `key`, or append the pair when the key is new;
/// uniqueness of keys is preserved.
pub fn insert_entry<T: DeepView>(v: &mut Vec<(String, T)>, key: String, val: T)
    ensures
        final(v).deep_view() == assoc_insert(old(v).deep_view(), key@, val.deep_view()),
        assoc_unique(old(v).deep_view()) ==> assoc_unique(final(v).deep_view()),
{
    let ghost olddv = v.deep_view();
    let ghost k = key@;
    let ghost dval = val.deep_view();
    match find_key(v, &key) {
        Some(i) => {
            proof {
                lemma_assoc_index(olddv, k);
            }
            v.set(i, (key, val));
            proof {
                assert(v.deep_view() =~= olddv.update(i as int, (k, dval)));
                assert(v.deep_view() == assoc_insert(olddv, k, dval));
                if assoc_unique(olddv) {
                    assert forall|a: int, b: int|
                        0 <= a < b < v.deep_view().len() implies v.deep_view()[a].0
                        != v.deep_view()[b].0 by {
                        assert(olddv[a].0 != olddv[b].0);
                    }
                }
            }
        },
        None => {
            v.push((key, val));
            proof {
                assert(v.deep_view() =~= olddv.push((k, dval)));
                if assoc_unique(olddv) {
                    assert forall|a: int, b: int|
                        0 <= a < b < v.deep_view().len() implies v.deep_view()[a].0
                        != v.deep_view()[b].0 by {
                        if b == olddv.len() as int {
                            assert(olddv[a].0 != k);
                        } else {
                            assert(olddv[a].0 != olddv[b].0);
                        }
                    }
                }
            }
        },
    }
}

/// The mapping from string keys to dialogues that forms the narrative
/// graph. Keys are unique; insertion order is kept for stable listing.
#[derive(Clone, Debug, PartialEq)]
pub struct DialogueMap {
    entries: Vec<(String, Dialogue)>,
}

impl View for DialogueMap {
    type V = Seq<(Seq<char>, DialogueV)>;

    closed spec fn view(&self) -> Seq<(Seq<char>, DialogueV)> {
        self.entries.deep_view()
    }
}

/// The well-formedness every `DialogueMap` operation preserves.
pub open spec fn map_wf(v: Seq<(Seq<char>, DialogueV)>) -> bool {
    assoc_unique(v)
}

/// Whether a graph entry shows up in player-visible listings.
pub open spec fn visible_pred() -> spec_fn((Seq<char>, DialogueV)) -> bool {
    |p: (Seq<char>, DialogueV)| !p.1.is_hidden
}

/// The key of a graph entry.
pub open spec fn key_of_entry() -> spec_fn((Seq<char>, DialogueV)) -> Seq<char> {
    |p: (Seq<char>, DialogueV)| p.0
}

/// The keys of the entries that are not hidden, in listing order.
pub open spec fn visible_keys_spec(v: Seq<(Seq<char>, DialogueV)>) -> Seq<Seq<char>> {
    v.filter(visible_pred()).map_values(key_of_entry())
}

impl DialogueMap {
    /// The empty graph.
    pub fn new() -> (r: DialogueMap)
        ensures
            r@ =~= Seq::<(Seq<char>, DialogueV)>::empty(),
            map_wf(r@),
    {
        let r = DialogueMap { entries: Vec::new() };
        proof {
            assert(r@ =~= Seq::<(Seq<char>, DialogueV)>::empty());
        }
        r
    }

    pub fn len(&self) -> (r: usize)
        ensures
            r as int == self@.len(),
    {
        proof {
            assert(self@.len() == self.entries@.len());
        }
        self.entries.len()
    }

    pub fn is_empty(&self) -> (r: bool)
        ensures
            r == (self@.len() == 0),
    {
        self.len() == 0
    }

    /// Store `dialogue` under `key`, replacing what the key held before.
    pub fn insert(&mut self, key: String, dialogue: Dialogue)
        ensures
            final(self)@ == assoc_insert(old(self)@, key@, dialogue@),
            map_wf(old(self)@) ==> map_wf(final(self)@),
    {
        insert_entry(&mut self.entries, key, dialogue);
    }

    /// Whether the graph holds a dialogue under `key`.
    pub fn contains_key(&self, key: &String) -> (r: bool)
        ensures
            r == assoc_has(self@, key@),
    {
        match find_key(&self.entries, key) {
            Some(_) => true,
            None => false,
        }
    }

    /// The dialogue stored under `key`, if any.
    pub fn get<'a>(&'a self, key: &String) -> (r: Option<&'a Dialogue>)
        ensures
            match r {
                Some(d) => assoc_get(self@, key@) == Some(d@),
                None => assoc_get(self@, key@) is None,
            },
    {
        match find_key(&self.entries, key) {
            Some(i) => {
                proof {
                    lemma_assoc_index(self@, key@);
                    assert(self@[i as int] == (self.entries@[i as int].0@, self.entries@[
                        i as int].1.deep_view()));
                }
                Some(&self.entries[i].1)
            },
            None => None,
        }
    }

    /// Remove and return the dialogue stored under `key`, if any.
    pub fn remove(&mut self, key: &String) -> (r: Option<Dialogue>)
        ensures
            match r {
                Some(d) => {
                    &&& assoc_get(old(self)@, key@) == Some(d@)
                    &&& final(self)@ == old(self)@.remove(assoc_index(old(self)@, key@))
                },
                None => {
                    &&& assoc_get(old(self)@, key@) is None
                    &&& final(self)@ == old(self)@
                },
            },
            map_wf(old(self)@) ==> map_wf(final(self)@),
    {
        let ghost olddv = self@;
        match find_key(&self.entries, key) {
            Some(i) => {
                proof {
                    lemma_assoc_index(olddv, key@);
                }
                let (_, d) = self.entries.remove(i);
                proof {
                    assert(self@ =~= olddv.remove(i as int));
                    assert(olddv[i as int] == (old(self).entries@[i as int].0@, old(
                        self,
                    ).entries@[i as int].1.deep_view()));
                    if map_wf(olddv) {
                        assert forall|a: int, b: int|
                            0 <= a < b < self@.len() implies self@[a].0 != self@[b].0 by {
                            let a0 = if a < i as int {
                                a
                            } else {
                                a + 1
                            };
                            let b0 = if b < i as int {
                                b
                            } else {
                                b + 1
                            };
                            assert(olddv[a0].0 != olddv[b0].0);
                        }
                    }
                }
                Some(d)
            },
            None => None,
        }
    }

    /// Move the dialogue stored under `old_id` to `new_id`: the entry
    /// leaves its old place and lands under the new key, replacing what
    /// that key held. With `old_id` absent nothing changes.
    pub fn rename(&mut self, old_id: &String, new_id: String) -> (r: bool)
        ensures
            match assoc_get(old(self)@, old_id@) {
                Some(d) => {
                    &&& r
                    &&& final(self)@ == assoc_insert(
                        old(self)@.remove(assoc_index(old(self)@, old_id@)),
                        new_id@,
                        d,
                    )
                },
                None => !r && final(self)@ == old(self)@,
            },
            map_wf(old(self)@) ==> map_wf(final(self)@),
    {
        match self.remove(old_id) {
            Some(d) => {
                self.insert(new_id, d);
                true
            },
            None => false,
        }
    }

    /// The key of the entry at position `i` in listing order.
    pub fn key_at<'a>(&'a self, i: usize) -> (r: &'a String)
        requires
            i < self@.len(),
        ensures
            r@ == self@[i as int].0,
    {
        proof {
            assert(self@[i as int] == (self.entries@[i as int].0@, self.entries@[
                i as int].1.deep_view()));
        }
        &self.entries[i].0
    }

    /// The dialogue of the entry at position `i` in listing order.
    pub fn dialogue_at<'a>(&'a self, i: usize) -> (r: &'a Dialogue)
        requires
            i < self@.len(),
        ensures
            r@ == self@[i as int].1,
    {
        proof {
            assert(self@[i as int] == (self.entries@[i as int].0@, self.entries@[
                i as int].1.deep_view()));
        }
        &self.entries[i].1
    }

    /// Take the entry at position `i` out of the map.
    pub fn take_at(&mut self, i: usize) -> (r: (String, Dialogue))
        requires
            i < old(self)@.len(),
        ensures
            (r.0@, r.1@) == old(self)@[i as int],
            final(self)@ == old(self)@.remove(i as int),
    {
        proof {
            assert(self@[i as int] == (self.entries@[i as int].0@, self.entries@[
                i as int].1.deep_view()));
        }
        let r = self.entries.remove(i);
        proof {
            assert(self@ =~= old(self)@.remove(i as int));
        }
        r
    }

    /// Put an entry back at position `i`.
    pub fn put_at(&mut self, i: usize, key: String, dialogue: Dialogue)
        requires
            i <= old(self)@.len(),
        ensures
            final(self)@ == old(self)@.insert(i as int, (key@, dialogue@)),
    {
        self.entries.insert(i, (key, dialogue));
        proof {
            assert(self@ =~= old(self)@.insert(i as int, (key@, dialogue@)));
        }
    }

    /// The view of a map held by executable code keeps every numeric
    /// field within the 32-bit range.
    pub proof fn view_bounded(&self)
        ensures
            graph_bounded(self@),
    {
        assert forall|k: int| 0 <= k < self@.len() implies crate::dialogue::dialogue_bounded(
            #[trigger] self@[k].1,
        ) by {
            assert(self@[k] == (self.entries@[k].0@, self.entries@[k].1@));
            let d = self.entries@[k].1;
            assert forall|j: int| 0 <= j < d@.options.len() implies crate::dialogue::option_bounded(
                #[trigger] d@.options[j],
            ) by {
                assert(d@.options[j] == d.options@[j]@);
            }
            assert forall|j: int|
                0 <= j < d@.passive_check.len() implies crate::dialogue::check_bounded(
                #[trigger] d@.passive_check[j],
            ) by {
                assert(d@.passive_check[j] == d.passive_check@[j]@);
            }
        }
    }

    /// The keys of the dialogues a player may see listed: the hidden ones
    /// are excluded.
    pub fn visible_keys(&self) -> (r: Vec<String>)
        ensures
            r.deep_view() == visible_keys_spec(self@),
    {
        let ghost pred = visible_pred();
        let ghost f = key_of_entry();
        let mut r: Vec<String> = Vec::new();
        let mut i: usize = 0;
        #[verifier::loop_isolation(false)]
        while i < self.entries.len()
            invariant
                0 <= i <= self@.len(),
                self@.len() == self.entries@.len(),
                r.deep_view() == self@.take(i as int).filter(pred).map_values(f),
            decreases self@.len() - i,
        {
            let ghost pre = self@.take(i as int);
            let ghost cur = self@[i as int];
            let ghost rdv = r.deep_view();
            proof {
                assert(cur == (self.entries@[i as int].0@, self.entries@[i as int].1.deep_view()));
                assert(self@.take(i as int + 1).drop_last() =~= pre);
                assert(self@.take(i as int + 1).last() == cur);
                reveal(Seq::filter);
            }
            if !self.entries[i].1.is_hidden {
                r.push(self.entries[i].0.clone());
                proof {
                    assert(pred(cur));
                    assert(self@.take(i as int + 1).filter(pred) == pre.filter(pred).push(cur));
                    assert(r.deep_view() =~= rdv.push(cur.0));
                    assert(pre.filter(pred).push(cur).map_values(f) =~= pre.filter(
                        pred,
                    ).map_values(f).push(f(cur)));
                    assert(r.deep_view() == self@.take(i as int + 1).filter(pred).map_values(f));
                }
            } else {
                proof {
                    assert(!pred(cur));
                    assert(self@.take(i as int + 1).filter(pred) == pre.filter(pred));
                    assert(r.deep_view() == self@.take(i as int + 1).filter(pred).map_values(f));
                }
            }
            i = i + 1;
        }
        proof {
            assert(self@.take(self@.len() as int) =~= self@);
        }
        r
    }
}

/// Every numeric field anywhere in the graph fits a 32-bit machine
/// integer, as it does in every graph held by executable code.
pub open spec fn graph_bounded(v: Seq<(Seq<char>, DialogueV)>) -> bool {
    forall|k: int| 0 <= k < v.len() ==> crate::dialogue::dialogue_bounded(#[trigger] v[k].1)
}

/// What `create_dialogue` stores: placeholder text, no options yet.
pub open spec fn fresh_dialogue_view() -> DialogueV {
    DialogueV {
        speaker: "New Speaker"@,
        intro: "New Intro Text"@,
        options: Seq::empty(),
        passive_check: Seq::empty(),
        xp_reward: None,
        is_hidden: false,
        time: None,
    }
}

/// Add a new placeholder dialogue to the graph under a generated key
/// `Dialogue_<n>`, where `n` is one more than the current entry count,
/// and return the key.
pub fn create_dialogue(dialogues: &mut DialogueMap) -> (r: String)
    requires
        old(dialogues)@.len() + 1 <= usize::MAX,
    ensures
        r@ == "Dialogue_"@ + crate::text::dec_chars((old(dialogues)@.len() + 1) as nat),
        final(dialogues)@ == assoc_insert(old(dialogues)@, r@, fresh_dialogue_view()),
        map_wf(old(dialogues)@) ==> map_wf(final(dialogues)@),
{
    let n = dialogues.len() + 1;
    let num = usize_dec_string(n);
    let id = String::from_str("Dialogue_").concat(num.as_str());
    let d = Dialogue {
        speaker: "New Speaker".to_owned(),
        intro: "New Intro Text".to_owned(),
        options: Vec::new(),
        passive_check: Vec::new(),
        xp_reward: None,
        is_hidden: false,
        time: None,
    };
    proof {
        assert(d@.options =~= Seq::<crate::dialogue::OptionV>::empty());
        assert(d@.passive_check =~= Seq::<crate::dialogue::CheckV>::empty());
        assert(d@ =~= fresh_dialogue_view());
    }
    let id_copy = clone_string(&id);
    dialogues.insert(id, d);
    id_copy
}

/// A copy of a string with the same characters.
pub fn clone_string(s: &String) -> (r: String)
    ensures
        r@ == s@,
{
    s.clone()
}

/// One unconditional option: a label and the key it leads to.
pub open spec fn simple_option_view(desc: Seq<char>, target: Seq<char>) -> crate::dialogue::OptionV {
    crate::dialogue::OptionV {
        description: desc,
        success_dialogue: Some(target),
        ..crate::dialogue::default_option_view()
    }
}

/// The opening dialogue of the vestibule: a narrator intro with three
/// unconditional exits.
pub open spec fn vestibule_start_view() -> DialogueV {
    DialogueV {
        speaker: Seq::empty(),
        intro: "The front door swings shut, cutting off the bitter wind like a scythe. You stand in the harsh light of a public apartment vestibule. A grid of mailboxes wait, closed, and a grandfather clock stands stout against the wall, like an elderly servant whose crooked back can't quite stand up to attention."@,
        options: seq![
            simple_option_view("Inspect the grandfather clock."@, "InspectClock"@),
            simple_option_view("Look in the mailboxes."@, "VestibuleMailboxes"@),
            simple_option_view("Go to the first floor."@, "FirstFloor"@),
        ],
        passive_check: Seq::empty(),
        xp_reward: None,
        is_hidden: false,
        time: Some(1),
    }
}

/// The starting world: one location holding the vestibule's opening
/// dialogue under the root key.
pub open spec fn starting_locations_view() -> Seq<(Seq<char>, LocationV)> {
    seq![
        (
            "Vestibule"@,
            LocationV {
                name: "Vestibule"@,
                dialogues: seq![("Start"@, vestibule_start_view())],
                conversations: Seq::empty(),
                exits: Seq::empty(),
            },
        ),
    ]
}

/// Build the starting world: the vestibule with its opening dialogue.
pub fn create_locations() -> (r: Vec<(String, Location)>)
    ensures
        r.deep_view() == starting_locations_view(),
{
    let mut options: Vec<DialogueOption> = Vec::new();
    options.push(
        DialogueOption {
            description: "Inspect the grandfather clock.".to_owned(),
            success_dialogue: Some("InspectClock".to_owned()),
            ..DialogueOption::default()
        },
    );
    options.push(
        DialogueOption {
            description: "Look in the mailboxes.".to_owned(),
            success_dialogue: Some("VestibuleMailboxes".to_owned()),
            ..DialogueOption::default()
        },
    );
    options.push(
        DialogueOption {
            description: "Go to the first floor.".to_owned(),
            success_dialogue: Some("FirstFloor".to_owned()),
            ..DialogueOption::default()
        },
    );
    let start = Dialogue {
        speaker: String::new(),
        intro: "The front door swings shut, cutting off the bitter wind like a scythe. You stand in the harsh light of a public apartment vestibule. A grid of mailboxes wait, closed, and a grandfather clock stands stout against the wall, like an elderly servant whose crooked back can't quite stand up to attention.".to_owned(),
        options,
        passive_check: Vec::new(),
        xp_reward: None,
        is_hidden: false,
        time: Some(1),
    };
    proof {
        assert(start@.speaker =~= Seq::<char>::empty());
        assert(start@.passive_check =~= Seq::<crate::dialogue::CheckV>::empty());
        assert(start@.options =~= vestibule_start_view().options);
        assert(start@ =~= vestibule_start_view());
    }
    let mut vestibule = Location::new("Vestibule".to_owned());
    vestibule.add_dialogue("Start".to_owned(), start);
    proof {
        assert(vestibule@.dialogues =~= seq![("Start"@, vestibule_start_view())]);
    }
    let mut locations: Vec<(String, Location)> = Vec::new();
    let ghost v0 = vestibule@;
    insert_entry(&mut locations, "Vestibule".to_owned(), vestibule);
    proof {
        assert(locations.deep_view() =~= starting_locations_view());
    }
    locations
}

/// A group of dialogues under one topic.
#[derive(Clone, Debug, PartialEq)]
pub struct Conversation {
    pub name: String,
    pub dialogues: DialogueMap,
}

/// A `Conversation` as mathematical values.
#[verifier::ext_equal]
pub ghost struct ConversationV {
    pub name: Seq<char>,
    pub dialogues: Seq<(Seq<char>, DialogueV)>,
}

impl View for Conversation {
    type V = ConversationV;

    open spec fn view(&self) -> ConversationV {
        ConversationV { name: self.name@, dialogues: self.dialogues@ }
    }
}

impl DeepView for Conversation {
    type V = ConversationV;

    open spec fn deep_view(&self) -> ConversationV {
        self.view()
    }
}

impl Conversation {
    pub fn new(name: String) -> (r: Conversation)
        ensures
            r@.name == name@,
            r@.dialogues =~= Seq::<(Seq<char>, DialogueV)>::empty(),
    {
        Conversation { name, dialogues: DialogueMap::new() }
    }

    pub fn add_dialogue(&mut self, id: String, dialogue: Dialogue)
        ensures
            final(self)@.name == old(self)@.name,
            final(self)@.dialogues == assoc_insert(old(self)@.dialogues, id@, dialogue@),
    {
        self.dialogues.insert(id, dialogue);
    }
}

/// A place in the game world: its dialogues, its conversations and the
/// names of the locations it connects to.
#[derive(Clone, Debug, PartialEq)]
pub struct Location {
    pub name: String,
    pub dialogues: DialogueMap,
    pub conversations: Vec<(String, Conversation)>,
    pub exits: Vec<String>,
}

/// A `Location` as mathematical values.
#[verifier::ext_equal]
pub ghost struct LocationV {
    pub name: Seq<char>,
    pub dialogues: Seq<(Seq<char>, DialogueV)>,
    pub conversations: Seq<(Seq<char>, ConversationV)>,
    pub exits: Seq<Seq<char>>,
}

impl View for Location {
    type V = LocationV;

    open spec fn view(&self) -> LocationV {
        LocationV {
            name: self.name@,
            dialogues: self.dialogues@,
            conversations: self.conversations.deep_view(),
            exits: self.exits.deep_view(),
        }
    }
}

impl DeepView for Location {
    type V = LocationV;

    open spec fn deep_view(&self) -> LocationV {
        self.view()
    }
}

impl Location {
    pub fn new(name: String) -> (r: Location)
        ensures
            r@.name == name@,
            r@.dialogues =~= Seq::<(Seq<char>, DialogueV)>::empty(),
            r@.conversations =~= Seq::<(Seq<char>, ConversationV)>::empty(),
            r@.exits =~= Seq::<Seq<char>>::empty(),
    {
        let r = Location {
            name,
            dialogues: DialogueMap::new(),
            conversations: Vec::new(),
            exits: Vec::new(),
        };
        proof {
            assert(r@.conversations =~= Seq::<(Seq<char>, ConversationV)>::empty());
            assert(r@.exits =~= Seq::<Seq<char>>::empty());
        }
        r
    }

    pub fn add_dialogue(&mut self, id: String, dialogue: Dialogue)
        ensures
            final(self)@ == (LocationV {
                dialogues: assoc_insert(old(self)@.dialogues, id@, dialogue@),
                ..old(self)@
            }),
    {
        self.dialogues.insert(id, dialogue);
        proof {
            assert(self@ =~= (LocationV {
                dialogues: assoc_insert(old(self)@.dialogues, id@, dialogue@),
                ..old(self)@
            }));
        }
    }

    pub fn add_conversation(&mut self, id: String, conversation: Conversation)
        ensures
            final(self)@ == (LocationV {
                conversations: assoc_insert(old(self)@.conversations, id@, conversation@),
                ..old(self)@
            }),
    {
        insert_entry(&mut self.conversations, id, conversation);
        proof {
            assert(self@ =~= (LocationV {
                conversations: assoc_insert(old(self)@.conversations, id@, conversation@),
                ..old(self)@
            }));
        }
    }

    pub fn add_exit(&mut self, exit: String)
        ensures
            final(self)@ == (LocationV { exits: old(self)@.exits.push(exit@), ..old(self)@ }),
    {
        self.exits.push(exit);
        proof {
            assert(self.exits.deep_view() =~= old(self).exits.deep_view().push(exit@));
            assert(self@ =~= (LocationV {
                exits: old(self)@.exits.push(exit@),
                ..old(self)@
            }));
        }
    }
}

} // verus!
