//! The defaulting pass that repairs a loaded graph: empty texts fall back
//! to fixed defaults, an empty option list becomes a single "Continue"
//! option, and invalid passive checks are dropped.

use vstd::prelude::*;

verus! {

use crate::dialogue::{
    check_valid,
    default_dialogue_view,
    default_option_view,
    CheckV,
    Dialogue,
    DialogueOption,
    DialogueV,
    OptionV,
    PassiveCheck,
};
use crate::graph::DialogueMap;

/// The validity test for passive checks, as a function value.
pub open spec fn check_valid_pred() -> spec_fn(CheckV) -> bool {
    |c: CheckV| check_valid(c)
}

/// What the defaulting pass does to one option: an empty description
/// becomes "Continue" and an absent success target becomes the root key.
pub open spec fn validate_option_spec(o: OptionV) -> OptionV {
    OptionV {
        description: if o.description.len() == 0 {
            default_option_view().description
        } else {
            o.description
        },
        success_dialogue: if o.success_dialogue is None {
            default_option_view().success_dialogue
        } else {
            o.success_dialogue
        },
        ..o
    }
}

/// The option repair as a function value, for mapping over sequences.
pub open spec fn validate_option_fn() -> spec_fn(OptionV) -> OptionV {
    |o: OptionV| validate_option_spec(o)
}

/// What the defaulting pass does to one dialogue: empty speaker and intro
/// fall back to the fallback dialogue's texts, an empty option list
/// becomes the single default option, every present option is repaired,
/// and invalid passive checks are removed.
pub open spec fn validate_dialogue_spec(d: DialogueV) -> DialogueV {
    DialogueV {
        speaker: if d.speaker.len() == 0 {
            default_dialogue_view().speaker
        } else {
            d.speaker
        },
        intro: if d.intro.len() == 0 {
            default_dialogue_view().intro
        } else {
            d.intro
        },
        options: if d.options.len() == 0 {
            seq![default_option_view()]
        } else {
            d.options.map_values(validate_option_fn())
        },
        passive_check: d.passive_check.filter(check_valid_pred()),
        ..d
    }
}

/// The dialogue repair applied to one graph entry.
pub open spec fn validate_entry_fn() -> spec_fn((Seq<char>, DialogueV)) -> (Seq<char>, DialogueV) {
    |p: (Seq<char>, DialogueV)| (p.0, validate_dialogue_spec(p.1))
}

/// The defaulting pass over a whole graph: every dialogue is repaired,
/// keys and order stay as they are.
pub open spec fn validate_graph_spec(v: Seq<(Seq<char>, DialogueV)>) -> Seq<
    (Seq<char>, DialogueV),
> {
    v.map_values(validate_entry_fn())
}

/// Whether a passive check passes its validity rule: non-empty skill,
/// positive target, and a speaker present.
pub fn passive_check_is_valid(c: &PassiveCheck) -> (r: bool)
    ensures
        r == check_valid(c@),
{
    !c.skill.as_str().is_empty() && c.target > 0 && c.speaker.is_some()
}

/// Repair one dialogue in place, exactly as the defaulting pass says.
pub fn validate_dialogue(d: &mut Dialogue)
    ensures
        final(d)@ == validate_dialogue_spec(old(d)@),
{
    let ghost dv0 = old(d)@;
    let ghost target = validate_dialogue_spec(dv0);
    if d.speaker.as_str().is_empty() {
        d.speaker = "Error".to_owned();
    }
    if d.intro.as_str().is_empty() {
        d.intro = "No dialogue available.".to_owned();
    }
    proof {
        assert(d@.speaker == target.speaker);
        assert(d@.intro == target.intro);
    }
    if d.options.len() == 0 {
        d.options.push(DialogueOption::default());
        proof {
            assert(d.options.deep_view() =~= seq![default_option_view()]);
        }
    } else {
        let ghost opts0 = old(d).options.deep_view();
        let mut i: usize = 0;
        #[verifier::loop_isolation(false)]
        while i < d.options.len()
            invariant
                0 <= i <= opts0.len(),
                d.options@.len() == opts0.len(),
                d@.speaker == target.speaker,
                d@.intro == target.intro,
                d@.passive_check == dv0.passive_check,
                d@.xp_reward == dv0.xp_reward,
                d@.is_hidden == dv0.is_hidden,
                d@.time == dv0.time,
                forall|j: int|
                    0 <= j < i ==> d.options.deep_view()[j] == validate_option_fn()(opts0[j]),
                forall|j: int| i <= j < opts0.len() ==> d.options.deep_view()[j] == opts0[j],
            decreases opts0.len() - i,
        {
            let ghost before = d.options.deep_view();
            let mut o = d.options.remove(i);
            proof {
                assert(o@ == before[i as int]);
            }
            if o.description.as_str().is_empty() {
                o.description = "Continue".to_owned();
            }
            if o.success_dialogue.is_none() {
                o.success_dialogue = Some("Start".to_owned());
            }
            proof {
                assert(o@ =~= validate_option_spec(opts0[i as int]));
            }
            d.options.insert(i, o);
            proof {
                assert(d.options.deep_view() =~= before.update(i as int, o@));
            }
            i = i + 1;
        }
        proof {
            assert(d.options.deep_view() =~= opts0.map_values(validate_option_fn()));
        }
    }
    proof {
        assert(d@.options == target.options);
        assert(d@.passive_check == dv0.passive_check);
    }
    let ghost checks0 = d.passive_check.deep_view();
    let ghost pred = check_valid_pred();
    let mut kept: Vec<PassiveCheck> = Vec::new();
    #[verifier::loop_isolation(false)]
    while d.passive_check.len() > 0
        invariant
            0 <= checks0.len() - d.passive_check@.len() <= checks0.len(),
            d@.speaker == target.speaker,
            d@.intro == target.intro,
            d@.options == target.options,
            d@.xp_reward == dv0.xp_reward,
            d@.is_hidden == dv0.is_hidden,
            d@.time == dv0.time,
            d.passive_check.deep_view() =~= checks0.skip(checks0.len() - d.passive_check@.len()),
            kept.deep_view() =~= checks0.take(checks0.len() - d.passive_check@.len()).filter(pred),
        decreases d.passive_check@.len(),
    {
        let ghost k = checks0.len() - d.passive_check@.len();
        let ghost pre = d.passive_check.deep_view();
        let ghost prev = d.passive_check@;
        let c = d.passive_check.remove(0);
        proof {
            assert(pre[0] == prev[0].deep_view());
            assert(c@ == checks0[k]);
            assert forall|j: int| 0 <= j < d.passive_check@.len() implies d.passive_check.deep_view()[j]
                == checks0[k + 1 + j] by {
                assert(d.passive_check.deep_view()[j] == d.passive_check@[j].deep_view());
                assert(d.passive_check@[j] == prev[j + 1]);
                assert(pre[j + 1] == prev[j + 1].deep_view());
                assert(pre[j + 1] == checks0.skip(k)[j + 1]);
            }
            assert(d.passive_check.deep_view() =~= checks0.skip(k + 1));
            assert(checks0.take(k + 1).drop_last() =~= checks0.take(k));
            assert(checks0.take(k + 1).last() == checks0[k]);
            reveal(Seq::filter);
        }
        if passive_check_is_valid(&c) {
            kept.push(c);
            proof {
                assert(kept.deep_view() =~= checks0.take(k).filter(pred).push(checks0[k]));
                assert(checks0.take(k + 1).filter(pred) == checks0.take(k).filter(pred).push(
                    checks0[k],
                ));
            }
        } else {
            proof {
                assert(checks0.take(k + 1).filter(pred) == checks0.take(k).filter(pred));
            }
        }
    }
    proof {
        assert(checks0.take(checks0.len() as int) =~= checks0);
    }
    d.passive_check = kept;
    proof {
        assert(d@ =~= validate_dialogue_spec(dv0));
    }
}

/// Repair every dialogue of a graph in place; keys and order stay.
pub fn validate_graph(map: &mut DialogueMap)
    ensures
        final(map)@ == validate_graph_spec(old(map)@),
        crate::graph::map_wf(old(map)@) ==> crate::graph::map_wf(final(map)@),
{
    let ghost g0 = old(map)@;
    let mut i: usize = 0;
    #[verifier::loop_isolation(false)]
    while i < map.len()
        invariant
            0 <= i <= g0.len(),
            map@.len() == g0.len(),
            forall|j: int| 0 <= j < i ==> map@[j] == validate_entry_fn()(g0[j]),
            forall|j: int| i <= j < g0.len() ==> map@[j] == g0[j],
        decreases g0.len() - i,
    {
        let ghost before = map@;
        let (key, mut d) = map.take_at(i);
        validate_dialogue(&mut d);
        map.put_at(i, key, d);
        proof {
            assert(map@ =~= before.update(i as int, (key@, validate_dialogue_spec(before[
                i as int].1))));
        }
        i = i + 1;
    }
    proof {
        assert(map@ =~= validate_graph_spec(g0));
        if crate::graph::map_wf(g0) {
            assert forall|a: int, b: int| 0 <= a < b < map@.len() implies map@[a].0
                != map@[b].0 by {
                assert(g0[a].0 != g0[b].0);
            }
        }
    }
}

/// Running the defaulting pass twice on an option is the same as running
/// it once.
pub proof fn lemma_validate_option_idempotent(o: OptionV)
    ensures
        validate_option_spec(validate_option_spec(o)) == validate_option_spec(o),
{
    reveal_strlit("Continue");
}

/// Running the defaulting pass twice on one dialogue is the same as
/// running it once.
pub proof fn lemma_validate_dialogue_idempotent(d: DialogueV)
    ensures
        validate_dialogue_spec(validate_dialogue_spec(d)) == validate_dialogue_spec(d),
{
    reveal_strlit("Error");
    reveal_strlit("No dialogue available.");
    reveal_strlit("Continue");
    let d1 = validate_dialogue_spec(d);
    let d2 = validate_dialogue_spec(d1);
    assert(d1.speaker.len() > 0);
    assert(d1.intro.len() > 0);
    lemma_filter_idempotent(d.passive_check, check_valid_pred());
    if d.options.len() == 0 {
        assert(d1.options == seq![default_option_view()]);
        assert(d1.options.len() == 1);
        assert(d2.options =~= d1.options.map_values(validate_option_fn()));
        assert(validate_option_fn()(default_option_view()) == default_option_view());
        assert(d2.options =~= d1.options);
    } else {
        assert(d1.options == d.options.map_values(validate_option_fn()));
        assert(d1.options.len() == d.options.len() > 0);
        assert forall|j: int| 0 <= j < d1.options.len() implies d1.options.map_values(
            validate_option_fn(),
        )[j] == d1.options[j] by {
            lemma_validate_option_idempotent(d.options[j]);
        }
        assert(d2.options =~= d1.options);
    }
    assert(d2 =~= d1);
}

/// Running the defaulting pass twice on a whole graph is the same as
/// running it once.
pub proof fn lemma_validate_graph_idempotent(v: Seq<(Seq<char>, DialogueV)>)
    ensures
        validate_graph_spec(validate_graph_spec(v)) == validate_graph_spec(v),
{
    let v1 = validate_graph_spec(v);
    let v2 = validate_graph_spec(v1);
    assert forall|j: int| 0 <= j < v2.len() implies v2[j] == v1[j] by {
        lemma_validate_dialogue_idempotent(v[j].1);
    }
    assert(v2 =~= v1);
}

/// The fallback dialogue already satisfies the defaulting pass: running
/// it changes nothing.
pub proof fn lemma_default_dialogue_validated()
    ensures
        validate_dialogue_spec(default_dialogue_view()) == default_dialogue_view(),
{
    reveal_strlit("Error");
    reveal_strlit("No dialogue available.");
    reveal_strlit("Continue");
    let d = default_dialogue_view();
    let d1 = validate_dialogue_spec(d);
    assert(d.options.len() == 1);
    assert(d1.options == d.options.map_values(validate_option_fn()));
    assert(validate_option_fn()(default_option_view()) == default_option_view());
    assert(d1.options =~= d.options);
    reveal(Seq::filter);
    assert(d.passive_check.filter(check_valid_pred()) =~= Seq::<CheckV>::empty());
    assert(d1 =~= d);
}

/// Filtering a sequence twice with one predicate is the same as filtering
/// it once.
pub proof fn lemma_filter_idempotent<A>(s: Seq<A>, p: spec_fn(A) -> bool)
    ensures
        s.filter(p).filter(p) == s.filter(p),
    decreases s.len(),
{
    reveal(Seq::filter);
    if s.len() == 0 {
        assert(s.filter(p) =~= Seq::<A>::empty());
        assert(s.filter(p).filter(p) =~= Seq::<A>::empty());
    } else {
        let rest = s.drop_last();
        lemma_filter_idempotent(rest, p);
        if p(s.last()) {
            assert(s.filter(p) == rest.filter(p).push(s.last()));
            assert(rest.filter(p).push(s.last()).drop_last() =~= rest.filter(p));
            assert(s.filter(p).filter(p) == rest.filter(p).filter(p).push(s.last()));
        } else {
            assert(s.filter(p) == rest.filter(p));
        }
    }
}

/// After validation every remaining passive check satisfies the validity
/// rule; every valid check of the input is kept; and nothing invalid is
/// ever found among the survivors.
pub proof fn lemma_passive_filter(d: DialogueV)
    ensures
        forall|i: int|
            0 <= i < validate_dialogue_spec(d).passive_check.len() ==> check_valid(
                #[trigger] validate_dialogue_spec(d).passive_check[i],
            ),
        forall|c: CheckV|
            d.passive_check.contains(c) && check_valid(c) ==> validate_dialogue_spec(
                d,
            ).passive_check.contains(c),
        forall|c: CheckV|
            !check_valid(c) ==> !validate_dialogue_spec(d).passive_check.contains(c),
{
    let kept = validate_dialogue_spec(d).passive_check;
    let pred = check_valid_pred();
    assert(kept == d.passive_check.filter(pred));
    assert forall|i: int| 0 <= i < kept.len() implies check_valid(#[trigger] kept[i]) by {
        d.passive_check.lemma_filter_pred(pred, i);
    }
    assert forall|c: CheckV| d.passive_check.contains(c) && check_valid(c) implies kept.contains(
        c,
    ) by {
        let i = choose|i: int| 0 <= i < d.passive_check.len() && d.passive_check[i] == c;
        d.passive_check.lemma_filter_contains(pred, i);
    }
    assert forall|c: CheckV| !check_valid(c) implies !kept.contains(c) by {
        if kept.contains(c) {
            let i = choose|i: int| 0 <= i < kept.len() && kept[i] == c;
            d.passive_check.lemma_filter_pred(pred, i);
        }
    }
}

} // verus!
