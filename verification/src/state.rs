//! Answering a `DialogueStateChanged`: the state a character moves to.
use vstd::prelude::*;
use indexmap::IndexMap;

use crate::model::{Dialogue, DialogueAsset, DialogueComponent};
use crate::outside::{class_map, classes_get, state_entries, states_first, states_keys};

verus! {

/// The states of `class` in the first asset, in order, that has the class.
pub open spec fn class_states<'a>(assets: Seq<&'a DialogueAsset>, class: u64) -> Option<IndexMap<u64, Vec<Dialogue>>>
    decreases assets.len(),
{
    if assets.len() == 0 {
        None
    } else if class_map(assets[0].dialogues).contains_key(class) {
        Some(class_map(assets[0].dialogues)[class])
    } else {
        class_states(assets.drop_first(), class)
    }
}

/// The state ids of a class, in the asset's order.
pub open spec fn state_ids(states: IndexMap<u64, Vec<Dialogue>>) -> Seq<u64> {
    state_entries(states).map_values(|e: (u64, Vec<Dialogue>)| e.0)
}

/// Position `i` is where `x` first occurs in `keys`.
pub open spec fn is_first_pos(keys: Seq<u64>, i: int, x: u64) -> bool {
    &&& 0 <= i < keys.len()
    &&& keys[i] == x
    &&& forall|j: int| 0 <= j < i ==> #[trigger] keys[j] != x
}

/// The state after `current` among `keys`: the next one in order; `current`
/// itself when it is the last; the first one when `current` is not among them.
pub open spec fn following_state(keys: Seq<u64>, current: u64) -> u64 {
    if exists|i: int| is_first_pos(keys, i, current) {
        let i = choose|i: int| is_first_pos(keys, i, current);
        if i + 1 < keys.len() {
            keys[i + 1]
        } else {
            current
        }
    } else if keys.len() > 0 {
        keys[0]
    } else {
        current
    }
}

/// The state a character in `current` moves to among `keys`: `requested` if
/// it is one of them (else no change), or the following state without it.
pub open spec fn next_state(keys: Seq<u64>, current: u64, requested: Option<u64>) -> u64 {
    match requested {
        Some(s) => if keys.contains(s) { s } else { current },
        None => following_state(keys, current),
    }
}

/// The state a character of class `class` in state `current` moves to, as
/// the loaded `assets` say: no change when none of them has the class.
pub open spec fn changed_state<'a>(assets: Seq<&'a DialogueAsset>, class: u64, current: u64, requested: Option<u64>) -> u64 {
    match class_states(assets, class) {
        Some(states) => next_state(state_ids(states), current, requested),
        None => current,
    }
}

/// The states of `class` in the first asset that has it.
fn find_class_states<'a>(assets: &Vec<&'a DialogueAsset>, class: u64) -> (r: Option<&'a IndexMap<u64, Vec<Dialogue>>>)
    ensures
        match r {
            Some(m) => class_states(assets@, class) == Some(*m),
            None => class_states(assets@, class) is None,
        },
{
    let n = assets.len();
    let mut i: usize = 0;
    proof {
        assert(assets@.skip(0) =~= assets@);
    }
    while i < n
        invariant
            n == assets@.len(),
            i <= n,
            class_states(assets@, class) == class_states(assets@.skip(i as int), class),
        decreases n - i,
    {
        proof {
            assert(assets@.skip(i as int)[0] == assets@[i as int]);
            assert(assets@.skip(i as int).drop_first() =~= assets@.skip(i + 1));
        }
        let asset: &'a DialogueAsset = assets[i];
        match classes_get(&asset.dialogues, class) {
            Some(states) => {
                return Some(states);
            },
            None => {},
        }
        i = i + 1;
    }
    None
}

/// The state after `current` among `keys`.
fn step_state(keys: &Vec<u64>, first: Option<u64>, current: u64) -> (r: u64)
    requires
        first is Some <==> keys@.len() > 0,
        first matches Some(k) ==> k == keys@[0],
    ensures
        r == following_state(keys@, current),
{
    let n = keys.len();
    let mut i: usize = 0;
    let mut found = false;
    while i < n
        invariant_except_break
            n == keys@.len(),
            i <= n,
            !found,
            forall|j: int| 0 <= j < i ==> #[trigger] keys@[j] != current,
        ensures
            n == keys@.len(),
            found ==> (i < n && is_first_pos(keys@, i as int, current)),
            !found ==> forall|j: int| 0 <= j < n ==> #[trigger] keys@[j] != current,
        decreases n - i,
    {
        if keys[i] == current {
            found = true;
            break;
        }
        i = i + 1;
    }
    if found {
        proof {
            let k = choose|k: int| is_first_pos(keys@, k, current);
            if k < i {
                assert(keys@[k] == current);
            } else if k > i {
                assert(keys@[i as int] == current);
            }
        }
        if i + 1 < n {
            keys[i + 1]
        } else {
            current
        }
    } else {
        proof {
            if exists|k: int| is_first_pos(keys@, k, current) {
                let k = choose|k: int| is_first_pos(keys@, k, current);
                assert(keys@[k] == current);
            }
        }
        match first {
            Some(k) => k,
            None => current,
        }
    }
}

/// Whether `s` is one of `keys`.
fn contains_state(keys: &Vec<u64>, s: u64) -> (r: bool)
    ensures
        r == keys@.contains(s),
{
    let n = keys.len();
    let mut i: usize = 0;
    while i < n
        invariant
            n == keys@.len(),
            i <= n,
            forall|j: int| 0 <= j < i ==> #[trigger] keys@[j] != s,
        decreases n - i,
    {
        if keys[i] == s {
            proof {
                assert(keys@[i as int] == s);
            }
            return true;
        }
        i = i + 1;
    }
    false
}

/// Moves `npc` to its next state, as the loaded `assets` say: to `requested`
/// if it is a state of the character's class, else, without `requested`, to
/// the state after the current one.
pub fn update_state(assets: &Vec<&DialogueAsset>, npc: &mut DialogueComponent, requested: Option<u64>)
    ensures
        final(npc).state == changed_state(assets@, old(npc).class, old(npc).state, requested),
        final(npc).class == old(npc).class,
        final(npc).dialogue == old(npc).dialogue,
        final(npc).default_lang == old(npc).default_lang,
{
    match find_class_states(assets, npc.class) {
        Some(states) => {
            let keys = states_keys(states);
            proof {
                assert(keys@ =~= state_ids(*states));
            }
            match requested {
                Some(s) => {
                    if contains_state(&keys, s) {
                        npc.state = s;
                    }
                },
                None => {
                    let first = states_first(states);
                    npc.state = step_state(&keys, first, npc.state);
                },
            }
        },
        None => {},
    }
}

/// A changed state is the old one or one of the states of the class.
pub proof fn lemma_changed_state_is_known<'a>(assets: Seq<&'a DialogueAsset>, class: u64, current: u64, requested: Option<u64>)
    ensures
        ({
            let s = changed_state(assets, class, current, requested);
            s == current || (class_states(assets, class) matches Some(m) && state_ids(m).contains(s))
        }),
{
    match class_states(assets, class) {
        Some(m) => {
            let keys = state_ids(m);
            match requested {
                Some(r) => {},
                None => {
                    if exists|i: int| is_first_pos(keys, i, current) {
                        let i = choose|i: int| is_first_pos(keys, i, current);
                        if i + 1 < keys.len() {
                            assert(keys[i + 1] == keys[i + 1]);
                        }
                    } else if keys.len() > 0 {
                        assert(keys[0] == keys[0]);
                    }
                },
            }
        },
        None => {},
    }
}

/// Without a requested state, the last state of a class is kept, and a
/// state that is not among the class's states moves to the first one.
pub proof fn lemma_following_state_ends(keys: Seq<u64>, current: u64)
    ensures
        keys.len() > 0 && keys.last() == current && (forall|j: int| 0 <= j < keys.len() - 1 ==> keys[j] != current)
            ==> following_state(keys, current) == current,
        keys.len() > 0 && !keys.contains(current) ==> following_state(keys, current) == keys[0],
{
    if keys.len() > 0 && keys.last() == current && (forall|j: int| 0 <= j < keys.len() - 1 ==> keys[j] != current) {
        assert(is_first_pos(keys, keys.len() - 1, current));
        let i = choose|i: int| is_first_pos(keys, i, current);
        assert(i == keys.len() - 1) by {
            if i < keys.len() - 1 {
                assert(keys[i] != current);
            }
        }
    }
    if keys.len() > 0 && !keys.contains(current) {
        if exists|i: int| is_first_pos(keys, i, current) {
            let i = choose|i: int| is_first_pos(keys, i, current);
            assert(keys[i] == current);
        }
    }
}

/// Without a requested state, a character whose state stands at position
/// `i` of its class's state ids, with a state after it, moves to the state
/// at position `i + 1`.
pub proof fn lemma_advances_to_following<'a>(assets: Seq<&'a DialogueAsset>, class: u64, current: u64, i: int)
    requires
        class_states(assets, class) is Some,
        0 <= i,
        i + 1 < state_ids(class_states(assets, class)->0).len(),
        state_ids(class_states(assets, class)->0)[i] == current,
        forall|j: int| 0 <= j < i ==> state_ids(class_states(assets, class)->0)[j] != current,
    ensures
        changed_state(assets, class, current, None) == state_ids(class_states(assets, class)->0)[i + 1],
{
    let keys = state_ids(class_states(assets, class)->0);
    assert(is_first_pos(keys, i, current));
    let k = choose|k: int| is_first_pos(keys, k, current);
    if k < i {
        assert(keys[k] == current);
    } else if k > i {
        assert(keys[i] == current);
    }
}

/// A requested state that the class has is taken; one it lacks leaves the
/// state as it was.
pub proof fn lemma_requested_state<'a>(assets: Seq<&'a DialogueAsset>, class: u64, current: u64, s: u64)
    requires
        class_states(assets, class) is Some,
    ensures
        state_ids(class_states(assets, class)->0).contains(s)
            ==> changed_state(assets, class, current, Some(s)) == s,
        !state_ids(class_states(assets, class)->0).contains(s)
            ==> changed_state(assets, class, current, Some(s)) == current,
{
}

/// The states of a class come from the first asset, in order, that has the
/// class: asset `k` when it has and none before it has; none when no asset has.
pub proof fn lemma_first_asset_with_class<'a>(assets: Seq<&'a DialogueAsset>, class: u64)
    ensures
        forall|k: int| 0 <= k < assets.len() && class_map(assets[k].dialogues).contains_key(class)
            && (forall|j: int| 0 <= j < k ==> !class_map(assets[j].dialogues).contains_key(class))
            ==> class_states(assets, class) == Some(class_map(assets[k].dialogues)[class]),
        (forall|k: int| 0 <= k < assets.len() ==> !class_map(assets[k].dialogues).contains_key(class))
            ==> class_states(assets, class) is None,
    decreases assets.len(),
{
    if assets.len() > 0 {
        let rest = assets.drop_first();
        lemma_first_asset_with_class(rest, class);
        assert forall|k: int| 0 <= k < assets.len() && class_map(assets[k].dialogues).contains_key(class)
            && (forall|j: int| 0 <= j < k ==> !class_map(assets[j].dialogues).contains_key(class))
            implies class_states(assets, class) == Some(class_map(assets[k].dialogues)[class]) by {
            if k > 0 {
                assert(!class_map(assets[0].dialogues).contains_key(class));
                assert(rest[k - 1] == assets[k]);
                assert forall|j: int| 0 <= j < k - 1 implies !class_map(rest[j].dialogues).contains_key(class) by {
                    assert(rest[j] == assets[j + 1]);
                }
            }
        }
        if forall|k: int| 0 <= k < assets.len() ==> !class_map(assets[k].dialogues).contains_key(class) {
            assert(!class_map(assets[0].dialogues).contains_key(class));
            assert forall|k: int| 0 <= k < rest.len() implies !class_map(rest[k].dialogues).contains_key(class) by {
                assert(rest[k] == assets[k + 1]);
            }
        }
    }
}

} // verus!
