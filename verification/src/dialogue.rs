//! Answering a `RequestDialogue`: which dialogues a character has, what the
//! character's state becomes, and what is sent back.
use vstd::prelude::*;
use bevy::prelude::Entity;
use bevy_rand::prelude::WyRand;
use isolang::Language;

use crate::language::{line_of, line_of_dialogue, preferred_language, resolve_language};
use crate::model::{
    Dialogue, DialogueAsset, DialogueAvailable, DialogueComponent, DialogueConfig, DialogueTrigger,
    RequestDialogue, RequestType,
};
use crate::outside::{
    affect_map, affects_get, class_map, classes_get, random_below, state_entries, states_get,
    unique_key_at, value_of, variable_map,
};

verus! {

/// The dialogues of state `state` of class `class` in `asset`, if it has them.
pub open spec fn state_dialogues(asset: DialogueAsset, class: u64, state: u64) -> Option<Seq<Dialogue>> {
    if class_map(asset.dialogues).contains_key(class) {
        match value_of(state_entries(class_map(asset.dialogues)[class]), state) {
            Some(v) => Some(v@),
            None => None,
        }
    } else {
        None
    }
}

/// The state that the current dialogue of `target` moves a character of
/// class `class` to, as `asset` says.
pub open spec fn affected_state(asset: DialogueAsset, class: u64, target: Option<DialogueComponent>) -> Option<u64> {
    match target {
        Some(t) => match state_dialogues(asset, t.class, t.state) {
            Some(ds) => if t.dialogue < ds.len() && affect_map(ds[t.dialogue as int].affects).contains_key(class) {
                Some(affect_map(ds[t.dialogue as int].affects)[class])
            } else {
                None
            },
            None => None,
        },
        None => None,
    }
}

/// What `asset` offers `character` (talking to `target`): the state the
/// character speaks from, and the dialogues of that state.
pub open spec fn offer(asset: DialogueAsset, character: DialogueComponent, target: Option<DialogueComponent>) -> Option<(u64, Seq<Dialogue>)> {
    let state = match affected_state(asset, character.class, target) {
        Some(s) => s,
        None => character.state,
    };
    match state_dialogues(asset, character.class, state) {
        Some(ds) => Some((state, ds)),
        None => None,
    }
}

/// The offer of the first asset, in order, that has one.
pub open spec fn first_offer<'a>(assets: Seq<&'a DialogueAsset>, character: DialogueComponent, target: Option<DialogueComponent>) -> Option<(u64, Seq<Dialogue>)>
    decreases assets.len(),
{
    if assets.len() == 0 {
        None
    } else {
        match offer(*assets[0], character, target) {
            Some(o) => Some(o),
            None => first_offer(assets.drop_first(), character, target),
        }
    }
}

/// The lines of all dialogues, in order, each in `lang`.
pub open spec fn lines_of(ds: Seq<Dialogue>, lang: Option<Language>, vars: Map<Seq<char>, Seq<char>>) -> Seq<Seq<char>>
    decreases ds.len(),
{
    if ds.len() == 0 {
        seq![]
    } else {
        lines_of(ds.drop_last(), lang, vars) + line_of(ds.last(), lang, vars)
    }
}

/// The dialogue a request uses among `len` dialogues: the asked one if it
/// exists, the drawn one `pick` for a random request, none for all of them.
pub open spec fn chosen_index(request_type: RequestType, len: nat, pick: int) -> Option<int> {
    match request_type {
        RequestType::One(i) => if i < len { Some(i as int) } else { None },
        RequestType::All => None,
        RequestType::Random => Some(pick),
    }
}

/// The answer to a request.
pub struct DialogueResponse {
    /// The character's state afterwards.
    pub state: u64,
    /// The character's dialogue position afterwards.
    pub dialogue: usize,
    /// The events triggered, in order.
    pub triggers: Vec<DialogueTrigger>,
    /// The lines sent back; none when the request only changes the state.
    pub available: Option<DialogueAvailable>,
}

/// An answer, as plain values.
pub struct ResponseView {
    pub state: u64,
    pub dialogue: int,
    pub triggers: Seq<DialogueTrigger>,
    /// The entity the lines go to, and the lines.
    pub available: Option<(Entity, Seq<Seq<char>>)>,
}

impl View for DialogueResponse {
    type V = ResponseView;

    open spec fn view(&self) -> ResponseView {
        ResponseView {
            state: self.state,
            dialogue: self.dialogue as int,
            triggers: self.triggers@,
            available: match self.available {
                Some(a) => Some((a.entity, a.dialogues@.map_values(|s: String| s@))),
                None => None,
            },
        }
    }
}

/// The triggers of `events`, sent to `entity`.
pub open spec fn triggers_of(entity: Entity, events: Seq<u64>) -> Seq<DialogueTrigger> {
    events.map_values(|e: u64| DialogueTrigger { entity: entity, event_id: e })
}

/// The answer to `request` from the dialogues `ds` of state `state`, for a
/// character at dialogue `current`, in `lang`, with `pick` drawn for a random
/// request.
pub open spec fn expected_response(
    ds: Seq<Dialogue>,
    state: u64,
    request: RequestDialogue,
    current: usize,
    lang: Option<Language>,
    vars: Map<Seq<char>, Seq<char>>,
    pick: int,
) -> ResponseView {
    let chosen = chosen_index(request.request_type, ds.len(), pick);
    ResponseView {
        state: state,
        dialogue: match chosen {
            Some(k) => k,
            None => current as int,
        },
        triggers: match chosen {
            Some(k) => triggers_of(request.entity, ds[k].events@),
            None => seq![],
        },
        available: Some((request.entity, match request.request_type {
            RequestType::All => lines_of(ds, lang, vars),
            _ => match chosen {
                Some(k) => line_of(ds[k], lang, vars),
                None => seq![],
            },
        })),
    }
}

/// An answer that only moves the character to `state`, keeping its
/// dialogue position `current`, with nothing sent.
pub open spec fn state_only(state: u64, current: usize) -> ResponseView {
    ResponseView { state: state, dialogue: current as int, triggers: seq![], available: None }
}

/// The state that the first asset, in order, in which `target`'s current
/// dialogue affects class `class` moves the character to.
pub open spec fn first_affected<'a>(assets: Seq<&'a DialogueAsset>, class: u64, target: Option<DialogueComponent>) -> Option<u64>
    decreases assets.len(),
{
    if assets.len() == 0 {
        None
    } else {
        match affected_state(*assets[0], class, target) {
            Some(s) => Some(s),
            None => first_affected(assets.drop_first(), class, target),
        }
    }
}

/// The states of `class` in `asset` and the dialogues of `state` among them.
pub(crate) fn dialogues_in_state<'a>(asset: &'a DialogueAsset, class: u64, state: u64) -> (r: Option<&'a Vec<Dialogue>>)
    ensures
        match r {
            Some(v) => state_dialogues(*asset, class, state) == Some(v@),
            None => state_dialogues(*asset, class, state) is None,
        },
{
    match classes_get(&asset.dialogues, class) {
        Some(states) => {
            let r = states_get(states, state);
            proof {
                let s = state_entries(*states);
                match r {
                    Some(v) => {
                        let i = choose|i: int| unique_key_at(s, i, state) && s[i].1 == *v;
                        let k = choose|k: int| 0 <= k < s.len() && #[trigger] s[k].0 == state;
                        assert(k == i);
                    },
                    None => {},
                }
            }
            r
        },
        None => None,
    }
}

/// The state the target's current dialogue moves the character to.
fn affected_by(asset: &DialogueAsset, class: u64, target: Option<&DialogueComponent>) -> (r: Option<u64>)
    ensures
        r == affected_state(*asset, class, match target { Some(t) => Some(*t), None => None }),
{
    match target {
        Some(t) => match dialogues_in_state(asset, t.class, t.state) {
            Some(ds) => {
                if t.dialogue < ds.len() {
                    affects_get(&ds[t.dialogue].affects, class)
                } else {
                    None
                }
            },
            None => None,
        },
        None => None,
    }
}

/// The offer of the first asset, in order, that has one.
pub fn find_offer<'a>(
    assets: &Vec<&'a DialogueAsset>,
    character: &DialogueComponent,
    target: Option<&DialogueComponent>,
) -> (r: Option<(u64, &'a Vec<Dialogue>)>)
    ensures
        match r {
            Some((state, ds)) => first_offer(assets@, *character, match target { Some(t) => Some(*t), None => None })
                == Some((state, ds@)),
            None => first_offer(assets@, *character, match target { Some(t) => Some(*t), None => None }) is None,
        },
{
    let ghost tv = match target { Some(t) => Some(*t), None => None };
    let n = assets.len();
    let mut i: usize = 0;
    proof {
        assert(assets@.skip(0) =~= assets@);
    }
    while i < n
        invariant
            n == assets@.len(),
            i <= n,
            tv == match target { Some(t) => Some(*t), None => None::<DialogueComponent> },
            first_offer(assets@, *character, tv) == first_offer(assets@.skip(i as int), *character, tv),
        decreases n - i,
    {
        let asset: &'a DialogueAsset = assets[i];
        proof {
            assert(assets@.skip(i as int)[0] == assets@[i as int]);
            assert(assets@.skip(i as int).drop_first() =~= assets@.skip(i + 1));
        }
        let state = match affected_by(asset, character.class, target) {
            Some(s) => s,
            None => character.state,
        };
        match dialogues_in_state(asset, character.class, state) {
            Some(ds) => {
                return Some((state, ds));
            },
            None => {},
        }
        i = i + 1;
    }
    None
}

/// The answer to `request` from the non-empty dialogues `ds` of state
/// `state`, for `character`, with `pick` as the dialogue drawn when the
/// request is random.
pub fn respond_with_pick(
    ds: &Vec<Dialogue>,
    state: u64,
    request: &RequestDialogue,
    character: &DialogueComponent,
    config: &DialogueConfig,
    pick: usize,
) -> (r: DialogueResponse)
    requires
        ds@.len() > 0,
        request.request_type is Random ==> pick < ds@.len(),
    ensures
        r@ == expected_response(ds@, state, *request, character.dialogue,
            preferred_language(request.request_lang, character.default_lang, config.global_lang),
            variable_map(config.variables), pick as int),
{
    let lang = resolve_language(request.request_lang, character.default_lang, config.global_lang);
    let ghost vars = variable_map(config.variables);
    let entity = request.entity;
    let mut lines: Vec<String> = Vec::new();
    let mut triggers: Vec<DialogueTrigger> = Vec::new();
    let mut dialogue = character.dialogue;
    let chosen: Option<usize> = match request.request_type {
        RequestType::One(index) => if index < ds.len() { Some(index) } else { None },
        RequestType::All => None,
        RequestType::Random => Some(pick),
    };
    match request.request_type {
        RequestType::All => {
            let n = ds.len();
            let mut i: usize = 0;
            while i < n
                invariant
                    n == ds@.len(),
                    i <= n,
                    lines@.map_values(|s: String| s@) == lines_of(ds@.take(i as int), lang, vars),
                    vars == variable_map(config.variables),
                decreases n - i,
            {
                let line = line_of_dialogue(&ds[i], lang, &config.variables);
                proof {
                    assert(ds@.take(i + 1).drop_last() =~= ds@.take(i as int));
                    assert(ds@.take(i + 1).last() == ds@[i as int]);
                }
                match line {
                    Some(s) => {
                        lines.push(s);
                    },
                    None => {},
                }
                proof {
                    assert(lines@.map_values(|s: String| s@) =~= lines_of(ds@.take(i + 1), lang, vars));
                }
                i = i + 1;
            }
            proof {
                assert(ds@.take(n as int) =~= ds@);
            }
        },
        _ => {
            match chosen {
                Some(k) => {
                    let d = &ds[k];
                    let n = d.events.len();
                    let mut j: usize = 0;
                    while j < n
                        invariant
                            n == d.events@.len(),
                            j <= n,
                            triggers@ == triggers_of(entity, d.events@.take(j as int)),
                        decreases n - j,
                    {
                        triggers.push(DialogueTrigger { entity: entity, event_id: d.events[j] });
                        proof {
                            assert(triggers@ =~= triggers_of(entity, d.events@.take(j + 1)));
                        }
                        j = j + 1;
                    }
                    proof {
                        assert(d.events@.take(n as int) =~= d.events@);
                    }
                    match line_of_dialogue(d, lang, &config.variables) {
                        Some(s) => {
                            lines.push(s);
                        },
                        None => {},
                    }
                    proof {
                        assert(lines@.map_values(|s: String| s@) =~= line_of(ds@[k as int], lang, vars));
                    }
                    dialogue = k;
                },
                None => {
                    proof {
                        assert(lines@.map_values(|s: String| s@) =~= Seq::<Seq<char>>::empty());
                        assert(triggers@ =~= Seq::<DialogueTrigger>::empty());
                    }
                },
            }
        },
    }
    proof {
        if request.request_type is All {
            assert(triggers@ =~= Seq::<DialogueTrigger>::empty());
        }
    }
    DialogueResponse {
        state: state,
        dialogue: dialogue,
        triggers: triggers,
        available: Some(DialogueAvailable { entity: entity, dialogues: lines }),
    }
}

/// The state the first asset in which `target` affects `class` gives.
fn find_affected(assets: &Vec<&DialogueAsset>, class: u64, target: Option<&DialogueComponent>) -> (r: Option<u64>)
    ensures
        r == first_affected(assets@, class, match target { Some(t) => Some(*t), None => None }),
{
    let ghost tv = match target { Some(t) => Some(*t), None => None };
    let n = assets.len();
    let mut i: usize = 0;
    proof {
        assert(assets@.skip(0) =~= assets@);
    }
    while i < n
        invariant
            n == assets@.len(),
            i <= n,
            tv == match target { Some(t) => Some(*t), None => None::<DialogueComponent> },
            first_affected(assets@, class, tv) == first_affected(assets@.skip(i as int), class, tv),
        decreases n - i,
    {
        proof {
            assert(assets@.skip(i as int)[0] == assets@[i as int]);
            assert(assets@.skip(i as int).drop_first() =~= assets@.skip(i + 1));
        }
        match affected_by(assets[i], class, target) {
            Some(s) => {
                return Some(s);
            },
            None => {},
        }
        i = i + 1;
    }
    None
}

/// The answer to `request` for `character` (talking to `target`, if it has
/// a dialogue state) from the loaded `assets`, in order.
/// - The first asset that has dialogues for the character in the state it
///   speaks from (the state `target`'s dialogue moves it to, else its own)
///   answers. With dialogues, the answer is `expected_response`; a random
///   request draws its dialogue from `rng` and records it as the character's
///   dialogue position. With an empty list, the character only moves to that
///   state.
/// - When no asset answers but `target`'s dialogue affects the character in
///   some asset, the character only moves to the state the first such asset
///   gives.
/// - Otherwise nothing changes: `None`.
/// `rng` is left as it was unless a random request is answered with lines.
pub fn respond(
    assets: &Vec<&DialogueAsset>,
    config: &DialogueConfig,
    request: &RequestDialogue,
    character: &DialogueComponent,
    target: Option<&DialogueComponent>,
    rng: &mut WyRand,
) -> (r: Option<DialogueResponse>)
    ensures
        ({
            let tv = match target { Some(t) => Some(*t), None => None };
            let found = first_offer(assets@, *character, tv);
            let lang = preferred_language(request.request_lang, character.default_lang, config.global_lang);
            let vars = variable_map(config.variables);
            match found {
                Some((state, ds)) => if ds.len() > 0 {
                    r matches Some(resp) && {
                        &&& (request.request_type is Random ==> resp.dialogue < ds.len())
                        &&& resp@ == expected_response(ds, state, *request, character.dialogue, lang, vars,
                            resp.dialogue as int)
                    }
                } else {
                    r matches Some(resp) && resp@ == state_only(state, character.dialogue)
                },
                None => match first_affected(assets@, character.class, tv) {
                    Some(s) => r matches Some(resp) && resp@ == state_only(s, character.dialogue),
                    None => r is None,
                },
            }
        }),
        !(request.request_type is Random && (r matches Some(resp) && resp.available is Some))
            ==> *final(rng) == *old(rng),
{
    match find_offer(assets, character, target) {
        None => match find_affected(assets, character.class, target) {
            Some(s) => {
                let resp = DialogueResponse { state: s, dialogue: character.dialogue, triggers: Vec::new(), available: None };
                proof {
                    assert(resp.triggers@ =~= Seq::<DialogueTrigger>::empty());
                }
                Some(resp)
            },
            None => None,
        },
        Some((state, ds)) => {
            if ds.len() == 0 {
                let resp = DialogueResponse { state: state, dialogue: character.dialogue, triggers: Vec::new(), available: None };
                proof {
                    assert(resp.triggers@ =~= Seq::<DialogueTrigger>::empty());
                }
                return Some(resp);
            }
            let pick = match request.request_type {
                RequestType::Random => random_below(rng, ds.len()),
                _ => 0,
            };
            let resp = respond_with_pick(ds, state, request, character, config, pick);
            Some(resp)
        },
    }
}

/// A random request that drew dialogue `pick` is answered as the request
/// for dialogue `pick` is.
pub proof fn lemma_random_is_one(
    ds: Seq<Dialogue>,
    state: u64,
    request: RequestDialogue,
    current: usize,
    lang: Option<Language>,
    vars: Map<Seq<char>, Seq<char>>,
    pick: usize,
    other: int,
)
    requires
        request.request_type is Random,
        pick < ds.len(),
    ensures
        expected_response(ds, state, request, current, lang, vars, pick as int)
            == expected_response(ds, state, RequestDialogue { request_type: RequestType::One(pick), ..request },
                current, lang, vars, other),
{
}

/// The choices that a request for all dialogues offers are, position by
/// position, the lines that a request for each one dialogue gives, when every
/// dialogue has content in the language.
pub proof fn lemma_choices_are_ones(ds: Seq<Dialogue>, lang: Option<Language>, vars: Map<Seq<char>, Seq<char>>)
    requires
        forall|i: int| 0 <= i < ds.len() ==> (#[trigger] line_of(ds[i], lang, vars)).len() == 1,
    ensures
        lines_of(ds, lang, vars).len() == ds.len(),
        forall|i: int| 0 <= i < ds.len() ==> seq![lines_of(ds, lang, vars)[i]] == #[trigger] line_of(ds[i], lang, vars),
    decreases ds.len(),
{
    if ds.len() > 0 {
        let init = ds.drop_last();
        assert forall|i: int| 0 <= i < init.len() implies (#[trigger] line_of(init[i], lang, vars)).len() == 1 by {
            assert(init[i] == ds[i]);
        }
        lemma_choices_are_ones(init, lang, vars);
        let all = lines_of(ds, lang, vars);
        assert(line_of(ds[ds.len() - 1], lang, vars).len() == 1);
        assert forall|i: int| 0 <= i < ds.len() implies seq![all[i]] == #[trigger] line_of(ds[i], lang, vars) by {
            if i < ds.len() - 1 {
                assert(init[i] == ds[i]);
                assert(all[i] == lines_of(init, lang, vars)[i]);
            } else {
                let last = line_of(ds[i], lang, vars);
                assert(all[i] == last[0]);
                assert(seq![last[0]] =~= last);
            }
        }
    }
}

/// A character talking to `t` speaks from the state that the affects of
/// `t`'s current dialogue (position `t.dialogue` in `t`'s own state
/// `t.state`) give for the character's class, whatever the character's own
/// state is.
pub proof fn lemma_talking_to_moves_state(asset: DialogueAsset, character: DialogueComponent, t: DialogueComponent, s: u64)
    requires
        ({
            let states = class_map(asset.dialogues);
            &&& states.contains_key(t.class)
            &&& value_of(state_entries(states[t.class]), t.state) matches Some(tds)
                && t.dialogue < tds.len()
                && affect_map(tds[t.dialogue as int].affects).contains_key(character.class)
                && affect_map(tds[t.dialogue as int].affects)[character.class] == s
        }),
    ensures
        offer(asset, character, Some(t)) == match state_dialogues(asset, character.class, s) {
            Some(ds) => Some((s, ds)),
            None => None::<(u64, Seq<Dialogue>)>,
        },
{
}

/// When the current dialogue of `t` (position `t.dialogue` in `t`'s own
/// state) does not name the character's class, the character speaks from
/// its own state.
pub proof fn lemma_talking_to_keeps_state(asset: DialogueAsset, character: DialogueComponent, t: DialogueComponent)
    requires
        ({
            let states = class_map(asset.dialogues);
            !states.contains_key(t.class) || match value_of(state_entries(states[t.class]), t.state) {
                Some(tds) => t.dialogue >= tds.len()
                    || !affect_map(tds[t.dialogue as int].affects).contains_key(character.class),
                None => true,
            }
        }),
    ensures
        offer(asset, character, Some(t)) == match state_dialogues(asset, character.class, character.state) {
            Some(ds) => Some((character.state, ds)),
            None => None::<(u64, Seq<Dialogue>)>,
        },
{
}

/// A request for dialogue `i` that exists answers from the character's
/// state with dialogue `i`: its events in order, its line, and `i` as the
/// character's dialogue position; one for a dialogue that does not exist
/// answers with nothing and keeps the position; a request for all
/// dialogues triggers nothing and keeps the position.
pub proof fn lemma_response_by_type(
    ds: Seq<Dialogue>,
    state: u64,
    request: RequestDialogue,
    current: usize,
    lang: Option<Language>,
    vars: Map<Seq<char>, Seq<char>>,
    pick: int,
)
    ensures
        expected_response(ds, state, request, current, lang, vars, pick).state == state,
        forall|i: usize| request.request_type == RequestType::One(i) && i < ds.len() ==> {
            let r = expected_response(ds, state, request, current, lang, vars, pick);
            let events = ds[i as int].events@;
            &&& r.dialogue == i
            &&& r.triggers.len() == events.len()
            &&& forall|k: int| 0 <= k < events.len() ==> (#[trigger] r.triggers[k]).entity == request.entity
                && r.triggers[k].event_id == events[k]
            &&& r.available == Some((request.entity, line_of(ds[i as int], lang, vars)))
        },
        forall|i: usize| request.request_type == RequestType::One(i) && i >= ds.len() ==> {
            let r = expected_response(ds, state, request, current, lang, vars, pick);
            &&& r.dialogue == current
            &&& r.triggers.len() == 0
            &&& r.available == Some((request.entity, Seq::<Seq<char>>::empty()))
        },
        request.request_type is All ==> {
            let r = expected_response(ds, state, request, current, lang, vars, pick);
            &&& r.dialogue == current
            &&& r.triggers.len() == 0
            &&& r.available == Some((request.entity, lines_of(ds, lang, vars)))
        },
{
}

/// The answer comes from the first asset, in order, that has dialogues for
/// the character: asset `k` when it has and none before it has; none when
/// no asset has.
pub proof fn lemma_first_asset_answers<'a>(assets: Seq<&'a DialogueAsset>, character: DialogueComponent, target: Option<DialogueComponent>)
    ensures
        forall|k: int| 0 <= k < assets.len() && offer(*assets[k], character, target) is Some
            && (forall|j: int| 0 <= j < k ==> offer(*assets[j], character, target) is None)
            ==> first_offer(assets, character, target) == offer(*assets[k], character, target),
        (forall|k: int| 0 <= k < assets.len() ==> offer(*assets[k], character, target) is None)
            ==> first_offer(assets, character, target) is None,
    decreases assets.len(),
{
    if assets.len() > 0 {
        let rest = assets.drop_first();
        lemma_first_asset_answers(rest, character, target);
        assert forall|k: int| 0 <= k < assets.len() && offer(*assets[k], character, target) is Some
            && (forall|j: int| 0 <= j < k ==> offer(*assets[j], character, target) is None)
            implies first_offer(assets, character, target) == offer(*assets[k], character, target) by {
            if k > 0 {
                assert(offer(*assets[0], character, target) is None);
                assert(rest[k - 1] == assets[k]);
                assert forall|j: int| 0 <= j < k - 1 implies offer(*rest[j], character, target) is None by {
                    assert(rest[j] == assets[j + 1]);
                }
            }
        }
        if forall|k: int| 0 <= k < assets.len() ==> offer(*assets[k], character, target) is None {
            assert(offer(*assets[0], character, target) is None);
            assert forall|k: int| 0 <= k < rest.len() implies offer(*rest[k], character, target) is None by {
                assert(rest[k] == assets[k + 1]);
            }
        }
    }
}

} // verus!
