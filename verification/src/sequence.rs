//! Answering a `RequestSequence`: where each sequence stands, who speaks next
//! and which line is sent.
use vstd::prelude::*;
use bevy::prelude::Entity;
use isolang::Language;

use crate::dialogue::{dialogues_in_state, state_dialogues, triggers_of};
use crate::language::{line_of, line_of_dialogue, preferred_language, resolve_language};
use crate::model::{
    Dialogue, DialogueAsset, DialogueAvailable, DialogueComponent, DialogueConfig, DialogueSequenceEnd,
    DialogueTrigger, RequestSequence, SequenceItem, SequenceTracker, Tracker, TrackerView,
};
use crate::outside::{
    participant_map, participants_clone, participants_get, sequence_entries, sequences_get, tracker_map,
    trackers_contains, trackers_get_mut, trackers_insert, unique_key_at, value_of, variable_map, entity_eq,
};

verus! {

/// The items of sequence `id` in `asset`, if it has the sequence.
pub open spec fn sequence_items(asset: DialogueAsset, id: u64) -> Option<Seq<SequenceItem>> {
    match value_of(sequence_entries(asset.sequences), id) {
        Some(v) => Some(v@),
        None => None,
    }
}

/// The trackers once `request` has been seen with `asset`: a sequence of the
/// asset requested for the first time starts at its first item with the
/// request's participants; a running one keeps its tracker, participants
/// included.
pub open spec fn trackers_after_request(trackers: Map<u64, TrackerView>, asset: DialogueAsset, request: RequestSequence) -> Map<u64, TrackerView> {
    if sequence_items(asset, request.sequence_id) is Some && !trackers.contains_key(request.sequence_id) {
        trackers.insert(request.sequence_id, TrackerView {
            participants: participant_map(request.participants),
            progress: 0,
            dialogue_pos: 0,
        })
    } else {
        trackers
    }
}

/// Who speaks the next line of sequence `id`, given its tracker: the
/// participant of the class of the current item, if the sequence is not over
/// and that class has a participant.
pub open spec fn next_speaker(trackers: Map<u64, TrackerView>, asset: DialogueAsset, id: u64) -> Option<Entity> {
    match sequence_items(asset, id) {
        Some(items) => if trackers.contains_key(id) && trackers[id].progress < items.len() {
            let t = trackers[id];
            let item = items[t.progress as int];
            if t.participants.contains_key(item.class) {
                Some(t.participants[item.class])
            } else {
                None
            }
        } else {
            None
        },
        None => None,
    }
}

/// The item at `item` has a fixed dialogue among the `count` of its state.
pub open spec fn has_fixed_dialogue(item: SequenceItem, count: nat) -> bool {
    match item.dialogue {
        Some(pos) => pos < count,
        None => false,
    }
}

/// The tracker once its current item is finished, in a sequence of `len`
/// items, and whether that item was the last: the next item, or, after the
/// last one, the first item again with the end announced.
pub open spec fn next_item(t: TrackerView, len: nat) -> (TrackerView, bool) {
    if t.progress + 1 >= len {
        (TrackerView { progress: 0, ..t }, true)
    } else {
        (TrackerView { progress: (t.progress + 1) as nat, ..t }, false)
    }
}

/// One step of a tracker at `item`, whose state has `count` dialogues, in a
/// sequence of `len` items: the tracker afterwards, the position of the
/// dialogue used, and whether the end of the sequence is announced. An item
/// with a fixed dialogue uses it and is finished; otherwise the dialogue at
/// the tracker's position is used, and the item is finished after its last
/// one. `None` when the item has no dialogue left to use.
pub open spec fn step_tracker(t: TrackerView, item: SequenceItem, count: nat, len: nat) -> Option<(TrackerView, int, bool)> {
    if has_fixed_dialogue(item, count) {
        let (n, ended) = next_item(t, len);
        Some((n, item.dialogue.unwrap() as int, ended))
    } else if t.dialogue_pos + 1 < count {
        Some((TrackerView { dialogue_pos: (t.dialogue_pos + 1) as nat, ..t }, t.dialogue_pos as int, false))
    } else if t.dialogue_pos < count {
        let (n, ended) = next_item(TrackerView { dialogue_pos: 0, ..t }, len);
        Some((n, t.dialogue_pos as int, ended))
    } else {
        None
    }
}

/// The step that sequence `id` takes with `asset`: the speaker, the
/// dialogues of the current item's state, and the tracker step. `None` where
/// the request stops.
pub open spec fn planned_step(trackers: Map<u64, TrackerView>, asset: DialogueAsset, id: u64)
    -> Option<(Entity, Seq<Dialogue>, (TrackerView, int, bool))>
{
    match next_speaker(trackers, asset, id) {
        Some(speaker) => {
            let items = sequence_items(asset, id)->0;
            let t = trackers[id];
            let item = items[t.progress as int];
            match state_dialogues(asset, item.class, item.state) {
                Some(ds) => match step_tracker(t, item, ds.len(), items.len()) {
                    Some(s) => Some((speaker, ds, s)),
                    None => None,
                },
                None => None,
            }
        },
        None => None,
    }
}

/// A line of a sequence, ready to be sent.
pub struct SequenceLine {
    /// The character who speaks it.
    pub entity: Entity,
    /// That character's dialogue position afterwards.
    pub dialogue: usize,
    /// The events triggered, in order.
    pub triggers: Vec<DialogueTrigger>,
    /// The line itself, if the dialogue has content in the language.
    pub available: Option<DialogueAvailable>,
    /// The notice that the sequence ended, if it did.
    pub ended: Option<DialogueSequenceEnd>,
}

/// The lines a sequence line sends.
pub open spec fn sent_lines(available: Option<DialogueAvailable>) -> Seq<Seq<char>> {
    match available {
        Some(a) => a.dialogues@.map_values(|s: String| s@),
        None => seq![],
    }
}

/// `line` is the line of dialogue `ds[k]` spoken by `speaker` in `lang`.
pub open spec fn is_line(
    line: SequenceLine,
    speaker: Entity,
    ds: Seq<Dialogue>,
    k: int,
    ended: bool,
    id: u64,
    lang: Option<Language>,
    vars: Map<Seq<char>, Seq<char>>,
) -> bool {
    &&& line.entity == speaker
    &&& line.dialogue == k
    &&& line.triggers@ == triggers_of(speaker, ds[k].events@)
    &&& (line.available matches Some(a) ==> a.entity == speaker)
    &&& (line.available is Some <==> line_of(ds[k], lang, vars).len() > 0)
    &&& sent_lines(line.available) == line_of(ds[k], lang, vars)
    &&& (line.ended matches Some(e) ==> e.0 == id)
    &&& (line.ended is Some <==> ended)
}

/// The items of sequence `id` in `asset`.
fn items_of<'a>(asset: &'a DialogueAsset, id: u64) -> (r: Option<&'a Vec<SequenceItem>>)
    ensures
        match r {
            Some(v) => sequence_items(*asset, id) == Some(v@),
            None => sequence_items(*asset, id) is None,
        },
{
    let r = sequences_get(&asset.sequences, id);
    proof {
        let s = sequence_entries(asset.sequences);
        match r {
            Some(v) => {
                let i = choose|i: int| unique_key_at(s, i, id) && s[i].1 == *v;
                let k = choose|k: int| 0 <= k < s.len() && #[trigger] s[k].0 == id;
                assert(k == i);
            },
            None => {},
        }
    }
    r
}

/// Takes `request` into account with `asset`, and says who speaks the next
/// line of its sequence. A sequence that the asset has and that is requested
/// for the first time gets a tracker with the request's participants; a
/// running sequence keeps the participants it started with. `None` where the
/// request stops: the asset does not have the sequence, the tracker stands
/// past its end (the asset's sequence is shorter than the one it was started
/// with), or the class of its current item has no participant.
pub fn sequence_speaker(trackers: &mut SequenceTracker, asset: &DialogueAsset, request: &RequestSequence) -> (r: Option<Entity>)
    ensures
        final(trackers)@ == trackers_after_request(old(trackers)@, *asset, *request),
        r == next_speaker(final(trackers)@, *asset, request.sequence_id),
{
    let id = request.sequence_id;
    let items = match items_of(asset, id) {
        Some(items) => items,
        None => {
            return None;
        },
    };
    if !trackers_contains(&trackers.trackers, id) {
        let fresh = Tracker { participants: participants_clone(&request.participants), progress: 0, dialogue_pos: 0 };
        trackers_insert(&mut trackers.trackers, id, fresh);
        proof {
            assert(trackers@ =~= trackers_after_request(old(trackers)@, *asset, *request));
        }
    }
    let ghost after = trackers@;
    match trackers_get_mut(&mut trackers.trackers, id) {
        Some(t) => {
            let progress = t.progress;
            if progress >= items.len() {
                proof {
                    assert(trackers@ =~= after);
                }
                return None;
            }
            let item = &items[progress];
            let speaker = participants_get(&t.participants, item.class);
            proof {
                assert(trackers@ =~= after);
            }
            speaker
        },
        None => None,
    }
}

/// Takes the next step of the sequence of `request` with `asset`, for
/// `character`, the dialogue state of the speaker. The tracker moves on: an
/// item with a fixed dialogue uses it and passes to the next item; an item
/// without one uses the dialogues of its state in turn, and passes to the
/// next item after the last. Finishing the last item of the sequence
/// announces its end and starts it over from the first item. `None`, with
/// the trackers unchanged, where the
/// request stops: there is no speaker, the asset has no dialogues for the
/// item's class and state, or the item has no dialogue left.
pub fn sequence_step(
    trackers: &mut SequenceTracker,
    asset: &DialogueAsset,
    request: &RequestSequence,
    character: &DialogueComponent,
    config: &DialogueConfig,
) -> (r: Option<SequenceLine>)
    ensures
        ({
            let id = request.sequence_id;
            let lang = preferred_language(request.request_lang, character.default_lang, config.global_lang);
            let vars = variable_map(config.variables);
            match planned_step(old(trackers)@, *asset, id) {
                None => r is None && final(trackers)@ == old(trackers)@,
                Some((speaker, ds, (t, k, ended))) => {
                    &&& final(trackers)@ == old(trackers)@.insert(id, t)
                    &&& r matches Some(line) && is_line(line, speaker, ds, k, ended, id, lang, vars)
                },
            }
        }),
{
    let id = request.sequence_id;
    let ghost before = trackers@;
    let items = match items_of(asset, id) {
        Some(items) => items,
        None => {
            return None;
        },
    };
    let t = match trackers_get_mut(&mut trackers.trackers, id) {
        Some(t) => t,
        None => {
            return None;
        },
    };
    let ghost t0 = *t;
    if t.progress >= items.len() {
        return None;
    }
    let item = &items[t.progress];
    let speaker = match participants_get(&t.participants, item.class) {
        Some(e) => e,
        None => {
            return None;
        },
    };
    let ds = match dialogues_in_state(asset, item.class, item.state) {
        Some(ds) => ds,
        None => {
            return None;
        },
    };
    let len = items.len();
    let count = ds.len();
    let mut ended = false;
    let k: usize;
    let fixed = match item.dialogue {
        Some(pos) => pos < count,
        None => false,
    };
    if fixed {
        k = match item.dialogue {
            Some(pos) => pos,
            None => 0,
        };
        t.progress = t.progress + 1;
        if t.progress >= len {
            t.progress = 0;
            ended = true;
        }
    } else if t.dialogue_pos < count {
        k = t.dialogue_pos;
        t.dialogue_pos = t.dialogue_pos + 1;
        if t.dialogue_pos >= count {
            t.dialogue_pos = 0;
            t.progress = t.progress + 1;
            if t.progress >= len {
                t.progress = 0;
                ended = true;
            }
        }
    } else {
        return None;
    }
    proof {
        let stepped = step_tracker(t0@, items@[t0.progress as int], count as nat, len as nat);
        assert(stepped matches Some((next, kk, e)) && next == t@ && kk == k && e == ended);
    }
    let lang = resolve_language(request.request_lang, character.default_lang, config.global_lang);
    let d = &ds[k];
    let mut triggers: Vec<DialogueTrigger> = Vec::new();
    let n = d.events.len();
    let mut j: usize = 0;
    while j < n
        invariant
            n == d.events@.len(),
            j <= n,
            triggers@ == triggers_of(speaker, d.events@.take(j as int)),
        decreases n - j,
    {
        triggers.push(DialogueTrigger { entity: speaker, event_id: d.events[j] });
        proof {
            assert(triggers@ =~= triggers_of(speaker, d.events@.take(j + 1)));
        }
        j = j + 1;
    }
    proof {
        assert(d.events@.take(n as int) =~= d.events@);
    }
    let available = match line_of_dialogue(d, lang, &config.variables) {
        Some(s) => {
            let mut lines: Vec<String> = Vec::new();
            lines.push(s);
            proof {
                assert(lines@.map_values(|s: String| s@) =~= seq![s@]);
            }
            Some(DialogueAvailable { entity: speaker, dialogues: lines })
        },
        None => None,
    };
    let end_notice = if ended { Some(DialogueSequenceEnd(id)) } else { None };
    Some(SequenceLine { entity: speaker, dialogue: k, triggers, available, ended: end_notice })
}

/// The first of `assets`, in order, that has sequence `id`.
pub open spec fn asset_with_sequence<'a>(assets: Seq<&'a DialogueAsset>, id: u64) -> Option<DialogueAsset>
    decreases assets.len(),
{
    if assets.len() == 0 {
        None
    } else if sequence_items(*assets[0], id) is Some {
        Some(*assets[0])
    } else {
        asset_with_sequence(assets.drop_first(), id)
    }
}

/// The dialogue state of entity `e` among `characters`: the first entry for it.
pub open spec fn component_of(characters: Seq<(Entity, DialogueComponent)>, e: Entity) -> Option<DialogueComponent>
    decreases characters.len(),
{
    if characters.len() == 0 {
        None
    } else if characters[0].0 == e {
        Some(characters[0].1)
    } else {
        component_of(characters.drop_first(), e)
    }
}

/// The first of `assets` that has sequence `id`.
fn find_sequence_asset<'a>(assets: &Vec<&'a DialogueAsset>, id: u64) -> (r: Option<&'a DialogueAsset>)
    ensures
        match r {
            Some(a) => asset_with_sequence(assets@, id) == Some(*a),
            None => asset_with_sequence(assets@, id) is None,
        },
{
    let n = assets.len();
    let mut i: usize = 0;
    proof {
        assert(assets@.skip(0) =~= assets@);
    }
    while i < n
        invariant
            n == assets@.len(),
            i <= n,
            asset_with_sequence(assets@, id) == asset_with_sequence(assets@.skip(i as int), id),
        decreases n - i,
    {
        proof {
            assert(assets@.skip(i as int)[0] == assets@[i as int]);
            assert(assets@.skip(i as int).drop_first() =~= assets@.skip(i + 1));
        }
        let asset: &'a DialogueAsset = assets[i];
        if items_of(asset, id).is_some() {
            return Some(asset);
        }
        i = i + 1;
    }
    None
}

/// The dialogue state of `e` among `characters`.
fn find_component(characters: &Vec<(Entity, DialogueComponent)>, e: Entity) -> (r: Option<DialogueComponent>)
    ensures
        r == component_of(characters@, e),
{
    let n = characters.len();
    let mut i: usize = 0;
    proof {
        assert(characters@.skip(0) =~= characters@);
    }
    while i < n
        invariant
            n == characters@.len(),
            i <= n,
            component_of(characters@, e) == component_of(characters@.skip(i as int), e),
        decreases n - i,
    {
        proof {
            assert(characters@.skip(i as int)[0] == characters@[i as int]);
            assert(characters@.skip(i as int).drop_first() =~= characters@.skip(i + 1));
        }
        let (entity, component) = characters[i];
        if entity_eq(entity, e) {
            return Some(component);
        }
        i = i + 1;
    }
    None
}

/// Answers `request` with the loaded `assets`, given the dialogue states of
/// the `characters` that have one. The first asset that has the sequence is
/// used, for one step at most: its tracker is set up if the sequence is new,
/// then, if the current item has a speaker with a dialogue state, the step
/// of `sequence_step` is taken.
pub fn sequence_request(
    trackers: &mut SequenceTracker,
    assets: &Vec<&DialogueAsset>,
    request: &RequestSequence,
    characters: &Vec<(Entity, DialogueComponent)>,
    config: &DialogueConfig,
) -> (r: Option<SequenceLine>)
    ensures
        ({
            let id = request.sequence_id;
            let vars = variable_map(config.variables);
            match asset_with_sequence(assets@, id) {
                None => r is None && final(trackers)@ == old(trackers)@,
                Some(asset) => {
                    let after = trackers_after_request(old(trackers)@, asset, *request);
                    let speaker = next_speaker(after, asset, id);
                    let character = match speaker {
                        Some(e) => component_of(characters@, e),
                        None => None,
                    };
                    match character {
                        None => r is None && final(trackers)@ == after,
                        Some(c) => {
                            let lang = preferred_language(request.request_lang, c.default_lang, config.global_lang);
                            match planned_step(after, asset, id) {
                                None => r is None && final(trackers)@ == after,
                                Some((e, ds, (t, k, ended))) => {
                                    &&& final(trackers)@ == after.insert(id, t)
                                    &&& r matches Some(line) && is_line(line, e, ds, k, ended, id, lang, vars)
                                },
                            }
                        },
                    }
                },
            }
        }),
{
    let asset = match find_sequence_asset(assets, request.sequence_id) {
        Some(a) => a,
        None => {
            return None;
        },
    };
    let speaker = match sequence_speaker(trackers, asset, request) {
        Some(e) => e,
        None => {
            return None;
        },
    };
    let character = match find_component(characters, speaker) {
        Some(c) => c,
        None => {
            return None;
        },
    };
    sequence_step(trackers, asset, request, &character, config)
}

/// A step of a tracker that is not over keeps it before the end of its
/// sequence, and announces the end exactly when it finishes the last item.
pub proof fn lemma_step_within(t: TrackerView, item: SequenceItem, count: nat, len: nat)
    requires
        t.progress < len,
    ensures
        step_tracker(t, item, count, len) matches Some((next, _, ended)) ==> {
            &&& next.progress < len
            &&& next.participants == t.participants
            &&& ended <==> (t.progress + 1 == len && next.progress == 0 && (has_fixed_dialogue(item, count)
                || t.dialogue_pos + 1 >= count))
        },
{
}

/// Every tracker of a sequence that `asset` has stands within that sequence.
pub open spec fn trackers_within(trackers: Map<u64, TrackerView>, asset: DialogueAsset) -> bool {
    forall|id: u64| #[trigger] trackers.contains_key(id) && sequence_items(asset, id) is Some
        ==> trackers[id].progress <= sequence_items(asset, id)->0.len()
}

/// Requests and steps keep every tracker within its sequence: a new tracker
/// starts at the first item, and a step is only taken before the end.
pub proof fn lemma_trackers_stay_within(trackers: Map<u64, TrackerView>, asset: DialogueAsset, request: RequestSequence)
    requires
        trackers_within(trackers, asset),
    ensures
        trackers_within(trackers_after_request(trackers, asset, request), asset),
        planned_step(trackers, asset, request.sequence_id) matches Some((_, _, (t, _, _)))
            ==> trackers_within(trackers.insert(request.sequence_id, t), asset),
{
    let id = request.sequence_id;
    match planned_step(trackers, asset, id) {
        Some((speaker, ds, (t, k, ended))) => {
            let items = sequence_items(asset, id)->0;
            let old = trackers[id];
            lemma_step_within(old, items[old.progress as int], ds.len(), items.len());
        },
        None => {},
    }
}

/// The tracker after `m` steps at the same item.
pub open spec fn walk(t: TrackerView, item: SequenceItem, count: nat, len: nat, m: nat) -> TrackerView
    decreases m,
{
    if m == 0 {
        t
    } else {
        let before = walk(t, item, count, len, (m - 1) as nat);
        match step_tracker(before, item, count, len) {
            Some((next, _, _)) => next,
            None => before,
        }
    }
}

/// The dialogue used by step `m` (counting from 0) at the same item.
pub open spec fn walk_used(t: TrackerView, item: SequenceItem, count: nat, len: nat, m: nat) -> Option<int> {
    match step_tracker(walk(t, item, count, len, m), item, count, len) {
        Some((_, k, _)) => Some(k),
        None => None,
    }
}

/// Whether step `m` (counting from 0) at the same item announces the end.
pub open spec fn walk_ends(t: TrackerView, item: SequenceItem, count: nat, len: nat, m: nat) -> bool {
    match step_tracker(walk(t, item, count, len, m), item, count, len) {
        Some((_, _, ended)) => ended,
        None => false,
    }
}

/// The first `m` steps through an item without a fixed dialogue use its
/// dialogues 0, 1, ... in turn and stay at the item.
proof fn lemma_walk_prefix(t: TrackerView, item: SequenceItem, count: nat, len: nat, m: nat)
    requires
        !has_fixed_dialogue(item, count),
        t.dialogue_pos == 0,
        m < count,
    ensures
        walk(t, item, count, len, m) == (TrackerView { dialogue_pos: m, ..t }),
    decreases m,
{
    if m > 0 {
        lemma_walk_prefix(t, item, count, len, (m - 1) as nat);
    }
}

/// An item without a fixed dialogue, whose state has `count` dialogues, is
/// walked through over `count` requests: request `j` uses dialogue `j`,
/// the tracker stays at the item until the last one, and after it the
/// tracker is at the next item (or, after the last item, at the first one
/// again, and only then is the end announced).
pub proof fn lemma_walk_through_state(t: TrackerView, item: SequenceItem, count: nat, len: nat)
    requires
        !has_fixed_dialogue(item, count),
        t.dialogue_pos == 0,
        count > 0,
        t.progress < len,
    ensures
        forall|j: nat| j < count ==> #[trigger] walk_used(t, item, count, len, j) == Some(j as int),
        forall|j: nat| j < count ==> (#[trigger] walk(t, item, count, len, j)).progress == t.progress,
        forall|j: nat| j < count ==> (#[trigger] walk_ends(t, item, count, len, j)
            <==> (j + 1 == count && t.progress + 1 == len)),
        walk(t, item, count, len, count) == next_item(t, len).0,
{
    assert forall|j: nat| j < count implies #[trigger] walk_used(t, item, count, len, j) == Some(j as int) by {
        lemma_walk_prefix(t, item, count, len, j);
    }
    assert forall|j: nat| j < count implies (#[trigger] walk(t, item, count, len, j)).progress == t.progress by {
        lemma_walk_prefix(t, item, count, len, j);
    }
    assert forall|j: nat| j < count implies (#[trigger] walk_ends(t, item, count, len, j)
        <==> (j + 1 == count && t.progress + 1 == len)) by {
        lemma_walk_prefix(t, item, count, len, j);
    }
    lemma_walk_prefix(t, item, count, len, (count - 1) as nat);
    assert(walk(t, item, count, len, count) == next_item(t, len).0);
}

/// The trackers after `m` requests for sequence `id` with `asset`, each
/// taking the step that `sequence_step` takes.
pub open spec fn after_steps(trackers: Map<u64, TrackerView>, asset: DialogueAsset, id: u64, m: nat) -> Map<u64, TrackerView>
    decreases m,
{
    if m == 0 {
        trackers
    } else {
        let before = after_steps(trackers, asset, id, (m - 1) as nat);
        match planned_step(before, asset, id) {
            Some((_, _, (t, _, _))) => before.insert(id, t),
            None => before,
        }
    }
}

/// Whether request `m` (counting from 0) takes a step.
pub open spec fn step_taken(trackers: Map<u64, TrackerView>, asset: DialogueAsset, id: u64, m: nat) -> bool {
    planned_step(after_steps(trackers, asset, id, m), asset, id) is Some
}

/// Whether request `m` (counting from 0) announces the end of the sequence.
pub open spec fn step_ends(trackers: Map<u64, TrackerView>, asset: DialogueAsset, id: u64, m: nat) -> bool {
    match planned_step(after_steps(trackers, asset, id, m), asset, id) {
        Some((_, _, (_, _, ended))) => ended,
        None => false,
    }
}

/// The number of dialogues of the state of `item` in `asset`.
pub open spec fn item_count(asset: DialogueAsset, item: SequenceItem) -> nat {
    match state_dialogues(asset, item.class, item.state) {
        Some(ds) => ds.len(),
        None => 0,
    }
}

/// The number of requests that `item` takes: one with a fixed dialogue,
/// else one for each dialogue of its state.
pub open spec fn item_uses(asset: DialogueAsset, item: SequenceItem) -> nat {
    if has_fixed_dialogue(item, item_count(asset, item)) {
        1
    } else {
        item_count(asset, item)
    }
}

/// The number of requests that the first `k` items take.
pub open spec fn pass_length(asset: DialogueAsset, items: Seq<SequenceItem>, k: nat) -> nat
    decreases k,
{
    if k == 0 {
        0
    } else {
        pass_length(asset, items, (k - 1) as nat) + item_uses(asset, items[k - 1])
    }
}

/// Every item has a participant and dialogues in its state.
pub open spec fn deliverable(asset: DialogueAsset, items: Seq<SequenceItem>, participants: Map<u64, Entity>) -> bool {
    forall|i: int| 0 <= i < items.len() ==> participants.contains_key(#[trigger] items[i].class)
        && item_count(asset, items[i]) > 0
}

/// Requests compose: `a` requests then `b` more are `a + b` requests.
proof fn lemma_after_steps_add(trackers: Map<u64, TrackerView>, asset: DialogueAsset, id: u64, a: nat, b: nat)
    ensures
        after_steps(trackers, asset, id, a + b) == after_steps(after_steps(trackers, asset, id, a), asset, id, b),
    decreases b,
{
    if b > 0 {
        lemma_after_steps_add(trackers, asset, id, a, (b - 1) as nat);
        assert((a + b - 1) as nat == a + (b - 1) as nat);
    }
}

/// Within item `p`: request `j` (counting from the item's first) takes a
/// step from dialogue position `j`, and announces the end only on the item's
/// last request when it is the sequence's last item; after all of them the
/// tracker stands at the next item (or the first again).
proof fn lemma_item_steps(trackers: Map<u64, TrackerView>, asset: DialogueAsset, id: u64, j: nat)
    requires
        sequence_items(asset, id) is Some,
        trackers.contains_key(id),
        trackers[id].progress < sequence_items(asset, id)->0.len(),
        trackers[id].dialogue_pos == 0,
        deliverable(asset, sequence_items(asset, id)->0, trackers[id].participants),
        j < item_uses(asset, sequence_items(asset, id)->0[trackers[id].progress as int]),
    ensures
        after_steps(trackers, asset, id, j).contains_key(id),
        after_steps(trackers, asset, id, j)[id] == (TrackerView { dialogue_pos: j, ..trackers[id] }),
        step_taken(trackers, asset, id, j),
        step_ends(trackers, asset, id, j) <==> ({
            let items = sequence_items(asset, id)->0;
            let p = trackers[id].progress;
            j + 1 == item_uses(asset, items[p as int]) && p + 1 == items.len()
        }),
        ({
            let items = sequence_items(asset, id)->0;
            let t = trackers[id];
            j + 1 == item_uses(asset, items[t.progress as int]) ==> {
                &&& after_steps(trackers, asset, id, j + 1).contains_key(id)
                &&& after_steps(trackers, asset, id, j + 1)[id] == next_item(t, items.len()).0
            }
        }),
    decreases j,
{
    let items = sequence_items(asset, id)->0;
    let t = trackers[id];
    let item = items[t.progress as int];
    assert(t.participants.contains_key(item.class) && item_count(asset, item) > 0);
    if j > 0 {
        lemma_item_steps(trackers, asset, id, (j - 1) as nat);
    }
    let here = after_steps(trackers, asset, id, j);
    assert(here[id] == (TrackerView { dialogue_pos: j, ..t }));
    assert((TrackerView { dialogue_pos: 0, ..(TrackerView { dialogue_pos: j, ..t }) }) == t);
}

/// One pass of a sequence whose items all have a participant and dialogues,
/// started at its first item (where a first request puts a new tracker):
/// every request of the pass takes a step, the end is announced exactly
/// once, on the request that uses the last item's last dialogue, and the
/// tracker is then back at the first item, so the next request starts the
/// next pass as the first one did.
pub proof fn lemma_pass_ends_once(trackers: Map<u64, TrackerView>, asset: DialogueAsset, id: u64)
    requires
        sequence_items(asset, id) is Some,
        sequence_items(asset, id)->0.len() > 0,
        trackers.contains_key(id),
        trackers[id].progress == 0,
        trackers[id].dialogue_pos == 0,
        deliverable(asset, sequence_items(asset, id)->0, trackers[id].participants),
    ensures
        ({
            let items = sequence_items(asset, id)->0;
            let m = pass_length(asset, items, items.len());
            &&& forall|j: nat| j < m ==> #[trigger] step_taken(trackers, asset, id, j)
            &&& forall|j: nat| j < m ==> (#[trigger] step_ends(trackers, asset, id, j) <==> j + 1 == m)
            &&& after_steps(trackers, asset, id, m).contains_key(id)
            &&& after_steps(trackers, asset, id, m)[id] == trackers[id]
            &&& step_taken(trackers, asset, id, m)
            &&& step_ends(trackers, asset, id, m) == step_ends(trackers, asset, id, 0)
        }),
{
    let items = sequence_items(asset, id)->0;
    let len = items.len();
    lemma_pass_prefix(trackers, asset, id, (len - 1) as nat);
    let a = pass_length(asset, items, (len - 1) as nat);
    let mid = after_steps(trackers, asset, id, a);
    let last = item_uses(asset, items[len - 1]);
    assert(item_count(asset, items[len - 1]) > 0);
    assert(last > 0);
    lemma_item_steps(mid, asset, id, (last - 1) as nat);
    assert(pass_length(asset, items, len) == a + last);
    assert forall|j: nat| a <= j < a + last implies #[trigger] step_taken(trackers, asset, id, j)
        && (step_ends(trackers, asset, id, j) <==> j + 1 == a + last) by {
        let i = (j - a) as nat;
        lemma_after_steps_add(trackers, asset, id, a, i);
        assert(a + i == j);
        assert(mid[id] == (TrackerView { progress: (len - 1) as nat, ..trackers[id] }));
        lemma_item_steps(mid, asset, id, i);
        assert(after_steps(trackers, asset, id, j) == after_steps(mid, asset, id, i));
        assert(step_taken(mid, asset, id, i));
        assert(step_ends(trackers, asset, id, j) == step_ends(mid, asset, id, i));
    }
    assert forall|j: nat|
        #![trigger step_taken(trackers, asset, id, j)]
        #![trigger step_ends(trackers, asset, id, j)]
        j < a + last implies step_taken(trackers, asset, id, j)
        && (step_ends(trackers, asset, id, j) <==> j + 1 == a + last) by {
        if j < a {
            lemma_pass_prefix(trackers, asset, id, (len - 1) as nat);
            assert(j < pass_length(asset, sequence_items(asset, id)->0, (len - 1) as nat));
            assert(step_taken(trackers, asset, id, j));
            assert(!step_ends(trackers, asset, id, j));
            assert(j + 1 != a + last);
        }
    }
    lemma_after_steps_add(trackers, asset, id, a, last);
    assert(next_item(mid[id], len).0 == trackers[id]);
    let again = after_steps(trackers, asset, id, a + last);
    assert(next_speaker(again, asset, id) == next_speaker(trackers, asset, id));
    assert(planned_step(again, asset, id) == planned_step(trackers, asset, id));
    lemma_item_steps(trackers, asset, id, 0);
}

/// After the first `k` items of a pass, every request so far took a step
/// without announcing the end, and the tracker stands at item `k`.
proof fn lemma_pass_prefix(trackers: Map<u64, TrackerView>, asset: DialogueAsset, id: u64, k: nat)
    requires
        sequence_items(asset, id) is Some,
        k < sequence_items(asset, id)->0.len(),
        trackers.contains_key(id),
        trackers[id].progress == 0,
        trackers[id].dialogue_pos == 0,
        deliverable(asset, sequence_items(asset, id)->0, trackers[id].participants),
    ensures
        ({
            let items = sequence_items(asset, id)->0;
            let a = pass_length(asset, items, k);
            &&& forall|j: nat| j < a ==> #[trigger] step_taken(trackers, asset, id, j)
                && !step_ends(trackers, asset, id, j)
            &&& after_steps(trackers, asset, id, a).contains_key(id)
            &&& after_steps(trackers, asset, id, a)[id] == (TrackerView { progress: k, ..trackers[id] })
        }),
    decreases k,
{
    let items = sequence_items(asset, id)->0;
    if k > 0 {
        lemma_pass_prefix(trackers, asset, id, (k - 1) as nat);
        let a = pass_length(asset, items, (k - 1) as nat);
        let mid = after_steps(trackers, asset, id, a);
        let uses = item_uses(asset, items[k - 1]);
        assert(item_count(asset, items[k - 1]) > 0);
        assert forall|j: nat| j < a + uses implies #[trigger] step_taken(trackers, asset, id, j)
            && !step_ends(trackers, asset, id, j) by {
            if j >= a {
                let i = (j - a) as nat;
                lemma_after_steps_add(trackers, asset, id, a, i);
                assert(a + i == j);
                lemma_item_steps(mid, asset, id, i);
            }
        }
        lemma_item_steps(mid, asset, id, (uses - 1) as nat);
        lemma_after_steps_add(trackers, asset, id, a, uses);
    }
}

/// An item with a fixed dialogue `p` among the dialogues of its state is
/// used once: the step speaks dialogue `p` and moves the tracker to the next
/// item, or, after the last item, back to the first with the end announced;
/// the dialogue position within the state is left as it was.
pub proof fn lemma_fixed_dialogue_used_once(trackers: Map<u64, TrackerView>, asset: DialogueAsset, id: u64, p: usize)
    requires
        sequence_items(asset, id) is Some,
        trackers.contains_key(id),
        trackers[id].progress < sequence_items(asset, id)->0.len(),
        ({
            let items = sequence_items(asset, id)->0;
            let t = trackers[id];
            let item = items[t.progress as int];
            &&& t.participants.contains_key(item.class)
            &&& state_dialogues(asset, item.class, item.state) is Some
            &&& item.dialogue == Some(p)
            &&& p < state_dialogues(asset, item.class, item.state)->0.len()
        }),
    ensures
        ({
            let items = sequence_items(asset, id)->0;
            let t = trackers[id];
            let item = items[t.progress as int];
            let last = t.progress + 1 >= items.len();
            planned_step(trackers, asset, id) == Some((
                t.participants[item.class],
                state_dialogues(asset, item.class, item.state)->0,
                (
                    TrackerView {
                        participants: t.participants,
                        progress: if last { 0 } else { (t.progress + 1) as nat },
                        dialogue_pos: t.dialogue_pos,
                    },
                    p as int,
                    last,
                ),
            ))
        }),
{
}

/// The first request of a sequence that the asset has starts it at its
/// first item and first dialogue, with the request's participants; a later
/// request leaves every tracker, participants included, as it was.
pub proof fn lemma_request_starts_once(trackers: Map<u64, TrackerView>, asset: DialogueAsset, request: RequestSequence)
    ensures
        ({
            let id = request.sequence_id;
            let after = trackers_after_request(trackers, asset, request);
            &&& trackers.contains_key(id) ==> after == trackers
            &&& sequence_items(asset, id) is None ==> after == trackers
            &&& (!trackers.contains_key(id) && sequence_items(asset, id) is Some) ==> {
                &&& after.contains_key(id)
                &&& after[id].participants == participant_map(request.participants)
                &&& after[id].progress == 0
                &&& after[id].dialogue_pos == 0
                &&& forall|k: u64| k != id ==> (after.contains_key(k) == trackers.contains_key(k)
                    && (trackers.contains_key(k) ==> #[trigger] after[k] == trackers[k]))
            }
        }),
{
}

/// A sequence request is answered with the first asset, in order, that has
/// the sequence: asset `k` when it has and none before it has; none when no
/// asset has.
pub proof fn lemma_first_asset_with_sequence<'a>(assets: Seq<&'a DialogueAsset>, id: u64)
    ensures
        forall|k: int| 0 <= k < assets.len() && sequence_items(*assets[k], id) is Some
            && (forall|j: int| 0 <= j < k ==> sequence_items(*assets[j], id) is None)
            ==> asset_with_sequence(assets, id) == Some(*assets[k]),
        (forall|k: int| 0 <= k < assets.len() ==> sequence_items(*assets[k], id) is None)
            ==> asset_with_sequence(assets, id) is None,
    decreases assets.len(),
{
    if assets.len() > 0 {
        let rest = assets.drop_first();
        lemma_first_asset_with_sequence(rest, id);
        assert forall|k: int| 0 <= k < assets.len() && sequence_items(*assets[k], id) is Some
            && (forall|j: int| 0 <= j < k ==> sequence_items(*assets[j], id) is None)
            implies asset_with_sequence(assets, id) == Some(*assets[k]) by {
            if k > 0 {
                assert(sequence_items(*assets[0], id) is None);
                assert(rest[k - 1] == assets[k]);
                assert forall|j: int| 0 <= j < k - 1 implies sequence_items(*rest[j], id) is None by {
                    assert(rest[j] == assets[j + 1]);
                }
            }
        }
        if forall|k: int| 0 <= k < assets.len() ==> sequence_items(*assets[k], id) is None {
            assert(sequence_items(*assets[0], id) is None);
            assert forall|k: int| 0 <= k < rest.len() implies sequence_items(*rest[k], id) is None by {
                assert(rest[k] == assets[k + 1]);
            }
        }
    }
}

} // verus!
