//! The data of the dialogue system: assets, characters, requests and the
//! notices sent back.
use vstd::prelude::*;
use bevy::platform::collections::HashMap;
use bevy::prelude::Entity;
use indexmap::IndexMap;
use isolang::Language;

use crate::outside::{participant_map, participants_insert, participants_new, tracker_map, trackers_new};

verus! {

/// The plugin. An application adds it to its `App` to get the dialogue system.
pub struct DialoguePlugin;

/// One dialogue line of a character state.
pub struct Dialogue {
    /// The content in several languages, in the order the asset gives them.
    pub contents: IndexMap<Language, String>,
    /// The class of a listener, and the state that listener changes to
    /// when it answers this dialogue.
    pub affects: HashMap<u64, u64>,
    /// The event ids that this dialogue triggers when it is used.
    pub events: Vec<u64>,
}

/// One step of a sequence: a dialogue of a class in a state.
#[derive(Clone, Copy, Debug)]
pub struct SequenceItem {
    pub class: u64,
    pub state: u64,
    /// The position of the dialogue in the state. Without it, every dialogue
    /// of the state is used in turn.
    pub dialogue: Option<usize>,
}

/// A dialogue asset: the dialogues of each class by state, and the sequences.
pub struct DialogueAsset {
    /// Class id to (state id to the dialogues of that state).
    pub dialogues: HashMap<u64, IndexMap<u64, Vec<Dialogue>>>,
    /// Sequence id to its items, in order.
    pub sequences: IndexMap<u64, Vec<SequenceItem>>,
}

/// Global settings of the dialogue system.
pub struct DialogueConfig {
    /// Values of the `{{name}}` variables of the dialogue contents.
    pub variables: HashMap<String, String>,
    /// The language of all characters, unless overridden.
    pub global_lang: Option<Language>,
}

/// The dialogue state of a character.
#[derive(Clone, Copy, Debug)]
pub struct DialogueComponent {
    /// Dialogue class id.
    pub class: u64,
    /// Dialogue state id.
    pub state: u64,
    /// Position of the last dialogue used in the state.
    pub dialogue: usize,
    /// Default language of the character.
    pub default_lang: Option<Language>,
}

/// Which dialogues of the current state a request asks for.
#[derive(Clone, Copy, Debug, PartialEq, Eq)]
pub enum RequestType {
    /// A random dialogue of the current state.
    Random,
    /// Every dialogue of the current state.
    All,
    /// The dialogue at the given position of the current state.
    One(usize),
}

/// Asks for the dialogue of a character.
#[derive(Clone, Copy, Debug)]
pub struct RequestDialogue {
    /// The character who talks.
    pub entity: Entity,
    /// The one the character talks to.
    pub to: Option<Entity>,
    pub request_type: RequestType,
    /// Overrides the character's default language.
    pub request_lang: Option<Language>,
}

/// Asks for the next line of a sequence.
pub struct RequestSequence {
    pub sequence_id: u64,
    /// Participant by class id. Only read at the first request of a sequence id.
    pub participants: HashMap<u64, Entity>,
    /// Overrides the characters' default language.
    pub request_lang: Option<Language>,
}

/// Sent once for each event id of a dialogue that is used.
#[derive(Clone, Copy, Debug)]
pub struct DialogueTrigger {
    pub entity: Entity,
    pub event_id: u64,
}

/// Sent with the dialogues found for a character.
#[derive(Debug)]
pub struct DialogueAvailable {
    pub entity: Entity,
    pub dialogues: Vec<String>,
}

/// Changes a character's state: to `next_state` if it is one of the states
/// of the character's class, or, without it, to the state after the current one.
pub struct DialogueStateChanged {
    pub entity: Entity,
    pub next_state: Option<u64>,
}

/// Announces that the sequence with this id has ended.
#[derive(Clone, Copy, Debug)]
pub struct DialogueSequenceEnd(pub u64);

/// Where a running sequence stands.
pub struct Tracker {
    pub participants: HashMap<u64, Entity>,
    /// Position of the next item of the sequence.
    pub progress: usize,
    /// Position of the next dialogue within the current item's state.
    pub dialogue_pos: usize,
}

/// What a tracker holds, as plain values.
pub struct TrackerView {
    pub participants: Map<u64, Entity>,
    pub progress: nat,
    pub dialogue_pos: nat,
}

impl View for Tracker {
    type V = TrackerView;

    open spec fn view(&self) -> TrackerView {
        TrackerView {
            participants: participant_map(self.participants),
            progress: self.progress as nat,
            dialogue_pos: self.dialogue_pos as nat,
        }
    }
}

/// The trackers of all sequences that were requested, by sequence id.
pub struct SequenceTracker {
    pub trackers: HashMap<u64, Tracker>,
}

impl View for SequenceTracker {
    type V = Map<u64, TrackerView>;

    open spec fn view(&self) -> Map<u64, TrackerView> {
        tracker_map(self.trackers).map_values(|t: Tracker| t@)
    }
}

impl SequenceTracker {
    /// No sequence is running.
    pub fn new() -> (r: Self)
        ensures
            r@ == Map::<u64, TrackerView>::empty(),
    {
        let r = SequenceTracker { trackers: trackers_new() };
        assert(r@ =~= Map::<u64, TrackerView>::empty());
        r
    }
}

impl Default for DialogueComponent {
    fn default() -> (r: Self)
        ensures
            r.class == 0,
            r.state == 0,
            r.dialogue == 0,
            r.default_lang is None,
    {
        DialogueComponent::new(0, 0)
    }
}

impl Default for RequestSequence {
    fn default() -> (r: Self)
        ensures
            r.sequence_id == 0,
            participant_map(r.participants) == Map::<u64, Entity>::empty(),
            r.request_lang is None,
    {
        RequestSequence::new(0)
    }
}

impl Default for SequenceTracker {
    fn default() -> (r: Self)
        ensures
            r@ == Map::<u64, TrackerView>::empty(),
    {
        SequenceTracker::new()
    }
}

impl Default for RequestType {
    fn default() -> (r: Self)
        ensures
            r is Random,
    {
        RequestType::Random
    }
}

impl DialogueComponent {
    /// A character of class `class` in state `state`, at dialogue 0, without a language.
    pub fn new(class: u64, state: u64) -> (r: Self)
        ensures
            r.class == class,
            r.state == state,
            r.dialogue == 0,
            r.default_lang is None,
    {
        DialogueComponent { class, state, dialogue: 0, default_lang: None }
    }

    /// The same character, speaking `lang` by default.
    pub fn with_lang(self, lang: Language) -> (r: Self)
        ensures
            r.class == self.class,
            r.state == self.state,
            r.dialogue == self.dialogue,
            r.default_lang == Some(lang),
    {
        let mut s = self;
        s.default_lang = Some(lang);
        s
    }
}

impl RequestDialogue {
    /// A request for a random dialogue of `entity`, talking to nobody, in no language.
    pub fn new(entity: Entity) -> (r: Self)
        ensures
            r.entity == entity,
            r.to is None,
            r.request_type is Random,
            r.request_lang is None,
    {
        RequestDialogue { entity, to: None, request_type: RequestType::Random, request_lang: None }
    }

    /// The same request, talking to `to`.
    pub fn talk_to(self, to: Entity) -> (r: Self)
        ensures
            r.entity == self.entity,
            r.to == Some(to),
            r.request_type == self.request_type,
            r.request_lang == self.request_lang,
    {
        let mut s = self;
        s.to = Some(to);
        s
    }

    /// The same request, asking for `request_type`.
    pub fn with_type(self, request_type: RequestType) -> (r: Self)
        ensures
            r.entity == self.entity,
            r.to == self.to,
            r.request_type == request_type,
            r.request_lang == self.request_lang,
    {
        let mut s = self;
        s.request_type = request_type;
        s
    }

    /// The same request, in language `lang`.
    pub fn with_lang(self, lang: Language) -> (r: Self)
        ensures
            r.entity == self.entity,
            r.to == self.to,
            r.request_type == self.request_type,
            r.request_lang == Some(lang),
    {
        let mut s = self;
        s.request_lang = Some(lang);
        s
    }
}

impl RequestSequence {
    /// A request for sequence `sequence_id`, without participants or language.
    pub fn new(sequence_id: u64) -> (r: Self)
        ensures
            r.sequence_id == sequence_id,
            participant_map(r.participants) == Map::<u64, Entity>::empty(),
            r.request_lang is None,
    {
        RequestSequence { sequence_id, participants: participants_new(), request_lang: None }
    }

    /// The same request, with `entity` as the participant of class `class_id`.
    pub fn with_participant(self, class_id: u64, entity: Entity) -> (r: Self)
        ensures
            r.sequence_id == self.sequence_id,
            participant_map(r.participants) == participant_map(self.participants).insert(class_id, entity),
            r.request_lang == self.request_lang,
    {
        let mut s = self;
        participants_insert(&mut s.participants, class_id, entity);
        s
    }

    /// The same request, with `participants` in place of its participants.
    pub fn with_participants(self, participants: HashMap<u64, Entity>) -> (r: Self)
        ensures
            r.sequence_id == self.sequence_id,
            r.participants == participants,
            r.request_lang == self.request_lang,
    {
        let mut s = self;
        s.participants = participants;
        s
    }

    /// The same request, in language `lang`.
    pub fn with_lang(self, lang: Language) -> (r: Self)
        ensures
            r.sequence_id == self.sequence_id,
            r.participants == self.participants,
            r.request_lang == Some(lang),
    {
        let mut s = self;
        s.request_lang = Some(lang);
        s
    }
}

} // verus!
