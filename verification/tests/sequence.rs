use bevy::platform::collections::HashMap;
use bevy::prelude::Entity;
use bevy_dialogue::model::{
    Dialogue, DialogueAsset, DialogueComponent, DialogueConfig, RequestSequence, SequenceItem, SequenceTracker,
};
use bevy_dialogue::sequence::{sequence_request, sequence_speaker, sequence_step};
use indexmap::IndexMap;
use isolang::Language;

fn entity(n: u32) -> Entity {
    Entity::from_raw_u32(n).unwrap()
}

fn line(text: &str, events: &[u64]) -> Dialogue {
    let mut c = IndexMap::new();
    c.insert(Language::Eng, text.to_string());
    Dialogue { contents: c, affects: HashMap::new(), events: events.to_vec() }
}

const HERO: u64 = 1;
const VILLAGER: u64 = 2;
const SEQ: u64 = 100;

fn sample() -> DialogueAsset {
    let mut hero = IndexMap::new();
    hero.insert(1u64, vec![line("h0", &[]), line("h1 {{who}}", &[5])]);
    hero.insert(2u64, vec![line("angry", &[6])]);
    let mut villager = IndexMap::new();
    villager.insert(1u64, vec![line("v0", &[]), line("v1", &[])]);
    let mut dialogues = HashMap::new();
    dialogues.insert(HERO, hero);
    dialogues.insert(VILLAGER, villager);
    let mut sequences = IndexMap::new();
    sequences.insert(SEQ, vec![
        SequenceItem { class: HERO, state: 1, dialogue: Some(1) },
        SequenceItem { class: VILLAGER, state: 1, dialogue: None },
        SequenceItem { class: HERO, state: 2, dialogue: Some(9) },
    ]);
    DialogueAsset { dialogues, sequences }
}

fn config() -> DialogueConfig {
    let mut variables = HashMap::new();
    variables.insert("who".to_string(), "you".to_string());
    DialogueConfig { variables, global_lang: None }
}

fn request() -> RequestSequence {
    RequestSequence::new(SEQ).with_participant(HERO, entity(1)).with_participant(VILLAGER, entity(2))
}

/// One request with one asset: who speaks, and what.
fn step(trackers: &mut SequenceTracker, asset: &DialogueAsset, req: &RequestSequence) -> Option<(Entity, usize, Vec<u64>, Vec<String>, bool)> {
    let speaker = sequence_speaker(trackers, asset, req)?;
    let character = DialogueComponent::new(0, 0);
    let l = sequence_step(trackers, asset, req, &character, &config())?;
    assert_eq!(l.entity, speaker);
    Some((
        l.entity,
        l.dialogue,
        l.triggers.iter().map(|t| t.event_id).collect(),
        l.available.map(|a| a.dialogues).unwrap_or_default(),
        l.ended.is_some(),
    ))
}

#[test]
fn sequence_walks_through_its_items() {
    let a = sample();
    let mut trackers = SequenceTracker::new();
    let req = request();
    assert_eq!(step(&mut trackers, &a, &req), Some((entity(1), 1, vec![5], vec!["h1 you".to_string()], false)));
    assert_eq!(step(&mut trackers, &a, &req), Some((entity(2), 0, vec![], vec!["v0".to_string()], false)));
    assert_eq!(step(&mut trackers, &a, &req), Some((entity(2), 1, vec![], vec!["v1".to_string()], false)));
    assert_eq!(step(&mut trackers, &a, &req), Some((entity(1), 0, vec![6], vec!["angry".to_string()], true)));
    let t = trackers.trackers.get(&SEQ).unwrap();
    assert_eq!(t.progress, 0);
    assert_eq!(t.dialogue_pos, 0);
    assert_eq!(step(&mut trackers, &a, &req), Some((entity(1), 1, vec![5], vec!["h1 you".to_string()], false)));
}

#[test]
fn end_is_announced_once_per_pass() {
    let a = sample();
    let mut trackers = SequenceTracker::new();
    let req = request();
    let ends: Vec<bool> = (0..5).map(|_| step(&mut trackers, &a, &req).unwrap().4).collect();
    assert_eq!(ends, vec![false, false, false, true, false]);
}

#[test]
fn whole_request_with_assets_and_characters() {
    let empty = DialogueAsset { dialogues: HashMap::new(), sequences: IndexMap::new() };
    let a = sample();
    let mut b = sample();
    b.sequences.insert(SEQ, vec![SequenceItem { class: VILLAGER, state: 1, dialogue: Some(1) }]);
    let assets = vec![&empty, &a, &b];
    let characters = vec![
        (entity(2), DialogueComponent::new(VILLAGER, 1)),
        (entity(1), DialogueComponent::new(HERO, 1).with_lang(Language::Eng)),
    ];
    let mut trackers = SequenceTracker::new();
    let req = request();
    let l = sequence_request(&mut trackers, &assets, &req, &characters, &config()).unwrap();
    assert_eq!(l.entity, entity(1));
    assert_eq!(l.dialogue, 1);
    assert_eq!(l.available.unwrap().dialogues, vec!["h1 you".to_string()]);
    assert_eq!(trackers.trackers.get(&SEQ).unwrap().progress, 1);
    let l = sequence_request(&mut trackers, &assets, &req, &characters, &config()).unwrap();
    assert_eq!(l.entity, entity(2));
    assert_eq!(l.dialogue, 0);
    let only_villager = vec![(entity(2), DialogueComponent::new(VILLAGER, 1))];
    let mut fresh = SequenceTracker::new();
    assert!(sequence_request(&mut fresh, &assets, &req, &only_villager, &config()).is_none());
    assert_eq!(fresh.trackers.get(&SEQ).unwrap().progress, 0);
    let mut none = SequenceTracker::new();
    assert!(sequence_request(&mut none, &vec![&empty], &req, &characters, &config()).is_none());
    assert!(none.trackers.is_empty());
}

#[test]
fn participants_are_set_once() {
    let a = sample();
    let mut trackers = SequenceTracker::new();
    assert_eq!(step(&mut trackers, &a, &request()).map(|s| s.0), Some(entity(1)));
    let other = RequestSequence::new(SEQ).with_participant(HERO, entity(8)).with_participant(VILLAGER, entity(9));
    assert_eq!(step(&mut trackers, &a, &other).map(|s| s.0), Some(entity(2)));
}

#[test]
fn missing_participant_stops_the_request() {
    let a = sample();
    let mut trackers = SequenceTracker::new();
    let req = RequestSequence::new(SEQ).with_participant(VILLAGER, entity(2));
    assert_eq!(sequence_speaker(&mut trackers, &a, &req), None);
    let t = trackers.trackers.get(&SEQ).unwrap();
    assert_eq!(t.progress, 0);
    assert_eq!(t.participants.len(), 1);
}

#[test]
fn unknown_sequence_leaves_no_tracker() {
    let a = sample();
    let mut trackers = SequenceTracker::new();
    let req = RequestSequence::new(7).with_participant(HERO, entity(1));
    assert_eq!(sequence_speaker(&mut trackers, &a, &req), None);
    assert!(trackers.trackers.is_empty());
    let c = DialogueComponent::new(HERO, 1);
    assert!(sequence_step(&mut trackers, &a, &req, &c, &config()).is_none());
}

#[test]
fn item_without_dialogues_stops_the_request() {
    let mut a = sample();
    a.sequences.insert(SEQ, vec![SequenceItem { class: HERO, state: 42, dialogue: None }]);
    let mut trackers = SequenceTracker::new();
    let req = request();
    assert_eq!(sequence_speaker(&mut trackers, &a, &req), Some(entity(1)));
    let c = DialogueComponent::new(HERO, 1);
    assert!(sequence_step(&mut trackers, &a, &req, &c, &config()).is_none());
    assert_eq!(trackers.trackers.get(&SEQ).unwrap().progress, 0);
}

#[test]
fn sequence_line_in_the_speakers_language() {
    let mut hero = IndexMap::new();
    let mut contents = IndexMap::new();
    contents.insert(Language::Eng, "hello".to_string());
    contents.insert(Language::Spa, "hola".to_string());
    hero.insert(1u64, vec![Dialogue { contents, affects: HashMap::new(), events: vec![] }]);
    let mut dialogues = HashMap::new();
    dialogues.insert(HERO, hero);
    let mut sequences = IndexMap::new();
    sequences.insert(SEQ, vec![SequenceItem { class: HERO, state: 1, dialogue: None }]);
    let a = DialogueAsset { dialogues, sequences };
    let mut trackers = SequenceTracker::new();
    let req = RequestSequence::new(SEQ).with_participant(HERO, entity(1));
    let speaker = sequence_speaker(&mut trackers, &a, &req).unwrap();
    assert_eq!(speaker, entity(1));
    let c = DialogueComponent::new(HERO, 1).with_lang(Language::Spa);
    let l = sequence_step(&mut trackers, &a, &req, &c, &config()).unwrap();
    assert_eq!(l.available.unwrap().dialogues, vec!["hola".to_string()]);
    let c = DialogueComponent::new(HERO, 1).with_lang(Language::Fra);
    let mut trackers = SequenceTracker::new();
    sequence_speaker(&mut trackers, &a, &req).unwrap();
    let l = sequence_step(&mut trackers, &a, &req, &c, &config()).unwrap();
    assert!(l.available.is_none());
    assert_eq!(l.ended.map(|e| e.0), Some(SEQ));
}
