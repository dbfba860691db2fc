use bevy::platform::collections::HashMap;
use bevy::prelude::Entity;
use bevy_dialogue::dialogue::{find_offer, respond, respond_with_pick};
use bevy_dialogue::language::{line_of_dialogue, pick_content, resolve_language};
use bevy_dialogue::model::{
    Dialogue, DialogueAsset, DialogueComponent, DialogueConfig, RequestDialogue, RequestType,
};
use bevy_rand::prelude::WyRand;
use indexmap::IndexMap;
use isolang::Language;
use rand::SeedableRng;

fn entity(n: u32) -> Entity {
    Entity::from_raw_u32(n).unwrap()
}

fn dialogue(contents: &[(Language, &str)], affects: &[(u64, u64)], events: &[u64]) -> Dialogue {
    let mut c = IndexMap::new();
    for (l, s) in contents {
        c.insert(*l, s.to_string());
    }
    let mut a = HashMap::new();
    for (k, v) in affects {
        a.insert(*k, *v);
    }
    Dialogue { contents: c, affects: a, events: events.to_vec() }
}

fn asset(classes: Vec<(u64, Vec<(u64, Vec<Dialogue>)>)>) -> DialogueAsset {
    let mut dialogues = HashMap::new();
    for (class, states) in classes {
        let mut m = IndexMap::new();
        for (state, ds) in states {
            m.insert(state, ds);
        }
        dialogues.insert(class, m);
    }
    DialogueAsset { dialogues, sequences: IndexMap::new() }
}

fn config(global: Option<Language>) -> DialogueConfig {
    let mut variables = HashMap::new();
    variables.insert("hero_name".to_string(), "Sam".to_string());
    DialogueConfig { variables, global_lang: global }
}

const HERO: u64 = 1;
const VILLAGER: u64 = 2;
const NORMAL: u64 = 1;
const ANGRY: u64 = 2;

fn sample() -> DialogueAsset {
    asset(vec![
        (HERO, vec![
            (NORMAL, vec![
                dialogue(&[(Language::Eng, "Hello, I am {{hero_name}}"), (Language::Spa, "Hola, soy {{hero_name}}")], &[(VILLAGER, ANGRY)], &[7, 8]),
                dialogue(&[(Language::Spa, "Adiós")], &[], &[9]),
                dialogue(&[(Language::Eng, "Bye")], &[], &[]),
            ]),
            (ANGRY, vec![dialogue(&[(Language::Eng, "Grr")], &[], &[3])]),
        ]),
        (VILLAGER, vec![
            (NORMAL, vec![dialogue(&[(Language::Eng, "Welcome")], &[], &[])]),
            (ANGRY, vec![dialogue(&[(Language::Eng, "Go away, {{hero_name}}")], &[], &[11])]),
        ]),
    ])
}

fn rng() -> WyRand {
    WyRand::seed_from_u64(42)
}

#[test]
fn language_priority() {
    let eng = Some(Language::Eng);
    let spa = Some(Language::Spa);
    let fra = Some(Language::Fra);
    assert_eq!(resolve_language(eng, spa, fra), eng);
    assert_eq!(resolve_language(None, spa, fra), spa);
    assert_eq!(resolve_language(None, None, fra), fra);
    assert_eq!(resolve_language(None, None, None), None);
}

#[test]
fn first_language_when_none_is_asked() {
    let d = dialogue(&[(Language::Spa, "Hola"), (Language::Eng, "Hello")], &[], &[]);
    assert_eq!(pick_content(&d.contents, None).map(|s| s.as_str()), Some("Hola"));
    assert_eq!(pick_content(&d.contents, Some(Language::Eng)).map(|s| s.as_str()), Some("Hello"));
    assert_eq!(pick_content(&d.contents, Some(Language::Fra)), None);
    let cfg = config(None);
    assert_eq!(line_of_dialogue(&d, Some(Language::Spa), &cfg.variables), Some("Hola".to_string()));
    assert_eq!(line_of_dialogue(&d, Some(Language::Deu), &cfg.variables), None);
}

#[test]
fn one_dialogue_with_events_and_variables() {
    let a = sample();
    let assets = vec![&a];
    let hero = DialogueComponent::new(HERO, NORMAL);
    let req = RequestDialogue::new(entity(1)).with_type(RequestType::One(0)).with_lang(Language::Eng);
    let resp = respond(&assets, &config(None), &req, &hero, None, &mut rng()).unwrap();
    assert_eq!(resp.state, NORMAL);
    assert_eq!(resp.dialogue, 0);
    assert_eq!(resp.triggers.iter().map(|t| t.event_id).collect::<Vec<_>>(), vec![7, 8]);
    assert!(resp.triggers.iter().all(|t| t.entity == entity(1)));
    assert_eq!(resp.available.as_ref().unwrap().entity, entity(1));
    assert_eq!(resp.available.as_ref().unwrap().dialogues, vec!["Hello, I am Sam".to_string()]);
}

#[test]
fn one_dialogue_out_of_range() {
    let a = sample();
    let assets = vec![&a];
    let mut hero = DialogueComponent::new(HERO, NORMAL);
    hero.dialogue = 2;
    let req = RequestDialogue::new(entity(1)).with_type(RequestType::One(5));
    let resp = respond(&assets, &config(None), &req, &hero, None, &mut rng()).unwrap();
    assert_eq!(resp.state, NORMAL);
    assert_eq!(resp.dialogue, 2);
    assert!(resp.triggers.is_empty());
    assert!(resp.available.as_ref().unwrap().dialogues.is_empty());
}

#[test]
fn all_dialogues_as_choices() {
    let a = sample();
    let assets = vec![&a];
    let hero = DialogueComponent::new(HERO, NORMAL).with_lang(Language::Eng);
    let req = RequestDialogue::new(entity(1)).with_type(RequestType::All);
    let resp = respond(&assets, &config(None), &req, &hero, None, &mut rng()).unwrap();
    assert_eq!(resp.available.as_ref().unwrap().dialogues, vec!["Hello, I am Sam".to_string(), "Bye".to_string()]);
    assert!(resp.triggers.is_empty());
    assert_eq!(resp.dialogue, 0);

    let no_lang = DialogueComponent::new(HERO, NORMAL);
    let resp = respond(&assets, &config(None), &req, &no_lang, None, &mut rng()).unwrap();
    assert_eq!(resp.available.as_ref().unwrap().dialogues, vec!["Hello, I am Sam".to_string(), "Adiós".to_string(), "Bye".to_string()]);
}

#[test]
fn choices_match_single_requests() {
    let a = sample();
    let assets = vec![&a];
    let hero = DialogueComponent::new(HERO, NORMAL);
    let cfg = config(None);
    let all = respond(&assets, &cfg, &RequestDialogue::new(entity(1)).with_type(RequestType::All), &hero, None, &mut rng()).unwrap();
    for i in 0..3 {
        let one = respond(&assets, &cfg, &RequestDialogue::new(entity(1)).with_type(RequestType::One(i)), &hero, None, &mut rng()).unwrap();
        assert_eq!(one.available.as_ref().unwrap().dialogues, vec![all.available.as_ref().unwrap().dialogues[i].clone()]);
        assert_eq!(one.dialogue, i);
    }
}

#[test]
fn random_dialogue_is_one_of_the_state() {
    let a = sample();
    let assets = vec![&a];
    let hero = DialogueComponent::new(HERO, NORMAL);
    let cfg = config(None);
    let mut r = rng();
    for _ in 0..20 {
        let req = RequestDialogue::new(entity(1));
        let resp = respond(&assets, &cfg, &req, &hero, None, &mut r).unwrap();
        assert!(resp.dialogue < 3);
        let one = respond(&assets, &cfg, &RequestDialogue::new(entity(1)).with_type(RequestType::One(resp.dialogue)), &hero, None, &mut r).unwrap();
        assert_eq!(resp.available.as_ref().unwrap().dialogues, one.available.as_ref().unwrap().dialogues);
        assert_eq!(
            resp.triggers.iter().map(|t| t.event_id).collect::<Vec<_>>(),
            one.triggers.iter().map(|t| t.event_id).collect::<Vec<_>>()
        );
    }
}

#[test]
fn random_with_given_pick() {
    let a = sample();
    let states = a.dialogues.get(&HERO).unwrap();
    let ds = states.get(&NORMAL).unwrap();
    let hero = DialogueComponent::new(HERO, NORMAL);
    let resp = respond_with_pick(ds, NORMAL, &RequestDialogue::new(entity(1)), &hero, &config(None), 1);
    assert_eq!(resp.dialogue, 1);
    assert_eq!(resp.available.as_ref().unwrap().dialogues, vec!["Adiós".to_string()]);
    assert_eq!(resp.triggers.iter().map(|t| t.event_id).collect::<Vec<_>>(), vec![9]);
}

#[test]
fn talking_to_changes_the_state() {
    let a = sample();
    let assets = vec![&a];
    let hero = DialogueComponent::new(HERO, NORMAL);
    let villager = DialogueComponent::new(VILLAGER, NORMAL);
    let req = RequestDialogue::new(entity(2)).talk_to(entity(1));
    let resp = respond(&assets, &config(None), &req, &villager, Some(&hero), &mut rng()).unwrap();
    assert_eq!(resp.state, ANGRY);
    assert_eq!(resp.available.as_ref().unwrap().dialogues, vec!["Go away, Sam".to_string()]);
    assert_eq!(resp.triggers.iter().map(|t| t.event_id).collect::<Vec<_>>(), vec![11]);

    let mut hero_later = hero;
    hero_later.dialogue = 1;
    let resp = respond(&assets, &config(None), &req, &villager, Some(&hero_later), &mut rng()).unwrap();
    assert_eq!(resp.state, NORMAL);
    assert_eq!(resp.available.as_ref().unwrap().dialogues, vec!["Welcome".to_string()]);
}

#[test]
fn request_language_over_character_and_global() {
    let a = sample();
    let assets = vec![&a];
    let hero = DialogueComponent::new(HERO, NORMAL).with_lang(Language::Eng);
    let req = RequestDialogue::new(entity(1)).with_type(RequestType::One(0));
    let resp = respond(&assets, &config(Some(Language::Spa)), &req, &hero, None, &mut rng()).unwrap();
    assert_eq!(resp.available.as_ref().unwrap().dialogues, vec!["Hello, I am Sam".to_string()]);
    let plain = DialogueComponent::new(HERO, NORMAL);
    let resp = respond(&assets, &config(Some(Language::Spa)), &req, &plain, None, &mut rng()).unwrap();
    assert_eq!(resp.available.as_ref().unwrap().dialogues, vec!["Hola, soy Sam".to_string()]);
    let resp = respond(&assets, &config(Some(Language::Spa)), &req.with_lang(Language::Eng), &plain, None, &mut rng()).unwrap();
    assert_eq!(resp.available.as_ref().unwrap().dialogues, vec!["Hello, I am Sam".to_string()]);
}

#[test]
fn no_dialogues_for_the_character() {
    let a = sample();
    let assets = vec![&a];
    let stranger = DialogueComponent::new(99, NORMAL);
    assert!(respond(&assets, &config(None), &RequestDialogue::new(entity(1)), &stranger, None, &mut rng()).is_none());
    let lost = DialogueComponent::new(HERO, 42);
    assert!(respond(&assets, &config(None), &RequestDialogue::new(entity(1)), &lost, None, &mut rng()).is_none());
    let empty: Vec<&DialogueAsset> = vec![];
    assert!(respond(&empty, &config(None), &RequestDialogue::new(entity(1)), &lost, None, &mut rng()).is_none());
}

#[test]
fn empty_state_stops_the_search() {
    let first = asset(vec![(HERO, vec![(NORMAL, vec![])])]);
    let second = sample();
    let assets = vec![&first, &second];
    let mut hero = DialogueComponent::new(HERO, NORMAL);
    hero.dialogue = 3;
    let mut r = rng();
    let before = r.clone();
    let resp = respond(&assets, &config(None), &RequestDialogue::new(entity(1)), &hero, None, &mut r).unwrap();
    assert_eq!(resp.state, NORMAL);
    assert_eq!(resp.dialogue, 3);
    assert!(resp.triggers.is_empty());
    assert!(resp.available.is_none());
    assert!(r == before);
}

#[test]
fn affected_state_without_dialogues_still_changes() {
    let listener_asset = asset(vec![
        (HERO, vec![(NORMAL, vec![dialogue(&[(Language::Eng, "Hi")], &[(VILLAGER, 77)], &[])])]),
        (VILLAGER, vec![(NORMAL, vec![dialogue(&[(Language::Eng, "Welcome")], &[], &[])])]),
    ]);
    let assets = vec![&listener_asset];
    let hero = DialogueComponent::new(HERO, NORMAL);
    let mut villager = DialogueComponent::new(VILLAGER, NORMAL);
    villager.dialogue = 0;
    let req = RequestDialogue::new(entity(2)).talk_to(entity(1));
    let resp = respond(&assets, &config(None), &req, &villager, Some(&hero), &mut rng()).unwrap();
    assert_eq!(resp.state, 77);
    assert_eq!(resp.dialogue, 0);
    assert!(resp.triggers.is_empty());
    assert!(resp.available.is_none());
}

#[test]
fn generator_untouched_unless_random() {
    let a = sample();
    let assets = vec![&a];
    let hero = DialogueComponent::new(HERO, NORMAL);
    let cfg = config(None);
    for t in [RequestType::All, RequestType::One(0), RequestType::One(9)] {
        let mut r = rng();
        let before = r.clone();
        respond(&assets, &cfg, &RequestDialogue::new(entity(1)).with_type(t), &hero, None, &mut r).unwrap();
        assert!(r == before);
    }
    let stranger = DialogueComponent::new(99, NORMAL);
    let mut r = rng();
    let before = r.clone();
    assert!(respond(&assets, &cfg, &RequestDialogue::new(entity(1)), &stranger, None, &mut r).is_none());
    assert!(r == before);
}

#[test]
fn first_asset_with_the_state_is_used() {
    let first = asset(vec![(HERO, vec![(ANGRY, vec![dialogue(&[(Language::Eng, "first")], &[], &[])])])]);
    let second = asset(vec![(HERO, vec![(NORMAL, vec![dialogue(&[(Language::Eng, "second")], &[], &[])])])]);
    let third = asset(vec![(HERO, vec![(NORMAL, vec![dialogue(&[(Language::Eng, "third")], &[], &[])])])]);
    let assets = vec![&first, &second, &third];
    let hero = DialogueComponent::new(HERO, NORMAL);
    let (state, ds) = find_offer(&assets, &hero, None).unwrap();
    assert_eq!(state, NORMAL);
    assert_eq!(ds.len(), 1);
    let resp = respond(&assets, &config(None), &RequestDialogue::new(entity(1)), &hero, None, &mut rng()).unwrap();
    assert_eq!(resp.available.as_ref().unwrap().dialogues, vec!["second".to_string()]);
}
