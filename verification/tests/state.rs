use bevy::platform::collections::HashMap;
use bevy_dialogue::model::{Dialogue, DialogueAsset, DialogueComponent};
use bevy_dialogue::state::update_state;
use indexmap::IndexMap;

fn asset(class: u64, states: &[u64]) -> DialogueAsset {
    let mut m: IndexMap<u64, Vec<Dialogue>> = IndexMap::new();
    for s in states {
        m.insert(*s, vec![]);
    }
    let mut dialogues = HashMap::new();
    dialogues.insert(class, m);
    DialogueAsset { dialogues, sequences: IndexMap::new() }
}

#[test]
fn requested_state_that_exists() {
    let a = asset(1, &[10, 20, 30]);
    let mut npc = DialogueComponent::new(1, 10);
    npc.dialogue = 4;
    update_state(&vec![&a], &mut npc, Some(30));
    assert_eq!(npc.state, 30);
    assert_eq!(npc.class, 1);
    assert_eq!(npc.dialogue, 4);
}

#[test]
fn requested_state_that_does_not_exist() {
    let a = asset(1, &[10, 20, 30]);
    let mut npc = DialogueComponent::new(1, 10);
    update_state(&vec![&a], &mut npc, Some(99));
    assert_eq!(npc.state, 10);
}

#[test]
fn next_state_in_order() {
    let a = asset(1, &[30, 10, 20]);
    let mut npc = DialogueComponent::new(1, 30);
    update_state(&vec![&a], &mut npc, None);
    assert_eq!(npc.state, 10);
    update_state(&vec![&a], &mut npc, None);
    assert_eq!(npc.state, 20);
    update_state(&vec![&a], &mut npc, None);
    assert_eq!(npc.state, 20);
}

#[test]
fn unknown_state_goes_to_first() {
    let a = asset(1, &[30, 10, 20]);
    let mut npc = DialogueComponent::new(1, 77);
    update_state(&vec![&a], &mut npc, None);
    assert_eq!(npc.state, 30);
}

#[test]
fn class_without_states() {
    let a = asset(1, &[]);
    let mut npc = DialogueComponent::new(1, 77);
    update_state(&vec![&a], &mut npc, None);
    assert_eq!(npc.state, 77);
    let b = asset(2, &[1, 2]);
    let mut other = DialogueComponent::new(3, 5);
    update_state(&vec![&b], &mut other, None);
    assert_eq!(other.state, 5);
    update_state(&vec![], &mut other, Some(1));
    assert_eq!(other.state, 5);
}

#[test]
fn first_asset_with_the_class_decides() {
    let a = asset(2, &[1, 2]);
    let b = asset(1, &[5, 6]);
    let c = asset(1, &[7, 8]);
    let mut npc = DialogueComponent::new(1, 5);
    update_state(&vec![&a, &b, &c], &mut npc, None);
    assert_eq!(npc.state, 6);
    update_state(&vec![&a, &b, &c], &mut npc, Some(8));
    assert_eq!(npc.state, 6);
}
