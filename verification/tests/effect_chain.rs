use projectm_rs::effect_chain::{EffectChain, EffectData};
use projectm_rs::web::EffectKind;

fn ids<P>(c: &EffectChain<P>) -> Vec<u64> {
    c.effects().iter().map(|e| e.id).collect()
}

fn chain3() -> EffectChain<Vec<u32>> {
    let mut c = EffectChain::new();
    c.add(1, EffectKind::Blur, vec![4]);
    c.add(2, EffectKind::Bloom, vec![6, 1, 6]);
    c.add(3, EffectKind::Noise, vec![15]);
    c
}

#[test]
fn add_appends_and_selects() {
    let c = chain3();
    assert_eq!(ids(&c), vec![1, 2, 3]);
    assert_eq!(c.selected(), Some(3));
    assert_eq!(c.len(), 3);
    assert_eq!(c.effects()[1].name, "Bloom");
    assert!(c.effects()[1].enabled);
    assert_eq!(c.effects()[1].params, vec![6, 1, 6]);
}

#[test]
fn remove_reselects_last() {
    let mut c = chain3();
    c.remove(3);
    assert_eq!(ids(&c), vec![1, 2]);
    assert_eq!(c.selected(), Some(2));
    c.select(1);
    c.remove(2);
    assert_eq!(ids(&c), vec![1]);
    assert_eq!(c.selected(), Some(1));
    c.remove(1);
    assert_eq!(c.selected(), None);
    assert!(!c.has(1));
}

#[test]
fn duplicate_inserts_copy_after_original() {
    let mut c = chain3();
    assert_eq!(c.duplicate(2, 9), Some(9));
    assert_eq!(ids(&c), vec![1, 2, 9, 3]);
    assert_eq!(c.effects()[2].name, "Bloom copy");
    assert_eq!(c.effects()[2].kind, EffectKind::Bloom);
    assert_eq!(c.effects()[2].params, vec![6, 1, 6]);
    assert_eq!(c.selected(), Some(9));
    assert_eq!(c.duplicate(42, 10), None);
    assert_eq!(ids(&c), vec![1, 2, 9, 3]);
}

#[test]
fn move_effect_swaps_neighbours() {
    let mut c = chain3();
    c.move_effect(3, true);
    assert_eq!(ids(&c), vec![1, 3, 2]);
    c.move_effect(3, false);
    assert_eq!(ids(&c), vec![1, 2, 3]);
    c.move_effect(1, true);
    assert_eq!(ids(&c), vec![1, 2, 3]);
    c.move_effect(3, false);
    assert_eq!(ids(&c), vec![1, 2, 3]);
}

#[test]
fn enable_select_and_query() {
    let mut c = chain3();
    assert!(!c.is_empty_enabled());
    c.set_enabled(1, false);
    c.set_enabled(2, false);
    c.set_enabled(3, false);
    assert!(c.is_empty_enabled());
    assert_eq!(c.enabled(2), Some(false));
    assert_eq!(c.enabled(7), None);
    c.select(7);
    assert_eq!(c.selected(), Some(3));
    c.select(1);
    assert_eq!(c.selected(), Some(1));
    assert_eq!(c.ids_kinds()[0], (1, EffectKind::Blur, false));
    assert_eq!(c.find(2), Some(1));
    c.set_params(1, vec![7]);
    assert_eq!(c.effects()[1].params, vec![7]);
}

fn data(id: u64, t: &str) -> EffectData<u8> {
    EffectData { id, name: format!("fx{id}"), effect_type: t.to_string(), enabled: true, params: 0 }
}

#[test]
fn from_data_keeps_ids_and_reassigns_collisions() {
    let mut c: EffectChain<u8> = EffectChain::new();
    let max = c.from_data(vec![
        data(5, "blur"),
        data(0, "bloom"),
        data(5, "noise"),
        data(7, "unknown"),
        data(1, "hue"),
    ]);
    // 5 kept; 0 gets the least free id 1; the second 5 gets 2; unknown
    // skipped; 1 is taken by then, so it gets 3.
    assert_eq!(ids(&c), vec![5, 1, 2, 3]);
    assert_eq!(max, 5);
    assert_eq!(c.selected(), Some(5));
    assert_eq!(c.effects()[2].kind, EffectKind::Noise);
    assert_eq!(c.effects()[1].name, "fx0");
    assert_eq!(c.from_data(vec![]), 0);
    assert_eq!(c.selected(), None);
}

#[test]
fn save_and_reload_round_trips() {
    let mut c = chain3();
    c.set_enabled(2, false);
    let saved = c.to_data();
    assert_eq!(saved[1].effect_type, "bloom");
    assert_eq!(saved[1].name, "Bloom");
    let mut back: EffectChain<Vec<u32>> = EffectChain::new();
    let max = back.from_data(saved);
    assert_eq!(max, 3);
    assert_eq!(ids(&back), ids(&c));
    assert_eq!(back.enabled(2), Some(false));
    assert_eq!(back.effects()[1].params, vec![6, 1, 6]);
}
