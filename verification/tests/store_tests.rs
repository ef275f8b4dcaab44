use live_inputs::config::Config;
use live_inputs::layer::LayerConfig;
use live_inputs::store::{get_config, set_layer_opacity, ConfigState};
use std::sync::Arc;

fn key(text: &str) -> String {
    text.to_string()
}

fn bits(opacity: f32) -> u32 {
    opacity.to_bits()
}

fn shareable<T: Send + Sync>(_: &T) {}

#[test]
fn store_can_be_shared_between_threads() {
    let state = ConfigState::new(std::path::PathBuf::from("config.json"), Config::default());
    shareable(&state);
    assert_eq!(state.path, std::path::PathBuf::from("config.json"));
}

#[test]
fn store_starts_with_the_given_snapshot() {
    let state = ConfigState::new(key("config.json"), Config::default());
    assert_eq!(state.path, "config.json");
    let snapshot = get_config(&state);
    assert_eq!(snapshot.len(), 3);
    assert_eq!(snapshot.get(&key("A")).unwrap().midi_channel, 14);
    assert_eq!(snapshot.get(&key("B")).unwrap().midi_channel, 15);
    assert_eq!(snapshot.get(&key("C")).unwrap().midi_channel, 16);
}

#[test]
fn store_reflects_the_last_opacity_per_key() {
    let state = ConfigState::new(key("config.json"), Config::load(None));
    set_layer_opacity(&state, key("A"), bits(0.25));
    set_layer_opacity(&state, key("fresh"), bits(0.5));
    set_layer_opacity(&state, key("A"), bits(0.75));
    let snapshot = get_config(&state);
    assert_eq!(snapshot.len(), 4);
    assert_eq!(snapshot.get(&key("A")).unwrap().opacity_bits, bits(0.75));
    assert_eq!(snapshot.get(&key("A")).unwrap().midi_channel, 14);
    assert_eq!(snapshot.get(&key("B")).unwrap().opacity_bits, bits(1.0));
    let fresh = snapshot.get(&key("fresh")).unwrap();
    assert_eq!(fresh.opacity_bits, bits(0.5));
    assert_eq!(fresh.fade_ms, 200);
    assert_eq!(fresh.thumbnail, "");
    assert_eq!(fresh.midi_channel, 0);
}

#[test]
fn snapshot_does_not_follow_later_changes() {
    let state = ConfigState::new(String::new(), Config::default());
    let before = get_config(&state);
    set_layer_opacity(&state, key("A"), bits(0.0));
    assert_eq!(before.get(&key("A")).unwrap().opacity_bits, bits(1.0));
    assert_eq!(get_config(&state).get(&key("A")).unwrap().opacity_bits, bits(0.0));
}

#[test]
fn lock_is_free_again_after_each_command() {
    let state = ConfigState::new(String::new(), Config::new());
    for round in 0..100u32 {
        set_layer_opacity(&state, key("x"), round);
        assert_eq!(get_config(&state).get(&key("x")).unwrap().opacity_bits, round);
    }
    let (snapshot, handle) = state.inner.acquire_write();
    assert_eq!(snapshot.len(), 1);
    handle.release_write(snapshot);
    let reader = state.inner.acquire_read();
    assert_eq!(reader.borrow().len(), 1);
    reader.release_read();
}

fn assert_whole(snapshot: &Config, writers: u32, rounds: u32) {
    for (name, channel) in [("A", 14u8), ("B", 15u8), ("C", 16u8)] {
        let layer = snapshot.get(&key(name)).unwrap();
        assert_eq!(layer.midi_channel, channel);
        assert_eq!(layer.fade_ms, 1000 + channel as u64);
        assert_eq!(layer.thumbnail, format!("{name}.png"));
        assert!(layer.opacity_bits % 1000 <= rounds);
        assert!(layer.opacity_bits / 1000 < writers);
    }
    for name in snapshot.keys() {
        if name.starts_with("own") {
            let layer = snapshot.get(&name).unwrap();
            assert_eq!(layer.fade_ms, 200);
            assert_eq!(layer.thumbnail, "");
            assert_eq!(layer.midi_channel, 0);
            assert!((1..=rounds).contains(&layer.opacity_bits));
        }
    }
}

#[test]
fn interleaved_callers_never_tear_a_layer() {
    let mut start = Config::default();
    for name in ["A", "B", "C"] {
        let channel = start.get(&key(name)).unwrap().midi_channel;
        start.insert(
            key(name),
            LayerConfig {
                opacity_bits: 0,
                fade_ms: 1000 + channel as u64,
                thumbnail: format!("{name}.png"),
                midi_channel: channel,
            },
        );
    }
    let state = Arc::new(ConfigState::new(key("config.json"), start));
    let writers: u32 = 4;
    let rounds: u32 = 50;
    let callers: Vec<Arc<ConfigState<String>>> = (0..writers).map(|_| Arc::clone(&state)).collect();
    let observer = Arc::clone(&state);
    for round in 1..=rounds {
        for (writer, caller) in callers.iter().enumerate() {
            let writer = writer as u32;
            let shared = ["A", "B", "C"][((round + writer) % 3) as usize];
            set_layer_opacity(caller, key(shared), writer * 1000 + round);
            assert_whole(&get_config(&observer), writers, rounds);
            set_layer_opacity(caller, format!("own{writer}"), round);
            assert_whole(&get_config(&observer), writers, rounds);
        }
    }
    let end = get_config(&state);
    assert_eq!(end.len(), 3 + writers as usize);
    for writer in 0..writers {
        assert_eq!(end.get(&format!("own{writer}")).unwrap().opacity_bits, rounds);
    }
    assert_whole(&end, writers, rounds);
}
