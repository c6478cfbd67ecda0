use bytes::Bytes;
use std::collections::HashMap;
use segment::keyspace::{
    choose_victim, evictor_step, Evictor, EvictorAction, EvictorEvent, Keyspace, KeyspaceManager,
    MAX_MEMORY_SAMPLE_SIZE,
};

fn filled(evictor: Evictor, sample_size: usize, keys: &[&str]) -> Keyspace {
    let mut ks = Keyspace::new(evictor, 100, sample_size);
    for k in keys {
        assert_eq!(ks.set(k.to_string(), Bytes::from(k.to_string())), 1);
    }
    ks
}

#[test]
fn default_sample_size_is_three() {
    assert_eq!(MAX_MEMORY_SAMPLE_SIZE, 3);
}

#[test]
fn set_twice_keeps_the_last_value() {
    let mut ks = filled(Evictor::Noop, 0, &[]);
    ks.set("k".to_string(), Bytes::from("v1"));
    ks.set("k".to_string(), Bytes::from("v2"));
    assert_eq!(ks.get("k"), Some(Bytes::from("v2")));
    assert_eq!(ks.len(), 1);
}

#[test]
fn delete_then_get_and_delete_again() {
    let mut ks = filled(Evictor::Noop, 0, &["k"]);
    assert_eq!(ks.del("k"), 1);
    assert_eq!(ks.get("k"), None);
    assert_eq!(ks.del("k"), 0);
}

#[test]
fn noop_keyspace_never_evicts() {
    let mut ks = filled(Evictor::Noop, 0, &["a", "b", "c", "d"]);
    for _ in 0..1000 {
        ks.sample_and_evict(u64::MAX);
    }
    assert_eq!(ks.len(), 4);
}

#[test]
fn below_the_cap_nothing_is_evicted() {
    let mut ks = filled(Evictor::Lru, 3, &["a", "b", "c"]);
    ks.sample_and_evict(99);
    assert_eq!(ks.len(), 3);
    ks.sample_and_evict(100);
    assert_eq!(ks.len(), 2);
}

#[test]
fn lru_evicts_the_oldest_in_the_window() {
    let mut ks = filled(Evictor::Lru, 3, &["a", "b", "c", "d"]);
    assert!(ks.get("a").is_some());
    ks.sample_and_evict(1000);
    assert_eq!(ks.get("b"), None);
    assert_eq!(ks.len(), 3);
    ks.sample_and_evict(1000);
    // b was taken out and d moved into its place: the window is a, d, c
    // and c is the oldest of them
    assert_eq!(ks.get("c"), None);
    assert!(ks.get("a").is_some());
    assert!(ks.get("d").is_some());
}

#[test]
fn lru_with_zero_sample_size_evicts_nothing() {
    let mut ks = filled(Evictor::Lru, 0, &["a", "b"]);
    ks.sample_and_evict(1000);
    assert_eq!(ks.len(), 2);
}

#[test]
fn random_evicts_at_most_one_from_the_window() {
    for _ in 0..50 {
        let mut ks = filled(Evictor::Random, 2, &["a", "b", "c", "d"]);
        ks.sample_and_evict(1000);
        assert!(ks.len() == 3 || ks.len() == 4);
        assert!(ks.get("c").is_some());
        assert!(ks.get("d").is_some());
    }
}

#[test]
fn choose_victim_picks_the_last_oldest_for_lru() {
    assert_eq!(choose_victim(Evictor::Lru, &vec![5, 3, 3, 7], &vec![]), Some(2));
    assert_eq!(choose_victim(Evictor::Lru, &vec![9], &vec![]), Some(0));
    assert_eq!(choose_victim(Evictor::Lru, &vec![], &vec![]), None);
}

#[test]
fn choose_victim_picks_the_last_heads_for_random() {
    let stamps = vec![1, 2, 3, 4];
    assert_eq!(choose_victim(Evictor::Random, &stamps, &vec![true, false, true, false]), Some(2));
    assert_eq!(choose_victim(Evictor::Random, &stamps, &vec![false; 4]), None);
    assert_eq!(choose_victim(Evictor::Noop, &stamps, &vec![true; 4]), None);
}

#[test]
fn manager_create_keeps_the_first_settings() {
    let mut m = KeyspaceManager::new(1);
    assert_eq!(m.create("a".to_string(), Evictor::Lru, 5), 1);
    assert_eq!(m.create("a".to_string(), Evictor::Random, 9), 0);
    assert_eq!(m.settings("a"), Ok((Evictor::Lru, 5)));
}

#[test]
fn manager_reports_missing_keyspace() {
    let mut m = KeyspaceManager::new(1);
    let e = m.get("nope", "k").unwrap_err();
    assert_eq!(e.keyspace(), "nope");
    assert!(m.set("nope", "k".to_string(), Bytes::from("v")).is_err());
    assert!(m.del("nope", "k").is_err());
    assert!(m.sample_and_evict("nope", 0).is_err());
}

#[test]
fn manager_cap_is_in_megabytes() {
    // one megabyte: 1048575 bytes is below the cap, 1048576 is at it
    let mut m = KeyspaceManager::new(1);
    m.create("a".to_string(), Evictor::Lru, 3);
    m.set("a", "k".to_string(), Bytes::from("v")).unwrap();
    m.sample_and_evict("a", 1048575).unwrap();
    assert_eq!(m.get("a", "k").unwrap(), Some(Bytes::from("v")));
    m.sample_and_evict("a", 1048576).unwrap();
    assert_eq!(m.get("a", "k").unwrap(), None);
}

#[test]
fn evictor_exits_once_shut_down() {
    use_step(true, EvictorEvent::Tick, EvictorAction::Exit);
    use_step(true, EvictorEvent::Woken, EvictorAction::Exit);
    use_step(false, EvictorEvent::Tick, EvictorAction::Sample);
    use_step(false, EvictorEvent::Woken, EvictorAction::Wait);
}

fn use_step(shutdown: bool, event: EvictorEvent, expected: EvictorAction) {
    assert_eq!(evictor_step(shutdown, event), expected);
}

#[test]
fn many_operations_agree_with_a_plain_map() {
    let mut ks = Keyspace::new(Evictor::Noop, 0, 0);
    let mut reference: HashMap<String, String> = HashMap::new();
    let mut seed: u64 = 12345;
    for step in 0..20000u64 {
        seed = seed.wrapping_mul(6364136223846793005).wrapping_add(1442695040888963407);
        let key = format!("k{}", (seed >> 33) % 300);
        match (seed >> 20) % 3 {
            0 => {
                let value = format!("v{}", step);
                assert_eq!(ks.set(key.clone(), Bytes::from(value.clone())), 1);
                reference.insert(key, value);
            }
            1 => {
                let expected = reference.get(&key).map(|v| Bytes::from(v.clone()));
                assert_eq!(ks.get(&key), expected);
            }
            _ => {
                let expected = if reference.remove(&key).is_some() { 1 } else { 0 };
                assert_eq!(ks.del(&key), expected);
            }
        }
        assert_eq!(ks.len(), reference.len());
    }
}

#[test]
fn get_restamps_forward() {
    let mut ks = filled(Evictor::Lru, 2, &["a", "b"]);
    assert!(ks.get("a").is_some());
    // a was read after b was written, so b is now the oldest of the two
    ks.sample_and_evict(1000);
    assert_eq!(ks.get("b"), None);
    assert!(ks.get("a").is_some());
}
