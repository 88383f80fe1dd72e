use aggregator::dispatch::dispatch;
use aggregator::registry::{Peer, Registry};
use aggregator::tier::{negotiate, Tier};

fn ids(peers: &[Peer<String>]) -> Vec<u128> {
    let mut ids: Vec<u128> = peers.iter().map(|p| p.id).collect();
    ids.sort();
    ids
}

fn sample() -> Registry<String> {
    let mut registry = Registry::new();
    assert!(registry.register(1, Tier::All, String::from("one")));
    assert!(registry.register(2, Tier::ImportantOnly, String::from("two")));
    assert!(registry.register(3, Tier::All, String::from("three")));
    assert!(registry.register(4, Tier::ImportantOnly, String::from("four")));
    registry
}

#[test]
fn negotiation_knows_two_literals() {
    assert_eq!(negotiate(Some("SUBSCRIBE:important")), Tier::ImportantOnly);
    assert_eq!(negotiate(Some("SUBSCRIBE:all")), Tier::All);
}

#[test]
fn negotiation_defaults_to_all() {
    assert_eq!(negotiate(None), Tier::All);
    for text in ["", "SUBSCRIBE:", "subscribe:important", "SUBSCRIBE:important ", " SUBSCRIBE:important",
        "SUBSCRIBE:importan", "SUBSCRIBE:none", "hello", "404|ERROR|x"]
    {
        assert_eq!(negotiate(Some(text)), Tier::All, "{text:?}");
    }
}

#[test]
fn tiers_admit_by_criticality() {
    assert!(Tier::All.admits(true));
    assert!(Tier::All.admits(false));
    assert!(Tier::ImportantOnly.admits(true));
    assert!(!Tier::ImportantOnly.admits(false));
}

#[test]
fn register_inserts_once_per_id() {
    let mut registry: Registry<String> = Registry::new();
    assert_eq!(registry.len(), 0);
    assert!(registry.register(7, Tier::ImportantOnly, String::from("first")));
    assert!(!registry.register(7, Tier::All, String::from("second")));
    assert_eq!(registry.len(), 1);
    assert!(registry.contains(7));
    assert_eq!(registry.tier_of(7), Some(Tier::ImportantOnly));
    let peers = registry.snapshot();
    assert_eq!(peers.len(), 1);
    assert_eq!(peers[0].handle, "first");
    assert_eq!(registry.tier_of(8), None);
    assert!(!registry.contains(8));
}

#[test]
fn deregister_is_idempotent() {
    let mut registry = sample();
    assert!(registry.deregister(2));
    assert!(!registry.deregister(2));
    assert!(!registry.deregister(2));
    assert!(!registry.deregister(99));
    assert_eq!(registry.len(), 3);
    assert_eq!(ids(&registry.snapshot()), vec![1, 3, 4]);
    assert_eq!(registry.tier_of(1), Some(Tier::All));
    assert_eq!(registry.tier_of(4), Some(Tier::ImportantOnly));
    assert!(registry.register(2, Tier::All, String::from("again")));
    assert_eq!(registry.tier_of(2), Some(Tier::All));
}

#[test]
fn snapshot_copies_every_entry() {
    let mut registry = sample();
    let peers = registry.snapshot();
    assert_eq!(ids(&peers), vec![1, 2, 3, 4]);
    for peer in &peers {
        let (handle, tier) = match peer.id {
            1 => ("one", Tier::All),
            2 => ("two", Tier::ImportantOnly),
            3 => ("three", Tier::All),
            _ => ("four", Tier::ImportantOnly),
        };
        assert_eq!(peer.handle, handle);
        assert_eq!(peer.tier, tier);
    }
    // The copy does not follow later changes.
    registry.deregister(1);
    assert_eq!(peers.len(), 4);
    assert_eq!(registry.snapshot().len(), 3);
    assert!(Registry::<String>::new().snapshot().is_empty());
}

#[test]
fn critical_event_goes_to_everyone() {
    let registry = sample();
    assert_eq!(ids(&registry.recipients(true)), vec![1, 2, 3, 4]);
}

#[test]
fn other_event_goes_to_tier_all_only() {
    let registry = sample();
    let chosen = registry.recipients(false);
    assert_eq!(ids(&chosen), vec![1, 3]);
    assert!(chosen.iter().all(|p| p.tier == Tier::All));
}

#[test]
fn departed_consumer_is_no_recipient() {
    let mut registry = sample();
    registry.deregister(3);
    registry.deregister(4);
    assert_eq!(ids(&registry.recipients(true)), vec![1, 2]);
    assert_eq!(ids(&registry.recipients(false)), vec![1]);
    registry.deregister(1);
    registry.deregister(2);
    assert!(registry.recipients(true).is_empty());
}

#[test]
fn dispatch_keeps_the_order_of_the_snapshot() {
    let peers = |tiers: &[Tier]| -> Vec<Peer<u32>> {
        tiers.iter().enumerate().map(|(i, t)| Peer { id: i as u128, handle: i as u32 * 10, tier: *t }).collect()
    };
    let tiers = [Tier::ImportantOnly, Tier::All, Tier::All, Tier::ImportantOnly, Tier::All];
    let calm: Vec<u32> = dispatch(peers(&tiers), false).iter().map(|p| p.handle).collect();
    assert_eq!(calm, vec![10, 20, 40]);
    let loud: Vec<u32> = dispatch(peers(&tiers), true).iter().map(|p| p.handle).collect();
    assert_eq!(loud, vec![0, 10, 20, 30, 40]);
    assert!(dispatch(Vec::<Peer<u32>>::new(), true).is_empty());
    assert!(dispatch(peers(&[Tier::ImportantOnly]), false).is_empty());
}

#[test]
fn enroll_draws_an_unused_id() {
    let mut registry: Registry<u32> = Registry::new();
    let a = registry.enroll(Tier::All, 1).expect("an id");
    let b = registry.enroll(Tier::ImportantOnly, 2).expect("an id");
    assert_ne!(a, b);
    assert_eq!(registry.len(), 2);
    assert_eq!(registry.tier_of(a), Some(Tier::All));
    assert_eq!(registry.tier_of(b), Some(Tier::ImportantOnly));
    // The ids are version-4 UUIDs.
    assert_eq!((a >> 76) & 0xf, 4);
    assert_eq!((b >> 76) & 0xf, 4);
    assert!(registry.deregister(a));
    assert!(!registry.contains(a));
    assert!(registry.contains(b));
}

#[test]
fn interleaved_sessions_keep_the_registry_whole() {
    let mut registry: Registry<u32> = Registry::new();
    for id in 0..100u128 {
        assert!(registry.register(id, if id % 2 == 0 { Tier::All } else { Tier::ImportantOnly }, id as u32));
        let _ = registry.recipients(id % 3 == 0);
        if id >= 10 {
            assert!(registry.deregister(id - 10));
        }
    }
    assert_eq!(registry.len(), 10);
    for id in 0..90u128 {
        assert!(!registry.contains(id));
    }
    for id in 90..100u128 {
        assert!(registry.contains(id));
    }
    let mut quiet: Vec<u128> = registry.recipients(false).iter().map(|p| p.id).collect();
    quiet.sort();
    assert_eq!(quiet, vec![90, 92, 94, 96, 98]);
}

#[test]
fn empty_registry_admits_every_consumer() {
    for round in 0..50u32 {
        let mut registry: Registry<u32> = Registry::new();
        let id = registry.enroll(Tier::ImportantOnly, round).expect("an id");
        assert_eq!(registry.len(), 1);
        assert_eq!(registry.tier_of(id), Some(Tier::ImportantOnly));
        assert_eq!(registry.snapshot()[0].handle, round);
    }
}
