use game_client::router::{MapAction, Router};
use std::sync::mpsc::channel;

fn packet_for(player: u64, mark: u8) -> [u8; 64] {
    let mut p = [0u8; 64];
    p[0] = 4;
    p[3..11].copy_from_slice(&player.to_be_bytes());
    p[30] = mark;
    p
}

#[test]
fn added_player_receives_its_packets() {
    let mut router = Router::new();
    let (tx, rx) = channel::<[u8; 64]>();
    assert_eq!(router.apply(MapAction::Add(77, tx)), 77);
    let packet = packet_for(77, 1);
    assert_eq!(Router::player_key(&packet), 77);
    let sender = router.route(&packet).expect("player 77 is connected");
    sender.send(packet).unwrap();
    assert_eq!(rx.recv().unwrap(), packet);
    assert!(router.route(&packet_for(78, 1)).is_none());
}

#[test]
fn removed_player_receives_nothing() {
    let mut router = Router::new();
    let (tx, _rx) = channel::<[u8; 64]>();
    let (tx2, rx2) = channel::<[u8; 64]>();
    router.apply(MapAction::Add(5, tx));
    router.apply(MapAction::Add(6, tx2));
    assert_eq!(router.apply(MapAction::Remove(5)), 5);
    assert!(router.route(&packet_for(5, 0)).is_none());
    let p = packet_for(6, 9);
    router.route(&p).unwrap().send(p).unwrap();
    assert_eq!(rx2.recv().unwrap()[30], 9);
    assert_eq!(router.apply(MapAction::Remove(42)), 42);
}

#[test]
fn re_adding_replaces_the_channel() {
    let mut router = Router::new();
    let (tx1, rx1) = channel::<[u8; 64]>();
    let (tx2, rx2) = channel::<[u8; 64]>();
    router.apply(MapAction::Add(1, tx1));
    router.apply(MapAction::Add(1, tx2));
    let p = packet_for(1, 3);
    router.route(&p).unwrap().send(p).unwrap();
    assert_eq!(rx2.recv().unwrap()[30], 3);
    assert!(rx1.try_recv().is_err());
}

#[test]
fn queued_changes_apply_in_order() {
    let mut router = Router::new();
    let (tx1, rx1) = channel::<[u8; 64]>();
    let (tx2, rx2) = channel::<[u8; 64]>();
    let (tx3, _rx3) = channel::<[u8; 64]>();
    let keys = router.apply_all(vec![
        MapAction::Add(1, tx1),
        MapAction::Add(2, tx2),
        MapAction::Remove(2),
        MapAction::Add(3, tx3),
        MapAction::Remove(3),
        MapAction::Remove(9),
    ]);
    assert_eq!(keys, vec![1, 2, 2, 3, 3, 9]);
    assert!(router.route(&packet_for(2, 0)).is_none());
    assert!(router.route(&packet_for(3, 0)).is_none());
    let p = packet_for(1, 4);
    router.route(&p).unwrap().send(p).unwrap();
    assert_eq!(rx1.recv().unwrap()[30], 4);
    assert!(rx2.try_recv().is_err());
    assert!(router.apply_all(Vec::new()).is_empty());
}
