//! The registry and broadcast engine, driven with real queues.

use ghostwire::relay::BroadcastMessage;
use ghostwire::relay::InboundFrame;
use ghostwire::relay::RelayState;
use ghostwire::relay::SessionVerdict;

#[test]
fn count_follows_register_and_unregister() {
    let mut relay = RelayState::new();
    assert_eq!(relay.client_count(), 0);
    let (id0, _rx0) = relay.register_client();
    let (id1, _rx1) = relay.register_client();
    let (id2, _rx2) = relay.register_client();
    assert_eq!((id0, id1, id2), (0, 1, 2));
    assert_eq!(relay.client_count(), 3);
    relay.unregister_client(id1);
    assert_eq!(relay.client_count(), 2);
    // unregistering is idempotent
    relay.unregister_client(id1);
    assert_eq!(relay.client_count(), 2);
    // an id that was never granted changes nothing
    relay.unregister_client(999);
    assert_eq!(relay.client_count(), 2);
    relay.unregister_client(id0);
    relay.unregister_client(id2);
    assert_eq!(relay.client_count(), 0);
}

#[test]
fn ids_are_never_reused() {
    let mut relay = RelayState::new();
    let (id0, _rx0) = relay.register_client();
    relay.unregister_client(id0);
    let (id1, _rx1) = relay.register_client();
    relay.unregister_client(id1);
    let (id2, _rx2) = relay.register_client();
    assert_eq!((id0, id1, id2), (0, 1, 2));
}

#[test]
fn broadcast_reaches_everyone_but_the_origin() {
    let mut relay = RelayState::new();
    let (id0, mut rx0) = relay.register_client();
    let (id1, mut rx1) = relay.register_client();
    let (id2, mut rx2) = relay.register_client();
    let report = relay.broadcast(BroadcastMessage {
        from: id2,
        content: "hello".to_string(),
    });
    assert_eq!(report.delivered, vec![id0, id1]);
    assert!(report.removed.is_empty());
    // each of the two recipients got exactly one copy
    assert_eq!(rx0.try_recv().unwrap(), "hello");
    assert!(rx0.try_recv().is_err());
    assert_eq!(rx1.try_recv().unwrap(), "hello");
    assert!(rx1.try_recv().is_err());
    // the origin got none
    assert!(rx2.try_recv().is_err());
    assert_eq!(relay.client_count(), 3);
}

#[test]
fn broadcast_prunes_a_closed_recipient() {
    let mut relay = RelayState::new();
    let (id0, mut rx0) = relay.register_client();
    let (id1, rx1) = relay.register_client();
    drop(rx1);
    let report = relay.broadcast(BroadcastMessage {
        from: id0,
        content: "ping".to_string(),
    });
    // the closed recipient failed delivery and is gone from the registry
    assert_eq!(report.removed, vec![id1]);
    assert!(report.delivered.is_empty());
    assert_eq!(relay.client_count(), 1);
    // the origin itself was never pruned and can still be reached
    let (id2, mut rx2) = relay.register_client();
    assert!(id2 > id1);
    let report = relay.broadcast(BroadcastMessage {
        from: id0,
        content: "again".to_string(),
    });
    assert_eq!(report.delivered, vec![id2]);
    assert_eq!(rx2.try_recv().unwrap(), "again");
    assert!(rx0.try_recv().is_err());
}

#[test]
fn broadcast_order_per_sender_is_kept() {
    let mut relay = RelayState::new();
    let (id0, _rx0) = relay.register_client();
    let (_id1, mut rx1) = relay.register_client();
    for text in ["one", "two", "three"] {
        relay.broadcast(BroadcastMessage {
            from: id0,
            content: text.to_string(),
        });
    }
    assert_eq!(rx1.try_recv().unwrap(), "one");
    assert_eq!(rx1.try_recv().unwrap(), "two");
    assert_eq!(rx1.try_recv().unwrap(), "three");
}

#[test]
fn receiver_step_decides_per_frame() {
    assert_eq!(
        ghostwire::relay::receiver_step(InboundFrame::Text("raw".to_string())),
        SessionVerdict::Broadcast("raw".to_string())
    );
    assert_eq!(
        ghostwire::relay::receiver_step(InboundFrame::Close),
        SessionVerdict::Stop
    );
    assert_eq!(
        ghostwire::relay::receiver_step(InboundFrame::ReadError),
        SessionVerdict::Stop
    );
    assert_eq!(
        ghostwire::relay::receiver_step(InboundFrame::Ping),
        SessionVerdict::Ignore
    );
    assert_eq!(
        ghostwire::relay::receiver_step(InboundFrame::Pong),
        SessionVerdict::Ignore
    );
    assert_eq!(
        ghostwire::relay::receiver_step(InboundFrame::Binary),
        SessionVerdict::Ignore
    );
}
