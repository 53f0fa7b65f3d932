use telemetry_relay::bridge::{BridgeAction, BridgeEvent, UpstreamBridge};
use telemetry_relay::fanout::FanoutRegistry;
use telemetry_relay::store::TimeSeriesStore;
use telemetry_relay::table_entree::TableEntree;
use telemetry_relay::bridge::write_all;

#[test]
fn broadcast_targets_every_registered_channel() {
    let mut registry = FanoutRegistry::new();
    let a = registry.register();
    let b = registry.register();
    let targets = registry.broadcast_targets();
    assert_eq!(targets, vec![a, b]);
}

#[test]
fn channel_registered_after_snapshot_not_targeted() {
    let mut registry = FanoutRegistry::new();
    let a = registry.register();
    let targets = registry.broadcast_targets();
    let late = registry.register();
    assert!(targets.contains(&a));
    assert!(!targets.contains(&late));
    // the next pass includes the late channel
    let next_targets = registry.broadcast_targets();
    assert!(next_targets.contains(&late));
}

#[test]
fn failed_channel_absent_from_next_pass() {
    let mut registry = FanoutRegistry::new();
    let a = registry.register();
    let b = registry.register();
    let c = registry.register();
    let targets = registry.broadcast_targets();
    assert_eq!(targets, vec![a, b, c]);
    // delivery to b fails
    registry.apply_send_results(&vec![true, false, true]);
    let next_targets = registry.broadcast_targets();
    assert_eq!(next_targets, vec![a, c]);
    assert!(!next_targets.contains(&b));
}

#[test]
fn surviving_channels_keep_their_order() {
    let mut registry = FanoutRegistry::new();
    let ids: Vec<u64> = (0..5).map(|_| registry.register()).collect();
    registry.apply_send_results(&vec![false, true, true, false, true]);
    let targets = registry.broadcast_targets();
    assert_eq!(targets, vec![ids[1], ids[2], ids[4]]);
}

#[test]
fn broadcast_pass_with_no_channels() {
    let mut registry = FanoutRegistry::new();
    assert!(registry.broadcast_targets().is_empty());
    registry.apply_send_results(&Vec::new());
    assert!(registry.broadcast_targets().is_empty());
}

#[test]
fn bridge_three_connect_attempts_with_backoff() {
    // The upstream refuses twice, then accepts: exactly three attempts, no
    // delay before the first, the configured delay before the second and
    // third.
    let configured_delay: u64 = 250;
    let mut bridge = UpstreamBridge::new(configured_delay);
    let mut delays: Vec<u64> = Vec::new();

    delays.push(bridge.begin_attempt());
    let action = bridge.on_event(BridgeEvent::ConnectFailed);
    assert!(matches!(action, BridgeAction::Reconnect));

    delays.push(bridge.begin_attempt());
    let action = bridge.on_event(BridgeEvent::ConnectFailed);
    assert!(matches!(action, BridgeAction::Reconnect));

    delays.push(bridge.begin_attempt());
    let action = bridge.on_event(BridgeEvent::ConnectSucceeded);
    assert!(matches!(action, BridgeAction::Subscribe));

    assert_eq!(delays.len(), 3);
    assert_eq!(delays, vec![0, configured_delay, configured_delay]);
}

#[test]
fn bridge_walks_happy_path_and_reconnects_on_stream_end() {
    let mut bridge = UpstreamBridge::new(100);
    assert_eq!(bridge.begin_attempt(), 0);
    assert!(matches!(bridge.on_event(BridgeEvent::ConnectSucceeded), BridgeAction::Subscribe));
    assert!(matches!(bridge.on_event(BridgeEvent::SubscribeSucceeded), BridgeAction::Receive));

    let raw = TableEntree::new("t".to_string(), "v".to_string(), 42_000);
    let action = bridge.on_event(BridgeEvent::MessageReceived(raw));
    match action {
        BridgeAction::Deliver(update) => {
            assert_eq!(update.topic, "t");
            assert_eq!(update.value, "v");
            assert_eq!(update.timestamp, 42);
        },
        _ => panic!("a received message must be delivered"),
    }

    assert!(matches!(bridge.on_event(BridgeEvent::StreamEnded), BridgeAction::Reconnect));
    // after a stream ends, the next attempt waits the configured delay
    assert_eq!(bridge.begin_attempt(), 100);
}

#[test]
fn bridge_subscribe_failure_reconnects_with_delay() {
    let mut bridge = UpstreamBridge::new(70);
    assert_eq!(bridge.begin_attempt(), 0);
    assert!(matches!(bridge.on_event(BridgeEvent::ConnectSucceeded), BridgeAction::Subscribe));
    assert!(matches!(bridge.on_event(BridgeEvent::SubscribeFailed), BridgeAction::Reconnect));
    assert_eq!(bridge.begin_attempt(), 70);
}

#[test]
fn write_all_rescales_timestamp() {
    let mut database = TimeSeriesStore::new(2);
    write_all(&mut database, TableEntree::new("test".to_string(), "v".to_string(), 5_432));
    let row = database.get_value("test").unwrap();
    assert_eq!(row.timestamp, 5);
    assert_eq!(row.value, "v");
}
