use bitpart::metrics::{ChannelMetrics, ConnectionStatus, MetricsRegistry};

#[test]
fn channels_of_one_bot_are_tracked_separately() {
    let mut registry = MetricsRegistry::new();
    {
        let a = registry.get_or_create("row-a", "bot");
        a.incr_sent();
        a.set_status(ConnectionStatus::Linked);
    }
    {
        let b = registry.get_or_create("row-b", "bot");
        b.set_status(ConnectionStatus::Failing);
    }

    let status = registry.for_channels(&[
        ("row-a".to_owned(), "signal".to_owned()),
        ("row-b".to_owned(), "backup".to_owned()),
        ("row-c".to_owned(), "never-started".to_owned()),
    ]);
    assert_eq!(status[0].channel_id, "signal");
    assert_eq!(status[0].metrics.sent, 1);
    assert_eq!(status[0].metrics.status, ConnectionStatus::Linked);
    assert_eq!(status[1].metrics.sent, 0);
    assert_eq!(status[1].metrics.status, ConnectionStatus::Failing);
    assert_eq!(status[2].metrics.status, ConnectionStatus::Unlinked);
}

#[test]
fn same_channel_returns_same_metrics() {
    let mut registry = MetricsRegistry::new();
    registry.get_or_create("row-a", "bot").incr_received();
    registry.get_or_create("row-a", "bot").incr_received();
    let all = registry.snapshot_all();
    assert_eq!(all.len(), 1);
    assert_eq!(all[0].0, "bot");
    assert_eq!(all[0].1, "row-a");
    assert_eq!(all[0].2.received, 2);
}

#[test]
fn removed_channel_is_no_longer_reported() {
    let mut registry = MetricsRegistry::new();
    registry.get_or_create("row-a", "bot");
    registry.remove("row-a");
    assert!(registry.snapshot_all().is_empty());
}

#[test]
fn status_bytes_round_trip() {
    for s in [ConnectionStatus::Unlinked, ConnectionStatus::Linked, ConnectionStatus::Failing] {
        let m = {
            let mut m = ChannelMetrics::default();
            m.set_status(s);
            m
        };
        assert_eq!(m.snapshot().status, s);
    }
    assert_eq!(ConnectionStatus::Unlinked.as_u8(), 0);
    assert_eq!(ConnectionStatus::Linked.as_u8(), 1);
    assert_eq!(ConnectionStatus::Failing.as_u8(), 2);
}

#[test]
fn fresh_counters_start_at_zero_and_count_up() {
    let mut m = ChannelMetrics::default();
    let s = m.snapshot();
    assert_eq!((s.sent, s.received, s.status), (0, 0, ConnectionStatus::Unlinked));
    m.incr_sent();
    m.incr_sent();
    m.incr_received();
    let s = m.snapshot();
    assert_eq!((s.sent, s.received), (2, 1));
}

#[test]
fn other_channels_keep_their_counters_when_one_is_removed() {
    let mut registry = MetricsRegistry::default();
    registry.get_or_create("row-a", "bot-1").incr_sent();
    registry.get_or_create("row-b", "bot-2").incr_received();
    registry.remove("row-a");
    registry.remove("row-unknown");
    let all = registry.snapshot_all();
    assert_eq!(all.len(), 1);
    assert_eq!(all[0].0, "bot-2");
    assert_eq!(all[0].1, "row-b");
    assert_eq!(all[0].2.received, 1);
    assert_eq!(all[0].2.sent, 0);
}

#[test]
fn existing_channel_keeps_its_first_bot() {
    let mut registry = MetricsRegistry::new();
    registry.get_or_create("row-a", "bot-1");
    registry.get_or_create("row-a", "bot-2").incr_sent();
    let all = registry.snapshot_all();
    assert_eq!(all.len(), 1);
    assert_eq!(all[0].0, "bot-1");
    assert_eq!(all[0].2.sent, 1);
}
