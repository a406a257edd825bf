use copresence::hub::{Hub, WATCHDOG_TIMEOUT_MS};
use copresence::peers::{ClientState, ReportOutcome};
use copresence::motion::Pos;
use copresence::wire::{encode_packet, ExtraValue, Packet};

fn report(color: &[u8], x: u64, y: u64) -> Packet {
    Packet {
        id: Vec::new(),
        color: color.to_vec(),
        x_per_myria: x,
        y_per_myria: y,
        extra: vec![(b"pen".to_vec(), ExtraValue::Bool(true))],
    }
}

#[test]
fn relay_fan_out_to_all_connections() {
    // three connections; connection 1 publishes; every connection --
    // 0 and 2 included -- receives one copy stamped with 1's identity
    let mut hub = Hub::new();
    let c0 = hub.connect(0).unwrap();
    let c1 = hub.connect(0).unwrap();
    let c2 = hub.connect(0).unwrap();
    let pkt = report(b"hsl(10, 70%, 70%)", 2500, 7500);
    hub.publish(c1, &pkt, 5);
    let sender_id = hub.conns[c1].id.clone();
    for c in [c0, c1, c2] {
        assert_eq!(hub.conns[c].outbox.len(), 1);
        let seen = &hub.conns[c].outbox[0];
        assert_eq!(seen.id, sender_id);
        assert_eq!(seen.color, pkt.color);
        assert_eq!(seen.x_per_myria, 2500);
        assert_eq!(seen.y_per_myria, 7500);
        assert_eq!(seen.extra.len(), 1);
    }
}

#[test]
fn assigned_identities_are_distinct_uuids() {
    let mut hub = Hub::new();
    let a = hub.connect(0).unwrap();
    let b = hub.connect(0).unwrap();
    assert_eq!(hub.conns[a].id.len(), 36);
    assert_eq!(hub.conns[b].id.len(), 36);
    assert_ne!(hub.conns[a].id, hub.conns[b].id);
}

#[test]
fn inbound_stamps_over_client_supplied_id() {
    let mut hub = Hub::new();
    let c0 = hub.connect(0).unwrap();
    let c1 = hub.connect(0).unwrap();
    let mut pkt = report(b"c", 1, 2);
    pkt.id = b"forged-identity".to_vec();
    let raw = encode_packet(&pkt);
    assert!(hub.handle_inbound(c1, &raw, 10));
    assert_eq!(hub.conns[c0].outbox[0].id, hub.conns[c1].id);
}

#[test]
fn malformed_inbound_is_dropped_but_refreshes_activity() {
    let mut hub = Hub::new();
    let c0 = hub.connect(0).unwrap();
    let delivered = hub.handle_inbound(c0, &b"{not a report".to_vec(), 42);
    assert!(!delivered);
    assert_eq!(hub.conns[c0].outbox.len(), 0);
    assert_eq!(hub.conns[c0].last_seen_ms, 42);
}

#[test]
fn watchdog_eviction_timeline() {
    // timeout 300 s; inbound at t = 0, 250 s, 290 s -> never evicted up to
    // t = 590 s; with no further messages, evicted just past 590 s
    assert_eq!(WATCHDOG_TIMEOUT_MS, 300_000);
    let mut hub = Hub::new();
    let c = hub.connect(0).unwrap();
    let raw = encode_packet(&report(b"c", 0, 0));
    for t in [0u64, 250_000, 290_000] {
        assert!(!hub.watchdog_check(c, t));
        hub.handle_inbound(c, &raw, t);
    }
    assert!(!hub.watchdog_check(c, 400_000));
    assert!(!hub.watchdog_check(c, 590_000));
    assert!(hub.watchdog_check(c, 590_001));
}

#[test]
fn eviction_tears_the_connection_down() {
    let mut hub = Hub::new();
    let _a = hub.connect(0).unwrap();
    let b = hub.connect(0).unwrap();
    let gone = hub.conns[b].id.clone();
    hub.disconnect(b);
    assert_eq!(hub.conns.len(), 1);
    assert!(hub.conns.iter().all(|c| c.id != gone));
}

#[test]
fn client_learns_own_identity_by_color_match() {
    let mut st = ClientState::new(
        b"hsl(300, 70%, 70%)".to_vec(),
        200_000,
        100_000,
        Pos { x_milli_px: 100_000, y_milli_px: 50_000 },
    );
    let mut own = report(b"hsl(300, 70%, 70%)", 1, 1);
    own.id = b"me-1".to_vec();
    assert!(matches!(st.on_report(&own), ReportOutcome::LearnedSelf));
    assert_eq!(st.my_id.as_ref().unwrap(), &b"me-1".to_vec());
    assert_eq!(st.peers.len(), 0);
    // a later echo of the same identity is ignored for peer tracking
    assert!(matches!(st.on_report(&own), ReportOutcome::OwnEcho));
    assert_eq!(st.peers.len(), 0);
}

#[test]
fn peer_targets_scale_to_local_viewport() {
    // normalized (0.5, 0.25) on a 200 x 100 px viewport -> (100, 25) px
    let mut st = ClientState::new(b"mine".to_vec(), 200_000, 100_000, Pos {
        x_milli_px: 0,
        y_milli_px: 0,
    });
    let mut p = report(b"peer-color", 5000, 2500);
    p.id = b"peer-1".to_vec();
    assert!(matches!(st.on_report(&p), ReportOutcome::NewPeer));
    assert_eq!(st.peers.len(), 1);
    let entry = &st.peers[0].1;
    assert_eq!(entry.target.x_milli_px, 100_000);
    assert_eq!(entry.target.y_milli_px, 25_000);
    // a first sighting renders in place: no sweep from an undefined origin
    assert_eq!(entry.rendered.x_milli_px, 100_000);
    assert_eq!(entry.rendered.y_milli_px, 25_000);

    // a second report overwrites the target, leaves the rendered position
    let mut p2 = report(b"peer-color", 0, 0);
    p2.id = b"peer-1".to_vec();
    assert!(matches!(st.on_report(&p2), ReportOutcome::UpdatedPeer));
    assert_eq!(st.peers.len(), 1);
    assert_eq!(st.peers[0].1.target.x_milli_px, 0);
    assert_eq!(st.peers[0].1.rendered.x_milli_px, 100_000);
}

#[test]
fn tick_moves_peers_and_self_toward_targets() {
    let mut st = ClientState::new(b"mine".to_vec(), 200_000, 100_000, Pos {
        x_milli_px: 0,
        y_milli_px: 0,
    });
    let mut p = report(b"peer-color", 5000, 0);
    p.id = b"peer-1".to_vec();
    st.on_report(&p);
    let mut p2 = report(b"peer-color", 0, 0);
    p2.id = b"peer-1".to_vec();
    st.on_report(&p2);
    st.self_target = Pos { x_milli_px: 100_000, y_milli_px: 0 };

    // the very first tick has no elapsed time: nothing moves, and the
    // speed scalar -- hence the audio cue -- is zero
    let first = st.tick(0);
    assert_eq!(st.peers[0].1.rendered.x_milli_px, 100_000);
    assert_eq!(st.self_rendered.x_milli_px, 0);
    assert_eq!(first.gain_milli, 0);
    assert_eq!(first.frequency_milli_hz, 200_000);

    let audio = st.tick(10);
    // peer was rendered at 100 px with target 0: one 10 ms tick covers 10%
    assert_eq!(st.peers[0].1.rendered.x_milli_px, 90_000);
    // self was at 0 with target 100 px: same law
    assert_eq!(st.self_rendered.x_milli_px, 10_000);
    // self speed scalar: dist 100 px = 100_000 milli / 100 -> 1000; gain caps
    assert_eq!(audio.gain_milli, 100);
    assert_eq!(audio.frequency_milli_hz, 200_000 + 1000 * 800);
    // each tick appended the freshly rendered position to every trail
    assert_eq!(st.my_trail.len(), 2);
    assert_eq!(st.trails[0].len(), 2);
    assert_eq!(st.my_trail.point_at(1).x_milli_px, 10_000);
    assert_eq!(st.trails[0].point_at(1).x_milli_px, 90_000);
}

#[test]
fn full_pipeline_from_pointer_to_peer_table() {
    // a client builds its outbound report, the relay stamps and fans it
    // out, and a second client's peer table picks it up
    let sender = ClientState::new(
        b"hsl(40, 70%, 70%)".to_vec(),
        400_000,
        200_000,
        Pos { x_milli_px: 200_000, y_milli_px: 50_000 },
    );
    let outbound = sender.make_self_report();
    assert_eq!(outbound.id.len(), 0);
    assert_eq!(outbound.x_per_myria, 5000);
    assert_eq!(outbound.y_per_myria, 2500);

    let mut hub = Hub::new();
    let a = hub.connect(0).unwrap();
    let b = hub.connect(0).unwrap();
    let raw = encode_packet(&outbound);
    assert!(hub.handle_inbound(a, &raw, 1));

    let relayed = encode_packet(&hub.conns[b].outbox[0]);
    let decoded = copresence::wire::decode_packet(&relayed).unwrap();
    assert_eq!(decoded.id, hub.conns[a].id);

    let mut receiver = ClientState::new(
        b"hsl(90, 70%, 70%)".to_vec(),
        100_000,
        100_000,
        Pos { x_milli_px: 0, y_milli_px: 0 },
    );
    assert!(matches!(receiver.on_report(&decoded), ReportOutcome::NewPeer));
    // normalized (0.5, 0.25) lands on the receiver's own 100 x 100 px viewport
    assert_eq!(receiver.peers[0].1.target.x_milli_px, 50_000);
    assert_eq!(receiver.peers[0].1.target.y_milli_px, 25_000);
}

#[test]
fn subscribe_refuses_a_live_identity() {
    let mut hub = Hub::new();
    let a = hub.subscribe(b"session-a".to_vec(), 0).unwrap();
    assert_eq!(hub.conns[a].id, b"session-a".to_vec());
    // the same identity again is turned away, and nothing changes
    assert!(hub.subscribe(b"session-a".to_vec(), 5).is_none());
    assert_eq!(hub.conns.len(), 1);
    // a different identity is admitted
    let b = hub.subscribe(b"session-b".to_vec(), 5).unwrap();
    assert_eq!(hub.conns[b].id, b"session-b".to_vec());
}

#[test]
fn drain_outbox_hands_over_and_empties_the_queue() {
    let mut hub = Hub::new();
    let a = hub.connect(0).unwrap();
    let b = hub.connect(0).unwrap();
    hub.publish(a, &report(b"c", 1, 2), 3);
    hub.publish(b, &report(b"c", 4, 5), 6);

    let k = hub.index_of(&hub.conns[b].id.clone()).unwrap();
    assert_eq!(k, b);
    let queued = hub.drain_outbox(k);
    assert_eq!(queued.len(), 2);
    assert_eq!(queued[0].x_per_myria, 1);
    assert_eq!(queued[1].x_per_myria, 4);
    assert_eq!(hub.conns[b].outbox.len(), 0);
    // the other connection's queue is untouched
    assert_eq!(hub.conns[a].outbox.len(), 2);
    assert!(hub.index_of(&b"nobody".to_vec()).is_none());
}
