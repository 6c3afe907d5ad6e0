use std::collections::VecDeque;

use nyc_subway_rs::entities::{Color, EntityCollection, Route, Stop};
use nyc_subway_rs::feed::{merge_snapshot, Feed, FeedEntity, FeedManager, FeedOp, FeedProcessor};
use nyc_subway_rs::geo::Coord;
use nyc_subway_rs::stop::{StopInstance, StopState};

fn varint(mut v: u64) -> Vec<u8> {
    let mut out = Vec::new();
    loop {
        let b = (v & 0x7f) as u8;
        v >>= 7;
        if v == 0 {
            out.push(b);
            break;
        } else {
            out.push(b | 0x80);
        }
    }
    out
}

fn field_bytes(num: u64, payload: &[u8]) -> Vec<u8> {
    let mut out = varint((num << 3) | 2);
    out.extend(varint(payload.len() as u64));
    out.extend_from_slice(payload);
    out
}

fn field_int(num: u64, v: u64) -> Vec<u8> {
    let mut out = varint(num << 3);
    out.extend(varint(v));
    out
}

fn header_bytes(ts: u64) -> Vec<u8> {
    let mut h = field_bytes(1, b"1.0");
    h.extend(field_int(3, ts));
    h
}

fn message_bytes(ts: u64, entities: &[Vec<u8>]) -> Vec<u8> {
    let mut m = field_bytes(1, &header_bytes(ts));
    for e in entities {
        m.extend(field_bytes(2, e));
    }
    m
}

fn trip_desc_bytes(trip: &[u8], route: &[u8]) -> Vec<u8> {
    let mut t = field_bytes(1, trip);
    t.extend(field_bytes(5, route));
    t
}

fn vehicle_bytes(trip: &[u8], route: &[u8], stop: &[u8], status: u64, ts: u64) -> Vec<u8> {
    let mut v = field_bytes(1, &trip_desc_bytes(trip, route));
    v.extend(field_int(4, status));
    v.extend(field_int(5, ts));
    v.extend(field_bytes(7, stop));
    v
}

fn trip_update_bytes(trip: &[u8], route: &[u8], first_stop: &[u8]) -> Vec<u8> {
    let mut tu = field_bytes(1, &trip_desc_bytes(trip, route));
    tu.extend(field_bytes(2, &field_bytes(4, first_stop)));
    tu
}

fn entity_bytes(id: &[u8], trip_update: Option<&[u8]>, vehicle: Option<&[u8]>) -> Vec<u8> {
    let mut e = field_bytes(1, id);
    if let Some(tu) = trip_update {
        e.extend(field_bytes(3, tu));
    }
    if let Some(vp) = vehicle {
        e.extend(field_bytes(4, vp));
    }
    e
}

/// A message reporting one trip anchored and stopped at one station.
fn stopped_message(ts: u64, trip: &[u8], route: &[u8], stop: &[u8]) -> Vec<u8> {
    let tu = trip_update_bytes(trip, route, stop);
    let vp = vehicle_bytes(trip, route, stop, 1, ts);
    let e = entity_bytes(b"1", Some(&tu), Some(&vp));
    message_bytes(ts, &[e])
}

fn small_stops() -> EntityCollection<Vec<Stop>> {
    EntityCollection {
        collection: vec![
            Stop { id: b"S1".to_vec(), parent: None, coord: Coord { x: 10, y: 20 } },
            Stop { id: b"S2".to_vec(), parent: None, coord: Coord { x: 30, y: 40 } },
            Stop { id: b"S2N".to_vec(), parent: Some(b"S2".to_vec()), coord: Coord { x: 30, y: 41 } },
        ],
    }
}

fn small_routes() -> EntityCollection<Vec<Route>> {
    EntityCollection {
        collection: vec![
            Route { id: b"R1".to_vec(), color: Color { r: 255, g: 0, b: 0 } },
            Route { id: b"R2".to_vec(), color: Color { r: 0, g: 0, b: 255 } },
        ],
    }
}

fn drain_all(p: &mut FeedProcessor, routes: &EntityCollection<Vec<Route>>) {
    while p.update(routes).is_some() {}
}

#[test]
fn fetch_enqueues_add_for_stopped_vehicle() {
    let stops = small_stops();
    let mut p = FeedProcessor::new(Feed::G);
    p.fetch(&stopped_message(10, b"T1", b"R1", b"S1"), &stops);
    assert_eq!(p.queue.len(), 1);
    assert!(matches!(p.queue[0], FeedOp::Add(_)));
    assert_eq!(p.fetched_at, 10);
}

#[test]
fn fetch_same_timestamp_twice_is_idempotent() {
    let stops = small_stops();
    let msg = stopped_message(10, b"T1", b"R1", b"S1");
    let mut p = FeedProcessor::new(Feed::G);
    p.fetch(&msg, &stops);
    assert_eq!(p.queue.len(), 1);
    p.fetch(&msg, &stops);
    assert_eq!(p.queue.len(), 1, "a duplicate message enqueues nothing");
    assert_eq!(p.active_stops_current.len(), 1);
}

#[test]
fn fetch_repeated_before_drain_enqueues_nothing_new() {
    let stops = small_stops();
    let mut p = FeedProcessor::new(Feed::G);
    p.fetch(&stopped_message(10, b"T1", b"R1", b"S1"), &stops);
    p.fetch(&stopped_message(11, b"T1", b"R1", b"S1"), &stops);
    assert_eq!(p.queue.len(), 1, "the trip is already a member");
    assert_eq!(p.fetched_at, 11);
}

#[test]
fn fetch_stale_timestamp_is_noop() {
    let stops = small_stops();
    let mut p = FeedProcessor::new(Feed::G);
    p.fetch(&stopped_message(10, b"T1", b"R1", b"S1"), &stops);
    p.fetch(&stopped_message(9, b"T2", b"R1", b"S2"), &stops);
    assert_eq!(p.queue.len(), 1);
    assert_eq!(p.fetched_at, 10);
}

#[test]
fn fetch_malformed_payload_is_noop() {
    let stops = small_stops();
    let mut p = FeedProcessor::new(Feed::G);
    p.fetch(b"\x0a\x03garbage", &stops);
    assert_eq!(p.queue.len(), 0);
    assert_eq!(p.fetched_at, 0);
}

#[test]
fn nonpublic_stop_produces_no_operation() {
    let stops = small_stops();
    let mut p = FeedProcessor::new(Feed::G);
    p.fetch(&stopped_message(10, b"T1", b"R1", b"R60S"), &stops);
    assert_eq!(p.queue.len(), 0, "an unknown raw stop id is dropped");
    assert_eq!(p.active_stops_current.len(), 0);
    assert_eq!(p.fetched_at, 10, "the message itself is still accepted");
}

#[test]
fn vehicle_lagging_behind_anchor_is_excluded() {
    let stops = small_stops();
    let mut p = FeedProcessor::new(Feed::G);
    // the trip's schedule already points at S2, the vehicle still reports S1
    let tu = trip_update_bytes(b"T1", b"R1", b"S2");
    let vp = vehicle_bytes(b"T1", b"R1", b"S1", 1, 10);
    let e = entity_bytes(b"1", Some(&tu), Some(&vp));
    p.fetch(&message_bytes(10, &[e]), &stops);
    assert_eq!(p.queue.len(), 0);
}

#[test]
fn vehicle_without_anchor_is_excluded() {
    let stops = small_stops();
    let mut p = FeedProcessor::new(Feed::G);
    let vp = vehicle_bytes(b"T1", b"R1", b"S1", 1, 10);
    let e = entity_bytes(b"1", None, Some(&vp));
    p.fetch(&message_bytes(10, &[e]), &stops);
    assert_eq!(p.queue.len(), 0);
}

#[test]
fn vehicle_in_transit_is_excluded() {
    let stops = small_stops();
    let mut p = FeedProcessor::new(Feed::G);
    let tu = trip_update_bytes(b"T1", b"R1", b"S1");
    let vp = vehicle_bytes(b"T1", b"R1", b"S1", 2, 10);
    let e = entity_bytes(b"1", Some(&tu), Some(&vp));
    p.fetch(&message_bytes(10, &[e]), &stops);
    assert_eq!(p.queue.len(), 0);
}

#[test]
fn child_platform_resolves_to_parent_station() {
    let stops = small_stops();
    let routes = small_routes();
    let mut p = FeedProcessor::new(Feed::G);
    p.fetch(&stopped_message(10, b"T1", b"R1", b"S2N"), &stops);
    drain_all(&mut p, &routes);
    assert_eq!(p.active_stops.len(), 1);
    assert_eq!(p.active_stops[0].stop_id, b"S2".to_vec());
}

#[test]
fn drain_applies_add_with_resolved_color() {
    let stops = small_stops();
    let routes = small_routes();
    let mut p = FeedProcessor::new(Feed::G);
    p.fetch(&stopped_message(10, b"T1", b"R1", b"S1"), &stops);
    assert!(p.update(&routes).is_some());
    assert_eq!(p.active_stops.len(), 1);
    let e: &FeedEntity = &p.active_stops[0];
    assert_eq!(e.trip_id, b"T1".to_vec());
    assert_eq!(e.stop_id, b"S1".to_vec());
    assert_eq!(e.color, Some(Color { r: 255, g: 0, b: 0 }));
    assert!(p.update(&routes).is_none(), "the queue is drained");
}

#[test]
fn drain_unknown_route_discards_entry_but_reports_applied() {
    let stops = small_stops();
    let routes = small_routes();
    let mut p = FeedProcessor::new(Feed::G);
    p.fetch(&stopped_message(10, b"T1", b"R9", b"S1"), &stops);
    assert!(p.update(&routes).is_some());
    assert_eq!(p.active_stops.len(), 0);
}

#[test]
fn drain_remove_of_absent_trip_is_harmless() {
    let routes = small_routes();
    let mut p = FeedProcessor::new(Feed::G);
    p.queue.push_back(FeedOp::Remove(b"T9".to_vec()));
    assert!(p.update(&routes).is_some());
    assert_eq!(p.active_stops.len(), 0);
    assert!(p.update(&routes).is_none());
}

#[test]
fn at_most_one_active_entry_per_trip() {
    let stops = small_stops();
    let routes = small_routes();
    let mut p = FeedProcessor::new(Feed::G);
    let msgs = [
        stopped_message(10, b"T1", b"R1", b"S1"),
        stopped_message(11, b"T1", b"R1", b"S1"),
        stopped_message(12, b"T1", b"R2", b"S2"),
    ];
    for msg in &msgs {
        p.fetch(msg, &stops);
        while p.update(&routes).is_some() {
            for i in 0..p.active_stops.len() {
                for j in (i + 1)..p.active_stops.len() {
                    assert_ne!(p.active_stops[i].trip_id, p.active_stops[j].trip_id);
                }
            }
        }
    }
}

#[test]
fn removes_are_enqueued_before_adds() {
    let stops = small_stops();
    let routes = small_routes();
    let mut p = FeedProcessor::new(Feed::G);
    p.fetch(&stopped_message(10, b"T1", b"R1", b"S1"), &stops);
    drain_all(&mut p, &routes);
    // next message: T1 is gone, T2 appears
    p.fetch(&stopped_message(11, b"T2", b"R2", b"S2"), &stops);
    assert_eq!(p.queue.len(), 2);
    assert!(matches!(p.queue[0], FeedOp::Remove(_)));
    assert!(matches!(p.queue[1], FeedOp::Add(_)));
}

#[test]
fn relocation_shows_new_station_only() {
    let stops = small_stops();
    let routes = small_routes();
    let mut p = FeedProcessor::new(Feed::G);
    p.fetch(&stopped_message(10, b"T1", b"R1", b"S1"), &stops);
    drain_all(&mut p, &routes);
    assert_eq!(p.active_stops[0].stop_id, b"S1".to_vec());
    // the vehicle leaves S1 (in transit: no survivor for T1)
    let vp = vehicle_bytes(b"T1", b"R1", b"S2", 2, 11);
    let e = entity_bytes(b"1", Some(&trip_update_bytes(b"T1", b"R1", b"S2")), Some(&vp));
    p.fetch(&message_bytes(11, &[e]), &stops);
    drain_all(&mut p, &routes);
    assert_eq!(p.active_stops.len(), 0, "S1's activation for T1 is removed");
    // it stops at S2
    p.fetch(&stopped_message(12, b"T1", b"R1", b"S2"), &stops);
    drain_all(&mut p, &routes);
    assert_eq!(p.active_stops.len(), 1);
    assert_eq!(p.active_stops[0].stop_id, b"S2".to_vec(), "only S2 is attributed");
}

#[test]
fn merge_picks_most_recent_entry_per_station() {
    let stops = small_stops();
    let mk = |ts: u64, color: Color| FeedProcessor {
        feed: Feed::G,
        fetched_at: ts,
        queue: VecDeque::new(),
        active_stops: vec![FeedEntity {
            trip_id: format!("T{ts}").into_bytes(),
            route_id: b"R".to_vec(),
            stop_id: b"S1".to_vec(),
            timestamp: ts,
            color: Some(color),
        }],
        active_stops_current: vec![format!("T{ts}").into_bytes()],
    };
    let feeds = vec![
        mk(100, Color { r: 1, g: 1, b: 1 }),
        mk(200, Color { r: 2, g: 2, b: 2 }),
    ];
    let parents = stops.canonical_ids();
    let snap = merge_snapshot(&feeds, &stops, &parents);
    let active: Vec<&StopState> = snap
        .iter()
        .filter(|r| matches!(r, StopState::Active(_)))
        .collect();
    assert_eq!(active.len(), 1);
    match active[0] {
        StopState::Active(inst) => {
            assert_eq!(inst.stop_id, b"S1".to_vec());
            assert_eq!(inst.color, Color { r: 2, g: 2, b: 2 }, "the newer timestamp wins");
        }
        _ => unreachable!(),
    }
}

#[test]
fn merge_orders_inactive_before_active() {
    let stops = small_stops();
    let feeds = vec![FeedProcessor {
        feed: Feed::G,
        fetched_at: 1,
        queue: VecDeque::new(),
        active_stops: vec![FeedEntity {
            trip_id: b"T1".to_vec(),
            route_id: b"R1".to_vec(),
            stop_id: b"S1".to_vec(),
            timestamp: 1,
            color: Some(Color { r: 9, g: 9, b: 9 }),
        }],
        active_stops_current: vec![b"T1".to_vec()],
    }];
    let parents = stops.canonical_ids();
    let snap = merge_snapshot(&feeds, &stops, &parents);
    assert_eq!(snap.len(), 2, "one record per canonical station");
    assert!(matches!(snap[0], StopState::Inactive(_)));
    assert!(matches!(snap[1], StopState::Active(_)));
    match &snap[0] {
        StopState::Inactive(inst) => {
            assert_eq!(inst.stop_id, b"S2".to_vec());
            assert_eq!(inst.color, Color { r: 255, g: 255, b: 255 });
            assert_eq!(inst.scale_tenths, 0);
            assert_eq!(inst.coord, Coord { x: 30, y: 40 });
        }
        _ => unreachable!(),
    }
}

#[test]
fn manager_tick_applies_batch_floor() {
    // 25 pending operations: one tick applies ceil(25/10) = 3 of them
    let mut queue = VecDeque::new();
    for i in 0..25u32 {
        queue.push_back(FeedOp::Remove(format!("T{i}").into_bytes()));
    }
    let p = FeedProcessor {
        feed: Feed::G,
        fetched_at: 0,
        queue,
        active_stops: Vec::new(),
        active_stops_current: Vec::new(),
    };
    let mut mgr = FeedManager::from_processors(vec![p], small_stops(), small_routes());
    let snaps = mgr.update(None);
    assert_eq!(snaps.len(), 3, "one snapshot per applied operation");
    assert_eq!(mgr.feeds[0].queue.len(), 22);
    assert_eq!(mgr.feed_idx, 1);
}

#[test]
fn manager_tick_applies_at_least_one() {
    let mut queue = VecDeque::new();
    queue.push_back(FeedOp::Remove(b"T1".to_vec()));
    let p = FeedProcessor {
        feed: Feed::G,
        fetched_at: 0,
        queue,
        active_stops: Vec::new(),
        active_stops_current: Vec::new(),
    };
    let mut mgr = FeedManager::from_processors(vec![p], small_stops(), small_routes());
    let snaps = mgr.update(None);
    assert_eq!(snaps.len(), 1, "a non-empty queue never yields zero work");
    assert_eq!(mgr.feeds[0].queue.len(), 0);
}

#[test]
fn manager_refresh_on_empty_queue_publishes_nothing() {
    let p = FeedProcessor::new(Feed::G);
    let mut mgr = FeedManager::from_processors(vec![p], small_stops(), small_routes());
    assert!(mgr.needs_refresh());
    let payload = stopped_message(10, b"T1", b"R1", b"S1");
    let snaps = mgr.update(Some(&payload));
    assert_eq!(snaps.len(), 0, "the refresh path publishes no snapshot");
    assert_eq!(mgr.feeds[0].fetched_at, 10);
    assert_eq!(mgr.feeds[0].active_stops.len(), 1, "the single drain applied the add");
    assert_eq!(mgr.feed_idx, 1);
}

#[test]
fn manager_cursor_wraps_round_robin() {
    let p1 = FeedProcessor::new(Feed::ACE);
    let p2 = FeedProcessor::new(Feed::G);
    let mut mgr = FeedManager::from_processors(vec![p1, p2], small_stops(), small_routes());
    assert_eq!(mgr.current_feed(), 0);
    mgr.update(None);
    assert_eq!(mgr.current_feed(), 1);
    mgr.update(None);
    assert_eq!(mgr.current_feed(), 0, "the cursor wraps to the first feed");
}

#[test]
fn end_to_end_single_station_activation() {
    // station S1 is its own canonical station; trip T1 on route R1 is
    // anchored at S1 and stopped there; R1 draws red
    let stops = EntityCollection {
        collection: vec![Stop { id: b"S1".to_vec(), parent: None, coord: Coord { x: 5, y: 6 } }],
    };
    let routes = EntityCollection {
        collection: vec![Route { id: b"R1".to_vec(), color: Color { r: 255, g: 0, b: 0 } }],
    };
    let mut p = FeedProcessor::new(Feed::G);
    p.fetch(&stopped_message(10, b"T1", b"R1", b"S1"), &stops);
    drain_all(&mut p, &routes);
    let parents = stops.canonical_ids();
    let snap = merge_snapshot(&vec![p], &stops, &parents);
    assert_eq!(snap.len(), 1);
    match &snap[0] {
        StopState::Active(inst) => {
            assert_eq!(inst.stop_id, b"S1".to_vec());
            assert_eq!(inst.color, Color { r: 255, g: 0, b: 0 });
            assert_eq!(inst.coord, Coord { x: 5, y: 6 });
            assert_eq!(inst.scale_tenths, 5);
        }
        _ => panic!("S1 must be active"),
    }
}

#[test]
fn later_anchor_for_same_trip_wins() {
    let stops = small_stops();
    let mut p = FeedProcessor::new(Feed::G);
    // two trip updates for T1: the later one anchors it at S1, where
    // the vehicle actually reports being stopped
    let tu_old = trip_update_bytes(b"T1", b"R1", b"S2");
    let tu_new = trip_update_bytes(b"T1", b"R1", b"S1");
    let vp = vehicle_bytes(b"T1", b"R1", b"S1", 1, 10);
    let e1 = entity_bytes(b"1", Some(&tu_old), None);
    let e2 = entity_bytes(b"2", Some(&tu_new), Some(&vp));
    p.fetch(&message_bytes(10, &[e1, e2]), &stops);
    assert_eq!(p.queue.len(), 1);
    assert!(matches!(p.queue[0], FeedOp::Add(_)));
}

#[test]
fn duplicate_vehicle_reports_deduplicate_by_trip() {
    let stops = small_stops();
    let mut p = FeedProcessor::new(Feed::G);
    let tu = trip_update_bytes(b"T1", b"R1", b"S1");
    let vp1 = vehicle_bytes(b"T1", b"R1", b"S1", 1, 10);
    let vp2 = vehicle_bytes(b"T1", b"R1", b"S1", 1, 12);
    let e1 = entity_bytes(b"1", Some(&tu), Some(&vp1));
    let e2 = entity_bytes(b"2", None, Some(&vp2));
    p.fetch(&message_bytes(10, &[e1, e2]), &stops);
    assert_eq!(p.queue.len(), 1, "one stop reported per trip");
    match &p.queue[0] {
        FeedOp::Add(e) => assert_eq!(e.timestamp, 12, "the later report wins"),
        _ => panic!("expected an add"),
    }
}

#[test]
fn fetch_appends_to_an_undrained_queue() {
    let stops = small_stops();
    let mut p = FeedProcessor::new(Feed::G);
    p.fetch(&stopped_message(10, b"T1", b"R1", b"S1"), &stops);
    assert_eq!(p.queue.len(), 1);
    // T1 disappears, T2 appears, before anything was drained
    p.fetch(&stopped_message(11, b"T2", b"R2", b"S2"), &stops);
    assert_eq!(p.queue.len(), 3);
    assert!(matches!(p.queue[0], FeedOp::Add(_)));
    assert!(matches!(p.queue[1], FeedOp::Remove(_)));
    assert!(matches!(p.queue[2], FeedOp::Add(_)));
}

#[test]
fn two_feeds_merge_through_manager() {
    let stops = small_stops();
    let routes = small_routes();
    let mut p1 = FeedProcessor::new(Feed::ACE);
    let mut p2 = FeedProcessor::new(Feed::G);
    p1.fetch(&stopped_message(100, b"T1", b"R1", b"S1"), &stops);
    drain_all(&mut p1, &routes);
    p2.fetch(&stopped_message(200, b"T2", b"R2", b"S1"), &stops);
    drain_all(&mut p2, &routes);
    // give the first feed pending work so the tick publishes
    p1.queue.push_back(FeedOp::Remove(b"T9".to_vec()));
    let mut mgr = FeedManager::from_processors(vec![p1, p2], stops, routes);
    let snaps = mgr.update(None);
    assert_eq!(snaps.len(), 1);
    let snap = &snaps[0];
    let active: Vec<_> = snap
        .iter()
        .filter_map(|r| match r {
            StopState::Active(i) => Some(i),
            _ => None,
        })
        .collect();
    assert_eq!(active.len(), 1);
    assert_eq!(active[0].stop_id, b"S1".to_vec());
    assert_eq!(
        active[0].color,
        Color { r: 0, g: 0, b: 255 },
        "the feed with the newer timestamp colors the station"
    );
}

#[test]
fn default_instance_is_inactive_white() {
    let d = StopInstance::default();
    assert_eq!(d.stop_id, Vec::<u8>::new());
    assert_eq!(d.coord, Coord { x: 0, y: 0 });
    assert_eq!(d.color, Color { r: 255, g: 255, b: 255 });
    assert_eq!(d.scale_tenths, 0);
}

#[test]
fn manager_new_builds_all_configured_feeds() {
    let mgr = FeedManager::new(small_stops(), small_routes());
    assert_eq!(mgr.feeds.len(), 8);
    assert_eq!(mgr.feeds[0].feed, Feed::ACE);
    assert_eq!(mgr.feeds[7].feed, Feed::SIR);
    for p in &mgr.feeds {
        assert_eq!(p.fetched_at, 0);
        assert_eq!(p.queue.len(), 0);
        assert_eq!(p.active_stops.len(), 0);
    }
    assert_eq!(mgr.parent_stops, vec![b"S1".to_vec(), b"S2".to_vec()]);
}
