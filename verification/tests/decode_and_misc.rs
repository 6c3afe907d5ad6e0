use nyc_subway_rs::entities::{hex_to_srgb, Color, EntityCollection, Stop};
use nyc_subway_rs::feed::Feed;
use nyc_subway_rs::geo::{combine_bounding_rect, Coord, Rect};
use nyc_subway_rs::proto::decode_feed_message;
use nyc_subway_rs::static_data::shoud_fetch;

fn varint(mut v: u64) -> Vec<u8> {
    let mut out = Vec::new();
    loop {
        let b = (v & 0x7f) as u8;
        v >>= 7;
        if v == 0 {
            out.push(b);
            break;
        } else {
            out.push(b | 0x80);
        }
    }
    out
}

fn field_bytes(num: u64, payload: &[u8]) -> Vec<u8> {
    let mut out = varint((num << 3) | 2);
    out.extend(varint(payload.len() as u64));
    out.extend_from_slice(payload);
    out
}

fn field_int(num: u64, v: u64) -> Vec<u8> {
    let mut out = varint(num << 3);
    out.extend(varint(v));
    out
}

fn header_bytes(ts: u64) -> Vec<u8> {
    let mut h = field_bytes(1, b"1.0");
    h.extend(field_int(3, ts));
    h
}

fn message_bytes(ts: u64, entities: &[Vec<u8>]) -> Vec<u8> {
    let mut m = field_bytes(1, &header_bytes(ts));
    for e in entities {
        m.extend(field_bytes(2, e));
    }
    m
}

fn trip_desc_bytes(trip: &[u8], route: &[u8]) -> Vec<u8> {
    let mut t = field_bytes(1, trip);
    t.extend(field_bytes(5, route));
    t
}

fn vehicle_bytes(trip: &[u8], route: &[u8], stop: &[u8], status: u64, ts: u64) -> Vec<u8> {
    let mut v = field_bytes(1, &trip_desc_bytes(trip, route));
    v.extend(field_int(4, status));
    v.extend(field_int(5, ts));
    v.extend(field_bytes(7, stop));
    v
}

fn entity_bytes(id: &[u8], trip_update: Option<&[u8]>, vehicle: Option<&[u8]>) -> Vec<u8> {
    let mut e = field_bytes(1, id);
    if let Some(tu) = trip_update {
        e.extend(field_bytes(3, tu));
    }
    if let Some(vp) = vehicle {
        e.extend(field_bytes(4, vp));
    }
    e
}

#[test]
fn decode_header_timestamp() {
    let m = message_bytes(42, &[]);
    let msg = decode_feed_message(&m).expect("well-formed message");
    assert_eq!(msg.timestamp, Some(42));
    assert_eq!(msg.entity.len(), 0);
}

#[test]
fn decode_multi_byte_varint_timestamp() {
    let m = message_bytes(1_700_000_000, &[]);
    let msg = decode_feed_message(&m).expect("well-formed message");
    assert_eq!(msg.timestamp, Some(1_700_000_000));
}

#[test]
fn decode_entities_in_order() {
    let v1 = vehicle_bytes(b"T1", b"R1", b"S1", 1, 10);
    let v2 = vehicle_bytes(b"T2", b"R2", b"S2", 2, 11);
    let e1 = entity_bytes(b"1", None, Some(&v1));
    let e2 = entity_bytes(b"2", None, Some(&v2));
    let m = message_bytes(5, &[e1, e2]);
    let msg = decode_feed_message(&m).expect("well-formed message");
    assert_eq!(msg.entity.len(), 2);
    let first = msg.entity[0].vehicle.as_ref().expect("vehicle");
    assert_eq!(first.stop_id.as_deref(), Some(&b"S1"[..]));
    assert_eq!(first.current_status, Some(1));
    assert_eq!(first.timestamp, Some(10));
    let trip = first.trip.as_ref().expect("trip");
    assert_eq!(trip.trip_id.as_deref(), Some(&b"T1"[..]));
    assert_eq!(trip.route_id.as_deref(), Some(&b"R1"[..]));
    let second = msg.entity[1].vehicle.as_ref().expect("vehicle");
    assert_eq!(second.stop_id.as_deref(), Some(&b"S2"[..]));
    assert_eq!(second.current_status, Some(2));
}

#[test]
fn decode_trip_update_anchor() {
    let mut tu = field_bytes(1, &trip_desc_bytes(b"T1", b"R1"));
    tu.extend(field_bytes(2, &field_bytes(4, b"S1N")));
    tu.extend(field_bytes(2, &field_bytes(4, b"S2N")));
    let e = entity_bytes(b"1", Some(&tu), None);
    let m = message_bytes(7, &[e]);
    let msg = decode_feed_message(&m).expect("well-formed message");
    let tup = msg.entity[0].trip_update.as_ref().expect("trip update");
    assert_eq!(tup.trip.trip_id.as_deref(), Some(&b"T1"[..]));
    assert_eq!(tup.stop_time_update.len(), 2);
    assert_eq!(tup.stop_time_update[0].stop_id.as_deref(), Some(&b"S1N"[..]));
    assert_eq!(tup.stop_time_update[1].stop_id.as_deref(), Some(&b"S2N"[..]));
}

#[test]
fn decode_skips_unknown_fields() {
    let mut m = field_bytes(1, &header_bytes(9));
    m.extend(field_int(15, 77));
    m.extend(field_bytes(14, b"opaque"));
    let msg = decode_feed_message(&m).expect("unknown fields are skipped");
    assert_eq!(msg.timestamp, Some(9));
}

#[test]
fn decode_rejects_truncated_payload() {
    let mut m = message_bytes(3, &[]);
    m.pop();
    assert!(decode_feed_message(&m).is_none());
}

#[test]
fn decode_rejects_missing_header() {
    let e = entity_bytes(b"1", None, None);
    let m = field_bytes(2, &e);
    assert!(decode_feed_message(&m).is_none());
}

#[test]
fn decode_rejects_missing_header_version() {
    let h = field_int(3, 12);
    let m = field_bytes(1, &h);
    assert!(decode_feed_message(&m).is_none());
}

#[test]
fn decode_rejects_field_number_zero() {
    let mut m = message_bytes(3, &[]);
    m.extend(varint(0));
    m.extend(varint(1));
    assert!(decode_feed_message(&m).is_none());
}

#[test]
fn decode_header_without_timestamp() {
    let h = field_bytes(1, b"1.0");
    let m = field_bytes(1, &h);
    let msg = decode_feed_message(&m).expect("header without timestamp");
    assert_eq!(msg.timestamp, None);
}

#[test]
fn hex_to_srgb_decodes_six_digits() {
    assert_eq!(hex_to_srgb(b"FF0000"), Color { r: 255, g: 0, b: 0 });
    assert_eq!(hex_to_srgb(b"00ff7f"), Color { r: 0, g: 255, b: 127 });
    assert_eq!(hex_to_srgb(b"1A2b3C"), Color { r: 26, g: 43, b: 60 });
}

#[test]
fn hex_to_srgb_falls_back_to_white() {
    assert_eq!(hex_to_srgb(b""), Color { r: 255, g: 255, b: 255 });
    assert_eq!(hex_to_srgb(b"FFF"), Color { r: 255, g: 255, b: 255 });
    assert_eq!(hex_to_srgb(b"FFFFFFF"), Color { r: 255, g: 255, b: 255 });
}

#[test]
fn resolve_prefers_parent_station() {
    let stops = EntityCollection {
        collection: vec![
            Stop { id: b"S1N".to_vec(), parent: Some(b"S1".to_vec()), coord: Coord { x: 1, y: 2 } },
            Stop { id: b"S1".to_vec(), parent: None, coord: Coord { x: 1, y: 2 } },
        ],
    };
    assert_eq!(stops.resolve(b"S1N"), Some(b"S1".to_vec()));
    assert_eq!(stops.resolve(b"S1"), Some(b"S1".to_vec()));
    assert_eq!(stops.resolve(b"R60S"), None);
}

#[test]
fn canonical_ids_lists_parentless_stops_in_order() {
    let stops = EntityCollection {
        collection: vec![
            Stop { id: b"S1N".to_vec(), parent: Some(b"S1".to_vec()), coord: Coord { x: 0, y: 0 } },
            Stop { id: b"S1".to_vec(), parent: None, coord: Coord { x: 0, y: 0 } },
            Stop { id: b"S2".to_vec(), parent: None, coord: Coord { x: 3, y: 4 } },
        ],
    };
    assert_eq!(stops.canonical_ids(), vec![b"S1".to_vec(), b"S2".to_vec()]);
}

#[test]
fn combine_bounding_rect_takes_extremes() {
    let a = Rect::new(Coord { x: 0, y: 0 }, Coord { x: 10, y: 5 });
    let b = Rect::new(Coord { x: -3, y: 2 }, Coord { x: 7, y: 9 });
    let c = combine_bounding_rect(a, b);
    assert_eq!(c.min, Coord { x: -3, y: 0 });
    assert_eq!(c.max, Coord { x: 10, y: 9 });
}

#[test]
fn rect_new_normalizes_corners() {
    let r = Rect::new(Coord { x: 5, y: -1 }, Coord { x: -2, y: 4 });
    assert_eq!(r.min, Coord { x: -2, y: -1 });
    assert_eq!(r.max, Coord { x: 5, y: 4 });
}

#[test]
fn shoud_fetch_only_when_nothing_stored() {
    assert!(shoud_fetch(false, false));
    assert!(!shoud_fetch(true, false));
    assert!(!shoud_fetch(false, true));
    assert!(!shoud_fetch(true, true));
}

#[test]
fn endpoints_are_distinct_per_feed() {
    let feeds = [
        Feed::ACE,
        Feed::G,
        Feed::NQRW,
        Feed::S1234567,
        Feed::BDFM,
        Feed::JZ,
        Feed::L,
        Feed::SIR,
    ];
    for (i, a) in feeds.iter().enumerate() {
        assert!(a.endpoint().starts_with("https://"));
        for b in feeds.iter().skip(i + 1) {
            assert_ne!(a.endpoint(), b.endpoint());
        }
    }
    assert_eq!(
        Feed::G.endpoint(),
        "https://api-endpoint.mta.info/Dataservice/mtagtfsfeeds/nyct%2Fgtfs-g"
    );
}

#[test]
fn collections_built_by_insert_are_searchable() {
    let mut stops = EntityCollection::<Vec<Stop>>::new();
    stops.insert(Stop { id: b"A1".to_vec(), parent: None, coord: Coord { x: 1, y: 1 } });
    stops.insert(Stop {
        id: b"A1N".to_vec(),
        parent: Some(b"A1".to_vec()),
        coord: Coord { x: 1, y: 2 },
    });
    assert!(stops.get(b"A1N").is_some());
    assert!(stops.get(b"A2").is_none());
    assert_eq!(stops.resolve(b"A1N"), Some(b"A1".to_vec()));

    let mut routes = EntityCollection::<Vec<nyc_subway_rs::entities::Route>>::new();
    routes.insert(nyc_subway_rs::entities::Route {
        id: b"R1".to_vec(),
        color: Color { r: 1, g: 2, b: 3 },
    });
    assert_eq!(routes.get(b"R1").map(|r| r.color()), Some(Color { r: 1, g: 2, b: 3 }));
    assert!(routes.get(b"R2").is_none());
}
