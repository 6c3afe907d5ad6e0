//! The reconciliation engine: per-feed incremental diffing of vehicle
//! positions against trip schedules (`FeedProcessor`), and the
//! round-robin scheduler that drains queued operations and publishes
//! merged snapshots (`FeedManager`).

use vstd::prelude::*;
use std::collections::VecDeque;
use crate::entities::{
    bytes_clone, bytes_eq, Color, EntityCollection, Route, RouteV, Stop, StopV, spec_find_route,
    spec_find_stop, spec_parent_ids, spec_resolve,
};
use crate::proto;
use crate::proto::FeedMessageV;
use crate::stop::{StopInstance, StopInstanceV, StopState, StopStateV};

verus! {

broadcast use crate::entities::lemma_bytes_deep_view;

/// One configured live feed source, covering a group of routes.
#[derive(Clone, Copy, Debug, PartialEq, Eq, Structural)]
pub enum Feed {
    ACE,
    G,
    NQRW,
    S1234567,
    BDFM,
    JZ,
    L,
    SIR,
}

/// Every configured feed, in round-robin order.
pub const FEEDS: [Feed; 8] = [
    Feed::ACE,
    Feed::G,
    Feed::NQRW,
    Feed::S1234567,
    Feed::BDFM,
    Feed::JZ,
    Feed::L,
    Feed::SIR,
];

/// The network endpoint each feed is refreshed from.
pub open spec fn spec_endpoint(f: Feed) -> Seq<char> {
    match f {
        Feed::ACE => "https://api-endpoint.mta.info/Dataservice/mtagtfsfeeds/nyct%2Fgtfs-ace"@,
        Feed::G => "https://api-endpoint.mta.info/Dataservice/mtagtfsfeeds/nyct%2Fgtfs-g"@,
        Feed::NQRW => "https://api-endpoint.mta.info/Dataservice/mtagtfsfeeds/nyct%2Fgtfs-nqrw"@,
        Feed::S1234567 => "https://api-endpoint.mta.info/Dataservice/mtagtfsfeeds/nyct%2Fgtfs"@,
        Feed::BDFM => "https://api-endpoint.mta.info/Dataservice/mtagtfsfeeds/nyct%2Fgtfs-bdfm"@,
        Feed::JZ => "https://api-endpoint.mta.info/Dataservice/mtagtfsfeeds/nyct%2Fgtfs-jz"@,
        Feed::L => "https://api-endpoint.mta.info/Dataservice/mtagtfsfeeds/nyct%2Fgtfs-l"@,
        Feed::SIR => "https://api-endpoint.mta.info/Dataservice/mtagtfsfeeds/nyct%2Fgtfs-si"@,
    }
}

impl Feed {
    pub fn endpoint(&self) -> (r: &'static str)
        ensures
            r@ == spec_endpoint(*self),
    {
        match self {
            Self::ACE => "https://api-endpoint.mta.info/Dataservice/mtagtfsfeeds/nyct%2Fgtfs-ace",
            Self::G => "https://api-endpoint.mta.info/Dataservice/mtagtfsfeeds/nyct%2Fgtfs-g",
            Self::NQRW => "https://api-endpoint.mta.info/Dataservice/mtagtfsfeeds/nyct%2Fgtfs-nqrw",
            Self::S1234567 => "https://api-endpoint.mta.info/Dataservice/mtagtfsfeeds/nyct%2Fgtfs",
            Self::BDFM => "https://api-endpoint.mta.info/Dataservice/mtagtfsfeeds/nyct%2Fgtfs-bdfm",
            Self::JZ => "https://api-endpoint.mta.info/Dataservice/mtagtfsfeeds/nyct%2Fgtfs-jz",
            Self::L => "https://api-endpoint.mta.info/Dataservice/mtagtfsfeeds/nyct%2Fgtfs-l",
            Self::SIR => "https://api-endpoint.mta.info/Dataservice/mtagtfsfeeds/nyct%2Fgtfs-si",
        }
    }
}

/// One trip's confirmed stop at a canonical station, as tracked inside
/// a feed processor. The color is resolved when the entry is applied
/// to the active set.
pub struct FeedEntity {
    pub trip_id: Vec<u8>,
    pub route_id: Vec<u8>,
    /// Canonical (parent-level) station id.
    pub stop_id: Vec<u8>,
    /// The vehicle-position record's event timestamp.
    pub timestamp: u64,
    pub color: Option<Color>,
}

/// The mathematical shape of a `FeedEntity`.
pub struct FeedEntityV {
    pub trip_id: Seq<u8>,
    pub route_id: Seq<u8>,
    pub stop_id: Seq<u8>,
    pub timestamp: nat,
    pub color: Option<Color>,
}

impl View for FeedEntity {
    type V = FeedEntityV;

    open spec fn view(&self) -> FeedEntityV {
        FeedEntityV {
            trip_id: self.trip_id@,
            route_id: self.route_id@,
            stop_id: self.stop_id@,
            timestamp: self.timestamp as nat,
            color: self.color,
        }
    }
}

impl DeepView for FeedEntity {
    type V = FeedEntityV;

    open spec fn deep_view(&self) -> FeedEntityV {
        self.view()
    }
}

/// A queued diff instruction, drained in FIFO order.
pub enum FeedOp {
    Add(FeedEntity),
    Remove(Vec<u8>),
}

/// The mathematical shape of a `FeedOp`.
pub enum FeedOpV {
    Add(FeedEntityV),
    Remove(Seq<u8>),
}

impl View for FeedOp {
    type V = FeedOpV;

    open spec fn view(&self) -> FeedOpV {
        match self {
            FeedOp::Add(e) => FeedOpV::Add(e@),
            FeedOp::Remove(t) => FeedOpV::Remove(t@),
        }
    }
}

impl DeepView for FeedOp {
    type V = FeedOpV;

    open spec fn deep_view(&self) -> FeedOpV {
        self.view()
    }
}

/// No two entries share a trip id.
pub open spec fn unique_trips(s: Seq<FeedEntityV>) -> bool {
    forall|i: int, j: int| 0 <= i < j < s.len() ==> s[i].trip_id != s[j].trip_id
}

/// No two byte strings are equal.
pub open spec fn unique_ids(s: Seq<Seq<u8>>) -> bool {
    forall|i: int, j: int| 0 <= i < j < s.len() ==> s[i] != s[j]
}

/// Owns one feed's reconciliation state: the last accepted header
/// timestamp, the active trip-to-station associations, the pending
/// operation queue, and the membership marker that prevents
/// re-enqueueing diffs already queued but not yet applied.
pub struct FeedProcessor {
    pub feed: Feed,
    /// Header timestamp of the last accepted message.
    pub fetched_at: u64,
    pub queue: VecDeque<FeedOp>,
    pub active_stops: Vec<FeedEntity>,
    /// Trip ids currently represented in the active set or queued as
    /// adds: the membership the next diff is computed against.
    pub active_stops_current: Vec<Vec<u8>>,
}

impl FeedProcessor {
    /// The active set as a sequence of entry shapes.
    pub open spec fn active_v(self) -> Seq<FeedEntityV> {
        self.active_stops.deep_view()
    }

    /// The membership marker as a sequence of trip ids.
    pub open spec fn members_v(self) -> Seq<Seq<u8>> {
        self.active_stops_current.deep_view()
    }

    /// The pending queue as a sequence of operation shapes.
    pub open spec fn queue_v(self) -> Seq<FeedOpV> {
        self.queue@.map_values(|op: FeedOp| op@)
    }

    /// The processor's invariant: at most one active entry per trip,
    /// every active entry carries a resolved color, and the
    /// membership marker lists each trip once.
    pub open spec fn wf(self) -> bool {
        &&& unique_trips(self.active_v())
        &&& forall|i: int| 0 <= i < self.active_v().len() ==> self.active_v()[i].color is Some
        &&& unique_ids(self.members_v())
    }

    /// A fresh processor: nothing fetched, nothing active.
    pub fn new(feed: Feed) -> (r: Self)
        ensures
            r.wf(),
            r.feed == feed,
            r.fetched_at == 0,
            r.queue_v() =~= Seq::<FeedOpV>::empty(),
            r.active_v() =~= Seq::<FeedEntityV>::empty(),
            r.members_v() =~= Seq::<Seq<u8>>::empty(),
    {
        FeedProcessor {
            feed,
            fetched_at: 0,
            queue: VecDeque::new(),
            active_stops: Vec::new(),
            active_stops_current: Vec::new(),
        }
    }
}


/// The header timestamp of a message, zero when the header carries
/// none (matching the decoder's accessor default).
pub open spec fn spec_msg_ts(m: FeedMessageV) -> nat {
    match m.timestamp {
        Option::Some(t) => t,
        Option::None => 0,
    }
}

/// A byte string, or empty when absent.
pub open spec fn spec_or_empty(o: Option<Seq<u8>>) -> Seq<u8> {
    match o {
        Option::Some(s) => s,
        Option::None => Seq::empty(),
    }
}

/// A count, or zero when absent.
pub open spec fn spec_or_zero(o: Option<nat>) -> nat {
    match o {
        Option::Some(v) => v,
        Option::None => 0,
    }
}

/// The vehicle-position stop status meaning "stopped at".
pub open spec fn spec_stopped_at() -> nat {
    1
}

/// The candidate entries one entity contributes: a vehicle position
/// with a stop id, a trip, status "stopped at", and a raw stop id
/// that resolves to a canonical station yields one entry; anything
/// else yields none.
pub open spec fn spec_vehicle_contrib(e: proto::FeedEntityV, stops: Seq<StopV>) -> Seq<
    FeedEntityV,
> {
    match e.vehicle {
        Option::Some(v) => match (v.stop_id, v.trip) {
            (Option::Some(sid), Option::Some(trip)) => {
                if v.current_status == Option::Some(spec_stopped_at()) {
                    match spec_resolve(stops, sid) {
                        Option::Some(canon) => seq![
                            FeedEntityV {
                                trip_id: spec_or_empty(trip.trip_id),
                                route_id: spec_or_empty(trip.route_id),
                                stop_id: canon,
                                timestamp: spec_or_zero(v.timestamp),
                                color: Option::None,
                            },
                        ],
                        Option::None => Seq::empty(),
                    }
                } else {
                    Seq::empty()
                }
            },
            _ => Seq::empty(),
        },
        Option::None => Seq::empty(),
    }
}

/// All candidate entries of a message, in entity order.
pub open spec fn spec_vehicle_updates(ents: Seq<proto::FeedEntityV>, stops: Seq<StopV>) -> Seq<
    FeedEntityV,
>
    decreases ents.len(),
{
    if ents.len() == 0 {
        Seq::empty()
    } else {
        spec_vehicle_updates(ents.drop_last(), stops) + spec_vehicle_contrib(ents.last(), stops)
    }
}

/// The anchor one entity sets: a trip update whose first stop-time
/// entry resolves to a canonical station associates its trip id with
/// that station.
pub open spec fn spec_anchor_contrib(e: proto::FeedEntityV, stops: Seq<StopV>) -> Option<
    (Seq<u8>, Seq<u8>),
> {
    match e.trip_update {
        Option::Some(tu) => {
            if tu.stop_time_update.len() > 0 {
                match spec_resolve(stops, spec_or_empty(tu.stop_time_update[0].stop_id)) {
                    Option::Some(canon) => Option::Some(
                        (spec_or_empty(tu.trip.trip_id), canon),
                    ),
                    Option::None => Option::None,
                }
            } else {
                Option::None
            }
        },
        Option::None => Option::None,
    }
}

/// The canonical station the message's trip updates currently anchor
/// `trip` at: the last entity that sets an anchor for it wins.
pub open spec fn spec_anchor_of(
    ents: Seq<proto::FeedEntityV>,
    stops: Seq<StopV>,
    trip: Seq<u8>,
) -> Option<Seq<u8>>
    decreases ents.len(),
{
    if ents.len() == 0 {
        None
    } else {
        match spec_anchor_contrib(ents.last(), stops) {
            Option::Some(pair) => if pair.0 == trip {
                Option::Some(pair.1)
            } else {
                spec_anchor_of(ents.drop_last(), stops, trip)
            },
            Option::None => spec_anchor_of(ents.drop_last(), stops, trip),
        }
    }
}

/// The position of the first entry for `trip`, or minus one.
pub open spec fn spec_trip_index(s: Seq<FeedEntityV>, trip: Seq<u8>) -> int
    decreases s.len(),
{
    if s.len() == 0 {
        -1
    } else if s[0].trip_id == trip {
        0
    } else {
        let r = spec_trip_index(s.drop_first(), trip);
        if r == -1 {
            -1
        } else {
            r + 1
        }
    }
}

/// Whether some entry is for `trip`.
pub open spec fn spec_has_trip(s: Seq<FeedEntityV>, trip: Seq<u8>) -> bool {
    spec_trip_index(s, trip) != -1
}

pub proof fn lemma_trip_index_props(s: Seq<FeedEntityV>, trip: Seq<u8>)
    ensures
        ({
            let i = spec_trip_index(s, trip);
            &&& i == -1 ==> forall|k: int| 0 <= k < s.len() ==> s[k].trip_id != trip
            &&& i != -1 ==> 0 <= i < s.len() && s[i].trip_id == trip && (forall|k: int|
                0 <= k < i ==> s[k].trip_id != trip)
        }),
    decreases s.len(),
{
    if s.len() > 0 && s[0].trip_id != trip {
        lemma_trip_index_props(s.drop_first(), trip);
        let r = spec_trip_index(s.drop_first(), trip);
        if r == -1 {
            assert forall|k: int| 0 <= k < s.len() implies s[k].trip_id != trip by {
                if k > 0 {
                    assert(s.drop_first()[k - 1] == s[k]);
                }
            }
        } else {
            assert(s.drop_first()[r] == s[r + 1]);
            assert forall|k: int| 0 <= k < r + 1 implies s[k].trip_id != trip by {
                if k > 0 {
                    assert(s.drop_first()[k - 1] == s[k]);
                }
            }
        }
    }
}

proof fn lemma_trip_index_skip(s: Seq<FeedEntityV>, trip: Seq<u8>, i: int)
    requires
        0 <= i <= s.len(),
        forall|k: int| 0 <= k < i ==> s[k].trip_id != trip,
    ensures
        spec_trip_index(s, trip) == (if spec_trip_index(s.skip(i), trip) == -1 {
            -1
        } else {
            i + spec_trip_index(s.skip(i), trip)
        }),
    decreases i,
{
    if i > 0 {
        assert(s[0].trip_id != trip);
        assert forall|k: int| 0 <= k < i - 1 implies s.drop_first()[k].trip_id != trip by {
            assert(s.drop_first()[k] == s[k + 1]);
        }
        lemma_trip_index_skip(s.drop_first(), trip, i - 1);
        assert(s.drop_first().skip(i - 1) =~= s.skip(i));
        lemma_trip_index_props(s.skip(i), trip);
    } else {
        assert(s.skip(0) =~= s);
    }
}

/// Replaces the entry for the same trip, or appends one.
pub open spec fn spec_upsert(s: Seq<FeedEntityV>, e: FeedEntityV) -> Seq<FeedEntityV> {
    let i = spec_trip_index(s, e.trip_id);
    if i == -1 {
        s.push(e)
    } else {
        s.update(i, e)
    }
}

pub proof fn lemma_upsert_unique(s: Seq<FeedEntityV>, e: FeedEntityV)
    requires
        unique_trips(s),
    ensures
        unique_trips(spec_upsert(s, e)),
{
    lemma_trip_index_props(s, e.trip_id);
}

/// The survivors of the filter-and-deduplicate pass: candidates whose
/// station agrees with their trip's anchor, one entry per trip, a
/// later candidate replacing an earlier one for the same trip.
pub open spec fn spec_survivors_fold(
    vus: Seq<FeedEntityV>,
    ents: Seq<proto::FeedEntityV>,
    stops: Seq<StopV>,
) -> Seq<FeedEntityV>
    decreases vus.len(),
{
    if vus.len() == 0 {
        Seq::empty()
    } else {
        let prefix = spec_survivors_fold(vus.drop_last(), ents, stops);
        let e = vus.last();
        if spec_anchor_of(ents, stops, e.trip_id) == Option::Some(e.stop_id) {
            spec_upsert(prefix, e)
        } else {
            prefix
        }
    }
}

/// The trips a message confirms as currently stopped, with their
/// canonical stations: the survivor set one fetch diffs against.
pub open spec fn spec_survivors(m: FeedMessageV, stops: Seq<StopV>) -> Seq<FeedEntityV> {
    spec_survivors_fold(spec_vehicle_updates(m.entity, stops), m.entity, stops)
}

pub proof fn lemma_survivors_unique(
    vus: Seq<FeedEntityV>,
    ents: Seq<proto::FeedEntityV>,
    stops: Seq<StopV>,
)
    ensures
        unique_trips(spec_survivors_fold(vus, ents, stops)),
    decreases vus.len(),
{
    if vus.len() > 0 {
        lemma_survivors_unique(vus.drop_last(), ents, stops);
        lemma_upsert_unique(spec_survivors_fold(vus.drop_last(), ents, stops), vus.last());
    }
}

/// The member trips still present in the survivor set, in member
/// order.
pub open spec fn spec_kept(members: Seq<Seq<u8>>, survivors: Seq<FeedEntityV>) -> Seq<Seq<u8>>
    decreases members.len(),
{
    if members.len() == 0 {
        Seq::empty()
    } else {
        let rest = spec_kept(members.drop_first(), survivors);
        if spec_has_trip(survivors, members[0]) {
            seq![members[0]] + rest
        } else {
            rest
        }
    }
}

/// The trips of the additions, in the same order.
pub open spec fn spec_add_trips(members: Seq<Seq<u8>>, survivors: Seq<FeedEntityV>) -> Seq<Seq<u8>>
    decreases survivors.len(),
{
    if survivors.len() == 0 {
        Seq::empty()
    } else {
        let rest = spec_add_trips(members, survivors.drop_first());
        if members.contains(survivors[0].trip_id) {
            rest
        } else {
            seq![survivors[0].trip_id] + rest
        }
    }
}

/// The removals as queued operations, in member order.
pub open spec fn spec_remove_ops(members: Seq<Seq<u8>>, survivors: Seq<FeedEntityV>) -> Seq<
    FeedOpV,
>
    decreases members.len(),
{
    if members.len() == 0 {
        Seq::empty()
    } else {
        let rest = spec_remove_ops(members.drop_first(), survivors);
        if spec_has_trip(survivors, members[0]) {
            rest
        } else {
            seq![FeedOpV::Remove(members[0])] + rest
        }
    }
}

/// The additions as queued operations, in survivor order.
pub open spec fn spec_add_ops(members: Seq<Seq<u8>>, survivors: Seq<FeedEntityV>) -> Seq<FeedOpV>
    decreases survivors.len(),
{
    if survivors.len() == 0 {
        Seq::empty()
    } else {
        let rest = spec_add_ops(members, survivors.drop_first());
        if members.contains(survivors[0].trip_id) {
            rest
        } else {
            seq![FeedOpV::Add(survivors[0])] + rest
        }
    }
}

/// The membership after one accepted fetch: kept members, then the
/// added trips.
pub open spec fn spec_new_members(members: Seq<Seq<u8>>, survivors: Seq<FeedEntityV>) -> Seq<
    Seq<u8>,
> {
    spec_kept(members, survivors) + spec_add_trips(members, survivors)
}

/// The operations one accepted fetch appends to the queue: every
/// removal before every addition.
pub open spec fn spec_diff_ops(members: Seq<Seq<u8>>, survivors: Seq<FeedEntityV>) -> Seq<
    FeedOpV,
> {
    spec_remove_ops(members, survivors) + spec_add_ops(members, survivors)
}


/// A copy of the byte string, or an empty one when absent.
fn clone_or_empty(o: &Option<Vec<u8>>) -> (r: Vec<u8>)
    ensures
        r@ == spec_or_empty(o.deep_view()),
{
    match o {
        Some(v) => bytes_clone(v.as_slice()),
        None => {
            let r: Vec<u8> = Vec::new();
            proof {
                assert(r@ =~= Seq::<u8>::empty());
            }
            r
        },
    }
}

/// Whether `id` occurs in the list.
fn contains_id(v: &Vec<Vec<u8>>, id: &[u8]) -> (r: bool)
    ensures
        r == v.deep_view().contains(id@),
{
    let mut i: usize = 0;
    while i < v.len()
        invariant
            0 <= i <= v@.len(),
            forall|k: int| 0 <= k < i ==> v.deep_view()[k] != id@,
        decreases v@.len() - i,
    {
        if bytes_eq(v[i].as_slice(), id) {
            proof {
                assert(v.deep_view()[i as int] == id@);
            }
            return true;
        }
        i += 1;
    }
    proof {
        assert(!v.deep_view().contains(id@));
    }
    false
}

/// The position of the first entry for `trip`, if any.
fn find_trip(v: &Vec<FeedEntity>, trip: &[u8]) -> (r: Option<usize>)
    ensures
        match r {
            Option::Some(i) => i < v@.len() && spec_trip_index(v.deep_view(), trip@) == i as int,
            Option::None => spec_trip_index(v.deep_view(), trip@) == -1,
        },
{
    let mut i: usize = 0;
    while i < v.len()
        invariant
            0 <= i <= v@.len(),
            forall|k: int| 0 <= k < i ==> v.deep_view()[k].trip_id != trip@,
        decreases v@.len() - i,
    {
        let hit = bytes_eq(v[i].trip_id.as_slice(), trip);
        proof {
            assert(v.deep_view()[i as int] == v@[i as int].deep_view());
        }
        if hit {
            proof {
                lemma_trip_index_skip(v.deep_view(), trip@, i as int);
                assert(v.deep_view().skip(i as int)[0] == v.deep_view()[i as int]);
            }
            return Some(i);
        }
        i += 1;
    }
    proof {
        lemma_trip_index_skip(v.deep_view(), trip@, v@.len() as int);
        assert(v.deep_view().skip(v@.len() as int) =~= Seq::<FeedEntityV>::empty());
    }
    None
}

/// Replaces the entry for the same trip, or appends the entry.
fn upsert_entry(v: &mut Vec<FeedEntity>, e: FeedEntity)
    ensures
        final(v).deep_view() =~= spec_upsert(old(v).deep_view(), e@),
{
    match find_trip(v, e.trip_id.as_slice()) {
        Some(i) => {
            v[i] = e;
            proof {
                assert(v.deep_view() =~= old(v).deep_view().update(
                    spec_trip_index(old(v).deep_view(), e@.trip_id),
                    e@,
                ));
            }
        },
        None => {
            v.push(e);
            proof {
                assert(v.deep_view() =~= old(v).deep_view().push(e@));
            }
        },
    }
}

/// The anchor one entity sets for its trip, if any.
fn anchor_contrib(e: &proto::FeedEntity, stops: &EntityCollection<Vec<Stop>>) -> (r: Option<
    (Vec<u8>, Vec<u8>),
>)
    ensures
        r.deep_view() == spec_anchor_contrib(e.deep_view(), stops.rows()),
{
    match &e.trip_update {
        Some(tu) => {
            if tu.stop_time_update.len() > 0 {
                let sid = clone_or_empty(&tu.stop_time_update[0].stop_id);
                proof {
                    assert(tu.stop_time_update.deep_view()[0] == tu.stop_time_update@[0]
                        .deep_view());
                }
                match stops.resolve(sid.as_slice()) {
                    Some(canon) => Some((clone_or_empty(&tu.trip.trip_id), canon)),
                    None => None,
                }
            } else {
                None
            }
        },
        None => None,
    }
}

/// The canonical station the message currently anchors `trip` at.
fn anchor_of(
    ents: &Vec<proto::FeedEntity>,
    stops: &EntityCollection<Vec<Stop>>,
    trip: &[u8],
) -> (r: Option<Vec<u8>>)
    ensures
        r.deep_view() == spec_anchor_of(ents.deep_view(), stops.rows(), trip@),
{
    let mut i: usize = ents.len();
    proof {
        assert(ents.deep_view().take(ents@.len() as int) =~= ents.deep_view());
    }
    while i > 0
        invariant
            i <= ents@.len(),
            spec_anchor_of(ents.deep_view(), stops.rows(), trip@) == spec_anchor_of(
                ents.deep_view().take(i as int),
                stops.rows(),
                trip@,
            ),
        decreases i,
    {
        i = i - 1;
        let c = anchor_contrib(&ents[i], stops);
        proof {
            assert(ents.deep_view()[i as int] == ents@[i as int].deep_view());
            assert(ents.deep_view().take(i + 1).drop_last() =~= ents.deep_view().take(i as int));
            assert(ents.deep_view().take(i + 1).last() == ents.deep_view()[i as int]);
        }
        match c {
            Some((t, canon)) => {
                if bytes_eq(t.as_slice(), trip) {
                    return Some(canon);
                }
            },
            None => {},
        }
    }
    proof {
        assert(ents.deep_view().take(0) =~= Seq::<proto::FeedEntityV>::empty());
    }
    None
}

/// All candidate entries of the message, in entity order: stopped
/// vehicles with a trip, at a raw stop that resolves.
fn collect_vehicle_updates(
    ents: &Vec<proto::FeedEntity>,
    stops: &EntityCollection<Vec<Stop>>,
) -> (r: Vec<FeedEntity>)
    ensures
        r.deep_view() =~= spec_vehicle_updates(ents.deep_view(), stops.rows()),
{
    let mut r: Vec<FeedEntity> = Vec::new();
    let mut i: usize = 0;
    proof {
        assert(ents.deep_view().take(0) =~= Seq::<proto::FeedEntityV>::empty());
        assert(r.deep_view() =~= Seq::<FeedEntityV>::empty());
    }
    while i < ents.len()
        invariant
            0 <= i <= ents@.len(),
            r.deep_view() =~= spec_vehicle_updates(ents.deep_view().take(i as int), stops.rows()),
        decreases ents@.len() - i,
    {
        proof {
            assert(ents.deep_view()[i as int] == ents@[i as int].deep_view());
            assert(ents.deep_view().take(i + 1).drop_last() =~= ents.deep_view().take(i as int));
            assert(ents.deep_view().take(i + 1).last() == ents.deep_view()[i as int]);
        }
        let ghost prev = r.deep_view();
        match &ents[i].vehicle {
            Some(v) => {
                let stopped = match &v.current_status {
                    Some(st) => *st == 1,
                    None => false,
                };
                if stopped && v.stop_id.is_some() && v.trip.is_some() {
                    let sid = clone_or_empty(&v.stop_id);
                    match stops.resolve(sid.as_slice()) {
                        Some(canon) => {
                            let trip = match &v.trip {
                                Some(t) => t,
                                None => unreached(),
                            };
                            let entry = FeedEntity {
                                trip_id: clone_or_empty(&trip.trip_id),
                                route_id: clone_or_empty(&trip.route_id),
                                stop_id: canon,
                                timestamp: match &v.timestamp {
                                    Some(t) => *t,
                                    None => 0,
                                },
                                color: None,
                            };
                            r.push(entry);
                            proof {
                                assert(r.deep_view() =~= prev + spec_vehicle_contrib(
                                    ents.deep_view()[i as int],
                                    stops.rows(),
                                ));
                            }
                        },
                        None => {},
                    }
                }
            },
            None => {},
        }
        i += 1;
    }
    proof {
        assert(ents.deep_view().take(ents@.len() as int) =~= ents.deep_view());
    }
    r
}

proof fn lemma_unique_drop_first(members: Seq<Seq<u8>>)
    requires
        unique_ids(members),
        members.len() > 0,
    ensures
        unique_ids(members.drop_first()),
{
    let rest = members.drop_first();
    assert forall|i: int, j: int| 0 <= i < j < rest.len() implies rest[i] != rest[j] by {
        assert(rest[i] == members[i + 1]);
        assert(rest[j] == members[j + 1]);
    }
}

proof fn lemma_kept_props(members: Seq<Seq<u8>>, survivors: Seq<FeedEntityV>)
    requires
        unique_ids(members),
    ensures
        unique_ids(spec_kept(members, survivors)),
        forall|k: int|
            0 <= k < spec_kept(members, survivors).len() ==> members.contains(
                #[trigger] spec_kept(members, survivors)[k],
            ),
    decreases members.len(),
{
    if members.len() > 0 {
        let rest = members.drop_first();
        lemma_unique_drop_first(members);
        lemma_kept_props(rest, survivors);
        let kr = spec_kept(rest, survivors);
        assert forall|k: int| 0 <= k < kr.len() implies members.contains(kr[k]) by {
            let l = choose|l: int| 0 <= l < rest.len() && rest[l] == kr[k];
            assert(members[l + 1] == kr[k]);
        }
        let kk = spec_kept(members, survivors);
        if spec_has_trip(survivors, members[0]) {
            assert(kk == seq![members[0]] + kr);
            assert(!kr.contains(members[0])) by {
                if kr.contains(members[0]) {
                    let l = choose|l: int| 0 <= l < rest.len() && rest[l] == members[0];
                    assert(members[l + 1] == members[0]);
                    assert(false);
                }
            }
            assert forall|i: int, j: int| 0 <= i < j < kk.len() implies kk[i] != kk[j] by {
                if i == 0 {
                    assert(kk[j] == kr[j - 1]);
                    if kk[0] == kk[j] {
                        assert(kr[j - 1] == members[0]);
                        assert(kr.contains(members[0]));
                    }
                } else {
                    assert(kk[i] == kr[i - 1]);
                    assert(kk[j] == kr[j - 1]);
                }
            }
            assert forall|k: int| 0 <= k < kk.len() implies members.contains(kk[k]) by {
                if k == 0 {
                    assert(members[0] == kk[0]);
                } else {
                    assert(kk[k] == kr[k - 1]);
                }
            }
        } else {
            assert(kk == kr);
        }
    }
}

proof fn lemma_add_trips_props(members: Seq<Seq<u8>>, survivors: Seq<FeedEntityV>)
    requires
        unique_trips(survivors),
    ensures
        unique_ids(spec_add_trips(members, survivors)),
        forall|k: int|
            0 <= k < spec_add_trips(members, survivors).len() ==> !members.contains(
                #[trigger] spec_add_trips(members, survivors)[k],
            ),
        forall|k: int|
            0 <= k < spec_add_trips(members, survivors).len() ==> exists|l: int|
                0 <= l < survivors.len() && (#[trigger] survivors[l]).trip_id
                    == #[trigger] spec_add_trips(members, survivors)[k],
    decreases survivors.len(),
{
    if survivors.len() > 0 {
        let rest = survivors.drop_first();
        assert forall|i: int, j: int|
            0 <= i < j < rest.len() implies rest[i].trip_id != rest[j].trip_id by {
            assert(rest[i] == survivors[i + 1]);
            assert(rest[j] == survivors[j + 1]);
        }
        lemma_add_trips_props(members, rest);
        let ar = spec_add_trips(members, rest);
        assert forall|k: int|
            0 <= k < ar.len() implies exists|l: int|
                0 <= l < survivors.len() && (#[trigger] survivors[l]).trip_id == #[trigger] ar[k] by {
            let l = choose|l: int|
                0 <= l < rest.len() && (#[trigger] rest[l]).trip_id == ar[k];
            assert(survivors[l + 1].trip_id == ar[k]);
        }
        let at = spec_add_trips(members, survivors);
        if members.contains(survivors[0].trip_id) {
            assert(at == ar);
        } else {
            assert(at == seq![survivors[0].trip_id] + ar);
            assert(!ar.contains(survivors[0].trip_id)) by {
                if ar.contains(survivors[0].trip_id) {
                    let k0 = choose|k0: int| 0 <= k0 < ar.len() && ar[k0] == survivors[0].trip_id;
                    let l = choose|l: int| 0 <= l < rest.len() && rest[l].trip_id == ar[k0];
                    assert(survivors[l + 1].trip_id == survivors[0].trip_id);
                    assert(false);
                }
            }
            assert forall|i: int, j: int| 0 <= i < j < at.len() implies at[i] != at[j] by {
                assert(at[j] == ar[j - 1]);
                if i == 0 {
                    if at[0] == at[j] {
                        assert(ar.contains(survivors[0].trip_id));
                    }
                } else {
                    assert(at[i] == ar[i - 1]);
                }
            }
            assert forall|k: int| 0 <= k < at.len() implies !members.contains(at[k]) by {
                if k > 0 {
                    assert(at[k] == ar[k - 1]);
                }
            }
            assert forall|k: int|
                0 <= k < at.len() implies exists|l: int|
                    0 <= l < survivors.len() && (#[trigger] survivors[l]).trip_id
                        == #[trigger] at[k] by {
                if k == 0 {
                    assert(survivors[0].trip_id == at[0]);
                } else {
                    assert(at[k] == ar[k - 1]);
                }
            }
        }
    }
}

/// The member list after one accepted fetch is free of duplicates.
proof fn lemma_new_members_unique(members: Seq<Seq<u8>>, survivors: Seq<FeedEntityV>)
    requires
        unique_ids(members),
        unique_trips(survivors),
    ensures
        unique_ids(spec_new_members(members, survivors)),
{
    lemma_kept_props(members, survivors);
    lemma_add_trips_props(members, survivors);
    let kept = spec_kept(members, survivors);
    let addst = spec_add_trips(members, survivors);
    let nm = spec_new_members(members, survivors);
    assert forall|i: int, j: int| 0 <= i < j < nm.len() implies nm[i] != nm[j] by {
        if i < kept.len() && j < kept.len() {
            assert(nm[i] == kept[i]);
            assert(nm[j] == kept[j]);
        } else if i < kept.len() {
            assert(nm[i] == kept[i]);
            assert(nm[j] == addst[j - kept.len()]);
            if nm[i] == nm[j] {
                assert(members.contains(kept[i]));
                assert(!members.contains(addst[j - kept.len()]));
            }
        } else {
            assert(nm[i] == addst[i - kept.len()]);
            assert(nm[j] == addst[j - kept.len()]);
        }
    }
}

/// A fresh copy of an entry.
fn clone_entry(e: &FeedEntity) -> (r: FeedEntity)
    ensures
        r@ == e@,
{
    FeedEntity {
        trip_id: bytes_clone(e.trip_id.as_slice()),
        route_id: bytes_clone(e.route_id.as_slice()),
        stop_id: bytes_clone(e.stop_id.as_slice()),
        timestamp: e.timestamp,
        color: e.color,
    }
}


impl FeedProcessor {
    /// Refreshes this feed's state from one fetched payload: decodes
    /// it, ignores malformed or stale messages (header timestamp not
    /// strictly newer than the last accepted one), computes the
    /// survivor set, and appends the diff against the current
    /// membership to the queue — every removal before every addition
    /// — updating the membership marker immediately so that repeated
    /// calls before draining enqueue nothing twice.
    pub fn fetch(&mut self, payload: &[u8], stops: &EntityCollection<Vec<Stop>>)
        requires
            old(self).wf(),
        ensures
            final(self).wf(),
            ({
                let d = proto::spec_feed_message(payload@);
                match d {
                    Option::None => *final(self) == *old(self),
                    Option::Some(m) => {
                        if spec_msg_ts(m) <= old(self).fetched_at as nat {
                            *final(self) == *old(self)
                        } else {
                            let survivors = spec_survivors(m, stops.rows());
                            &&& final(self).feed == old(self).feed
                            &&& final(self).fetched_at as nat == spec_msg_ts(m)
                            &&& final(self).active_stops == old(self).active_stops
                            &&& final(self).members_v() == spec_new_members(
                                old(self).members_v(),
                                survivors,
                            )
                            &&& final(self).queue_v() == old(self).queue_v() + spec_diff_ops(
                                old(self).members_v(),
                                survivors,
                            )
                        }
                    },
                }
            }),
    {
        let msg = match proto::decode_feed_message(payload) {
            Some(m) => m,
            None => {
                return;
            },
        };
        let ghost m = msg.deep_view();
        let t = match msg.timestamp {
            Some(v) => v,
            None => 0,
        };
        if self.fetched_at >= t {
            return;
        }
        self.fetched_at = t;

        let ghost mems = old(self).members_v();
        let ghost oldq = old(self).queue_v();
        let vus = collect_vehicle_updates(&msg.entity, stops);
        let ghost vusv = vus.deep_view();

        let mut survivors: Vec<FeedEntity> = Vec::new();
        let mut j: usize = 0;
        proof {
            assert(vusv.take(0) =~= Seq::<FeedEntityV>::empty());
            assert(survivors.deep_view() =~= Seq::<FeedEntityV>::empty());
        }
        while j < vus.len()
            invariant
                j <= vus@.len(),
                vus.deep_view() == vusv,
                vusv == spec_vehicle_updates(m.entity, stops.rows()),
                m == msg.deep_view(),
                survivors.deep_view() == spec_survivors_fold(
                    vusv.take(j as int),
                    m.entity,
                    stops.rows(),
                ),
            decreases vus@.len() - j,
        {
            proof {
                assert(vusv[j as int] == vus@[j as int].deep_view());
                assert(vusv.take(j + 1).drop_last() =~= vusv.take(j as int));
                assert(vusv.take(j + 1).last() == vusv[j as int]);
            }
            let anchor = anchor_of(&msg.entity, stops, vus[j].trip_id.as_slice());
            match anchor {
                Some(canon) => {
                    if bytes_eq(canon.as_slice(), vus[j].stop_id.as_slice()) {
                        upsert_entry(&mut survivors, clone_entry(&vus[j]));
                    }
                },
                None => {},
            }
            j += 1;
        }
        let ghost sv = spec_survivors(m, stops.rows());
        proof {
            assert(vusv.take(vus@.len() as int) =~= vusv);
            assert(survivors.deep_view() == sv);
            lemma_survivors_unique(vusv, m.entity, stops.rows());
        }

        let mut new_members: Vec<Vec<u8>> = Vec::new();
        let mut i: usize = 0;
        proof {
            assert(mems.skip(0) =~= mems);
            assert(new_members.deep_view() =~= Seq::<Seq<u8>>::empty());
        }
        while i < self.active_stops_current.len()
            invariant
                i <= self.active_stops_current@.len(),
                self.active_stops_current == old(self).active_stops_current,
                mems == old(self).members_v(),
                survivors.deep_view() == sv,
                new_members.deep_view() + spec_kept(mems.skip(i as int), sv) =~= spec_kept(
                    mems,
                    sv,
                ),
                self.queue_v() + spec_remove_ops(mems.skip(i as int), sv) =~= oldq
                    + spec_remove_ops(mems, sv),
                self.feed == old(self).feed,
                self.fetched_at == t,
                self.active_stops == old(self).active_stops,
            decreases self.active_stops_current@.len() - i,
        {
            proof {
                assert(mems[i as int] == self.active_stops_current@[i as int]@);
                assert(mems.skip(i as int)[0] == mems[i as int]);
                assert(mems.skip(i as int).drop_first() =~= mems.skip(i + 1));
            }
            let found = find_trip(&survivors, self.active_stops_current[i].as_slice());
            let ghost prevq = self.queue_v();
            let ghost prevm = new_members.deep_view();
            let copy = bytes_clone(self.active_stops_current[i].as_slice());
            match found {
                Some(_) => {
                    new_members.push(copy);
                    proof {
                        assert(new_members.deep_view() =~= prevm.push(mems[i as int]));
                    }
                },
                None => {
                    self.queue.push_back(FeedOp::Remove(copy));
                    proof {
                        assert(self.queue_v() =~= prevq.push(FeedOpV::Remove(mems[i as int])));
                    }
                },
            }
            i += 1;
        }
        proof {
            assert(mems.skip(self.active_stops_current@.len() as int) =~= Seq::<Seq<u8>>::empty());
            assert(new_members.deep_view() =~= spec_kept(mems, sv));
            assert(self.queue_v() =~= oldq + spec_remove_ops(mems, sv));
        }

        let ghost qmid = self.queue_v();
        let mut k: usize = 0;
        proof {
            assert(sv.skip(0) =~= sv);
        }
        while k < survivors.len()
            invariant
                k <= survivors@.len(),
                survivors.deep_view() == sv,
                self.active_stops_current == old(self).active_stops_current,
                mems == old(self).members_v(),
                new_members.deep_view() + spec_add_trips(mems, sv.skip(k as int)) =~= spec_kept(
                    mems,
                    sv,
                ) + spec_add_trips(mems, sv),
                self.queue_v() + spec_add_ops(mems, sv.skip(k as int)) =~= qmid + spec_add_ops(
                    mems,
                    sv,
                ),
                self.feed == old(self).feed,
                self.fetched_at == t,
                self.active_stops == old(self).active_stops,
            decreases survivors@.len() - k,
        {
            proof {
                assert(sv[k as int] == survivors@[k as int].deep_view());
                assert(sv.skip(k as int)[0] == sv[k as int]);
                assert(sv.skip(k as int).drop_first() =~= sv.skip(k + 1));
            }
            let is_member = contains_id(&self.active_stops_current, survivors[k].trip_id.as_slice());
            let ghost prevq = self.queue_v();
            let ghost prevm = new_members.deep_view();
            if !is_member {
                self.queue.push_back(FeedOp::Add(clone_entry(&survivors[k])));
                new_members.push(bytes_clone(survivors[k].trip_id.as_slice()));
                proof {
                    assert(self.queue_v() =~= prevq.push(FeedOpV::Add(sv[k as int])));
                    assert(new_members.deep_view() =~= prevm.push(sv[k as int].trip_id));
                }
            }
            k += 1;
        }
        proof {
            assert(sv.skip(survivors@.len() as int) =~= Seq::<FeedEntityV>::empty());
        }

        self.active_stops_current = new_members;

        proof {
            assert(self.members_v() =~= spec_new_members(mems, sv));
            assert(self.queue_v() =~= oldq + spec_diff_ops(mems, sv));
            lemma_new_members_unique(mems, sv);
        }
    }
}


/// The active set with every entry for `trip` removed.
pub open spec fn spec_remove_trip(s: Seq<FeedEntityV>, trip: Seq<u8>) -> Seq<FeedEntityV>
    decreases s.len(),
{
    if s.len() == 0 {
        Seq::empty()
    } else if s[0].trip_id == trip {
        spec_remove_trip(s.drop_first(), trip)
    } else {
        seq![s[0]] + spec_remove_trip(s.drop_first(), trip)
    }
}

proof fn lemma_remove_trip_props(s: Seq<FeedEntityV>, trip: Seq<u8>)
    ensures
        forall|k: int|
            0 <= k < spec_remove_trip(s, trip).len() ==> exists|l: int|
                0 <= l < s.len() && #[trigger] spec_remove_trip(s, trip)[k] == s[l],
        forall|k: int|
            0 <= k < spec_remove_trip(s, trip).len() ==> (#[trigger] spec_remove_trip(
                s,
                trip,
            )[k]).trip_id != trip,
        unique_trips(s) ==> unique_trips(spec_remove_trip(s, trip)),
    decreases s.len(),
{
    if s.len() > 0 {
        let rest = s.drop_first();
        lemma_remove_trip_props(rest, trip);
        let rr = spec_remove_trip(rest, trip);
        assert forall|k: int|
            0 <= k < rr.len() implies exists|l: int|
                0 <= l < s.len() && #[trigger] rr[k] == s[l] by {
            let l = choose|l: int| 0 <= l < rest.len() && rr[k] == rest[l];
            assert(rr[k] == s[l + 1]);
        }
        if unique_trips(s) {
            assert forall|i: int, j: int|
                0 <= i < j < rest.len() implies rest[i].trip_id != rest[j].trip_id by {
                assert(rest[i] == s[i + 1]);
                assert(rest[j] == s[j + 1]);
            }
        }
        let res = spec_remove_trip(s, trip);
        if s[0].trip_id == trip {
            assert(res == rr);
        } else {
            assert(res == seq![s[0]] + rr);
            assert forall|k: int|
                0 <= k < res.len() implies exists|l: int|
                    0 <= l < s.len() && #[trigger] res[k] == s[l] by {
                if k == 0 {
                    assert(res[0] == s[0]);
                } else {
                    assert(res[k] == rr[k - 1]);
                    let l = choose|l: int| 0 <= l < rest.len() && rr[k - 1] == rest[l];
                    assert(res[k] == s[l + 1]);
                }
            }
            assert forall|k: int| 0 <= k < res.len() implies (res[k]).trip_id != trip by {
                if k > 0 {
                    assert(res[k] == rr[k - 1]);
                }
            }
            if unique_trips(s) {
                assert forall|i: int, j: int|
                    0 <= i < j < res.len() implies res[i].trip_id != res[j].trip_id by {
                    if i == 0 {
                        assert(res[j] == rr[j - 1]);
                        let l = choose|l: int| 0 <= l < rest.len() && rr[j - 1] == rest[l];
                        assert(res[j] == s[l + 1]);
                    } else {
                        assert(res[i] == rr[i - 1]);
                        assert(res[j] == rr[j - 1]);
                    }
                }
            }
        }
    }
}

/// The active set after one queued operation: a removal deletes the
/// trip's entry if present; an addition resolves the route color and
/// inserts the entry, or discards it when the route is unknown.
pub open spec fn spec_apply_op(
    active: Seq<FeedEntityV>,
    op: FeedOpV,
    routes: Seq<RouteV>,
) -> Seq<FeedEntityV> {
    match op {
        FeedOpV::Remove(tid) => spec_remove_trip(active, tid),
        FeedOpV::Add(e) => match spec_find_route(routes, e.route_id) {
            Option::None => active,
            Option::Some(rt) => spec_upsert(
                active,
                FeedEntityV { color: Option::Some(rt.color), ..e },
            ),
        },
    }
}

/// The active set after a whole prefix of queued operations.
pub open spec fn spec_apply_ops(
    active: Seq<FeedEntityV>,
    ops: Seq<FeedOpV>,
    routes: Seq<RouteV>,
) -> Seq<FeedEntityV>
    decreases ops.len(),
{
    if ops.len() == 0 {
        active
    } else {
        spec_apply_ops(spec_apply_op(active, ops[0], routes), ops.drop_first(), routes)
    }
}

impl FeedProcessor {
    /// Applies the next queued operation in FIFO order. An addition
    /// whose route is unknown discards the entry silently and still
    /// reports that an operation was applied; a removal of an absent
    /// trip is a no-op. Returns `None` exactly when the queue was
    /// empty — the manager's signal to trigger a refresh.
    pub fn update(&mut self, routes: &EntityCollection<Vec<Route>>) -> (r: Option<()>)
        requires
            old(self).wf(),
        ensures
            final(self).wf(),
            final(self).feed == old(self).feed,
            final(self).fetched_at == old(self).fetched_at,
            final(self).active_stops_current == old(self).active_stops_current,
            if old(self).queue_v().len() == 0 {
                &&& r is None
                &&& final(self).queue_v() == old(self).queue_v()
                &&& final(self).active_stops == old(self).active_stops
            } else {
                &&& r == Option::Some(())
                &&& final(self).queue_v() == old(self).queue_v().drop_first()
                &&& final(self).active_v() == spec_apply_op(
                    old(self).active_v(),
                    old(self).queue_v()[0],
                    routes.rows(),
                )
            },
    {
        let popped = self.queue.pop_front();
        match popped {
            Some(op) => {
                let ghost opv = op@;
                proof {
                    assert(old(self).queue_v()[0] == opv);
                    assert(self.queue_v() =~= old(self).queue_v().drop_first());
                }
                match op {
                    FeedOp::Add(e) => {
                        let route = routes.get(e.route_id.as_slice());
                        match route {
                            None => Some(()),
                            Some(rt) => {
                                let colored = FeedEntity {
                                    trip_id: e.trip_id,
                                    route_id: e.route_id,
                                    stop_id: e.stop_id,
                                    timestamp: e.timestamp,
                                    color: Some(rt.color()),
                                };
                                let ghost cv = colored@;
                                let ghost preact = self.active_v();
                                proof {
                                    lemma_trip_index_props(preact, cv.trip_id);
                                    lemma_upsert_unique(preact, cv);
                                }
                                upsert_entry(&mut self.active_stops, colored);
                                proof {
                                    let idx0 = spec_trip_index(preact, cv.trip_id);
                                    assert forall|k: int|
                                        0 <= k < self.active_v().len() implies self.active_v()[k]
                                        .color is Some by {
                                        if idx0 == -1 {
                                            if k < preact.len() {
                                                assert(self.active_v()[k] == preact[k]);
                                            } else {
                                                assert(self.active_v()[k] == cv);
                                            }
                                        } else {
                                            if k == idx0 {
                                                assert(self.active_v()[k] == cv);
                                            } else {
                                                assert(self.active_v()[k] == preact[k]);
                                            }
                                        }
                                    }
                                }
                                Some(())
                            },
                        }
                    },
                    FeedOp::Remove(tid) => {
                        let ghost act = self.active_v();
                        let mut newact: Vec<FeedEntity> = Vec::new();
                        let mut i: usize = 0;
                        proof {
                            assert(act.skip(0) =~= act);
                            assert(newact.deep_view() =~= Seq::<FeedEntityV>::empty());
                        }
                        while i < self.active_stops.len()
                            invariant
                                i <= self.active_stops@.len(),
                                act == self.active_stops.deep_view(),
                                tid@ == opv->Remove_0,
                                newact.deep_view() + spec_remove_trip(act.skip(i as int), tid@)
                                    =~= spec_remove_trip(act, tid@),
                            decreases self.active_stops@.len() - i,
                        {
                            proof {
                                assert(act[i as int] == self.active_stops@[i as int].deep_view());
                                assert(act.skip(i as int)[0] == act[i as int]);
                                assert(act.skip(i as int).drop_first() =~= act.skip(i + 1));
                            }
                            let keep = !bytes_eq(
                                self.active_stops[i].trip_id.as_slice(),
                                tid.as_slice(),
                            );
                            let ghost prev = newact.deep_view();
                            if keep {
                                newact.push(clone_entry(&self.active_stops[i]));
                                proof {
                                    assert(newact.deep_view() =~= prev.push(act[i as int]));
                                }
                            }
                            i += 1;
                        }
                        proof {
                            assert(act.skip(self.active_stops@.len() as int) =~= Seq::<
                                FeedEntityV,
                            >::empty());
                            lemma_remove_trip_props(act, tid@);
                        }
                        self.active_stops = newact;
                        proof {
                            assert forall|k: int|
                                0 <= k < self.active_v().len() implies self.active_v()[k].color
                                is Some by {
                                let l = choose|l: int|
                                    0 <= l < act.len() && #[trigger] spec_remove_trip(act, tid@)[k]
                                        == act[l];
                            }
                        }
                        Some(())
                    },
                }
            },
            None => None,
        }
    }
}


/// The default display color.
pub open spec fn spec_white() -> Color {
    Color { r: 255, g: 255, b: 255 }
}

/// An entry's resolved color, white when none was resolved (an active
/// entry always carries one under the processor invariant).
pub open spec fn spec_color_of(e: FeedEntityV) -> Color {
    match e.color {
        Option::Some(c) => c,
        Option::None => spec_white(),
    }
}

/// The entry that wins a station in the merge: among the entries for
/// that station, the one with the greatest timestamp; between equal
/// timestamps, the earliest in order (feeds in round-robin order,
/// each feed's entries in insertion order).
pub open spec fn spec_best_for(entries: Seq<FeedEntityV>, station: Seq<u8>) -> Option<
    FeedEntityV,
>
    decreases entries.len(),
{
    if entries.len() == 0 {
        None
    } else {
        let prev = spec_best_for(entries.drop_last(), station);
        let e = entries.last();
        match prev {
            Option::None => if e.stop_id == station {
                Option::Some(e)
            } else {
                Option::None
            },
            Option::Some(b) => if e.stop_id == station && e.timestamp > b.timestamp {
                Option::Some(e)
            } else {
                Option::Some(b)
            },
        }
    }
}

/// What the winning entry satisfies: it is one of the entries for the
/// station, and no entry for the station is more recent; a station
/// wins no entry exactly when no entry is for it.
pub proof fn lemma_best_for_props(entries: Seq<FeedEntityV>, station: Seq<u8>)
    ensures
        match spec_best_for(entries, station) {
            Option::Some(b) => {
                &&& b.stop_id == station
                &&& entries.contains(b)
                &&& forall|k: int|
                    0 <= k < entries.len() && (#[trigger] entries[k]).stop_id == station
                        ==> entries[k].timestamp <= b.timestamp
            },
            Option::None => forall|k: int|
                0 <= k < entries.len() ==> (#[trigger] entries[k]).stop_id != station,
        },
    decreases entries.len(),
{
    if entries.len() > 0 {
        let pre = entries.drop_last();
        lemma_best_for_props(pre, station);
        assert(forall|k: int| 0 <= k < pre.len() ==> pre[k] == entries[k]);
        match spec_best_for(pre, station) {
            Option::Some(b) => {
                if pre.contains(b) {
                    let l = choose|l: int| 0 <= l < pre.len() && pre[l] == b;
                    assert(entries[l] == b);
                }
            },
            Option::None => {},
        }
        assert(entries.last() == entries[entries.len() - 1]);
    }
}

/// A station's position in the static table, as the merge reads it.
pub open spec fn spec_coord_of(stops_rows: Seq<StopV>, sid: Seq<u8>) -> crate::geo::Coord {
    match spec_find_stop(stops_rows, sid) {
        Option::Some(st) => st.coord,
        Option::None => crate::geo::Coord { x: 0, y: 0 },
    }
}

/// One station's snapshot record: active with the winning entry's
/// color and the active display scale, or inactive with the defaults.
pub open spec fn spec_station_record(
    entries: Seq<FeedEntityV>,
    stops_rows: Seq<StopV>,
    sid: Seq<u8>,
) -> StopStateV {
    match spec_best_for(entries, sid) {
        Option::Some(e) => StopStateV::Active(
            StopInstanceV {
                stop_id: sid,
                coord: spec_coord_of(stops_rows, sid),
                color: spec_color_of(e),
                scale_tenths: 5,
            },
        ),
        Option::None => StopStateV::Inactive(
            StopInstanceV {
                stop_id: sid,
                coord: spec_coord_of(stops_rows, sid),
                color: spec_white(),
                scale_tenths: 0,
            },
        ),
    }
}

/// One record per canonical station, in table order.
pub open spec fn spec_records(
    entries: Seq<FeedEntityV>,
    stops_rows: Seq<StopV>,
    parent_ids: Seq<Seq<u8>>,
) -> Seq<StopStateV> {
    Seq::new(parent_ids.len(), |i: int| spec_station_record(entries, stops_rows, parent_ids[i]))
}

/// The inactive records, in order.
pub open spec fn spec_inactives(s: Seq<StopStateV>) -> Seq<StopStateV>
    decreases s.len(),
{
    if s.len() == 0 {
        Seq::empty()
    } else {
        let rest = spec_inactives(s.drop_first());
        if s[0].is_active() {
            rest
        } else {
            seq![s[0]] + rest
        }
    }
}

/// The active records, in order.
pub open spec fn spec_actives(s: Seq<StopStateV>) -> Seq<StopStateV>
    decreases s.len(),
{
    if s.len() == 0 {
        Seq::empty()
    } else {
        let rest = spec_actives(s.drop_first());
        if s[0].is_active() {
            seq![s[0]] + rest
        } else {
            rest
        }
    }
}

/// The published order: every inactive record before every active
/// one, each class keeping table order.
pub open spec fn spec_order_records(s: Seq<StopStateV>) -> Seq<StopStateV> {
    spec_inactives(s) + spec_actives(s)
}

/// Each feed's active set, in round-robin order.
pub open spec fn spec_actives_of(feeds: Seq<FeedProcessor>) -> Seq<Seq<FeedEntityV>> {
    Seq::new(feeds.len(), |i: int| feeds[i].active_v())
}

/// All feeds' entries as one sequence.
pub open spec fn spec_concat(s: Seq<Seq<FeedEntityV>>) -> Seq<FeedEntityV>
    decreases s.len(),
{
    if s.len() == 0 {
        Seq::empty()
    } else {
        spec_concat(s.drop_last()) + s.last()
    }
}

/// The full merged snapshot for a set of per-feed active sets.
pub open spec fn spec_merge(
    actives: Seq<Seq<FeedEntityV>>,
    stops_rows: Seq<StopV>,
    parent_ids: Seq<Seq<u8>>,
) -> Seq<StopStateV> {
    spec_order_records(spec_records(spec_concat(actives), stops_rows, parent_ids))
}

/// A fresh copy of a record.
fn clone_state(r: &StopState) -> (c: StopState)
    ensures
        c@ == r@,
{
    match r {
        StopState::Inactive(i) => StopState::Inactive(
            StopInstance {
                stop_id: bytes_clone(i.stop_id.as_slice()),
                coord: i.coord,
                color: i.color,
                scale_tenths: i.scale_tenths,
            },
        ),
        StopState::Active(i) => StopState::Active(
            StopInstance {
                stop_id: bytes_clone(i.stop_id.as_slice()),
                coord: i.coord,
                color: i.color,
                scale_tenths: i.scale_tenths,
            },
        ),
    }
}

/// The position of the winning entry for `station`, if any.
fn best_for(entries: &Vec<FeedEntity>, station: &[u8]) -> (r: Option<usize>)
    ensures
        match r {
            Option::Some(b) => b < entries@.len() && spec_best_for(
                entries.deep_view(),
                station@,
            ) == Option::Some(entries.deep_view()[b as int]),
            Option::None => spec_best_for(entries.deep_view(), station@) is None,
        },
{
    let mut best: Option<usize> = None;
    let mut k: usize = 0;
    proof {
        assert(entries.deep_view().take(0) =~= Seq::<FeedEntityV>::empty());
    }
    while k < entries.len()
        invariant
            k <= entries@.len(),
            match best {
                Option::Some(b) => b < k && spec_best_for(
                    entries.deep_view().take(k as int),
                    station@,
                ) == Option::Some(entries.deep_view()[b as int]),
                Option::None => spec_best_for(entries.deep_view().take(k as int), station@)
                    is None,
            },
        decreases entries@.len() - k,
    {
        proof {
            assert(entries.deep_view()[k as int] == entries@[k as int].deep_view());
            assert(entries.deep_view().take(k + 1).drop_last() =~= entries.deep_view().take(
                k as int,
            ));
            assert(entries.deep_view().take(k + 1).last() == entries.deep_view()[k as int]);
        }
        let matches_station = bytes_eq(entries[k].stop_id.as_slice(), station);
        if matches_station {
            let better = match best {
                Some(b) => entries[k].timestamp > entries[b].timestamp,
                None => true,
            };
            if better {
                best = Some(k);
            }
        }
        k += 1;
    }
    proof {
        assert(entries.deep_view().take(entries@.len() as int) =~= entries.deep_view());
    }
    best
}

/// Recomputes the full merged snapshot from every feed's active set:
/// one record per canonical station, the most recent entry winning a
/// station reported by several trips or feeds, inactive records
/// ordered before active ones.
pub fn merge_snapshot(
    feeds: &Vec<FeedProcessor>,
    stops: &EntityCollection<Vec<Stop>>,
    parent_stops: &Vec<Vec<u8>>,
) -> (out: Vec<StopState>)
    ensures
        out.deep_view() == spec_merge(
            spec_actives_of(feeds@),
            stops.rows(),
            parent_stops.deep_view(),
        ),
{
    let ghost activesv = spec_actives_of(feeds@);
    let mut entries: Vec<FeedEntity> = Vec::new();
    let mut i: usize = 0;
    proof {
        assert(activesv.take(0) =~= Seq::<Seq<FeedEntityV>>::empty());
        assert(entries.deep_view() =~= Seq::<FeedEntityV>::empty());
    }
    while i < feeds.len()
        invariant
            i <= feeds@.len(),
            activesv == spec_actives_of(feeds@),
            entries.deep_view() == spec_concat(activesv.take(i as int)),
        decreases feeds@.len() - i,
    {
        let mut j: usize = 0;
        while j < feeds[i].active_stops.len()
            invariant
                i < feeds@.len(),
                j <= feeds@[i as int].active_stops@.len(),
                activesv == spec_actives_of(feeds@),
                entries.deep_view() =~= spec_concat(activesv.take(i as int)) + feeds@[i as int]
                    .active_v().take(j as int),
            decreases feeds@[i as int].active_stops@.len() - j,
        {
            proof {
                assert(feeds@[i as int].active_v()[j as int] == feeds@[i as int]
                    .active_stops@[j as int].deep_view());
            }
            let ghost prev = entries.deep_view();
            entries.push(clone_entry(&feeds[i].active_stops[j]));
            proof {
                assert(entries.deep_view() =~= prev.push(feeds@[i as int].active_v()[j as int]));
                assert(feeds@[i as int].active_v().take(j + 1) =~= feeds@[i as int].active_v()
                    .take(j as int).push(feeds@[i as int].active_v()[j as int]));
            }
            j += 1;
        }
        proof {
            assert(feeds@[i as int].active_v().take(feeds@[i as int].active_stops@.len() as int)
                =~= feeds@[i as int].active_v());
            assert(activesv.take(i + 1).drop_last() =~= activesv.take(i as int));
            assert(activesv.take(i + 1).last() == activesv[i as int]);
            assert(activesv[i as int] == feeds@[i as int].active_v());
        }
        i += 1;
    }
    proof {
        assert(activesv.take(feeds@.len() as int) =~= activesv);
    }
    let ghost entriesv = spec_concat(activesv);
    proof {
        assert(entries.deep_view() == entriesv);
    }

    let mut recs: Vec<StopState> = Vec::new();
    let mut p: usize = 0;
    while p < parent_stops.len()
        invariant
            p <= parent_stops@.len(),
            entries.deep_view() == entriesv,
            recs.deep_view().len() == p,
            forall|k: int|
                0 <= k < p ==> recs.deep_view()[k] == spec_station_record(
                    entriesv,
                    stops.rows(),
                    parent_stops.deep_view()[k],
                ),
        decreases parent_stops@.len() - p,
    {
        proof {
            assert(parent_stops.deep_view()[p as int] == parent_stops@[p as int]@);
        }
        let sid = bytes_clone(parent_stops[p].as_slice());
        let coord = match stops.get(sid.as_slice()) {
            Some(st) => st.coord,
            None => crate::geo::Coord { x: 0, y: 0 },
        };
        let ghost prevr = recs.deep_view();
        match best_for(&entries, sid.as_slice()) {
            Some(b) => {
                let color = match entries[b].color {
                    Some(c) => c,
                    None => Color { r: 255, g: 255, b: 255 },
                };
                recs.push(
                    StopState::Active(
                        StopInstance { stop_id: sid, coord, color, scale_tenths: 5 },
                    ),
                );
            },
            None => {
                recs.push(
                    StopState::Inactive(
                        StopInstance {
                            stop_id: sid,
                            coord,
                            color: Color { r: 255, g: 255, b: 255 },
                            scale_tenths: 0,
                        },
                    ),
                );
            },
        }
        proof {
            assert(recs.deep_view() =~= prevr.push(
                spec_station_record(entriesv, stops.rows(), parent_stops.deep_view()[p as int]),
            ));
        }
        p += 1;
    }
    let ghost recsv = spec_records(entriesv, stops.rows(), parent_stops.deep_view());
    proof {
        assert(recs.deep_view() =~= recsv);
    }

    let mut inactive: Vec<StopState> = Vec::new();
    let mut active: Vec<StopState> = Vec::new();
    let mut q: usize = 0;
    proof {
        assert(recsv.skip(0) =~= recsv);
        assert(inactive.deep_view() =~= Seq::<StopStateV>::empty());
        assert(active.deep_view() =~= Seq::<StopStateV>::empty());
    }
    while q < recs.len()
        invariant
            q <= recs@.len(),
            recs.deep_view() == recsv,
            inactive.deep_view() + spec_inactives(recsv.skip(q as int)) =~= spec_inactives(recsv),
            active.deep_view() + spec_actives(recsv.skip(q as int)) =~= spec_actives(recsv),
        decreases recs@.len() - q,
    {
        proof {
            assert(recsv[q as int] == recs@[q as int].deep_view());
            assert(recsv.skip(q as int)[0] == recsv[q as int]);
            assert(recsv.skip(q as int).drop_first() =~= recsv.skip(q + 1));
        }
        let ghost previ = inactive.deep_view();
        let ghost preva = active.deep_view();
        let copy = clone_state(&recs[q]);
        if copy.is_active() {
            active.push(copy);
            proof {
                assert(active.deep_view() =~= preva.push(recsv[q as int]));
            }
        } else {
            inactive.push(copy);
            proof {
                assert(inactive.deep_view() =~= previ.push(recsv[q as int]));
            }
        }
        q += 1;
    }
    proof {
        assert(recsv.skip(recs@.len() as int) =~= Seq::<StopStateV>::empty());
    }
    let mut out = inactive;
    let mut tail = active;
    let ghost outv = out.deep_view();
    let ghost tailv = tail.deep_view();
    out.append(&mut tail);
    proof {
        assert(out.deep_view() =~= outv + tailv);
        assert(out.deep_view() =~= spec_merge(activesv, stops.rows(), parent_stops.deep_view()));
    }
    out
}


proof fn lemma_apply_ops_snoc(
    active: Seq<FeedEntityV>,
    ops: Seq<FeedOpV>,
    x: FeedOpV,
    routes: Seq<RouteV>,
)
    ensures
        spec_apply_ops(active, ops.push(x), routes) == spec_apply_op(
            spec_apply_ops(active, ops, routes),
            x,
            routes,
        ),
    decreases ops.len(),
{
    if ops.len() == 0 {
        assert(ops.push(x)[0] == x);
        assert(ops.push(x).drop_first() =~= Seq::<FeedOpV>::empty());
        let y = spec_apply_op(active, x, routes);
        assert(spec_apply_ops(y, ops.push(x).drop_first(), routes) == y);
    } else {
        assert(ops.push(x)[0] == ops[0]);
        assert(ops.push(x).drop_first() =~= ops.drop_first().push(x));
        let y = spec_apply_op(active, ops[0], routes);
        lemma_apply_ops_snoc(y, ops.drop_first(), x, routes);
        assert(spec_apply_ops(active, ops.push(x), routes) == spec_apply_ops(
            y,
            ops.drop_first().push(x),
            routes,
        ));
        assert(spec_apply_ops(active, ops, routes) == spec_apply_ops(
            y,
            ops.drop_first(),
            routes,
        ));
    }
}

/// The two processors agree on everything observable: the queue
/// container itself may differ after an empty pop, its contents may
/// not.
pub open spec fn proc_like(a: FeedProcessor, b: FeedProcessor) -> bool {
    &&& a.feed == b.feed
    &&& a.fetched_at == b.fetched_at
    &&& a.active_stops == b.active_stops
    &&& a.active_stops_current == b.active_stops_current
    &&& a.queue_v() == b.queue_v()
}

/// What one refresh visit does to an empty-queue processor: fetch on
/// the payload (a missing, malformed or stale payload changes
/// nothing), then a single drain of whatever the diff enqueued.
pub open spec fn spec_refresh_step(
    fd: FeedProcessor,
    fd2: FeedProcessor,
    payload: Option<Seq<u8>>,
    stops_rows: Seq<StopV>,
    routes_rows: Seq<RouteV>,
) -> bool {
    match payload {
        Option::None => proc_like(fd2, fd),
        Option::Some(bytes) => match proto::spec_feed_message(bytes) {
            Option::None => proc_like(fd2, fd),
            Option::Some(m) => {
                if spec_msg_ts(m) <= fd.fetched_at as nat {
                    proc_like(fd2, fd)
                } else {
                    let sv = spec_survivors(m, stops_rows);
                    let ops = spec_diff_ops(fd.members_v(), sv);
                    &&& fd2.feed == fd.feed
                    &&& fd2.fetched_at as nat == spec_msg_ts(m)
                    &&& fd2.members_v() == spec_new_members(fd.members_v(), sv)
                    &&& if ops.len() == 0 {
                        fd2.queue_v() == Seq::<FeedOpV>::empty() && fd2.active_stops
                            == fd.active_stops
                    } else {
                        fd2.queue_v() == ops.drop_first() && fd2.active_v() == spec_apply_op(
                            fd.active_v(),
                            ops[0],
                            routes_rows,
                        )
                    }
                }
            },
        },
    }
}

/// The number of operations one tick drains from a non-empty queue
/// of length `n`: at least one, a tenth of the backlog rounded up.
pub open spec fn spec_batch(n: nat) -> nat {
    if n == 0 {
        1
    } else {
        (n + 9) / 10
    }
}

/// Drives every feed processor under a caller-driven tick: wraps the
/// round-robin cursor, drains an adaptive batch from the current
/// feed's queue publishing a merged snapshot after every applied
/// operation, or — when the queue is empty — refreshes from the
/// supplied payload and drains once without publishing.
pub struct FeedManager {
    pub feeds: Vec<FeedProcessor>,
    /// Round-robin cursor.
    pub feed_idx: usize,
    pub stops: EntityCollection<Vec<Stop>>,
    pub routes: EntityCollection<Vec<Route>>,
    /// The canonical station ids, in table order: the station universe
    /// of every published snapshot.
    pub parent_stops: Vec<Vec<u8>>,
}

impl FeedManager {
    /// The manager's invariant: at least one feed, every processor
    /// well formed, and the cached canonical list agreeing with the
    /// station table.
    pub open spec fn wf(self) -> bool {
        &&& self.feeds@.len() > 0
        &&& forall|i: int| 0 <= i < self.feeds@.len() ==> (#[trigger] self.feeds@[i]).wf()
        &&& self.parent_stops.deep_view() == spec_parent_ids(self.stops.rows())
    }

    /// The feed the next tick works on, after wrapping.
    pub open spec fn spec_cur(self) -> int {
        if self.feed_idx >= self.feeds@.len() {
            0
        } else {
            self.feed_idx as int
        }
    }

    /// One fresh processor per configured feed.
    pub fn new(stops: EntityCollection<Vec<Stop>>, routes: EntityCollection<Vec<Route>>) -> (r:
        Self)
        ensures
            r.wf(),
            r.feeds@.len() == 8,
            r.feed_idx == 0,
            r.stops == stops,
            r.routes == routes,
            forall|k: int|
                0 <= k < 8 ==> {
                    &&& (#[trigger] r.feeds@[k]).feed == FEEDS@[k]
                    &&& r.feeds@[k].fetched_at == 0
                    &&& r.feeds@[k].queue_v() =~= Seq::<FeedOpV>::empty()
                    &&& r.feeds@[k].active_v() =~= Seq::<FeedEntityV>::empty()
                    &&& r.feeds@[k].members_v() =~= Seq::<Seq<u8>>::empty()
                },
    {
        let mut feeds: Vec<FeedProcessor> = Vec::new();
        let mut k: usize = 0;
        while k < 8
            invariant
                k <= 8,
                feeds@.len() == k,
                forall|i: int|
                    0 <= i < k ==> {
                        &&& (#[trigger] feeds@[i]).wf()
                        &&& feeds@[i].feed == FEEDS@[i]
                        &&& feeds@[i].fetched_at == 0
                        &&& feeds@[i].queue_v() =~= Seq::<FeedOpV>::empty()
                        &&& feeds@[i].active_v() =~= Seq::<FeedEntityV>::empty()
                        &&& feeds@[i].members_v() =~= Seq::<Seq<u8>>::empty()
                    },
            decreases 8 - k,
        {
            feeds.push(FeedProcessor::new(FEEDS[k]));
            k += 1;
        }
        let parent_stops = stops.canonical_ids();
        FeedManager { feeds, feed_idx: 0, stops, routes, parent_stops }
    }

    /// A manager over caller-supplied processors, cursor at the
    /// first.
    pub fn from_processors(
        feeds: Vec<FeedProcessor>,
        stops: EntityCollection<Vec<Stop>>,
        routes: EntityCollection<Vec<Route>>,
    ) -> (r: Self)
        requires
            feeds@.len() > 0,
            forall|i: int| 0 <= i < feeds@.len() ==> (#[trigger] feeds@[i]).wf(),
        ensures
            r.wf(),
            r.feeds == feeds,
            r.feed_idx == 0,
            r.stops == stops,
            r.routes == routes,
    {
        let parent_stops = stops.canonical_ids();
        FeedManager { feeds, feed_idx: 0, stops, routes, parent_stops }
    }

    /// The feed the next tick will select.
    pub fn current_feed(&self) -> (r: usize)
        requires
            self.wf(),
        ensures
            r as int == self.spec_cur(),
    {
        if self.feed_idx >= self.feeds.len() {
            0
        } else {
            self.feed_idx
        }
    }

    /// Whether the next tick will ask for a network refresh: exactly
    /// when the selected feed's queue is empty.
    pub fn needs_refresh(&self) -> (r: bool)
        requires
            self.wf(),
        ensures
            r == (self.feeds@[self.spec_cur()].queue_v().len() == 0),
    {
        let idx = self.current_feed();
        self.feeds[idx].queue.len() == 0
    }
}


impl FeedManager {
    /// One scheduler tick. Wraps the cursor, selects the current
    /// feed, and drains an adaptive batch from its queue, returning
    /// one merged snapshot per applied operation for the caller to
    /// publish. When the queue is empty it instead refreshes from
    /// `payload` — the bytes the caller fetched for this feed, if
    /// any — drains once, and publishes nothing. Either way the
    /// cursor then moves to the next feed.
    pub fn update(&mut self, payload: Option<&Vec<u8>>) -> (out: Vec<Vec<StopState>>)
        requires
            old(self).wf(),
        ensures
            final(self).wf(),
            final(self).stops == old(self).stops,
            final(self).routes == old(self).routes,
            final(self).parent_stops == old(self).parent_stops,
            final(self).feeds@.len() == old(self).feeds@.len(),
            final(self).feed_idx as int == old(self).spec_cur() + 1,
            forall|k: int|
                0 <= k < old(self).feeds@.len() && k != old(self).spec_cur()
                    ==> final(self).feeds@[k] == old(self).feeds@[k],
            ({
                let idx = old(self).spec_cur();
                let fd = old(self).feeds@[idx];
                let n = fd.queue_v().len();
                let fd2 = final(self).feeds@[idx];
                if n > 0 {
                    let batch = spec_batch(n);
                    &&& out@.len() == batch
                    &&& fd2.feed == fd.feed
                    &&& fd2.fetched_at == fd.fetched_at
                    &&& fd2.active_stops_current == fd.active_stops_current
                    &&& fd2.queue_v() == fd.queue_v().skip(batch as int)
                    &&& fd2.active_v() == spec_apply_ops(
                        fd.active_v(),
                        fd.queue_v().take(batch as int),
                        old(self).routes.rows(),
                    )
                    &&& forall|k: int|
                        0 <= k < batch ==> (#[trigger] out@[k]).deep_view() == spec_merge(
                            spec_actives_of(old(self).feeds@).update(
                                idx,
                                spec_apply_ops(
                                    fd.active_v(),
                                    fd.queue_v().take(k + 1),
                                    old(self).routes.rows(),
                                ),
                            ),
                            old(self).stops.rows(),
                            old(self).parent_stops.deep_view(),
                        )
                } else {
                    &&& out@.len() == 0
                    &&& spec_refresh_step(
                        fd,
                        fd2,
                        match payload {
                            Option::Some(b) => Option::Some(b@),
                            Option::None => Option::<Seq<u8>>::None,
                        },
                        old(self).stops.rows(),
                        old(self).routes.rows(),
                    )
                }
            }),
    {
        if self.feed_idx >= self.feeds.len() {
            self.feed_idx = 0;
        }
        let idx = self.feed_idx;
        let ghost fd = old(self).feeds@[idx as int];
        let ghost oldq = fd.queue_v();
        let ghost oldact = fd.active_v();
        let n = self.feeds[idx].queue.len();
        proof {
            assert(n as nat == oldq.len());
        }
        let mut out: Vec<Vec<StopState>> = Vec::new();
        if n > 0 {
            let batch = n / 10 + (if n % 10 == 0 { 0 } else { 1 });
            proof {
                assert(batch as nat == spec_batch(n as nat));
                assert(1 <= batch <= n);
                assert(oldq.take(0) =~= Seq::<FeedOpV>::empty());
                assert(oldq.skip(0) =~= oldq);
            }
            let mut c: usize = 0;
            while c < batch
                invariant
                    c <= batch,
                    1 <= batch <= n,
                    n as nat == oldq.len(),
                    batch as nat == spec_batch(n as nat),
                    idx < self.feeds@.len(),
                    self.feeds@.len() == old(self).feeds@.len(),
                    self.feed_idx == idx,
                    idx as int == old(self).spec_cur(),
                    self.stops == old(self).stops,
                    self.routes == old(self).routes,
                    self.parent_stops == old(self).parent_stops,
                    fd == old(self).feeds@[idx as int],
                    oldq == fd.queue_v(),
                    oldact == fd.active_v(),
                    forall|k: int|
                        0 <= k < self.feeds@.len() && k != idx ==> self.feeds@[k] == old(
                            self,
                        ).feeds@[k],
                    forall|k: int|
                        0 <= k < self.feeds@.len() ==> (#[trigger] self.feeds@[k]).wf(),
                    self.feeds@[idx as int].feed == fd.feed,
                    self.feeds@[idx as int].fetched_at == fd.fetched_at,
                    self.feeds@[idx as int].active_stops_current == fd.active_stops_current,
                    self.feeds@[idx as int].queue_v() == oldq.skip(c as int),
                    self.feeds@[idx as int].active_v() == spec_apply_ops(
                        oldact,
                        oldq.take(c as int),
                        self.routes.rows(),
                    ),
                    out@.len() == c,
                    forall|k: int|
                        0 <= k < c ==> (#[trigger] out@[k]).deep_view() == spec_merge(
                            spec_actives_of(old(self).feeds@).update(
                                idx as int,
                                spec_apply_ops(oldact, oldq.take(k + 1), self.routes.rows()),
                            ),
                            self.stops.rows(),
                            self.parent_stops.deep_view(),
                        ),
                decreases batch - c,
            {
                let ghost prefeeds = self.feeds@;
                let mut f = self.feeds.remove(idx);
                proof {
                    assert(oldq.skip(c as int).len() > 0);
                }
                let _applied = f.update(&self.routes);
                proof {
                    assert(oldq.skip(c as int)[0] == oldq[c as int]);
                    assert(oldq.skip(c as int).drop_first() =~= oldq.skip(c + 1));
                    assert(oldq.take(c as int).push(oldq[c as int]) =~= oldq.take(c + 1));
                    lemma_apply_ops_snoc(oldact, oldq.take(c as int), oldq[c as int], self.routes.rows());
                }
                let ghost fv = f;
                self.feeds.insert(idx, f);
                proof {
                    assert(self.feeds@ =~= prefeeds.remove(idx as int).insert(idx as int, fv));
                    assert(self.feeds@ =~= prefeeds.update(idx as int, fv));
                }
                let snap = merge_snapshot(&self.feeds, &self.stops, &self.parent_stops);
                proof {
                    assert(spec_actives_of(self.feeds@) =~= spec_actives_of(
                        old(self).feeds@,
                    ).update(
                        idx as int,
                        spec_apply_ops(oldact, oldq.take(c as int + 1), self.routes.rows()),
                    ));
                }
                out.push(snap);
                c += 1;
            }
            self.feed_idx = idx + 1;
        } else {
            let ghost prefeeds = self.feeds@;
            let mut f = self.feeds.remove(idx);
            proof {
                assert(oldq =~= Seq::<FeedOpV>::empty());
            }
            match payload {
                Some(b) => {
                    f.fetch(b.as_slice(), &self.stops);
                },
                None => {},
            }
            proof {
                if f.queue_v().len() > 0 {
                    assert(Seq::<FeedOpV>::empty() + spec_diff_ops(
                        fd.members_v(),
                        spec_survivors(
                            proto::spec_feed_message(match payload {
                                Option::Some(b) => b@,
                                Option::None => Seq::<u8>::empty(),
                            })->Some_0,
                            self.stops.rows(),
                        ),
                    ) =~= spec_diff_ops(
                        fd.members_v(),
                        spec_survivors(
                            proto::spec_feed_message(match payload {
                                Option::Some(b) => b@,
                                Option::None => Seq::<u8>::empty(),
                            })->Some_0,
                            self.stops.rows(),
                        ),
                    ));
                }
            }
            let _applied = f.update(&self.routes);
            let ghost fv = f;
            self.feeds.insert(idx, f);
            proof {
                assert(self.feeds@ =~= prefeeds.remove(idx as int).insert(idx as int, fv));
                assert(self.feeds@ =~= prefeeds.update(idx as int, fv));
            }
            self.feed_idx = idx + 1;
        }
        out
    }
}


/// At most one station is ever attributed to one trip: two distinct
/// active entries of a well-formed processor always name distinct
/// trips, so a relocating trip is never shown at its old and new
/// station at once.
pub proof fn lemma_at_most_one_per_trip(p: FeedProcessor, i: int, j: int)
    requires
        p.wf(),
        0 <= i < p.active_v().len(),
        0 <= j < p.active_v().len(),
        i != j,
    ensures
        p.active_v()[i].trip_id != p.active_v()[j].trip_id,
{
}

proof fn lemma_remove_ops_all_removes(members: Seq<Seq<u8>>, survivors: Seq<FeedEntityV>)
    ensures
        forall|k: int|
            0 <= k < spec_remove_ops(members, survivors).len() ==> (#[trigger] spec_remove_ops(
                members,
                survivors,
            )[k]) is Remove,
    decreases members.len(),
{
    if members.len() > 0 {
        lemma_remove_ops_all_removes(members.drop_first(), survivors);
        let rest = spec_remove_ops(members.drop_first(), survivors);
        let whole = spec_remove_ops(members, survivors);
        if !spec_has_trip(survivors, members[0]) {
            assert forall|k: int| 0 <= k < whole.len() implies (whole[k]) is Remove by {
                if k > 0 {
                    assert(whole[k] == rest[k - 1]);
                }
            }
        }
    }
}

proof fn lemma_add_ops_all_adds(members: Seq<Seq<u8>>, survivors: Seq<FeedEntityV>)
    ensures
        forall|k: int|
            0 <= k < spec_add_ops(members, survivors).len() ==> (#[trigger] spec_add_ops(
                members,
                survivors,
            )[k]) is Add,
    decreases survivors.len(),
{
    if survivors.len() > 0 {
        lemma_add_ops_all_adds(members, survivors.drop_first());
        let rest = spec_add_ops(members, survivors.drop_first());
        let whole = spec_add_ops(members, survivors);
        if !members.contains(survivors[0].trip_id) {
            assert forall|k: int| 0 <= k < whole.len() implies (whole[k]) is Add by {
                if k > 0 {
                    assert(whole[k] == rest[k - 1]);
                }
            }
        }
    }
}

/// Within the operations one fetch enqueues, every removal precedes
/// every addition: a trip relocating between stations is observed as
/// its removal first, its addition after, never the other order.
pub proof fn lemma_diff_removes_before_adds(
    members: Seq<Seq<u8>>,
    survivors: Seq<FeedEntityV>,
    i: int,
    j: int,
)
    requires
        0 <= i < spec_diff_ops(members, survivors).len(),
        0 <= j < spec_diff_ops(members, survivors).len(),
        spec_diff_ops(members, survivors)[i] is Remove,
        spec_diff_ops(members, survivors)[j] is Add,
    ensures
        i < j,
{
    lemma_remove_ops_all_removes(members, survivors);
    lemma_add_ops_all_adds(members, survivors);
    let rops = spec_remove_ops(members, survivors);
    let aops = spec_add_ops(members, survivors);
    if i >= rops.len() {
        assert(spec_diff_ops(members, survivors)[i] == aops[i - rops.len()]);
    }
    if j < rops.len() {
        assert(spec_diff_ops(members, survivors)[j] == rops[j]);
    }
}

/// A vehicle position whose raw stop id is unknown to the static
/// station table (a non-public operational stop) contributes no
/// candidate entry, so no operation ever arises from it.
pub proof fn lemma_nonpublic_stop_filtered(e: proto::FeedEntityV, stops: Seq<StopV>)
    requires
        match e.vehicle {
            Option::Some(v) => match v.stop_id {
                Option::Some(sid) => spec_resolve(stops, sid) is None,
                Option::None => true,
            },
            Option::None => true,
        },
    ensures
        spec_vehicle_contrib(e, stops) =~= Seq::<FeedEntityV>::empty(),
{
}


/// Relocation, drained in order: removing a trip and then re-adding
/// it at its new station leaves the trip attributed to the new
/// station alone — the old station's attribution by this trip is
/// gone, and no state in between ever attributed both (the active
/// set keeps one entry per trip throughout).
pub proof fn lemma_relocation(
    active: Seq<FeedEntityV>,
    tid: Seq<u8>,
    e: FeedEntityV,
    routes: Seq<RouteV>,
)
    requires
        unique_trips(active),
        e.trip_id == tid,
        spec_find_route(routes, e.route_id) is Some,
    ensures
        ({
            let removed = spec_remove_trip(active, tid);
            let rt = match spec_find_route(routes, e.route_id) {
                Option::Some(rt) => rt,
                Option::None => arbitrary(),
            };
            let colored = FeedEntityV { color: Option::Some(rt.color), ..e };
            let ops = seq![FeedOpV::Remove(tid), FeedOpV::Add(e)];
            let fin = spec_apply_ops(active, ops, routes);
            &&& fin == removed.push(colored)
            &&& forall|k: int| 0 <= k < removed.len() ==> (#[trigger] removed[k]).trip_id != tid
            &&& unique_trips(fin)
        }),
{
    let removed = spec_remove_trip(active, tid);
    let rt = match spec_find_route(routes, e.route_id) {
        Option::Some(rt) => rt,
        Option::None => arbitrary(),
    };
    let colored = FeedEntityV { color: Option::Some(rt.color), ..e };
    let ops = seq![FeedOpV::Remove(tid), FeedOpV::Add(e)];
    lemma_remove_trip_props(active, tid);
    assert(ops[0] == FeedOpV::Remove(tid));
    assert(ops.drop_first() =~= seq![FeedOpV::Add(e)]);
    assert(spec_apply_op(active, ops[0], routes) == removed);
    let ops1 = seq![FeedOpV::Add(e)];
    assert(ops1[0] == FeedOpV::Add(e));
    assert(ops1.drop_first() =~= Seq::<FeedOpV>::empty());
    lemma_trip_index_props(removed, tid);
    assert(spec_trip_index(removed, tid) == -1) by {
        if spec_trip_index(removed, tid) != -1 {
            assert(removed[spec_trip_index(removed, tid)].trip_id == tid);
        }
    }
    assert(spec_apply_op(removed, ops1[0], routes) == removed.push(colored));
    assert(spec_apply_ops(removed.push(colored), ops1.drop_first(), routes) == removed.push(
        colored,
    ));
    assert(spec_apply_ops(active, ops, routes) == spec_apply_ops(removed, ops1, routes));
    lemma_upsert_unique(removed, colored);
}

} // verus!
