//! Decoder for the subset of the realtime transit message schema that
//! the reconciliation engine reads: the feed header timestamp and, per
//! entity, the vehicle-position and trip-update records.
//!
//! The payload is a protocol-buffer wire stream: a sequence of fields,
//! each a varint key carrying a field number and a wire type, followed
//! by a varint, a fixed-width value, or a length-delimited byte range.
//! The spec functions here state that grammar directly over the byte
//! sequence; the executable decoder is proved to return exactly what
//! the grammar assigns to its input, or `None` for a malformed payload.

use vstd::prelude::*;

verus! {

broadcast use crate::entities::lemma_bytes_deep_view;

/// 128 raised to `n`: the range of an `n`-byte varint.
pub open spec fn pow128(n: nat) -> nat
    decreases n,
{
    if n == 0 {
        1
    } else {
        128 * pow128((n - 1) as nat)
    }
}

proof fn lemma_pow128_le(a: nat, b: nat)
    requires
        a <= b,
    ensures
        pow128(a) <= pow128(b),
    decreases b,
{
    if a < b && b > 0 {
        lemma_pow128_le(a, (b - 1) as nat);
    }
}

proof fn lemma_pow128_10()
    ensures
        pow128(10) == 0x400000000000000000,
{
    assert(pow128(0) == 1);
    assert(pow128(1) == 128);
    assert(pow128(2) == 0x4000);
    assert(pow128(3) == 0x200000);
    assert(pow128(4) == 0x10000000);
    assert(pow128(5) == 0x800000000);
    assert(pow128(6) == 0x40000000000);
    assert(pow128(7) == 0x2000000000000);
    assert(pow128(8) == 0x100000000000000);
    assert(pow128(9) == 0x8000000000000000);
    assert(pow128(10) == 0x400000000000000000);
}

/// A base-128 varint read at position `i`, using at most `rem` bytes:
/// the value and the position just past it. Continuation bytes carry
/// the high bit; the first byte is the least significant group.
pub open spec fn spec_varint_rec(s: Seq<u8>, i: int, rem: nat) -> Option<(nat, int)>
    decreases rem,
{
    if rem == 0 || i < 0 || i >= s.len() {
        None
    } else {
        let b = s[i];
        if b < 128 {
            Some(((b as nat), i + 1))
        } else {
            match spec_varint_rec(s, i + 1, (rem - 1) as nat) {
                Option::None => Option::None,
                Option::Some((v, j)) => Option::Some((((b - 128) as nat + 128 * v), j)),
            }
        }
    }
}

proof fn lemma_varint_rec_bounds(s: Seq<u8>, i: int, rem: nat)
    ensures
        match spec_varint_rec(s, i, rem) {
            Option::Some((v, j)) => v < pow128(rem) && i < j <= s.len(),
            Option::None => true,
        },
    decreases rem,
{
    if rem > 0 && 0 <= i < s.len() {
        if s[i] < 128 {
            lemma_pow128_le(1, rem);
            assert(pow128(1) == 128 * pow128(0));
        } else {
            lemma_varint_rec_bounds(s, i + 1, (rem - 1) as nat);
            assert(pow128(rem) == 128 * pow128((rem - 1) as nat));
        }
    }
}

/// A varint as the wire accepts it: at most ten bytes, value below
/// two to the sixty-fourth.
pub open spec fn spec_varint(s: Seq<u8>, i: int) -> Option<(nat, int)> {
    match spec_varint_rec(s, i, 10) {
        Option::None => Option::None,
        Option::Some((v, j)) => if v < 0x10000000000000000 {
            Option::Some((v, j))
        } else {
            Option::None
        },
    }
}

fn read_varint_rec(s: &[u8], i: usize, rem: u8) -> (r: Option<(u128, usize)>)
    requires
        i <= s@.len(),
        rem <= 10,
    ensures
        match r {
            Option::Some((v, j)) => {
                &&& spec_varint_rec(s@, i as int, rem as nat) == Option::Some(
                    ((v as nat), j as int),
                )
                &&& (v as nat) < pow128(rem as nat)
                &&& i < j <= s@.len()
            },
            Option::None => spec_varint_rec(s@, i as int, rem as nat) is None,
        },
    decreases rem,
{
    if rem == 0 || i >= s.len() {
        return None;
    }
    let b = s[i];
    if b < 128 {
        proof {
            lemma_pow128_le(1, rem as nat);
            assert(pow128(1) == 128 * pow128(0));
        }
        Some((b as u128, i + 1))
    } else {
        match read_varint_rec(s, i + 1, rem - 1) {
            None => None,
            Some((v, j)) => {
                proof {
                    lemma_pow128_le((rem - 1) as nat, 9);
                    lemma_pow128_10();
                    lemma_pow128_le(9, 10);
                    assert(pow128(rem as nat) == 128 * pow128((rem - 1) as nat));
                }
                let val = (b - 128) as u128 + 128 * v;
                Some((val, j))
            },
        }
    }
}

/// Reads one varint; `None` on truncation, an overlong encoding, or a
/// value that does not fit in sixty-four bits.
pub fn read_varint(s: &[u8], i: usize) -> (r: Option<(u64, usize)>)
    requires
        i <= s@.len(),
    ensures
        match r {
            Option::Some((v, j)) => {
                &&& spec_varint(s@, i as int) == Option::Some(((v as nat), j as int))
                &&& i < j <= s@.len()
            },
            Option::None => spec_varint(s@, i as int) is None,
        },
{
    match read_varint_rec(s, i, 10) {
        None => None,
        Some((v, j)) => {
            if v < 0x10000000000000000u128 {
                Some((v as u64, j))
            } else {
                None
            }
        },
    }
}

/// The payload of one wire field: a varint value, or a byte range of
/// the buffer (fixed-width or length-delimited).
pub enum SpecFieldVal {
    Int(nat),
    Data { lo: int, hi: int },
}

/// One wire field: its field number and payload.
pub struct SpecField {
    pub num: nat,
    pub val: SpecFieldVal,
}

/// The wire field starting at position `i`: key varint, then the
/// payload its wire type dictates. Field number zero, the deprecated
/// group wire types, and truncated payloads are malformed.
pub open spec fn spec_field(s: Seq<u8>, i: int) -> Option<(SpecField, int)> {
    match spec_varint(s, i) {
        Option::None => Option::None,
        Option::Some((key, j)) => {
            let num = key / 8;
            let wt = key % 8;
            if num == 0 {
                None
            } else if wt == 0 {
                match spec_varint(s, j) {
                    Option::None => Option::None,
                    Option::Some((v, j2)) => Option::Some(
                        (SpecField { num, val: SpecFieldVal::Int(v) }, j2),
                    ),
                }
            } else if wt == 1 {
                if j + 8 <= s.len() {
                    Some((SpecField { num, val: SpecFieldVal::Data { lo: j, hi: j + 8 } }, j + 8))
                } else {
                    None
                }
            } else if wt == 2 {
                match spec_varint(s, j) {
                    Option::None => Option::None,
                    Option::Some((l, j2)) => if j2 + l <= s.len() {
                        Option::Some(
                            (SpecField { num, val: SpecFieldVal::Data { lo: j2, hi: j2 + l } }, j2 + l),
                        )
                    } else {
                        Option::None
                    },
                }
            } else if wt == 5 {
                if j + 4 <= s.len() {
                    Some((SpecField { num, val: SpecFieldVal::Data { lo: j, hi: j + 4 } }, j + 4))
                } else {
                    None
                }
            } else {
                None
            }
        },
    }
}

/// Executable form of a wire field payload; byte ranges index the
/// decoded buffer.
pub enum FieldVal {
    Int(u64),
    Data(usize, usize),
}

impl View for FieldVal {
    type V = SpecFieldVal;

    open spec fn view(&self) -> SpecFieldVal {
        match *self {
            FieldVal::Int(v) => SpecFieldVal::Int(v as nat),
            FieldVal::Data(lo, hi) => SpecFieldVal::Data { lo: lo as int, hi: hi as int },
        }
    }
}

/// Reads one wire field at position `i`.
pub fn read_field(s: &[u8], i: usize) -> (r: Option<(u64, FieldVal, usize)>)
    requires
        i <= s@.len(),
    ensures
        match r {
            Option::Some((num, val, j)) => {
                &&& spec_field(s@, i as int) == Option::Some(
                    (SpecField { num: num as nat, val: val@ }, j as int),
                )
                &&& i < j <= s@.len()
                &&& (val matches FieldVal::Data(lo, hi) ==> i <= lo <= hi <= j)
            },
            Option::None => spec_field(s@, i as int) is None,
        },
{
    match read_varint(s, i) {
        None => None,
        Some((key, j)) => {
            let num = key / 8;
            let wt = key % 8;
            if num == 0 {
                None
            } else if wt == 0 {
                match read_varint(s, j) {
                    None => None,
                    Some((v, j2)) => Some((num, FieldVal::Int(v), j2)),
                }
            } else if wt == 1 {
                if s.len() - j >= 8 {
                    Some((num, FieldVal::Data(j, j + 8), j + 8))
                } else {
                    None
                }
            } else if wt == 2 {
                match read_varint(s, j) {
                    None => None,
                    Some((l, j2)) => {
                        if l <= (s.len() - j2) as u64 {
                            let hi = j2 + (l as usize);
                            Some((num, FieldVal::Data(j2, hi), hi))
                        } else {
                            None
                        }
                    },
                }
            } else if wt == 5 {
                if s.len() - j >= 4 {
                    Some((num, FieldVal::Data(j, j + 4), j + 4))
                } else {
                    None
                }
            } else {
                None
            }
        },
    }
}


/// Copies the window `[lo, hi)` of the buffer.
fn bytes_range(s: &[u8], lo: usize, hi: usize) -> (v: Vec<u8>)
    requires
        lo <= hi <= s@.len(),
    ensures
        v@ == s@.subrange(lo as int, hi as int),
{
    crate::entities::bytes_clone(&s[lo..hi])
}

/// The trip selector carried by vehicle positions and trip updates.
pub struct TripDescriptor {
    pub trip_id: Option<Vec<u8>>,
    pub route_id: Option<Vec<u8>>,
}

/// The mathematical shape of a `TripDescriptor`.
pub struct TripDescriptorV {
    pub trip_id: Option<Seq<u8>>,
    pub route_id: Option<Seq<u8>>,
}

impl View for TripDescriptor {
    type V = TripDescriptorV;

    open spec fn view(&self) -> TripDescriptorV {
        TripDescriptorV { trip_id: self.trip_id.deep_view(), route_id: self.route_id.deep_view() }
    }
}

impl DeepView for TripDescriptor {
    type V = TripDescriptorV;

    open spec fn deep_view(&self) -> TripDescriptorV {
        self.view()
    }
}

/// One stop-time entry of a trip update; only the stop id is read.
pub struct StopTimeUpdate {
    pub stop_id: Option<Vec<u8>>,
}

/// The mathematical shape of a `StopTimeUpdate`.
pub struct StopTimeUpdateV {
    pub stop_id: Option<Seq<u8>>,
}

impl View for StopTimeUpdate {
    type V = StopTimeUpdateV;

    open spec fn view(&self) -> StopTimeUpdateV {
        StopTimeUpdateV { stop_id: self.stop_id.deep_view() }
    }
}

impl DeepView for StopTimeUpdate {
    type V = StopTimeUpdateV;

    open spec fn deep_view(&self) -> StopTimeUpdateV {
        self.view()
    }
}

/// A trip update: the trip it describes and its ordered stop-time
/// entries.
pub struct TripUpdate {
    pub trip: TripDescriptor,
    pub stop_time_update: Vec<StopTimeUpdate>,
}

/// The mathematical shape of a `TripUpdate`.
pub struct TripUpdateV {
    pub trip: TripDescriptorV,
    pub stop_time_update: Seq<StopTimeUpdateV>,
}

impl View for TripUpdate {
    type V = TripUpdateV;

    open spec fn view(&self) -> TripUpdateV {
        TripUpdateV { trip: self.trip@, stop_time_update: self.stop_time_update.deep_view() }
    }
}

impl DeepView for TripUpdate {
    type V = TripUpdateV;

    open spec fn deep_view(&self) -> TripUpdateV {
        self.view()
    }
}

/// A vehicle-position record.
pub struct VehiclePosition {
    pub trip: Option<TripDescriptor>,
    pub current_status: Option<u64>,
    pub timestamp: Option<u64>,
    pub stop_id: Option<Vec<u8>>,
}

/// The mathematical shape of a `VehiclePosition`.
pub struct VehiclePositionV {
    pub trip: Option<TripDescriptorV>,
    pub current_status: Option<nat>,
    pub timestamp: Option<nat>,
    pub stop_id: Option<Seq<u8>>,
}

impl View for VehiclePosition {
    type V = VehiclePositionV;

    open spec fn view(&self) -> VehiclePositionV {
        VehiclePositionV {
            trip: self.trip.deep_view(),
            current_status: match self.current_status {
                Option::Some(v) => Option::Some(v as nat),
                Option::None => Option::None,
            },
            timestamp: match self.timestamp {
                Option::Some(v) => Option::Some(v as nat),
                Option::None => Option::None,
            },
            stop_id: self.stop_id.deep_view(),
        }
    }
}

impl DeepView for VehiclePosition {
    type V = VehiclePositionV;

    open spec fn deep_view(&self) -> VehiclePositionV {
        self.view()
    }
}

/// One feed entity: at most one trip update and one vehicle position.
pub struct FeedEntity {
    pub trip_update: Option<TripUpdate>,
    pub vehicle: Option<VehiclePosition>,
}

/// The mathematical shape of a `FeedEntity`.
pub struct FeedEntityV {
    pub trip_update: Option<TripUpdateV>,
    pub vehicle: Option<VehiclePositionV>,
}

impl View for FeedEntity {
    type V = FeedEntityV;

    open spec fn view(&self) -> FeedEntityV {
        FeedEntityV { trip_update: self.trip_update.deep_view(), vehicle: self.vehicle.deep_view() }
    }
}

impl DeepView for FeedEntity {
    type V = FeedEntityV;

    open spec fn deep_view(&self) -> FeedEntityV {
        self.view()
    }
}

/// A decoded feed message: the header timestamp and the entity list.
pub struct FeedMessage {
    pub timestamp: Option<u64>,
    pub entity: Vec<FeedEntity>,
}

/// The mathematical shape of a `FeedMessage`.
pub struct FeedMessageV {
    pub timestamp: Option<nat>,
    pub entity: Seq<FeedEntityV>,
}

impl View for FeedMessage {
    type V = FeedMessageV;

    open spec fn view(&self) -> FeedMessageV {
        FeedMessageV {
            timestamp: match self.timestamp {
                Option::Some(v) => Option::Some(v as nat),
                Option::None => Option::None,
            },
            entity: self.entity.deep_view(),
        }
    }
}

impl DeepView for FeedMessage {
    type V = FeedMessageV;

    open spec fn deep_view(&self) -> FeedMessageV {
        self.view()
    }
}

/// Folds the wire fields of a trip descriptor body from position `i`:
/// field 1 is the trip id, field 5 the route id, each a byte string
/// with last occurrence winning; other fields are skipped.
pub open spec fn spec_trip_descriptor_fields(s: Seq<u8>, i: int, acc: TripDescriptorV) -> Option<
    TripDescriptorV,
>
    decreases s.len() - i,
{
    if i == s.len() {
        Some(acc)
    } else {
        match spec_field(s, i) {
            Option::None => Option::None,
            Option::Some((f, j)) => {
                if !(i < j <= s.len()) {
                    Option::None
                } else if f.num == 1 {
                    match f.val {
                        SpecFieldVal::Data { lo, hi } => spec_trip_descriptor_fields(
                            s,
                            j,
                            TripDescriptorV { trip_id: Some(s.subrange(lo, hi)), ..acc },
                        ),
                        _ => Option::None,
                    }
                } else if f.num == 5 {
                    match f.val {
                        SpecFieldVal::Data { lo, hi } => spec_trip_descriptor_fields(
                            s,
                            j,
                            TripDescriptorV { route_id: Some(s.subrange(lo, hi)), ..acc },
                        ),
                        _ => Option::None,
                    }
                } else {
                    spec_trip_descriptor_fields(s, j, acc)
                }
            },
        }
    }
}

/// The trip descriptor a byte string decodes to, if well formed.
pub open spec fn spec_trip_descriptor(s: Seq<u8>) -> Option<TripDescriptorV> {
    spec_trip_descriptor_fields(s, 0, TripDescriptorV { trip_id: None, route_id: None })
}

/// Decodes a trip descriptor body.
pub fn decode_trip_descriptor(s: &[u8]) -> (r: Option<TripDescriptor>)
    ensures
        r.deep_view() == spec_trip_descriptor(s@),
{
    let mut trip_id: Option<Vec<u8>> = None;
    let mut route_id: Option<Vec<u8>> = None;
    let mut i: usize = 0;
    loop
        invariant
            i <= s@.len(),
            spec_trip_descriptor(s@) == spec_trip_descriptor_fields(
                s@,
                i as int,
                TripDescriptorV { trip_id: trip_id.deep_view(), route_id: route_id.deep_view() },
            ),
        decreases s@.len() - i,
    {
        if i == s.len() {
            return Some(TripDescriptor { trip_id, route_id });
        }
        match read_field(s, i) {
            None => {
                return None;
            },
            Some((num, val, j)) => {
                if num == 1 {
                    match val {
                        FieldVal::Data(lo, hi) => {
                            trip_id = Some(bytes_range(s, lo, hi));
                        },
                        _ => {
                            return None;
                        },
                    }
                } else if num == 5 {
                    match val {
                        FieldVal::Data(lo, hi) => {
                            route_id = Some(bytes_range(s, lo, hi));
                        },
                        _ => {
                            return None;
                        },
                    }
                }
                i = j;
            },
        }
    }
}


/// Folds the wire fields of a stop-time-update body: field 4 is the
/// stop id, last occurrence winning; other fields are skipped.
pub open spec fn spec_stop_time_update_fields(s: Seq<u8>, i: int, acc: StopTimeUpdateV) -> Option<
    StopTimeUpdateV,
>
    decreases s.len() - i,
{
    if i == s.len() {
        Some(acc)
    } else {
        match spec_field(s, i) {
            Option::None => Option::None,
            Option::Some((f, j)) => {
                if !(i < j <= s.len()) {
                    Option::None
                } else if f.num == 4 {
                    match f.val {
                        SpecFieldVal::Data { lo, hi } => spec_stop_time_update_fields(
                            s,
                            j,
                            StopTimeUpdateV { stop_id: Some(s.subrange(lo, hi)) },
                        ),
                        _ => Option::None,
                    }
                } else {
                    spec_stop_time_update_fields(s, j, acc)
                }
            },
        }
    }
}

/// The stop-time update a byte string decodes to, if well formed.
pub open spec fn spec_stop_time_update(s: Seq<u8>) -> Option<StopTimeUpdateV> {
    spec_stop_time_update_fields(s, 0, StopTimeUpdateV { stop_id: None })
}

/// Decodes a stop-time-update body.
pub fn decode_stop_time_update(s: &[u8]) -> (r: Option<StopTimeUpdate>)
    ensures
        r.deep_view() == spec_stop_time_update(s@),
{
    let mut stop_id: Option<Vec<u8>> = None;
    let mut i: usize = 0;
    loop
        invariant
            i <= s@.len(),
            spec_stop_time_update(s@) == spec_stop_time_update_fields(
                s@,
                i as int,
                StopTimeUpdateV { stop_id: stop_id.deep_view() },
            ),
        decreases s@.len() - i,
    {
        if i == s.len() {
            return Some(StopTimeUpdate { stop_id });
        }
        match read_field(s, i) {
            None => {
                return None;
            },
            Some((num, val, j)) => {
                if num == 4 {
                    match val {
                        FieldVal::Data(lo, hi) => {
                            stop_id = Some(bytes_range(s, lo, hi));
                        },
                        _ => {
                            return None;
                        },
                    }
                }
                i = j;
            },
        }
    }
}

/// Folds the wire fields of a trip-update body: field 1 is the trip
/// descriptor (required), field 2 a repeated stop-time update kept in
/// wire order; other fields are skipped. A malformed nested body is
/// malformed here too.
pub open spec fn spec_trip_update_fields(
    s: Seq<u8>,
    i: int,
    trip: Option<TripDescriptorV>,
    stus: Seq<StopTimeUpdateV>,
) -> Option<TripUpdateV>
    decreases s.len() - i,
{
    if i == s.len() {
        match trip {
            Option::Some(t) => Option::Some(TripUpdateV { trip: t, stop_time_update: stus }),
            Option::None => Option::None,
        }
    } else {
        match spec_field(s, i) {
            Option::None => Option::None,
            Option::Some((f, j)) => {
                if !(i < j <= s.len()) {
                    Option::None
                } else if f.num == 1 {
                    match f.val {
                        SpecFieldVal::Data { lo, hi } => match spec_trip_descriptor(
                            s.subrange(lo, hi),
                        ) {
                            Option::Some(td) => spec_trip_update_fields(s, j, Some(td), stus),
                            Option::None => Option::None,
                        },
                        _ => Option::None,
                    }
                } else if f.num == 2 {
                    match f.val {
                        SpecFieldVal::Data { lo, hi } => match spec_stop_time_update(
                            s.subrange(lo, hi),
                        ) {
                            Option::Some(stu) => spec_trip_update_fields(
                                s,
                                j,
                                trip,
                                stus.push(stu),
                            ),
                            Option::None => Option::None,
                        },
                        _ => Option::None,
                    }
                } else {
                    spec_trip_update_fields(s, j, trip, stus)
                }
            },
        }
    }
}

/// The trip update a byte string decodes to, if well formed.
pub open spec fn spec_trip_update(s: Seq<u8>) -> Option<TripUpdateV> {
    spec_trip_update_fields(s, 0, None, Seq::empty())
}

/// Decodes a trip-update body.
pub fn decode_trip_update(s: &[u8]) -> (r: Option<TripUpdate>)
    ensures
        r.deep_view() == spec_trip_update(s@),
{
    let mut trip: Option<TripDescriptor> = None;
    let mut stus: Vec<StopTimeUpdate> = Vec::new();
    let mut i: usize = 0;
    proof {
        assert(stus.deep_view() =~= Seq::<StopTimeUpdateV>::empty());
    }
    loop
        invariant
            i <= s@.len(),
            spec_trip_update(s@) == spec_trip_update_fields(
                s@,
                i as int,
                trip.deep_view(),
                stus.deep_view(),
            ),
        decreases s@.len() - i,
    {
        if i == s.len() {
            return match trip {
                Some(t) => Some(TripUpdate { trip: t, stop_time_update: stus }),
                None => None,
            };
        }
        match read_field(s, i) {
            None => {
                return None;
            },
            Some((num, val, j)) => {
                if num == 1 {
                    match val {
                        FieldVal::Data(lo, hi) => match decode_trip_descriptor(&s[lo..hi]) {
                            Some(td) => {
                                trip = Some(td);
                            },
                            None => {
                                return None;
                            },
                        },
                        _ => {
                            return None;
                        },
                    }
                } else if num == 2 {
                    match val {
                        FieldVal::Data(lo, hi) => match decode_stop_time_update(&s[lo..hi]) {
                            Some(stu) => {
                                let ghost prev = stus.deep_view();
                                let ghost stuv = stu.deep_view();
                                stus.push(stu);
                                proof {
                                    assert(stus.deep_view() =~= prev.push(stuv));
                                }
                            },
                            None => {
                                return None;
                            },
                        },
                        _ => {
                            return None;
                        },
                    }
                }
                i = j;
            },
        }
    }
}

/// Folds the wire fields of a vehicle-position body: field 1 is the
/// trip descriptor, field 4 the stop status, field 5 the record
/// timestamp, field 7 the stop id; other fields are skipped.
pub open spec fn spec_vehicle_position_fields(s: Seq<u8>, i: int, acc: VehiclePositionV) -> Option<
    VehiclePositionV,
>
    decreases s.len() - i,
{
    if i == s.len() {
        Some(acc)
    } else {
        match spec_field(s, i) {
            Option::None => Option::None,
            Option::Some((f, j)) => {
                if !(i < j <= s.len()) {
                    Option::None
                } else if f.num == 1 {
                    match f.val {
                        SpecFieldVal::Data { lo, hi } => match spec_trip_descriptor(
                            s.subrange(lo, hi),
                        ) {
                            Option::Some(td) => spec_vehicle_position_fields(
                                s,
                                j,
                                VehiclePositionV { trip: Some(td), ..acc },
                            ),
                            Option::None => Option::None,
                        },
                        _ => Option::None,
                    }
                } else if f.num == 4 {
                    match f.val {
                        SpecFieldVal::Int(v) => spec_vehicle_position_fields(
                            s,
                            j,
                            VehiclePositionV { current_status: Some(v), ..acc },
                        ),
                        _ => Option::None,
                    }
                } else if f.num == 5 {
                    match f.val {
                        SpecFieldVal::Int(v) => spec_vehicle_position_fields(
                            s,
                            j,
                            VehiclePositionV { timestamp: Some(v), ..acc },
                        ),
                        _ => Option::None,
                    }
                } else if f.num == 7 {
                    match f.val {
                        SpecFieldVal::Data { lo, hi } => spec_vehicle_position_fields(
                            s,
                            j,
                            VehiclePositionV { stop_id: Some(s.subrange(lo, hi)), ..acc },
                        ),
                        _ => Option::None,
                    }
                } else {
                    spec_vehicle_position_fields(s, j, acc)
                }
            },
        }
    }
}

/// The vehicle position a byte string decodes to, if well formed.
pub open spec fn spec_vehicle_position(s: Seq<u8>) -> Option<VehiclePositionV> {
    spec_vehicle_position_fields(
        s,
        0,
        VehiclePositionV { trip: None, current_status: None, timestamp: None, stop_id: None },
    )
}

/// Decodes a vehicle-position body.
pub fn decode_vehicle_position(s: &[u8]) -> (r: Option<VehiclePosition>)
    ensures
        r.deep_view() == spec_vehicle_position(s@),
{
    let mut trip: Option<TripDescriptor> = None;
    let mut current_status: Option<u64> = None;
    let mut timestamp: Option<u64> = None;
    let mut stop_id: Option<Vec<u8>> = None;
    let mut i: usize = 0;
    loop
        invariant
            i <= s@.len(),
            spec_vehicle_position(s@) == spec_vehicle_position_fields(
                s@,
                i as int,
                VehiclePositionV {
                    trip: trip.deep_view(),
                    current_status: match current_status {
                        Option::Some(v) => Option::Some(v as nat),
                        Option::None => Option::None,
                    },
                    timestamp: match timestamp {
                        Option::Some(v) => Option::Some(v as nat),
                        Option::None => Option::None,
                    },
                    stop_id: stop_id.deep_view(),
                },
            ),
        decreases s@.len() - i,
    {
        if i == s.len() {
            return Some(VehiclePosition { trip, current_status, timestamp, stop_id });
        }
        match read_field(s, i) {
            None => {
                return None;
            },
            Some((num, val, j)) => {
                if num == 1 {
                    match val {
                        FieldVal::Data(lo, hi) => match decode_trip_descriptor(&s[lo..hi]) {
                            Some(td) => {
                                trip = Some(td);
                            },
                            None => {
                                return None;
                            },
                        },
                        _ => {
                            return None;
                        },
                    }
                } else if num == 4 {
                    match val {
                        FieldVal::Int(v) => {
                            current_status = Some(v);
                        },
                        _ => {
                            return None;
                        },
                    }
                } else if num == 5 {
                    match val {
                        FieldVal::Int(v) => {
                            timestamp = Some(v);
                        },
                        _ => {
                            return None;
                        },
                    }
                } else if num == 7 {
                    match val {
                        FieldVal::Data(lo, hi) => {
                            stop_id = Some(bytes_range(s, lo, hi));
                        },
                        _ => {
                            return None;
                        },
                    }
                }
                i = j;
            },
        }
    }
}


/// Folds the wire fields of a feed-entity body: field 1 is the entity
/// id (required, not retained), field 3 the trip update, field 4 the
/// vehicle position; other fields are skipped.
pub open spec fn spec_feed_entity_fields(
    s: Seq<u8>,
    i: int,
    has_id: bool,
    tu: Option<TripUpdateV>,
    vp: Option<VehiclePositionV>,
) -> Option<FeedEntityV>
    decreases s.len() - i,
{
    if i == s.len() {
        if has_id {
            Some(FeedEntityV { trip_update: tu, vehicle: vp })
        } else {
            None
        }
    } else {
        match spec_field(s, i) {
            Option::None => Option::None,
            Option::Some((f, j)) => {
                if !(i < j <= s.len()) {
                    Option::None
                } else if f.num == 1 {
                    match f.val {
                        SpecFieldVal::Data { lo, hi } => spec_feed_entity_fields(
                            s,
                            j,
                            true,
                            tu,
                            vp,
                        ),
                        _ => Option::None,
                    }
                } else if f.num == 3 {
                    match f.val {
                        SpecFieldVal::Data { lo, hi } => match spec_trip_update(
                            s.subrange(lo, hi),
                        ) {
                            Option::Some(t) => spec_feed_entity_fields(s, j, has_id, Some(t), vp),
                            Option::None => Option::None,
                        },
                        _ => Option::None,
                    }
                } else if f.num == 4 {
                    match f.val {
                        SpecFieldVal::Data { lo, hi } => match spec_vehicle_position(
                            s.subrange(lo, hi),
                        ) {
                            Option::Some(v) => spec_feed_entity_fields(s, j, has_id, tu, Some(v)),
                            Option::None => Option::None,
                        },
                        _ => Option::None,
                    }
                } else {
                    spec_feed_entity_fields(s, j, has_id, tu, vp)
                }
            },
        }
    }
}

/// The feed entity a byte string decodes to, if well formed.
pub open spec fn spec_feed_entity(s: Seq<u8>) -> Option<FeedEntityV> {
    spec_feed_entity_fields(s, 0, false, None, None)
}

/// Decodes a feed-entity body.
pub fn decode_feed_entity(s: &[u8]) -> (r: Option<FeedEntity>)
    ensures
        r.deep_view() == spec_feed_entity(s@),
{
    let mut has_id: bool = false;
    let mut trip_update: Option<TripUpdate> = None;
    let mut vehicle: Option<VehiclePosition> = None;
    let mut i: usize = 0;
    loop
        invariant
            i <= s@.len(),
            spec_feed_entity(s@) == spec_feed_entity_fields(
                s@,
                i as int,
                has_id,
                trip_update.deep_view(),
                vehicle.deep_view(),
            ),
        decreases s@.len() - i,
    {
        if i == s.len() {
            if has_id {
                return Some(FeedEntity { trip_update, vehicle });
            } else {
                return None;
            }
        }
        match read_field(s, i) {
            None => {
                return None;
            },
            Some((num, val, j)) => {
                if num == 1 {
                    match val {
                        FieldVal::Data(_, _) => {
                            has_id = true;
                        },
                        _ => {
                            return None;
                        },
                    }
                } else if num == 3 {
                    match val {
                        FieldVal::Data(lo, hi) => match decode_trip_update(&s[lo..hi]) {
                            Some(t) => {
                                trip_update = Some(t);
                            },
                            None => {
                                return None;
                            },
                        },
                        _ => {
                            return None;
                        },
                    }
                } else if num == 4 {
                    match val {
                        FieldVal::Data(lo, hi) => match decode_vehicle_position(&s[lo..hi]) {
                            Some(v) => {
                                vehicle = Some(v);
                            },
                            None => {
                                return None;
                            },
                        },
                        _ => {
                            return None;
                        },
                    }
                }
                i = j;
            },
        }
    }
}

/// Folds the wire fields of a feed-header body: field 1 is the format
/// version (required, not retained), field 3 the header timestamp;
/// other fields are skipped. The result is the header timestamp, if
/// one was given.
pub open spec fn spec_feed_header_fields(
    s: Seq<u8>,
    i: int,
    has_version: bool,
    ts: Option<nat>,
) -> Option<Option<nat>>
    decreases s.len() - i,
{
    if i == s.len() {
        if has_version {
            Some(ts)
        } else {
            None
        }
    } else {
        match spec_field(s, i) {
            Option::None => Option::None,
            Option::Some((f, j)) => {
                if !(i < j <= s.len()) {
                    Option::None
                } else if f.num == 1 {
                    match f.val {
                        SpecFieldVal::Data { lo, hi } => spec_feed_header_fields(s, j, true, ts),
                        _ => Option::None,
                    }
                } else if f.num == 3 {
                    match f.val {
                        SpecFieldVal::Int(v) => spec_feed_header_fields(
                            s,
                            j,
                            has_version,
                            Some(v),
                        ),
                        _ => Option::None,
                    }
                } else {
                    spec_feed_header_fields(s, j, has_version, ts)
                }
            },
        }
    }
}

/// The header timestamp a byte string decodes to, if well formed.
pub open spec fn spec_feed_header(s: Seq<u8>) -> Option<Option<nat>> {
    spec_feed_header_fields(s, 0, false, None)
}

/// Decodes a feed-header body to its timestamp.
pub fn decode_feed_header(s: &[u8]) -> (r: Option<Option<u64>>)
    ensures
        match r {
            Option::Some(ts) => spec_feed_header(s@) == Option::Some(
                match ts {
                    Option::Some(v) => Option::Some(v as nat),
                    Option::None => Option::<nat>::None,
                },
            ),
            Option::None => spec_feed_header(s@) is None,
        },
{
    let mut has_version: bool = false;
    let mut ts: Option<u64> = None;
    let mut i: usize = 0;
    loop
        invariant
            i <= s@.len(),
            spec_feed_header(s@) == spec_feed_header_fields(
                s@,
                i as int,
                has_version,
                match ts {
                    Option::Some(v) => Option::Some(v as nat),
                    Option::None => Option::<nat>::None,
                },
            ),
        decreases s@.len() - i,
    {
        if i == s.len() {
            if has_version {
                return Some(ts);
            } else {
                return None;
            }
        }
        match read_field(s, i) {
            None => {
                return None;
            },
            Some((num, val, j)) => {
                if num == 1 {
                    match val {
                        FieldVal::Data(_, _) => {
                            has_version = true;
                        },
                        _ => {
                            return None;
                        },
                    }
                } else if num == 3 {
                    match val {
                        FieldVal::Int(v) => {
                            ts = Some(v);
                        },
                        _ => {
                            return None;
                        },
                    }
                }
                i = j;
            },
        }
    }
}

/// Folds the wire fields of a feed message: field 1 is the header
/// (required), field 2 a repeated entity kept in wire order; other
/// fields are skipped.
pub open spec fn spec_feed_message_fields(
    s: Seq<u8>,
    i: int,
    hdr: Option<Option<nat>>,
    ents: Seq<FeedEntityV>,
) -> Option<FeedMessageV>
    decreases s.len() - i,
{
    if i == s.len() {
        match hdr {
            Option::Some(ts) => Option::Some(FeedMessageV { timestamp: ts, entity: ents }),
            Option::None => Option::None,
        }
    } else {
        match spec_field(s, i) {
            Option::None => Option::None,
            Option::Some((f, j)) => {
                if !(i < j <= s.len()) {
                    Option::None
                } else if f.num == 1 {
                    match f.val {
                        SpecFieldVal::Data { lo, hi } => match spec_feed_header(
                            s.subrange(lo, hi),
                        ) {
                            Option::Some(ts) => spec_feed_message_fields(s, j, Some(ts), ents),
                            Option::None => Option::None,
                        },
                        _ => Option::None,
                    }
                } else if f.num == 2 {
                    match f.val {
                        SpecFieldVal::Data { lo, hi } => match spec_feed_entity(
                            s.subrange(lo, hi),
                        ) {
                            Option::Some(e) => spec_feed_message_fields(
                                s,
                                j,
                                hdr,
                                ents.push(e),
                            ),
                            Option::None => Option::None,
                        },
                        _ => Option::None,
                    }
                } else {
                    spec_feed_message_fields(s, j, hdr, ents)
                }
            },
        }
    }
}

/// The feed message a byte string decodes to, if well formed: a
/// header with its timestamp, and the entities in wire order.
pub open spec fn spec_feed_message(s: Seq<u8>) -> Option<FeedMessageV> {
    spec_feed_message_fields(s, 0, None, Seq::empty())
}

/// Decodes a complete feed message; `None` for a malformed payload.
pub fn decode_feed_message(s: &[u8]) -> (r: Option<FeedMessage>)
    ensures
        r.deep_view() == spec_feed_message(s@),
{
    let mut hdr: Option<Option<u64>> = None;
    let mut entity: Vec<FeedEntity> = Vec::new();
    let mut i: usize = 0;
    proof {
        assert(entity.deep_view() =~= Seq::<FeedEntityV>::empty());
    }
    loop
        invariant
            i <= s@.len(),
            spec_feed_message(s@) == spec_feed_message_fields(
                s@,
                i as int,
                match hdr {
                    Option::Some(ts) => Option::Some(
                        match ts {
                            Option::Some(v) => Option::Some(v as nat),
                            Option::None => Option::<nat>::None,
                        },
                    ),
                    Option::None => Option::None,
                },
                entity.deep_view(),
            ),
        decreases s@.len() - i,
    {
        if i == s.len() {
            return match hdr {
                Some(ts) => Some(FeedMessage { timestamp: ts, entity }),
                None => None,
            };
        }
        match read_field(s, i) {
            None => {
                return None;
            },
            Some((num, val, j)) => {
                if num == 1 {
                    match val {
                        FieldVal::Data(lo, hi) => match decode_feed_header(&s[lo..hi]) {
                            Some(ts) => {
                                hdr = Some(ts);
                            },
                            None => {
                                return None;
                            },
                        },
                        _ => {
                            return None;
                        },
                    }
                } else if num == 2 {
                    match val {
                        FieldVal::Data(lo, hi) => match decode_feed_entity(&s[lo..hi]) {
                            Some(e) => {
                                let ghost prev = entity.deep_view();
                                let ghost ev = e.deep_view();
                                entity.push(e);
                                proof {
                                    assert(entity.deep_view() =~= prev.push(ev));
                                }
                            },
                            None => {
                                return None;
                            },
                        },
                        _ => {
                            return None;
                        },
                    }
                }
                i = j;
            },
        }
    }
}

} // verus!
