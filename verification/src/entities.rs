//! Static schedule entities consumed by the reconciliation engine: the
//! station collection (with parent-station links) and the route
//! collection (with display colors), both loaded once before the worker
//! starts and read-only afterwards.
//!
//! Identifiers are byte strings exactly as they appear in the feed
//! payloads; positions are integer map units (`geo::Coord`).

use vstd::prelude::*;
use crate::geo::Coord;

verus! {

/// A byte string's deep view is its view.
pub broadcast proof fn lemma_bytes_deep_view(v: Vec<u8>)
    ensures
        #[trigger] v.deep_view() == v@,
{
    assert(v.deep_view() =~= v@);
}

/// Byte-string equality, elementwise.
pub fn bytes_eq(a: &[u8], b: &[u8]) -> (r: bool)
    ensures
        r == (a@ == b@),
{
    if a.len() != b.len() {
        return false;
    }
    let mut i: usize = 0;
    while i < a.len()
        invariant
            0 <= i <= a.len(),
            a@.len() == b@.len(),
            forall|j: int| 0 <= j < i ==> a@[j] == b@[j],
        decreases a.len() - i,
    {
        if a[i] != b[i] {
            return false;
        }
        i += 1;
    }
    proof {
        assert(a@ =~= b@);
    }
    true
}

/// A fresh copy of a byte string.
pub fn bytes_clone(v: &[u8]) -> (r: Vec<u8>)
    ensures
        r@ == v@,
{
    let mut r: Vec<u8> = Vec::new();
    let mut i: usize = 0;
    while i < v.len()
        invariant
            0 <= i <= v.len(),
            r@ =~= v@.subrange(0, i as int),
        decreases v.len() - i,
    {
        r.push(v[i]);
        i += 1;
    }
    proof {
        assert(r@ =~= v@);
    }
    r
}

/// A display color as sRGB component bytes, as read from the static
/// route table. Conversion to a linear color space is a concern of the
/// display layer.
#[derive(Clone, Copy, Debug, PartialEq, Eq, Structural)]
pub struct Color {
    pub r: u8,
    pub g: u8,
    pub b: u8,
}

pub open spec fn is_hex_digit(c: u8) -> bool {
    (48 <= c && c <= 57) || (65 <= c && c <= 70) || (97 <= c && c <= 102)
}

pub open spec fn hex_digit_value(c: u8) -> u8 {
    if 48 <= c && c <= 57 {
        (c - 48) as u8
    } else if 65 <= c && c <= 70 {
        (c - 55) as u8
    } else {
        (c - 87) as u8
    }
}

/// The byte written as the two hex digits `hi` `lo`.
pub open spec fn spec_hex_byte(hi: u8, lo: u8) -> u8
    recommends
        is_hex_digit(hi),
        is_hex_digit(lo),
{
    (hex_digit_value(hi) * 16 + hex_digit_value(lo)) as u8
}

fn hex_digit(c: u8) -> (v: u8)
    requires
        is_hex_digit(c),
    ensures
        v == hex_digit_value(c),
        v <= 15,
{
    if 48 <= c && c <= 57 {
        c - 48
    } else if 65 <= c && c <= 70 {
        c - 55
    } else {
        c - 87
    }
}

/// Decodes a six-hex-digit route color; any value of another length
/// falls back to white, mirroring the static-table loader.
pub fn hex_to_srgb(hex: &[u8]) -> (c: Color)
    requires
        hex@.len() == 6 ==> forall|i: int| 0 <= i < 6 ==> is_hex_digit(hex@[i]),
    ensures
        hex@.len() != 6 ==> c == (Color { r: 255, g: 255, b: 255 }),
        hex@.len() == 6 ==> c == (Color {
            r: spec_hex_byte(hex@[0], hex@[1]),
            g: spec_hex_byte(hex@[2], hex@[3]),
            b: spec_hex_byte(hex@[4], hex@[5]),
        }),
{
    if hex.len() != 6 {
        return Color { r: 255, g: 255, b: 255 };
    }
    let r = hex_digit(hex[0]) * 16 + hex_digit(hex[1]);
    let g = hex_digit(hex[2]) * 16 + hex_digit(hex[3]);
    let b = hex_digit(hex[4]) * 16 + hex_digit(hex[5]);
    Color { r, g, b }
}

/// One station (or platform) from the static stop table.
pub struct Stop {
    pub id: Vec<u8>,
    /// The rider-facing parent station, if this stop is a child
    /// platform; a stop with no parent is itself canonical.
    pub parent: Option<Vec<u8>>,
    pub coord: Coord,
}

/// The mathematical shape of a `Stop`.
pub struct StopV {
    pub id: Seq<u8>,
    pub parent: Option<Seq<u8>>,
    pub coord: Coord,
}

impl View for Stop {
    type V = StopV;

    open spec fn view(&self) -> StopV {
        StopV { id: self.id@, parent: self.parent.deep_view(), coord: self.coord }
    }
}

impl DeepView for Stop {
    type V = StopV;

    open spec fn deep_view(&self) -> StopV {
        self.view()
    }
}

/// One route from the static route table.
pub struct Route {
    pub id: Vec<u8>,
    pub color: Color,
}

/// The mathematical shape of a `Route`.
pub struct RouteV {
    pub id: Seq<u8>,
    pub color: Color,
}

impl View for Route {
    type V = RouteV;

    open spec fn view(&self) -> RouteV {
        RouteV { id: self.id@, color: self.color }
    }
}

impl DeepView for Route {
    type V = RouteV;

    open spec fn deep_view(&self) -> RouteV {
        self.view()
    }
}

impl Route {
    pub fn color(&self) -> (c: Color)
        ensures
            c == self.color,
    {
        self.color
    }
}

/// A read-only collection of static entities, looked up by identifier.
pub struct EntityCollection<T> {
    pub collection: T,
}

/// The first stop whose id equals `id`, scanning front to back.
pub open spec fn spec_find_stop(rows: Seq<StopV>, id: Seq<u8>) -> Option<StopV>
    decreases rows.len(),
{
    if rows.len() == 0 {
        None
    } else if rows[0].id == id {
        Some(rows[0])
    } else {
        spec_find_stop(rows.drop_first(), id)
    }
}

/// The canonical station id a raw stop id resolves to: the stop's
/// parent station if it has one, else the stop itself; `None` when the
/// raw id is absent from the collection (a non-public stop).
pub open spec fn spec_resolve(rows: Seq<StopV>, raw: Seq<u8>) -> Option<Seq<u8>> {
    match spec_find_stop(rows, raw) {
        Option::None => Option::None,
        Option::Some(st) => match st.parent {
            Option::Some(p) => Option::Some(p),
            Option::None => Option::Some(st.id),
        },
    }
}

/// The ids of the canonical (parent-level) stations, in table order.
pub open spec fn spec_parent_ids(rows: Seq<StopV>) -> Seq<Seq<u8>>
    decreases rows.len(),
{
    if rows.len() == 0 {
        Seq::empty()
    } else {
        let rest = spec_parent_ids(rows.drop_first());
        if rows[0].parent is None {
            seq![rows[0].id] + rest
        } else {
            rest
        }
    }
}

proof fn lemma_find_stop_skip(rows: Seq<StopV>, id: Seq<u8>, i: int)
    requires
        0 <= i <= rows.len(),
        forall|j: int| 0 <= j < i ==> rows[j].id != id,
    ensures
        spec_find_stop(rows, id) == spec_find_stop(rows.skip(i), id),
    decreases i,
{
    if i > 0 {
        assert(rows[0].id != id);
        lemma_find_stop_skip(rows.drop_first(), id, i - 1);
        assert(rows.drop_first().skip(i - 1) =~= rows.skip(i));
    } else {
        assert(rows.skip(0) =~= rows);
    }
}

impl EntityCollection<Vec<Stop>> {
    /// The stops as a sequence of their mathematical shapes.
    pub open spec fn rows(self) -> Seq<StopV> {
        self.collection.deep_view()
    }

    /// No two stops share an id.
    pub open spec fn wf(self) -> bool {
        forall|i: int, j: int|
            0 <= i < j < self.rows().len() ==> self.rows()[i].id != self.rows()[j].id
    }

    pub fn new() -> (r: Self)
        ensures
            r.wf(),
            r.rows() =~= Seq::<StopV>::empty(),
    {
        EntityCollection { collection: Vec::new() }
    }

    /// Adds a stop; the id must not be present yet.
    pub fn insert(&mut self, stop: Stop)
        requires
            old(self).wf(),
            forall|i: int| 0 <= i < old(self).rows().len() ==> old(self).rows()[i].id != stop@.id,
        ensures
            final(self).wf(),
            final(self).rows() =~= old(self).rows() + seq![stop@],
    {
        self.collection.push(stop);
    }

    /// Looks a stop up by its raw id.
    pub fn get(&self, id: &[u8]) -> (r: Option<&Stop>)
        ensures
            match r {
                Option::Some(st) => spec_find_stop(self.rows(), id@) == Option::Some(st@),
                Option::None => spec_find_stop(self.rows(), id@) is None,
            },
    {
        let mut i: usize = 0;
        while i < self.collection.len()
            invariant
                0 <= i <= self.collection@.len(),
                forall|j: int| 0 <= j < i ==> self.rows()[j].id != id@,
            decreases self.collection@.len() - i,
        {
            let hit = bytes_eq(self.collection[i].id.as_slice(), id);
            proof {
                assert(self.rows()[i as int] == self.collection@[i as int].deep_view());
            }
            if hit {
                proof {
                    lemma_find_stop_skip(self.rows(), id@, i as int);
                    assert(self.rows().skip(i as int)[0] == self.rows()[i as int]);
                }
                return Some(&self.collection[i]);
            }
            i += 1;
        }
        proof {
            lemma_find_stop_skip(self.rows(), id@, self.rows().len() as int);
        }
        None
    }

    /// Resolves a raw stop id to its canonical station id, or `None`
    /// for a non-public stop unknown to the static table.
    pub fn resolve(&self, raw: &[u8]) -> (r: Option<Vec<u8>>)
        ensures
            r.deep_view() == spec_resolve(self.rows(), raw@),
    {
        match self.get(raw) {
            None => None,
            Some(stop) => match &stop.parent {
                Some(p) => Some(bytes_clone(p.as_slice())),
                None => Some(bytes_clone(stop.id.as_slice())),
            },
        }
    }

    /// The ids of all canonical (parent-level) stations, in table
    /// order.
    pub fn canonical_ids(&self) -> (r: Vec<Vec<u8>>)
        ensures
            r.deep_view() == spec_parent_ids(self.rows()),
    {
        let mut r: Vec<Vec<u8>> = Vec::new();
        let mut i: usize = 0;
        proof {
            assert(self.rows().skip(0) =~= self.rows());
        }
        while i < self.collection.len()
            invariant
                0 <= i <= self.collection@.len(),
                r.deep_view() + spec_parent_ids(self.rows().skip(i as int)) =~~= spec_parent_ids(
                    self.rows(),
                ),
            decreases self.collection@.len() - i,
        {
            proof {
                assert(self.rows()[i as int] == self.collection@[i as int].deep_view());
                assert(self.rows().skip(i as int).drop_first() =~= self.rows().skip(i + 1));
                assert(self.rows().skip(i as int)[0] == self.rows()[i as int]);
            }
            let ghost prev = r.deep_view();
            if self.collection[i].parent.is_none() {
                let cloned = bytes_clone(self.collection[i].id.as_slice());
                r.push(cloned);
                proof {
                    assert(r.deep_view() =~~= prev + seq![self.rows()[i as int].id]);
                }
            }
            i += 1;
        }
        proof {
            assert(self.rows().skip(self.collection@.len() as int) =~= Seq::<StopV>::empty());
            assert(r.deep_view() =~~= spec_parent_ids(self.rows()));
        }
        r
    }
}

/// The first route whose id equals `id`, scanning front to back.
pub open spec fn spec_find_route(rows: Seq<RouteV>, id: Seq<u8>) -> Option<RouteV>
    decreases rows.len(),
{
    if rows.len() == 0 {
        None
    } else if rows[0].id == id {
        Some(rows[0])
    } else {
        spec_find_route(rows.drop_first(), id)
    }
}

proof fn lemma_find_route_skip(rows: Seq<RouteV>, id: Seq<u8>, i: int)
    requires
        0 <= i <= rows.len(),
        forall|j: int| 0 <= j < i ==> rows[j].id != id,
    ensures
        spec_find_route(rows, id) == spec_find_route(rows.skip(i), id),
    decreases i,
{
    if i > 0 {
        assert(rows[0].id != id);
        lemma_find_route_skip(rows.drop_first(), id, i - 1);
        assert(rows.drop_first().skip(i - 1) =~= rows.skip(i));
    } else {
        assert(rows.skip(0) =~= rows);
    }
}

impl EntityCollection<Vec<Route>> {
    /// The routes as a sequence of their mathematical shapes.
    pub open spec fn rows(self) -> Seq<RouteV> {
        self.collection.deep_view()
    }

    /// No two routes share an id.
    pub open spec fn wf(self) -> bool {
        forall|i: int, j: int|
            0 <= i < j < self.rows().len() ==> self.rows()[i].id != self.rows()[j].id
    }

    pub fn new() -> (r: Self)
        ensures
            r.wf(),
            r.rows() =~= Seq::<RouteV>::empty(),
    {
        EntityCollection { collection: Vec::new() }
    }

    /// Adds a route; the id must not be present yet.
    pub fn insert(&mut self, route: Route)
        requires
            old(self).wf(),
            forall|i: int|
                0 <= i < old(self).rows().len() ==> old(self).rows()[i].id != route@.id,
        ensures
            final(self).wf(),
            final(self).rows() =~= old(self).rows() + seq![route@],
    {
        self.collection.push(route);
    }

    /// Looks a route up by its id.
    pub fn get(&self, id: &[u8]) -> (r: Option<&Route>)
        ensures
            match r {
                Option::Some(rt) => spec_find_route(self.rows(), id@) == Option::Some(rt@),
                Option::None => spec_find_route(self.rows(), id@) is None,
            },
    {
        let mut i: usize = 0;
        while i < self.collection.len()
            invariant
                0 <= i <= self.collection@.len(),
                forall|j: int| 0 <= j < i ==> self.rows()[j].id != id@,
            decreases self.collection@.len() - i,
        {
            let hit = bytes_eq(self.collection[i].id.as_slice(), id);
            proof {
                assert(self.rows()[i as int] == self.collection@[i as int].deep_view());
            }
            if hit {
                proof {
                    lemma_find_route_skip(self.rows(), id@, i as int);
                    assert(self.rows().skip(i as int)[0] == self.rows()[i as int]);
                }
                return Some(&self.collection[i]);
            }
            i += 1;
        }
        proof {
            lemma_find_route_skip(self.rows(), id@, self.rows().len() as int);
        }
        None
    }
}

} // verus!
