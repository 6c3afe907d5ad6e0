//! Render-facing activation records: one per canonical station in
//! every published snapshot.

use vstd::prelude::*;
use crate::entities::Color;
use crate::geo::Coord;

verus! {

/// One station's render state: where it is, what color to draw it,
/// and how large. An inactive station carries the default color and a
/// zero scale.
pub struct StopInstance {
    pub stop_id: Vec<u8>,
    pub coord: Coord,
    pub color: Color,
    /// Display scale in tenths; active stations are drawn at five
    /// tenths, inactive ones at zero.
    pub scale_tenths: u8,
}

/// The mathematical shape of a `StopInstance`.
pub struct StopInstanceV {
    pub stop_id: Seq<u8>,
    pub coord: Coord,
    pub color: Color,
    pub scale_tenths: u8,
}

impl View for StopInstance {
    type V = StopInstanceV;

    open spec fn view(&self) -> StopInstanceV {
        StopInstanceV {
            stop_id: self.stop_id@,
            coord: self.coord,
            color: self.color,
            scale_tenths: self.scale_tenths,
        }
    }
}

impl DeepView for StopInstance {
    type V = StopInstanceV;

    open spec fn deep_view(&self) -> StopInstanceV {
        self.view()
    }
}

/// A station's activation state in one snapshot.
pub enum StopState {
    Inactive(StopInstance),
    Active(StopInstance),
}

/// The mathematical shape of a `StopState`.
pub enum StopStateV {
    Inactive(StopInstanceV),
    Active(StopInstanceV),
}

impl View for StopState {
    type V = StopStateV;

    open spec fn view(&self) -> StopStateV {
        match self {
            StopState::Inactive(i) => StopStateV::Inactive(i@),
            StopState::Active(i) => StopStateV::Active(i@),
        }
    }
}

impl DeepView for StopState {
    type V = StopStateV;

    open spec fn deep_view(&self) -> StopStateV {
        self.view()
    }
}

impl StopStateV {
    pub open spec fn is_active(self) -> bool {
        self is Active
    }

    pub open spec fn instance(self) -> StopInstanceV {
        match self {
            StopStateV::Inactive(i) => i,
            StopStateV::Active(i) => i,
        }
    }
}

impl StopState {
    pub fn is_active(&self) -> (r: bool)
        ensures
            r == self@.is_active(),
    {
        match self {
            StopState::Active(_) => true,
            StopState::Inactive(_) => false,
        }
    }

    /// The bare render instance, the activation flag dropped.
    pub fn instance(self) -> (r: StopInstance)
        ensures
            r@ == self@.instance(),
    {
        match self {
            StopState::Inactive(i) => i,
            StopState::Active(i) => i,
        }
    }
}


impl Default for StopInstance {
    /// The inactive default: origin position, white, zero scale.
    fn default() -> (r: Self)
        ensures
            r@ == (StopInstanceV {
                stop_id: Seq::empty(),
                coord: Coord { x: 0, y: 0 },
                color: Color { r: 255, g: 255, b: 255 },
                scale_tenths: 0,
            }),
    {
        let stop_id: Vec<u8> = Vec::new();
        proof {
            assert(stop_id@ =~= Seq::<u8>::empty());
        }
        StopInstance {
            stop_id,
            coord: Coord { x: 0, y: 0 },
            color: Color { r: 255, g: 255, b: 255 },
            scale_tenths: 0,
        }
    }
}

} // verus!
