//! The persisted site document model: anchors, doors, levels, lifts.
//!
//! Coordinates and elevations are millimeters, angles are microradians, both
//! held in `i64`. Door split ratios are thousandths. Every magnitude is kept
//! inside `MAX_COORD_MM` / `MAX_ANGLE_URAD` so that the geometric projection
//! in `sdf` stays free of overflow.

use vstd::prelude::*;

use crate::ids::IdMap;
use crate::Side;

verus! {

/// Largest coordinate magnitude a well-formed document may hold, millimeters.
pub const MAX_COORD_MM: i64 = 1_000_000_000;

/// Largest angle magnitude a well-formed document may hold, microradians.
pub const MAX_ANGLE_URAD: i64 = 1_000_000_000;

/// A named 2D point that doors, lifts and locations refer to. Millimeters.
#[derive(Clone, Copy, Debug, PartialEq, Eq, Structural)]
pub struct Anchor {
    pub x: i64,
    pub y: i64,
}

impl Anchor {
    pub open spec fn wf(&self) -> bool {
        -MAX_COORD_MM <= self.x <= MAX_COORD_MM && -MAX_COORD_MM <= self.y <= MAX_COORD_MM
    }
}

/// An angle in microradians.
#[derive(Clone, Copy, Debug, PartialEq, Eq, Structural)]
pub struct Angle(pub i64);

impl Angle {
    pub open spec fn wf(&self) -> bool {
        -MAX_ANGLE_URAD <= self.0 <= MAX_ANGLE_URAD
    }

    pub open spec fn abs_spec(&self) -> int {
        if self.0 >= 0 {
            self.0 as int
        } else {
            -(self.0 as int)
        }
    }

    /// The magnitude of the angle, microradians.
    pub fn abs(&self) -> (r: i64)
        requires
            self.wf(),
        ensures
            r == self.abs_spec(),
    {
        if self.0 >= 0 {
            self.0
        } else {
            -self.0
        }
    }
}

/// An orientation as persisted in a document.
#[derive(Clone, Copy, Debug, PartialEq, Eq, Structural)]
pub enum Rotation {
    /// A rotation about the vertical axis.
    Yaw(Angle),
    /// Roll, pitch, yaw applied about the fixed frame axes.
    EulerExtrinsicXYZ(Angle, Angle, Angle),
    /// A quaternion, components in millionths.
    Quat(i64, i64, i64, i64),
}

/// A position and orientation. Translation in millimeters.
#[derive(Clone, Copy, Debug, PartialEq, Eq, Structural)]
pub struct Pose {
    pub x: i64,
    pub y: i64,
    pub z: i64,
    pub rot: Rotation,
}

impl Pose {
    pub open spec fn wf(&self) -> bool {
        -MAX_COORD_MM <= self.x <= MAX_COORD_MM && -MAX_COORD_MM <= self.y <= MAX_COORD_MM
            && -MAX_COORD_MM <= self.z <= MAX_COORD_MM
    }

    /// The identity pose.
    pub fn origin() -> (r: Pose)
        ensures
            r == Pose::origin_spec(),
    {
        Pose { x: 0, y: 0, z: 0, rot: Rotation::Yaw(Angle(0)) }
    }

    pub open spec fn origin_spec() -> Pose {
        Pose { x: 0, y: 0, z: 0, rot: Rotation::Yaw(Angle(0)) }
    }
}

/// A display name carried by a persisted entity.
#[derive(Clone, Debug)]
pub struct NameInSite(pub String);

/// How far and which way a swing door opens.
#[derive(Clone, Copy, Debug, PartialEq, Eq, Structural)]
pub enum Swing {
    Forward(Angle),
    Backward(Angle),
    Both { forward: Angle, backward: Angle },
}

impl Swing {
    pub open spec fn wf(&self) -> bool {
        match self {
            Swing::Forward(a) => a.wf(),
            Swing::Backward(a) => a.wf(),
            Swing::Both { forward, backward } => forward.wf() && backward.wf(),
        }
    }
}

/// The kind of a door and its kind-specific motion description.
#[derive(Clone, Copy, Debug, PartialEq, Eq, Structural)]
pub enum DoorType {
    SingleSliding {
        /// Which side the single panel slides toward.
        towards: Side,
    },
    SingleSwing {
        /// Which anchor the panel pivots on.
        pivot_on: Side,
        swing: Swing,
    },
    DoubleSliding {
        /// Left panel length over right panel length, in thousandths.
        left_right_ratio_milli: u32,
    },
    DoubleSwing {
        swing: Swing,
    },
    /// An opaque, model-backed door with no defined motion.
    Model,
}

impl DoorType {
    pub open spec fn wf(&self) -> bool {
        match self {
            DoorType::SingleSwing { pivot_on, swing } => swing.wf(),
            DoorType::DoubleSwing { swing } => swing.wf(),
            DoorType::DoubleSliding { left_right_ratio_milli } => 1 <= *left_right_ratio_milli
                <= 1_000_000,
            _ => true,
        }
    }
}

/// A pair of anchor IDs: the left one and the right one.
#[derive(Clone, Copy, Debug, PartialEq, Eq, Structural)]
pub struct AnchorPair {
    pub left: u32,
    pub right: u32,
}

/// A named opening referencing exactly two anchors: left then right.
#[derive(Clone, Debug)]
pub struct Door {
    pub anchors: AnchorPair,
    pub name: NameInSite,
    pub kind: DoorType,
}

/// The named, elevation-tagged properties of a level. Elevation in millimeters.
#[derive(Clone, Debug)]
pub struct LevelProperties {
    pub name: NameInSite,
    pub elevation: i64,
}

/// A level: its properties and the anchors and doors it owns.
pub struct Level {
    pub properties: LevelProperties,
    pub anchors: IdMap<Anchor>,
    pub doors: IdMap<Door>,
}

/// A lift's rectangular cabin footprint, relative to the midpoint of the
/// reference anchors. Millimeters.
#[derive(Clone, Copy, Debug, PartialEq, Eq, Structural)]
pub struct RectCabin {
    pub width: i64,
    pub depth: i64,
    /// Gap between the reference line and the cabin front.
    pub gap: i64,
    /// Lateral shift of the cabin along the reference line.
    pub shift: i64,
}

impl RectCabin {
    pub open spec fn wf(&self) -> bool {
        0 <= self.width <= MAX_COORD_MM && 0 <= self.depth <= MAX_COORD_MM
            && -MAX_COORD_MM <= self.gap <= MAX_COORD_MM && -MAX_COORD_MM <= self.shift
            <= MAX_COORD_MM
    }

    pub open spec fn center_offset_spec(&self) -> (int, int) {
        (-(self.depth as int / 2 + self.gap), self.shift as int)
    }

    /// The cabin center relative to the reference-anchor midpoint.
    pub fn center_offset(&self) -> (r: (i64, i64))
        requires
            self.wf(),
        ensures
            (r.0 as int, r.1 as int) == self.center_offset_spec(),
    {
        (-(self.depth / 2 + self.gap), self.shift)
    }
}

/// The cabin geometry of a lift.
#[derive(Clone, Copy, Debug, PartialEq, Eq, Structural)]
pub enum LiftCabin {
    Rect(RectCabin),
}

/// A lift's cabin door: its kind, its anchor pair among the cabin anchors,
/// and the IDs of the levels it visits.
#[derive(Clone, Debug)]
pub struct LiftCabinDoor {
    pub kind: DoorType,
    /// Left and right cabin-anchor ID.
    pub reference_anchors: AnchorPair,
    /// IDs of levels this door opens on.
    pub visits: Vec<u32>,
}

/// A lift's own properties.
#[derive(Clone, Debug)]
pub struct LiftProperties {
    pub name: NameInSite,
    /// Left and right anchor ID defining the shaft footprint.
    pub reference_anchors: AnchorPair,
    pub cabin: LiftCabin,
    pub is_static: bool,
    /// ID of the level the cabin starts on.
    pub initial_level: Option<u32>,
}

/// A lift: its properties, its cabin-local anchors and its cabin doors.
pub struct Lift {
    pub properties: LiftProperties,
    pub cabin_anchors: IdMap<Anchor>,
    pub cabin_doors: IdMap<LiftCabinDoor>,
}

/// A site's own properties.
#[derive(Clone, Debug)]
pub struct SiteProperties {
    pub name: NameInSite,
}

/// The root persisted site document.
pub struct Site {
    pub properties: SiteProperties,
    pub anchors: IdMap<Anchor>,
    pub levels: IdMap<Level>,
    pub lifts: IdMap<Lift>,
}

} // verus!
