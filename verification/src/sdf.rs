//! Projection of a site into a simulator world description.
//!
//! The exported tree is held in the library's own types: poses and limits in
//! fixed point (millimeters, microradians, thousandths for unit axes), the
//! plugin descriptors as typed structures. The application shell renders
//! this tree into the simulator's text format.
//!
//! A door stands between two anchors: its center is their midpoint, its
//! length their distance, and its heading is perpendicular to the line
//! between them. Each door kind contributes its own joints and motion
//! parameters; a lift contributes one cabin door and one shaft door per
//! visited level, plus a controller descriptor enumerating the pairs.

use vstd::prelude::*;
use vstd::string::StringExecFns;

use crate::ids::get_of;
use crate::numfmt::{dec_digits, u32_to_dec};
use crate::site::{
    Anchor, Angle, Door, DoorType, Level, Lift, LiftCabin, LiftCabinDoor, NameInSite, Pose,
    Rotation, Site, Swing, MAX_COORD_MM,
};
use crate::Side;

verus! {

/// Why a site could not be projected into a world description.
#[derive(Clone, Copy, Debug, PartialEq, Eq, Structural)]
pub enum SdfConversionError {
    /// An asset with no defined conversion was found.
    UnsupportedAssetType,
    /// An entity referenced a non-existing anchor.
    BrokenAnchorReference(u32),
    /// An entity referenced a non-existing level.
    BrokenLevelReference(u32),
    /// A lift does not name an initial level.
    MissingInitialLevel,
}

/// An orientation in the exported tree.
#[derive(Clone, Copy, Debug, PartialEq, Eq, Structural)]
pub enum SdfRot {
    /// An orientation taken from a document pose.
    Given(Rotation),
    /// A yaw perpendicular to the direction `(dx, dy)`: the heading of a
    /// door whose anchors are that far apart.
    Heading { dx: i64, dy: i64 },
}

/// A position and orientation in the exported tree. Millimeters.
#[derive(Clone, Copy, Debug, PartialEq, Eq, Structural)]
pub struct SdfPose {
    pub x: i64,
    pub y: i64,
    pub z: i64,
    pub rot: SdfRot,
}

#[derive(Clone, Copy, Debug, PartialEq, Eq, Structural)]
pub enum JointType {
    Prismatic,
    Revolute,
    Fixed,
}

/// A joint axis with its travel limits. Axis components in thousandths;
/// limits in millimeters for prismatic joints and microradians for
/// revolute ones.
#[derive(Clone, Copy, Debug, PartialEq, Eq, Structural)]
pub struct JointAxis {
    pub x: i64,
    pub y: i64,
    pub z: i64,
    pub lower: i64,
    pub upper: i64,
}

/// A joint of an exported model.
#[derive(Clone, Debug)]
pub struct SdfJoint {
    pub name: String,
    pub parent: String,
    pub child: String,
    pub jtype: JointType,
    pub pose: Option<SdfPose>,
    pub axis: Option<JointAxis>,
}

/// A collision element referencing a mesh by URI.
#[derive(Clone, Debug)]
pub struct SdfCollision {
    pub name: String,
    pub mesh_uri: String,
    pub collide_bitmask: Option<String>,
}

/// A visual element referencing a mesh by URI.
#[derive(Clone, Debug)]
pub struct SdfVisual {
    pub name: String,
    pub mesh_uri: String,
}

/// Inertial properties: mass in grams, moments in thousandths.
#[derive(Clone, Copy, Debug, PartialEq, Eq, Structural)]
pub struct SdfInertial {
    pub mass_g: i64,
    pub ixx_m: i64,
    pub iyy_m: i64,
    pub izz_m: i64,
}

/// A link of an exported model.
#[derive(Clone, Debug)]
pub struct SdfLink {
    pub name: String,
    pub collisions: Vec<SdfCollision>,
    pub visuals: Vec<SdfVisual>,
    pub inertial: Option<SdfInertial>,
}

/// One named motion parameter of a controller descriptor.
#[derive(Clone, Debug)]
pub struct SdfParam {
    pub name: String,
    pub value: String,
}

/// The door-controller descriptor attached to a door model.
#[derive(Clone, Debug)]
pub struct DoorPluginData {
    pub door_name: String,
    pub door_type: String,
    pub left_joint_name: String,
    pub right_joint_name: String,
    pub params: Vec<SdfParam>,
}

/// A cabin-door / shaft-door pair a lift serves on one level.
#[derive(Clone, Debug)]
pub struct DoorPair {
    pub cabin_door: String,
    pub shaft_door: String,
}

/// One level a lift serves, with its door pairs.
#[derive(Clone, Debug)]
pub struct FloorDescriptor {
    /// The ID of the level this floor describes.
    pub level_id: u32,
    pub name: String,
    pub elevation_mm: i64,
    pub door_pairs: Vec<DoorPair>,
}

/// The lift-controller descriptor attached to a lift model.
#[derive(Clone, Debug)]
pub struct LiftPluginData {
    pub lift_name: String,
    pub initial_level: String,
    pub params: Vec<SdfParam>,
    pub floors: Vec<FloorDescriptor>,
}

/// A plugin of a model or of the world.
#[derive(Clone, Debug)]
pub enum SdfPlugin {
    Door(DoorPluginData),
    Lift(LiftPluginData),
    Named { name: String, filename: String },
}

/// A model of the exported world.
#[derive(Clone, Debug)]
pub struct SdfModel {
    pub name: String,
    pub is_static: Option<bool>,
    pub pose: Option<SdfPose>,
    pub links: Vec<SdfLink>,
    pub joints: Vec<SdfJoint>,
    pub plugins: Vec<SdfPlugin>,
}

/// The one fixed directional light of an exported world.
#[derive(Clone, Debug)]
pub struct SdfLight {
    pub name: String,
    pub cast_shadows: bool,
}

/// An exported world.
#[derive(Clone, Debug)]
pub struct SdfWorld {
    pub name: String,
    pub models: Vec<SdfModel>,
    pub lights: Vec<SdfLight>,
    pub plugins: Vec<SdfPlugin>,
}

/// The root of an exported world description.
#[derive(Clone, Debug)]
pub struct SdfRoot {
    pub version: String,
    pub worlds: Vec<SdfWorld>,
}

/// The square of a number.
pub open spec fn sq(x: int) -> int {
    x * x
}

/// `r` is the integer square root of `x`, rounded down.
pub open spec fn is_isqrt(x: int, r: int) -> bool {
    r >= 0 && sq(r) <= x < sq(r + 1)
}

/// The integer square root is unique.
pub proof fn lemma_isqrt_unique(x: int, a: int, b: int)
    requires
        is_isqrt(x, a),
        is_isqrt(x, b),
    ensures
        a == b,
{
    if a < b {
        assert(sq(a + 1) <= sq(b)) by (nonlinear_arith)
            requires
                0 <= a + 1 <= b,
        ;
    }
    if b < a {
        assert(sq(b + 1) <= sq(a)) by (nonlinear_arith)
            requires
                0 <= b + 1 <= a,
        ;
    }
}

/// The integer square root of `x`, rounded down.
pub fn isqrt64(x: u64) -> (r: u64)
    requires
        x <= 0x7FFF_FFFF_FFFF_FFFF,
    ensures
        is_isqrt(x as int, r as int),
{
    let mut lo: u64 = 0;
    let mut hi: u64 = 3_037_000_500;
    proof {
        assert(sq(3_037_000_500) > 0x7FFF_FFFF_FFFF_FFFF) by (nonlinear_arith);
    }
    while lo + 1 < hi
        invariant
            0 <= lo < hi <= 3_037_000_500,
            sq(lo as int) <= x as int,
            (x as int) < sq(hi as int),
        decreases hi - lo,
    {
        let mid = lo + (hi - lo) / 2;
        proof {
            assert(mid * mid <= 3_037_000_500u64 * 3_037_000_500u64) by (nonlinear_arith)
                requires
                    0 <= mid <= 3_037_000_500u64,
            ;
        }
        let m2 = mid * mid;
        if m2 <= x {
            lo = mid;
        } else {
            hi = mid;
        }
    }
    lo
}

/// The distance between two anchors, rounded down to whole millimeters.
pub open spec fn spec_distance(l: Anchor, r: Anchor) -> int {
    choose|d: int| #[trigger] is_isqrt(sq(l.x - r.x) + sq(l.y - r.y), d)
}

/// The distance between two anchors, rounded down to whole millimeters.
pub fn anchor_distance(l: &Anchor, r: &Anchor) -> (d: i64)
    requires
        l.wf(),
        r.wf(),
    ensures
        is_isqrt(sq(l.x - r.x) + sq(l.y - r.y), d as int),
        d == spec_distance(*l, *r),
        0 <= d <= 3_000_000_000i64,
{
    let dx = l.x - r.x;
    let dy = l.y - r.y;
    proof {
        assert(sq(dx as int) + sq(dy as int) <= 0x7FFF_FFFF_FFFF_FFFF) by (nonlinear_arith)
            requires
                -2_000_000_000 <= dx <= 2_000_000_000,
                -2_000_000_000 <= dy <= 2_000_000_000,
        ;
        assert(sq(dx as int) >= 0) by (nonlinear_arith);
        assert(sq(dy as int) >= 0) by (nonlinear_arith);
    }
    let x2 = (dx * dx) as u64;
    let y2 = (dy * dy) as u64;
    let d = isqrt64(x2 + y2);
    proof {
        assert(is_isqrt(sq(l.x - r.x) + sq(l.y - r.y), d as int));
        lemma_isqrt_unique(
            sq(l.x - r.x) + sq(l.y - r.y),
            d as int,
            spec_distance(*l, *r),
        );
        assert(d as int <= 3_000_000_000) by {
            if d as int > 3_000_000_000 {
                assert(sq(d as int) >= sq(3_000_000_001)) by (nonlinear_arith)
                    requires
                        d as int >= 3_000_000_001,
                ;
                assert(sq(3_000_000_001) > sq(l.x - r.x) + sq(l.y - r.y)) by (nonlinear_arith)
                    requires
                        -2_000_000_000 <= l.x - r.x <= 2_000_000_000,
                        -2_000_000_000 <= l.y - r.y <= 2_000_000_000,
                ;
            }
        }
    }
    d as i64
}


impl Pose {
    /// The exported pose: the translation lifted by `elevation`, the
    /// rotation carried over.
    pub fn to_sdf(&self, elevation: i64) -> (r: SdfPose)
        requires
            self.wf(),
            -MAX_COORD_MM <= elevation <= MAX_COORD_MM,
        ensures
            r.x == self.x,
            r.y == self.y,
            r.z == self.z + elevation,
            r.rot == SdfRot::Given(self.rot),
    {
        SdfPose { x: self.x, y: self.y, z: self.z + elevation, rot: SdfRot::Given(self.rot) }
    }
}

/// The mesh URI of a door link, `meshes/<door>_<label>.glb`.
pub open spec fn door_mesh_uri(door_name: Seq<char>, label: Seq<char>) -> Seq<char> {
    "meshes/"@ + door_name + "_"@ + label + ".glb"@
}

/// A door link as the export emits it: one collision and one visual, both
/// referencing the door's mesh by convention, and the fixed door inertia.
pub open spec fn door_link_matches(l: SdfLink, door_name: Seq<char>, label: Seq<char>) -> bool {
    &&& l.name@ == label
    &&& l.collisions@.len() == 1
    &&& l.collisions@[0].name@ == label + "_collision"@
    &&& l.collisions@[0].mesh_uri@ == door_mesh_uri(door_name, label)
    &&& match l.collisions@[0].collide_bitmask {
        Some(b) => b@ == "0x02"@,
        None => false,
    }
    &&& l.visuals@.len() == 1
    &&& l.visuals@[0].name@ == label + "_visual"@
    &&& l.visuals@[0].mesh_uri@ == door_mesh_uri(door_name, label)
    &&& l.inertial == Some(SdfInertial { mass_g: 50_000, ixx_m: 20_000, iyy_m: 20_000, izz_m: 5_000 })
}

/// One link of a door model: a collision and a visual referencing
/// `meshes/<door>_<label>.glb`, with the fixed door inertia.
pub fn make_sdf_door_link(door_name: &str, link_name: &str) -> (r: SdfLink)
    ensures
        door_link_matches(r, door_name@, link_name@),
{
    let uri = String::from_str("meshes/").concat(door_name).concat("_").concat(link_name).concat(
        ".glb",
    );
    SdfLink {
        name: String::from_str(link_name),
        collisions: vec![
            SdfCollision {
                name: String::from_str(link_name).concat("_collision"),
                mesh_uri: uri.clone(),
                collide_bitmask: Some(String::from_str("0x02")),
            },
        ],
        visuals: vec![
            SdfVisual {
                name: String::from_str(link_name).concat("_visual"),
                mesh_uri: uri,
            },
        ],
        inertial: Some(SdfInertial { mass_g: 50_000, ixx_m: 20_000, iyy_m: 20_000, izz_m: 5_000 }),
    }
}

/// The opening magnitude and axis sign of a swing, given the pivot side:
/// the travel limit is the swing angle's magnitude, and a backward swing
/// flips the axis.
pub open spec fn swing_params(s: Swing, side: int) -> (int, int) {
    match s {
        Swing::Forward(a) => (a.abs_spec(), side),
        Swing::Backward(a) => (a.abs_spec(), -side),
        Swing::Both { forward, backward } => (forward.abs_spec(), side),
    }
}

/// A joint pose on the door's axis: centered, at panel height, offset `y`
/// along the opening.
pub open spec fn joint_pose_at(p: Option<SdfPose>, y: int) -> bool {
    match p {
        Some(sp) => sp.x == 0 && sp.y == y && sp.z == 1250 && sp.rot == SdfRot::Given(
            Rotation::Yaw(Angle(0)),
        ),
        None => false,
    }
}

pub open spec fn axis_matches(
    a: Option<JointAxis>,
    x: int,
    y: int,
    z: int,
    lower: int,
    upper: int,
) -> bool {
    match a {
        Some(ax) => ax.x == x && ax.y == y && ax.z == z && ax.lower == lower && ax.upper == upper,
        None => false,
    }
}

pub open spec fn joint_heads(j: SdfJoint, name: Seq<char>, child: Seq<char>, t: JointType) -> bool {
    j.name@ == name && j.parent@ == "world"@ && j.child@ == child && j.jtype == t
}

/// The length of the left panel of a double sliding door, split by the
/// configured ratio.
pub open spec fn left_panel_len(len: int, ratio_milli: int) -> int {
    (len * ratio_milli) / (ratio_milli + 1000)
}

/// The joints a door of the given kind and length carries.
pub open spec fn door_joints_match(kind: DoorType, len: int, js: Seq<SdfJoint>) -> bool {
    match kind {
        DoorType::SingleSliding { towards } => {
            let sign = towards.sign_spec();
            &&& js.len() == 1
            &&& joint_heads(js[0], "joint"@, "body"@, JointType::Prismatic)
            &&& joint_pose_at(js[0].pose, sign * (len / 2))
            &&& axis_matches(js[0].axis, 0, sign * 1000, 0, 0, len)
        },
        DoorType::SingleSwing { pivot_on, swing } => {
            let side = pivot_on.sign_spec();
            let open = swing_params(swing, side).0;
            let z = swing_params(swing, side).1;
            &&& js.len() == 1
            &&& joint_heads(js[0], "joint"@, "body"@, JointType::Revolute)
            &&& joint_pose_at(js[0].pose, side * (len / 2))
            &&& axis_matches(js[0].axis, 0, 0, z * 1000, 0, open)
        },
        DoorType::DoubleSliding { left_right_ratio_milli } => {
            let left_len = left_panel_len(len, left_right_ratio_milli as int);
            let right_len = len - left_len;
            &&& js.len() == 2
            &&& joint_heads(js[0], "right_joint"@, "right"@, JointType::Prismatic)
            &&& joint_pose_at(js[0].pose, -(len / 2))
            &&& axis_matches(js[0].axis, 0, -1000, 0, 0, right_len)
            &&& joint_heads(js[1], "left_joint"@, "left"@, JointType::Prismatic)
            &&& joint_pose_at(js[1].pose, len / 2)
            &&& axis_matches(js[1].axis, 0, -1000, 0, -left_len, 0)
        },
        DoorType::DoubleSwing { swing } => {
            let open = swing_params(swing, -1).0;
            let z = swing_params(swing, -1).1;
            &&& js.len() == 2
            &&& joint_heads(js[0], "right_joint"@, "right"@, JointType::Revolute)
            &&& joint_pose_at(js[0].pose, -(len / 2))
            &&& axis_matches(js[0].axis, 0, 0, z * 1000, 0, open)
            &&& joint_heads(js[1], "left_joint"@, "left"@, JointType::Revolute)
            &&& joint_pose_at(js[1].pose, len / 2)
            &&& axis_matches(js[1].axis, 0, 0, z * 1000, -open, 0)
        },
        DoorType::Model => {
            &&& js.len() == 1
            &&& joint_heads(js[0], "joint"@, "body"@, JointType::Fixed)
            &&& joint_pose_at(js[0].pose, len / 2)
            &&& js[0].axis is None
        },
    }
}

/// The links a door of the given kind carries: one body panel, or a right
/// and a left panel.
pub open spec fn door_links_match(kind: DoorType, links: Seq<SdfLink>, door_name: Seq<char>) -> bool {
    match kind {
        DoorType::DoubleSliding { left_right_ratio_milli } => {
            &&& links.len() == 2
            &&& door_link_matches(links[0], door_name, "right"@)
            &&& door_link_matches(links[1], door_name, "left"@)
        },
        DoorType::DoubleSwing { swing } => {
            &&& links.len() == 2
            &&& door_link_matches(links[0], door_name, "right"@)
            &&& door_link_matches(links[1], door_name, "left"@)
        },
        _ => {
            &&& links.len() == 1
            &&& door_link_matches(links[0], door_name, "body"@)
        },
    }
}

/// The controller type name of a door kind.
pub open spec fn door_type_name(kind: DoorType) -> Seq<char> {
    match kind {
        DoorType::SingleSliding { towards } => "SlidingDoor"@,
        DoorType::SingleSwing { pivot_on, swing } => "SwingDoor"@,
        DoorType::DoubleSliding { left_right_ratio_milli } => "DoubleSlidingDoor"@,
        DoorType::DoubleSwing { swing } => "DoubleSwingDoor"@,
        DoorType::Model => Seq::empty(),
    }
}

/// The controller joint names of a door kind, left then right.
pub open spec fn door_joint_names(kind: DoorType) -> (Seq<char>, Seq<char>) {
    match kind {
        DoorType::SingleSliding { towards } => ("empty_joint"@, "joint"@),
        DoorType::SingleSwing { pivot_on, swing } => ("empty_joint"@, "joint"@),
        DoorType::DoubleSliding { left_right_ratio_milli } => ("left_joint"@, "right_joint"@),
        DoorType::DoubleSwing { swing } => ("left_joint"@, "right_joint"@),
        DoorType::Model => (Seq::empty(), Seq::empty()),
    }
}

/// The named motion parameters of a door kind, in emission order, ending
/// with the controller interface switch.
pub open spec fn door_param_list(kind: DoorType) -> Seq<(Seq<char>, Seq<char>)> {
    match kind {
        DoorType::SingleSliding { towards } => sliding_params(),
        DoorType::DoubleSliding { left_right_ratio_milli } => sliding_params(),
        DoorType::SingleSwing { pivot_on, swing } => swing_motion_params(),
        DoorType::DoubleSwing { swing } => swing_motion_params(),
        DoorType::Model => seq![("ros_interface"@, "true"@)],
    }
}

pub open spec fn sliding_params() -> Seq<(Seq<char>, Seq<char>)> {
    seq![
        ("v_max_door"@, "0.2"@),
        ("a_max_door"@, "0.2"@),
        ("a_nom_door"@, "0.08"@),
        ("dx_min_door"@, "0.001"@),
        ("f_max_door"@, "100.0"@),
        ("ros_interface"@, "true"@),
    ]
}

pub open spec fn swing_motion_params() -> Seq<(Seq<char>, Seq<char>)> {
    seq![
        ("v_max_door"@, "0.5"@),
        ("a_max_door"@, "0.3"@),
        ("a_nom_door"@, "0.15"@),
        ("dx_min_door"@, "0.01"@),
        ("f_max_door"@, "500.0"@),
        ("ros_interface"@, "true"@),
    ]
}

pub open spec fn params_match(ps: Seq<SdfParam>, expected: Seq<(Seq<char>, Seq<char>)>) -> bool {
    &&& ps.len() == expected.len()
    &&& forall|i: int|
        0 <= i < ps.len() ==> (#[trigger] ps[i]).name@ == expected[i].0 && ps[i].value@
            == expected[i].1
}

/// The whole exported door model: named after the door, centered between
/// its anchors at the level's elevation, heading perpendicular to the
/// anchor line, with kind-specific links, joints and controller descriptor.
pub open spec fn door_model_matches(
    d: Door,
    l: Anchor,
    r: Anchor,
    elevation: int,
    m: SdfModel,
) -> bool {
    door_model_named(d.name.0@, d.kind, l, r, elevation, m)
}

/// A joint pose on the door axis: centered, at panel height, offset `y`.
fn panel_pose(y: i64) -> (r: SdfPose)
    ensures
        joint_pose_at(Some(r), y as int),
{
    SdfPose { x: 0, y, z: 1250, rot: SdfRot::Given(Rotation::Yaw(Angle(0))) }
}

fn sliding_param_vec() -> (r: Vec<SdfParam>)
    ensures
        params_match(r@, sliding_params()),
{
    let r = vec![
        SdfParam { name: String::from_str("v_max_door"), value: String::from_str("0.2") },
        SdfParam { name: String::from_str("a_max_door"), value: String::from_str("0.2") },
        SdfParam { name: String::from_str("a_nom_door"), value: String::from_str("0.08") },
        SdfParam { name: String::from_str("dx_min_door"), value: String::from_str("0.001") },
        SdfParam { name: String::from_str("f_max_door"), value: String::from_str("100.0") },
        SdfParam { name: String::from_str("ros_interface"), value: String::from_str("true") },
    ];
    r
}

fn swing_param_vec() -> (r: Vec<SdfParam>)
    ensures
        params_match(r@, swing_motion_params()),
{
    let r = vec![
        SdfParam { name: String::from_str("v_max_door"), value: String::from_str("0.5") },
        SdfParam { name: String::from_str("a_max_door"), value: String::from_str("0.3") },
        SdfParam { name: String::from_str("a_nom_door"), value: String::from_str("0.15") },
        SdfParam { name: String::from_str("dx_min_door"), value: String::from_str("0.01") },
        SdfParam { name: String::from_str("f_max_door"), value: String::from_str("500.0") },
        SdfParam { name: String::from_str("ros_interface"), value: String::from_str("true") },
    ];
    r
}

/// The opening magnitude and axis sign of a swing, given the pivot side.
fn swing_vals(s: &Swing, side: i64) -> (r: (i64, i64))
    requires
        s.wf(),
        side == 1 || side == -1,
    ensures
        (r.0 as int, r.1 as int) == swing_params(*s, side as int),
{
    match s {
        Swing::Forward(a) => (a.abs(), side),
        Swing::Backward(a) => (a.abs(), -side),
        Swing::Both { forward, backward } => (forward.abs(), side),
    }
}

/// Halve a value, rounding toward negative infinity as the mathematical
/// division in the specifications does.
fn floor_half(v: i64) -> (r: i64)
    requires
        -4_000_000_000i64 <= v <= 4_000_000_000i64,
    ensures
        r == v as int / 2,
{
    if v >= 0 {
        v / 2
    } else {
        (v - 1) / 2
    }
}

impl Door {
    /// Project the door into a simulator model, given its two anchors and
    /// the elevation of the level it stands on.
    ///
    /// The model is named after the door, centered between the anchors,
    /// heading perpendicular to the line between them, and carries the
    /// kind-specific panels, joints and controller descriptor.
    pub fn to_sdf(&self, left_anchor: Anchor, right_anchor: Anchor, elevation: i64) -> (r: Result<
        SdfModel,
        SdfConversionError,
    >)
        requires
            left_anchor.wf(),
            right_anchor.wf(),
            -MAX_COORD_MM <= elevation <= MAX_COORD_MM,
            self.kind.wf(),
        ensures
            match r {
                Ok(m) => door_model_matches(*self, left_anchor, right_anchor, elevation as int, m),
                Err(_) => false,
            },
    {
        let len = anchor_distance(&left_anchor, &right_anchor);
        let dx = left_anchor.x - right_anchor.x;
        let dy = left_anchor.y - right_anchor.y;
        let cx = floor_half(left_anchor.x + right_anchor.x);
        let cy = floor_half(left_anchor.y + right_anchor.y);
        let name = self.name.0.as_str();

        let links: Vec<SdfLink> = match &self.kind {
            DoorType::DoubleSliding { .. } | DoorType::DoubleSwing { .. } => vec![
                make_sdf_door_link(name, "right"),
                make_sdf_door_link(name, "left"),
            ],
            _ => vec![make_sdf_door_link(name, "body")],
        };

        let joints: Vec<SdfJoint> = match &self.kind {
            DoorType::SingleSliding { towards } => {
                let sign = towards.sign();
                vec![
                    SdfJoint {
                        name: String::from_str("joint"),
                        parent: String::from_str("world"),
                        child: String::from_str("body"),
                        jtype: JointType::Prismatic,
                        pose: Some(panel_pose(sign * (len / 2))),
                        axis: Some(JointAxis { x: 0, y: sign * 1000, z: 0, lower: 0, upper: len }),
                    },
                ]
            },
            DoorType::SingleSwing { pivot_on, swing } => {
                let side = pivot_on.sign();
                let (open, z) = swing_vals(swing, side);
                vec![
                    SdfJoint {
                        name: String::from_str("joint"),
                        parent: String::from_str("world"),
                        child: String::from_str("body"),
                        jtype: JointType::Revolute,
                        pose: Some(panel_pose(side * (len / 2))),
                        axis: Some(JointAxis { x: 0, y: 0, z: z * 1000, lower: 0, upper: open }),
                    },
                ]
            },
            DoorType::DoubleSliding { left_right_ratio_milli } => {
                let ratio = *left_right_ratio_milli as i64;
                proof {
                    assert(0 <= len * ratio <= 3_000_000_000_000_000i64) by (nonlinear_arith)
                        requires
                            0 <= len <= 3_000_000_000i64,
                            1 <= ratio <= 1_000_000i64,
                    ;
                }
                let left_len = (len * ratio) / (ratio + 1000);
                let right_len = len - left_len;
                let neg_half = -(len / 2);
                let neg_left = -left_len;
                vec![
                    SdfJoint {
                        name: String::from_str("right_joint"),
                        parent: String::from_str("world"),
                        child: String::from_str("right"),
                        jtype: JointType::Prismatic,
                        pose: Some(panel_pose(neg_half)),
                        axis: Some(
                            JointAxis { x: 0, y: -1000, z: 0, lower: 0, upper: right_len },
                        ),
                    },
                    SdfJoint {
                        name: String::from_str("left_joint"),
                        parent: String::from_str("world"),
                        child: String::from_str("left"),
                        jtype: JointType::Prismatic,
                        pose: Some(panel_pose(len / 2)),
                        axis: Some(
                            JointAxis { x: 0, y: -1000, z: 0, lower: neg_left, upper: 0 },
                        ),
                    },
                ]
            },
            DoorType::DoubleSwing { swing } => {
                let (open, z) = swing_vals(swing, -1);
                let neg_half = -(len / 2);
                let neg_open = -open;
                vec![
                    SdfJoint {
                        name: String::from_str("right_joint"),
                        parent: String::from_str("world"),
                        child: String::from_str("right"),
                        jtype: JointType::Revolute,
                        pose: Some(panel_pose(neg_half)),
                        axis: Some(JointAxis { x: 0, y: 0, z: z * 1000, lower: 0, upper: open }),
                    },
                    SdfJoint {
                        name: String::from_str("left_joint"),
                        parent: String::from_str("world"),
                        child: String::from_str("left"),
                        jtype: JointType::Revolute,
                        pose: Some(panel_pose(len / 2)),
                        axis: Some(JointAxis { x: 0, y: 0, z: z * 1000, lower: neg_open, upper: 0 }),
                    },
                ]
            },
            DoorType::Model => {
                vec![
                    SdfJoint {
                        name: String::from_str("joint"),
                        parent: String::from_str("world"),
                        child: String::from_str("body"),
                        jtype: JointType::Fixed,
                        pose: Some(panel_pose(len / 2)),
                        axis: None,
                    },
                ]
            },
        };

        let params: Vec<SdfParam> = match &self.kind {
            DoorType::SingleSliding { .. } | DoorType::DoubleSliding { .. } => sliding_param_vec(),
            DoorType::SingleSwing { .. } | DoorType::DoubleSwing { .. } => swing_param_vec(),
            DoorType::Model => vec![
                SdfParam {
                    name: String::from_str("ros_interface"),
                    value: String::from_str("true"),
                },
            ],
        };

        let (door_type, left_joint_name, right_joint_name): (String, String, String) =
            match &self.kind {
            DoorType::SingleSliding { .. } => (
                String::from_str("SlidingDoor"),
                String::from_str("empty_joint"),
                String::from_str("joint"),
            ),
            DoorType::SingleSwing { .. } => (
                String::from_str("SwingDoor"),
                String::from_str("empty_joint"),
                String::from_str("joint"),
            ),
            DoorType::DoubleSliding { .. } => (
                String::from_str("DoubleSlidingDoor"),
                String::from_str("left_joint"),
                String::from_str("right_joint"),
            ),
            DoorType::DoubleSwing { .. } => (
                String::from_str("DoubleSwingDoor"),
                String::from_str("left_joint"),
                String::from_str("right_joint"),
            ),
            DoorType::Model => (String::new(), String::new(), String::new()),
        };

        let plugin = SdfPlugin::Door(
            DoorPluginData {
                door_name: self.name.0.clone(),
                door_type,
                left_joint_name,
                right_joint_name,
                params,
            },
        );

        Ok(
            SdfModel {
                name: self.name.0.clone(),
                is_static: Some(false),
                pose: Some(SdfPose { x: cx, y: cy, z: elevation, rot: SdfRot::Heading { dx, dy } }),
                links,
                joints,
                plugins: vec![plugin],
            },
        )
    }
}

/// The first level, in document order, whose anchors hold `id`.
pub open spec fn anchor_in_levels(levels: Seq<(u32, Level)>, id: u32) -> Option<Anchor>
    decreases levels.len(),
{
    if levels.len() == 0 {
        None
    } else {
        match get_of(levels[0].1.anchors@, id) {
            Some(a) => Some(a),
            None => anchor_in_levels(levels.drop_first(), id),
        }
    }
}

/// Resolve an anchor ID against the document: the site's own anchors first,
/// then each level's anchors in document order.
pub open spec fn anchor_of(s: &Site, id: u32) -> Option<Anchor> {
    match get_of(s.anchors@, id) {
        Some(a) => Some(a),
        None => anchor_in_levels(s.levels@, id),
    }
}

/// Whether both anchor references of a door resolve.
pub open spec fn door_refs_ok(s: &Site, d: Door) -> bool {
    anchor_of(s, d.anchors.left) is Some && anchor_of(s, d.anchors.right) is Some
}

/// Whether every door of the level resolves.
pub open spec fn level_doors_ok(s: &Site, lvl: Level) -> bool {
    forall|i: int| 0 <= i < lvl.doors@.len() ==> door_refs_ok(s, (#[trigger] lvl.doors@[i]).1)
}

/// Whether a cabin door's own anchor pair resolves against the lift's
/// cabin anchors.
pub open spec fn cabin_door_refs_ok(lift: &Lift, cd: LiftCabinDoor) -> bool {
    get_of(lift.cabin_anchors@, cd.reference_anchors.left) is Some && get_of(
        lift.cabin_anchors@,
        cd.reference_anchors.right,
    ) is Some
}

/// Whether every level a cabin door visits stands in the document.
pub open spec fn visits_ok(s: &Site, cd: LiftCabinDoor) -> bool {
    forall|v: int| 0 <= v < cd.visits@.len() ==> get_of(s.levels@, #[trigger] cd.visits@[v]) is Some
}

/// Whether everything a lift references resolves: its shaft anchors, its
/// initial level, and each cabin door's anchors and visited levels.
pub open spec fn lift_ok(s: &Site, lift: &Lift) -> bool {
    &&& anchor_of(s, lift.properties.reference_anchors.left) is Some
    &&& anchor_of(s, lift.properties.reference_anchors.right) is Some
    &&& match lift.properties.initial_level {
        Some(id) => get_of(s.levels@, id) is Some,
        None => false,
    }
    &&& forall|i: int|
        0 <= i < lift.cabin_doors@.len() ==> cabin_door_refs_ok(
            lift,
            (#[trigger] lift.cabin_doors@[i]).1,
        ) && visits_ok(s, lift.cabin_doors@[i].1)
}

/// Whether the whole site can be exported: every reference in it resolves.
pub open spec fn export_ok(s: &Site) -> bool {
    &&& forall|i: int| 0 <= i < s.levels@.len() ==> level_doors_ok(s, (#[trigger] s.levels@[i]).1)
    &&& forall|i: int| 0 <= i < s.lifts@.len() ==> lift_ok(s, &(#[trigger] s.lifts@[i]).1)
}

/// Some door of some level references `id` and it does not resolve.
pub open spec fn door_anchor_broken(s: &Site, id: u32) -> bool {
    exists|i: int, j: int|
        0 <= i < s.levels@.len() && 0 <= j < s.levels@[i].1.doors@.len() && {
            let d = (#[trigger] s.levels@[i].1.doors@[j]).1;
            (d.anchors.left == id || d.anchors.right == id) && anchor_of(s, id) is None
        }
}

/// Some lift references `id` — as a shaft anchor or a cabin-door anchor —
/// and it does not resolve in its context.
pub open spec fn lift_anchor_broken(s: &Site, id: u32) -> bool {
    exists|i: int|
        0 <= i < s.lifts@.len() && {
            let lift = (#[trigger] s.lifts@[i]).1;
            ||| ((lift.properties.reference_anchors.left == id
                || lift.properties.reference_anchors.right == id) && anchor_of(s, id) is None)
            ||| (exists|j: int|
                0 <= j < lift.cabin_doors@.len() && {
                    let cd = (#[trigger] lift.cabin_doors@[j]).1;
                    (cd.reference_anchors.left == id || cd.reference_anchors.right == id)
                        && get_of(lift.cabin_anchors@, id) is None
                })
        }
}

/// Some cabin door visits level `id`, or some lift starts on level `id`,
/// and no level of the document carries it.
pub open spec fn level_ref_broken(s: &Site, id: u32) -> bool {
    get_of(s.levels@, id) is None && exists|i: int|
        0 <= i < s.lifts@.len() && {
            let lift = (#[trigger] s.lifts@[i]).1;
            ||| lift.properties.initial_level == Some(id)
            ||| (exists|j: int, v: int|
                0 <= j < lift.cabin_doors@.len() && 0 <= v
                    < lift.cabin_doors@[j].1.visits@.len() && #[trigger] lift.cabin_doors@[j].1.visits@[v]
                    == id)
        }
}

/// Some lift names no initial level at all.
pub open spec fn initial_level_missing(s: &Site) -> bool {
    exists|i: int|
        0 <= i < s.lifts@.len() && (#[trigger] s.lifts@[i]).1.properties.initial_level is None
}

/// The floor model of a level: a static model holding the level mesh by
/// convention-based URIs.
pub open spec fn floor_model_matches(lvl: Level, m: SdfModel) -> bool {
    &&& m.name@ == "level_"@ + lvl.properties.name.0@
    &&& m.is_static == Some(true)
    &&& m.pose is None
    &&& m.links@.len() == 1
    &&& m.links@[0].name@ == "link"@
    &&& m.links@[0].collisions@.len() == 1
    &&& m.links@[0].collisions@[0].name@ == "collision"@
    &&& m.links@[0].collisions@[0].mesh_uri@ == "meshes/level_"@ + lvl.properties.name.0@
        + "_collision.glb"@
    &&& match m.links@[0].collisions@[0].collide_bitmask {
        Some(b) => b@ == "0x01"@,
        None => false,
    }
    &&& m.links@[0].visuals@.len() == 1
    &&& m.links@[0].visuals@[0].name@ == "visual"@
    &&& m.links@[0].visuals@[0].mesh_uri@ == "meshes/level_"@ + lvl.properties.name.0@
        + "_visual.glb"@
    &&& m.joints@.len() == 0
    &&& m.plugins@.len() == 0
}

/// The conventional name of a lift's cabin door.
pub open spec fn cabin_door_name(lift_name: Seq<char>, idx: u32) -> Seq<char> {
    "CabinDoor_"@ + lift_name + "_door_"@ + dec_digits(idx as int)
}

/// The conventional name of a lift's shaft door on one level.
pub open spec fn shaft_door_name(level_name: Seq<char>, lift_name: Seq<char>, idx: u32) -> Seq<
    char,
> {
    "ShaftDoor_"@ + level_name + "_"@ + lift_name + "_door_"@ + dec_digits(idx as int)
}

/// A door model, named independently of any document door.
pub open spec fn door_model_named(
    name: Seq<char>,
    kind: DoorType,
    l: Anchor,
    r: Anchor,
    elevation: int,
    m: SdfModel,
) -> bool {
    let dx = l.x - r.x;
    let dy = l.y - r.y;
    let len = spec_distance(l, r);
    &&& m.name@ == name
    &&& m.is_static == Some(false)
    &&& match m.pose {
        Some(p) => p.x == (l.x + r.x) / 2 && p.y == (l.y + r.y) / 2 && p.z == elevation && p.rot
            == (SdfRot::Heading { dx: dx as i64, dy: dy as i64 }),
        None => false,
    }
    &&& door_links_match(kind, m.links@, name)
    &&& door_joints_match(kind, len, m.joints@)
    &&& m.plugins@.len() == 1
    &&& match m.plugins@[0] {
        SdfPlugin::Door(dp) => {
            &&& dp.door_name@ == name
            &&& dp.door_type@ == door_type_name(kind)
            &&& dp.left_joint_name@ == door_joint_names(kind).0
            &&& dp.right_joint_name@ == door_joint_names(kind).1
            &&& params_match(dp.params@, door_param_list(kind))
        },
        _ => false,
    }
}

/// How many models the levels contribute: one floor model per level plus
/// one model per door.
pub open spec fn levels_model_count(levels: Seq<(u32, Level)>) -> int
    decreases levels.len(),
{
    if levels.len() == 0 {
        0
    } else {
        1 + levels[0].1.doors@.len() + levels_model_count(levels.drop_first())
    }
}

/// How many models a lift's cabin doors contribute: the cabin door itself
/// plus one shaft door per visited level.
pub open spec fn cabin_doors_model_count(cds: Seq<(u32, LiftCabinDoor)>) -> int
    decreases cds.len(),
{
    if cds.len() == 0 {
        0
    } else {
        1 + cds[0].1.visits@.len() + cabin_doors_model_count(cds.drop_first())
    }
}

/// How many models the lifts contribute: their door models plus one lift
/// body each.
pub open spec fn lifts_model_count(lifts: Seq<(u32, Lift)>) -> int
    decreases lifts.len(),
{
    if lifts.len() == 0 {
        0
    } else {
        cabin_doors_model_count(lifts[0].1.cabin_doors@) + 1 + lifts_model_count(
            lifts.drop_first(),
        )
    }
}

/// The motion parameters of every lift controller.
pub open spec fn lift_params() -> Seq<(Seq<char>, Seq<char>)> {
    seq![
        ("v_max_cabin"@, "2.0"@),
        ("a_max_cabin"@, "1.2"@),
        ("a_nom_cabin"@, "1.0"@),
        ("dx_min_cabin"@, "0.001"@),
        ("f_max_cabin"@, "25323.0"@),
        ("cabin_joint_name"@, "cabin_joint"@),
    ]
}

/// One door pair of a floor descriptor names the cabin door and shaft door
/// of cabin door `idx` on the level named `level_name`.
pub open spec fn floor_has_pair(
    fd: FloorDescriptor,
    level_name: Seq<char>,
    lift_name: Seq<char>,
    idx: u32,
) -> bool {
    exists|pi: int|
        0 <= pi < fd.door_pairs@.len() && (#[trigger] fd.door_pairs@[pi]).cabin_door@
            == cabin_door_name(lift_name, idx) && fd.door_pairs@[pi].shaft_door@
            == shaft_door_name(level_name, lift_name, idx)
}

/// The lift-controller descriptor lists a door pair for the visit of cabin
/// door `idx` to the level `lvl`.
pub open spec fn floors_have_visit(
    floors: Seq<FloorDescriptor>,
    lvl: Level,
    lift_name: Seq<char>,
    idx: u32,
) -> bool {
    exists|fi: int|
        0 <= fi < floors.len() && (#[trigger] floors[fi]).name@ == lvl.properties.name.0@
            && floors[fi].elevation_mm == lvl.properties.elevation && floor_has_pair(
            floors[fi],
            lvl.properties.name.0@,
            lift_name,
            idx,
        )
}

/// The exported lift model: named after the lift, posed at the cabin
/// center, carrying the lift mesh and the controller descriptor.
pub open spec fn lift_model_matches(s: &Site, lift: Lift, m: SdfModel) -> bool {
    let la = anchor_of(s, lift.properties.reference_anchors.left)->0;
    let ra = anchor_of(s, lift.properties.reference_anchors.right)->0;
    &&& m.name@ == lift.properties.name.0@
    &&& m.is_static == Some(lift.properties.is_static)
    &&& match (m.pose, lift.properties.cabin) {
        (Some(p), LiftCabin::Rect(c)) => {
            &&& p.x == (la.x + ra.x) / 2 + c.center_offset_spec().0
            &&& p.y == (la.y + ra.y) / 2 + c.center_offset_spec().1
            &&& p.z == 0
            &&& p.rot == SdfRot::Given(Rotation::Yaw(Angle(0)))
        },
        _ => false,
    }
    &&& m.links@.len() == 1
    &&& m.links@[0].name@ == "link"@
    &&& m.links@[0].collisions@.len() == 1
    &&& m.links@[0].collisions@[0].name@ == "collision"@
    &&& m.links@[0].collisions@[0].mesh_uri@ == "meshes/"@ + lift.properties.name.0@ + ".glb"@
    &&& match m.links@[0].collisions@[0].collide_bitmask {
        Some(b) => b@ == "0x02"@,
        None => false,
    }
    &&& m.links@[0].visuals@.len() == 1
    &&& m.links@[0].visuals@[0].name@ == "visual"@
    &&& m.links@[0].visuals@[0].mesh_uri@ == "meshes/"@ + lift.properties.name.0@ + ".glb"@
    &&& m.joints@.len() == 0
    &&& m.plugins@.len() == 1
    &&& match m.plugins@[0] {
        SdfPlugin::Lift(lp) => {
            &&& lp.lift_name@ == lift.properties.name.0@
            &&& match lift.properties.initial_level {
                Some(id) => match get_of(s.levels@, id) {
                    Some(lvl) => lp.initial_level@ == lvl.properties.name.0@,
                    None => false,
                },
                None => false,
            }
            &&& params_match(lp.params@, lift_params())
            &&& forall|j: int, v: int|
                0 <= j < lift.cabin_doors@.len() && 0 <= v
                    < lift.cabin_doors@[j].1.visits@.len() ==> match get_of(
                    s.levels@,
                    #[trigger] lift.cabin_doors@[j].1.visits@[v],
                ) {
                    Some(lvl) => floors_have_visit(
                        lp.floors@,
                        lvl,
                        lift.properties.name.0@,
                        lift.cabin_doors@[j].0,
                    ),
                    None => false,
                }
        },
        _ => false,
    }
}

/// Whether the model list holds the floor model of a level.
pub open spec fn has_floor_model(models: Seq<SdfModel>, lvl: Level) -> bool {
    exists|mi: int| 0 <= mi < models.len() && floor_model_matches(lvl, #[trigger] models[mi])
}

/// Whether the model list holds a door model of the given name, kind and
/// placement.
pub open spec fn has_door_model(
    models: Seq<SdfModel>,
    name: Seq<char>,
    kind: DoorType,
    l: Anchor,
    r: Anchor,
    elevation: int,
) -> bool {
    exists|mi: int|
        0 <= mi < models.len() && door_model_named(name, kind, l, r, elevation, #[trigger] models[mi])
}

/// Whether the model list holds the lift model of a lift.
pub open spec fn has_lift_model(models: Seq<SdfModel>, s: &Site, lift: Lift) -> bool {
    exists|mi: int| 0 <= mi < models.len() && lift_model_matches(s, lift, #[trigger] models[mi])
}

/// Every document value the export reads is within bounds.
pub open spec fn site_wf(s: &Site) -> bool {
    &&& forall|i: int| 0 <= i < s.anchors@.len() ==> (#[trigger] s.anchors@[i]).1.wf()
    &&& forall|i: int|
        0 <= i < s.levels@.len() ==> {
            let lvl = (#[trigger] s.levels@[i]).1;
            &&& -MAX_COORD_MM <= lvl.properties.elevation <= MAX_COORD_MM
            &&& forall|j: int| 0 <= j < lvl.anchors@.len() ==> (#[trigger] lvl.anchors@[j]).1.wf()
            &&& forall|j: int| 0 <= j < lvl.doors@.len() ==> (#[trigger] lvl.doors@[j]).1.kind.wf()
        }
    &&& forall|i: int|
        0 <= i < s.lifts@.len() ==> {
            let lift = (#[trigger] s.lifts@[i]).1;
            &&& forall|j: int|
                0 <= j < lift.cabin_anchors@.len() ==> (#[trigger] lift.cabin_anchors@[j]).1.wf()
            &&& forall|j: int|
                0 <= j < lift.cabin_doors@.len() ==> (#[trigger] lift.cabin_doors@[j]).1.kind.wf()
            &&& match lift.properties.cabin {
                LiftCabin::Rect(c) => c.wf(),
            }
        }
}

/// A value stored in an entry sequence satisfies what all entries satisfy;
/// in particular a resolved anchor is well-formed.
proof fn lemma_get_of_member<T>(s: Seq<(u32, T)>, k: u32)
    ensures
        match get_of(s, k) {
            Some(v) => exists|i: int| 0 <= i < s.len() && (#[trigger] s[i]).1 == v,
            None => true,
        },
    decreases s.len(),
{
    if s.len() > 0 {
        if s[0].0 == k {
            assert(s[0].1 == get_of(s, k)->0);
        } else {
            lemma_get_of_member(s.drop_first(), k);
            match get_of(s.drop_first(), k) {
                Some(v) => {
                    let i = choose|i: int|
                        0 <= i < s.drop_first().len() && (#[trigger] s.drop_first()[i]).1 == v;
                    assert(s[i + 1].1 == v);
                },
                None => {},
            }
        }
    }
}

/// An anchor resolved through the level list is one of some level's anchors.
proof fn lemma_anchor_in_levels_member(levels: Seq<(u32, Level)>, id: u32)
    ensures
        match anchor_in_levels(levels, id) {
            Some(a) => exists|i: int, j: int|
                0 <= i < levels.len() && 0 <= j < levels[i].1.anchors@.len()
                    && (#[trigger] levels[i].1.anchors@[j]).1 == a,
            None => true,
        },
    decreases levels.len(),
{
    if levels.len() > 0 {
        match get_of(levels[0].1.anchors@, id) {
            Some(a) => {
                lemma_get_of_member(levels[0].1.anchors@, id);
                let j = choose|j: int|
                    0 <= j < levels[0].1.anchors@.len() && (#[trigger] levels[0].1.anchors@[j]).1
                        == a;
                assert(levels[0].1.anchors@[j].1 == a);
            },
            None => {
                lemma_anchor_in_levels_member(levels.drop_first(), id);
                match anchor_in_levels(levels.drop_first(), id) {
                    Some(a) => {
                        let (i, j): (int, int) = choose|i: int, j: int|
                            0 <= i < levels.drop_first().len() && 0 <= j
                                < levels.drop_first()[i].1.anchors@.len()
                                && (#[trigger] levels.drop_first()[i].1.anchors@[j]).1 == a;
                        assert(levels[i + 1].1.anchors@[j].1 == a);
                    },
                    None => {},
                }
            },
        }
    }
}

/// In a well-formed site every resolved anchor is well-formed.
pub proof fn lemma_anchor_of_wf(s: &Site, id: u32)
    requires
        site_wf(s),
    ensures
        match anchor_of(s, id) {
            Some(a) => a.wf(),
            None => true,
        },
{
    lemma_get_of_member(s.anchors@, id);
    lemma_anchor_in_levels_member(s.levels@, id);
}

/// The five world plugins every export carries, in emission order.
pub open spec fn world_plugins_match(ps: Seq<SdfPlugin>) -> bool {
    &&& ps.len() == 5
    &&& plugin_named(ps[0], "gz::sim::systems::Physics"@, "libgz-sim-physics-system.so"@)
    &&& plugin_named(ps[1], "gz::sim::systems::UserCommands"@, "libgz-sim-user-commands-system.so"@)
    &&& plugin_named(ps[2], "gz::sim::systems::SceneBroadcaster"@, "libgz-sim-scene-broadcaster-system.so"@)
    &&& plugin_named(ps[3], "door"@, "libdoor.so"@)
    &&& plugin_named(ps[4], "lift"@, "liblift.so"@)
}

pub open spec fn plugin_named(p: SdfPlugin, name: Seq<char>, filename: Seq<char>) -> bool {
    match p {
        SdfPlugin::Named { name: n, filename: f } => n@ == name && f@ == filename,
        _ => false,
    }
}

fn lift_param_vec() -> (r: Vec<SdfParam>)
    ensures
        params_match(r@, lift_params()),
{
    let r = vec![
        SdfParam { name: String::from_str("v_max_cabin"), value: String::from_str("2.0") },
        SdfParam { name: String::from_str("a_max_cabin"), value: String::from_str("1.2") },
        SdfParam { name: String::from_str("a_nom_cabin"), value: String::from_str("1.0") },
        SdfParam { name: String::from_str("dx_min_cabin"), value: String::from_str("0.001") },
        SdfParam { name: String::from_str("f_max_cabin"), value: String::from_str("25323.0") },
        SdfParam { name: String::from_str("cabin_joint_name"), value: String::from_str("cabin_joint") },
    ];
    r
}

impl Site {
    /// Resolve an anchor ID: the site's own anchors first, then each
    /// level's anchors in document order.
    pub fn get_anchor(&self, id: u32) -> (r: Option<Anchor>)
        ensures
            r == anchor_of(self, id),
    {
        match self.anchors.get(id) {
            Some(a) => {
                return Some(*a);
            },
            None => {},
        }
        let lvls = self.levels.entries();
        let n = lvls.len();
        let mut i: usize = 0;
        proof {
            assert(self.levels@.skip(0) =~= self.levels@);
        }
        while i < n
            invariant
                lvls@ == self.levels@,
                n == self.levels@.len(),
                0 <= i <= n,
                get_of(self.anchors@, id) is None,
                anchor_of(self, id) == anchor_in_levels(self.levels@.skip(i as int), id),
            decreases n - i,
        {
            proof {
                assert(self.levels@.skip(i as int)[0] == self.levels@[i as int]);
                assert(self.levels@.skip(i as int).drop_first() =~= self.levels@.skip(i + 1));
            }
            match lvls[i].1.anchors.get(id) {
                Some(a) => {
                    return Some(*a);
                },
                None => {},
            }
            i += 1;
        }
        proof {
            assert(self.levels@.skip(n as int) =~= Seq::<(u32, Level)>::empty());
        }
        None
    }
}

/// What `Site::to_sdf` guarantees: it succeeds exactly when every reference
/// in the site resolves; every failure names a reference that is indeed
/// broken; and a successful export carries the world's fixed furniture, one
/// floor model per level, one model per door (level doors, cabin doors and
/// shaft doors alike), and one model per lift — nothing more.
pub open spec fn to_sdf_post(s: &Site, r: Result<SdfRoot, SdfConversionError>) -> bool {
    &&& (r is Ok <==> export_ok(s))
    &&& match r {
        Ok(root) => {
            let w = root.worlds@[0];
            &&& root.version@ == "1.7"@
            &&& root.worlds@.len() == 1
            &&& w.name@ == s.properties.name.0@
            &&& w.lights@.len() == 1
            &&& w.lights@[0].name@ == "sun"@
            &&& w.lights@[0].cast_shadows == true
            &&& world_plugins_match(w.plugins@)
            &&& w.models@.len() == levels_model_count(s.levels@) + lifts_model_count(s.lifts@)
            &&& forall|i: int|
                0 <= i < s.levels@.len() ==> has_floor_model(w.models@, (#[trigger] s.levels@[i]).1)
            &&& forall|i: int, j: int|
                0 <= i < s.levels@.len() && 0 <= j < s.levels@[i].1.doors@.len() ==> {
                    let lvl = s.levels@[i].1;
                    let d = (#[trigger] s.levels@[i].1.doors@[j]).1;
                    has_door_model(
                        w.models@,
                        d.name.0@,
                        d.kind,
                        anchor_of(s, d.anchors.left)->0,
                        anchor_of(s, d.anchors.right)->0,
                        lvl.properties.elevation as int,
                    )
                }
            &&& forall|i: int, j: int|
                0 <= i < s.lifts@.len() && 0 <= j < s.lifts@[i].1.cabin_doors@.len() ==> {
                    let lift = s.lifts@[i].1;
                    let idx = (#[trigger] s.lifts@[i].1.cabin_doors@[j]).0;
                    let cd = s.lifts@[i].1.cabin_doors@[j].1;
                    has_door_model(
                        w.models@,
                        cabin_door_name(lift.properties.name.0@, idx),
                        cd.kind,
                        get_of(lift.cabin_anchors@, cd.reference_anchors.left)->0,
                        get_of(lift.cabin_anchors@, cd.reference_anchors.right)->0,
                        0,
                    )
                }
            &&& forall|i: int, j: int, v: int|
                0 <= i < s.lifts@.len() && 0 <= j < s.lifts@[i].1.cabin_doors@.len() && 0 <= v
                    < s.lifts@[i].1.cabin_doors@[j].1.visits@.len() ==> {
                    let lift = s.lifts@[i].1;
                    let idx = s.lifts@[i].1.cabin_doors@[j].0;
                    let cd = s.lifts@[i].1.cabin_doors@[j].1;
                    let lvl = get_of(s.levels@, #[trigger] s.lifts@[i].1.cabin_doors@[j].1.visits@[v])->0;
                    has_door_model(
                        w.models@,
                        shaft_door_name(lvl.properties.name.0@, lift.properties.name.0@, idx),
                        cd.kind,
                        get_of(lift.cabin_anchors@, cd.reference_anchors.left)->0,
                        get_of(lift.cabin_anchors@, cd.reference_anchors.right)->0,
                        lvl.properties.elevation as int,
                    )
                }
            &&& forall|i: int|
                0 <= i < s.lifts@.len() ==> has_lift_model(w.models@, s, (#[trigger] s.lifts@[i]).1)
        },
        Err(e) => match e {
            SdfConversionError::UnsupportedAssetType => false,
            SdfConversionError::BrokenAnchorReference(id) => door_anchor_broken(s, id)
                || lift_anchor_broken(s, id),
            SdfConversionError::BrokenLevelReference(id) => level_ref_broken(s, id),
            SdfConversionError::MissingInitialLevel => initial_level_missing(s),
        },
    }
}

/// Memberships in the model list survive appending more models.
proof fn lemma_memberships_monotone(s: &Site, a: Seq<SdfModel>, b: Seq<SdfModel>)
    requires
        a.len() <= b.len(),
        forall|k: int| 0 <= k < a.len() ==> b[k] == a[k],
    ensures
        forall|lvl: Level| #[trigger] has_floor_model(a, lvl) ==> has_floor_model(b, lvl),
        forall|name: Seq<char>, kind: DoorType, l: Anchor, rr: Anchor, e: int|
            #[trigger] has_door_model(a, name, kind, l, rr, e) ==> has_door_model(
                b,
                name,
                kind,
                l,
                rr,
                e,
            ),
        forall|lift: Lift| #[trigger] has_lift_model(a, s, lift) ==> has_lift_model(b, s, lift),
{
    assert forall|lvl: Level| #[trigger] has_floor_model(a, lvl) implies has_floor_model(
        b,
        lvl,
    ) by {
        let mi = choose|mi: int| 0 <= mi < a.len() && floor_model_matches(lvl, #[trigger] a[mi]);
        assert(floor_model_matches(lvl, b[mi]));
    }
    assert forall|name: Seq<char>, kind: DoorType, l: Anchor, rr: Anchor, e: int|
        #[trigger] has_door_model(a, name, kind, l, rr, e) implies has_door_model(
        b,
        name,
        kind,
        l,
        rr,
        e,
    ) by {
        let mi = choose|mi: int|
            0 <= mi < a.len() && door_model_named(name, kind, l, rr, e, #[trigger] a[mi]);
        assert(door_model_named(name, kind, l, rr, e, b[mi]));
    }
    assert forall|lift: Lift| #[trigger] has_lift_model(a, s, lift) implies has_lift_model(
        b,
        s,
        lift,
    ) by {
        let mi = choose|mi: int| 0 <= mi < a.len() && lift_model_matches(s, lift, #[trigger] a[mi]);
        assert(lift_model_matches(s, lift, b[mi]));
    }
}

impl Site {
    /// Project the whole site into a world description.
    ///
    /// Emits one static floor model per level, one model per door — the
    /// levels' own doors, each lift's cabin doors, and one shaft door per
    /// (cabin door, visited level) pair — and one model per lift carrying
    /// the lift-controller descriptor, plus the world's fixed light and
    /// plugin set. A reference that does not resolve — a door or lift
    /// anchor, a visited level, a lift's initial level — aborts the whole
    /// export with an error naming it; nothing partial is returned.
    pub fn to_sdf(&self) -> (r: Result<SdfRoot, SdfConversionError>)
        requires
            site_wf(self),
        ensures
            to_sdf_post(self, r),
    {
        let mut models: Vec<SdfModel> = Vec::new();

        // Levels: one floor model each, then their doors.
        let lvls = self.levels.entries();
        let nl = lvls.len();
        let mut i: usize = 0;
        proof {
            assert(self.levels@.skip(0) =~= self.levels@);
        }
        while i < nl
            invariant
                site_wf(self),
                lvls@ == self.levels@,
                nl == self.levels@.len(),
                0 <= i <= nl,
                models@.len() == levels_model_count(self.levels@) - levels_model_count(
                    self.levels@.skip(i as int),
                ),
                forall|x: int|
                    0 <= x < i ==> has_floor_model(models@, (#[trigger] self.levels@[x]).1),
                forall|x: int, j: int|
                    0 <= x < i && 0 <= j < self.levels@[x].1.doors@.len() ==> {
                        let lvl = self.levels@[x].1;
                        let d = (#[trigger] self.levels@[x].1.doors@[j]).1;
                        has_door_model(
                            models@,
                            d.name.0@,
                            d.kind,
                            anchor_of(self, d.anchors.left)->0,
                            anchor_of(self, d.anchors.right)->0,
                            lvl.properties.elevation as int,
                        )
                    },
                forall|x: int|
                    0 <= x < i ==> level_doors_ok(self, (#[trigger] self.levels@[x]).1),
            decreases nl - i,
        {
            let ghost skip_i = self.levels@.skip(i as int);
            proof {
                assert(skip_i[0] == self.levels@[i as int]);
                assert(skip_i.drop_first() =~= self.levels@.skip(i + 1));
                lemma_levels_count_bounds(self.levels@.skip(i + 1));
            }
            let lname = lvls[i].1.properties.name.0.as_str();
            let ghost m0 = models@;
            models.push(
                SdfModel {
                    name: String::from_str("level_").concat(lname),
                    is_static: Some(true),
                    pose: None,
                    links: vec![
                        SdfLink {
                            name: String::from_str("link"),
                            collisions: vec![
                                SdfCollision {
                                    name: String::from_str("collision"),
                                    mesh_uri: String::from_str("meshes/level_").concat(
                                        lname,
                                    ).concat("_collision.glb"),
                                    collide_bitmask: Some(String::from_str("0x01")),
                                },
                            ],
                            visuals: vec![
                                SdfVisual {
                                    name: String::from_str("visual"),
                                    mesh_uri: String::from_str("meshes/level_").concat(
                                        lname,
                                    ).concat("_visual.glb"),
                                },
                            ],
                            inertial: None,
                        },
                    ],
                    joints: Vec::new(),
                    plugins: Vec::new(),
                },
            );
            proof {
                lemma_memberships_monotone(self, m0, models@);
                assert(floor_model_matches(self.levels@[i as int].1, models@[m0.len() as int]));
            }
            let drs = lvls[i].1.doors.entries();
            let nd = drs.len();
            let mut j: usize = 0;
            while j < nd
                invariant
                    site_wf(self),
                    lvls@ == self.levels@,
                    nl == self.levels@.len(),
                    0 <= i < nl,
                    drs@ == self.levels@[i as int].1.doors@,
                    nd == drs@.len(),
                    0 <= j <= nd,
                    models@.len() == m0.len() + 1 + j,
                    forall|x: int|
                        0 <= x <= i ==> has_floor_model(models@, (#[trigger] self.levels@[x]).1),
                    forall|x: int, jj: int|
                        0 <= x < i && 0 <= jj < self.levels@[x].1.doors@.len() ==> {
                            let lv = self.levels@[x].1;
                            let d = (#[trigger] self.levels@[x].1.doors@[jj]).1;
                            has_door_model(
                                models@,
                                d.name.0@,
                                d.kind,
                                anchor_of(self, d.anchors.left)->0,
                                anchor_of(self, d.anchors.right)->0,
                                lv.properties.elevation as int,
                            )
                        },
                    forall|x: int|
                        0 <= x < i ==> level_doors_ok(self, (#[trigger] self.levels@[x]).1),
                    forall|jj: int|
                        0 <= jj < j ==> {
                            let lv = self.levels@[i as int].1;
                            let d = (#[trigger] drs@[jj]).1;
                            &&& door_refs_ok(self, d)
                            &&& has_door_model(
                                models@,
                                d.name.0@,
                                d.kind,
                                anchor_of(self, d.anchors.left)->0,
                                anchor_of(self, d.anchors.right)->0,
                                lv.properties.elevation as int,
                            )
                        },
                decreases nd - j,
            {
                let d = &drs[j].1;
                let la = match self.get_anchor(d.anchors.left) {
                    Some(a) => a,
                    None => {
                        proof {
                            assert(door_anchor_broken(self, d.anchors.left));
                            assert(!door_refs_ok(self, self.levels@[i as int].1.doors@[j as int].1));
                            assert(!level_doors_ok(self, self.levels@[i as int].1));
                            assert(!export_ok(self));
                        }
                        return Err(SdfConversionError::BrokenAnchorReference(d.anchors.left));
                    },
                };
                let ra = match self.get_anchor(d.anchors.right) {
                    Some(a) => a,
                    None => {
                        proof {
                            assert(door_anchor_broken(self, d.anchors.right));
                            assert(!door_refs_ok(self, self.levels@[i as int].1.doors@[j as int].1));
                            assert(!level_doors_ok(self, self.levels@[i as int].1));
                            assert(!export_ok(self));
                        }
                        return Err(SdfConversionError::BrokenAnchorReference(d.anchors.right));
                    },
                };
                proof {
                    lemma_anchor_of_wf(self, d.anchors.left);
                    lemma_anchor_of_wf(self, d.anchors.right);
                    assert(-MAX_COORD_MM <= self.levels@[i as int].1.properties.elevation
                        <= MAX_COORD_MM && self.levels@[i as int].1.doors@[j as int].1.kind.wf());
                }
                let dm = match d.to_sdf(la, ra, lvls[i].1.properties.elevation) {
                    Ok(m) => m,
                    Err(e) => {
                        return Err(e);
                    },
                };
                let ghost m1 = models@;
                models.push(dm);
                proof {
                    lemma_memberships_monotone(self, m1, models@);
                    assert(door_model_named(
                        drs@[j as int].1.name.0@,
                        drs@[j as int].1.kind,
                        la,
                        ra,
                        self.levels@[i as int].1.properties.elevation as int,
                        models@[m1.len() as int],
                    ));
                }
                j += 1;
            }
            proof {
                assert(level_doors_ok(self, self.levels@[i as int].1));
                assert(levels_model_count(skip_i) == 1 + nd + levels_model_count(
                    self.levels@.skip(i + 1),
                ));
            }
            i += 1;
        }
        proof {
            assert(self.levels@.skip(nl as int) =~= Seq::<(u32, Level)>::empty());
            assert(self.lifts@.skip(0) =~= self.lifts@);
        }
        let ghost levels_total = levels_model_count(self.levels@);

        // Lifts: cabin doors, shaft doors per visited level, the lift body.
        let lfs = self.lifts.entries();
        let nk = lfs.len();
        let mut k: usize = 0;
        while k < nk
            invariant
                site_wf(self),
                lfs@ == self.lifts@,
                nk == self.lifts@.len(),
                0 <= k <= nk,
                levels_total == levels_model_count(self.levels@),
                models@.len() == levels_total + lifts_model_count(self.lifts@)
                    - lifts_model_count(self.lifts@.skip(k as int)),
                forall|x: int|
                    0 <= x < self.levels@.len() ==> has_floor_model(
                        models@,
                        (#[trigger] self.levels@[x]).1,
                    ),
                forall|x: int, jj: int|
                    0 <= x < self.levels@.len() && 0 <= jj < self.levels@[x].1.doors@.len() ==> {
                        let lv = self.levels@[x].1;
                        let d = (#[trigger] self.levels@[x].1.doors@[jj]).1;
                        has_door_model(
                            models@,
                            d.name.0@,
                            d.kind,
                            anchor_of(self, d.anchors.left)->0,
                            anchor_of(self, d.anchors.right)->0,
                            lv.properties.elevation as int,
                        )
                    },
                forall|x: int|
                    0 <= x < self.levels@.len() ==> level_doors_ok(
                        self,
                        (#[trigger] self.levels@[x]).1,
                    ),
                forall|x: int| 0 <= x < k ==> lift_ok(self, &(#[trigger] self.lifts@[x]).1),
                forall|x: int|
                    0 <= x < k ==> has_lift_model(models@, self, (#[trigger] self.lifts@[x]).1),
                forall|x: int, jj: int|
                    0 <= x < k && 0 <= jj < self.lifts@[x].1.cabin_doors@.len() ==> {
                        let lift2 = self.lifts@[x].1;
                        let idx2 = (#[trigger] self.lifts@[x].1.cabin_doors@[jj]).0;
                        let cd2 = self.lifts@[x].1.cabin_doors@[jj].1;
                        has_door_model(
                            models@,
                            cabin_door_name(lift2.properties.name.0@, idx2),
                            cd2.kind,
                            get_of(lift2.cabin_anchors@, cd2.reference_anchors.left)->0,
                            get_of(lift2.cabin_anchors@, cd2.reference_anchors.right)->0,
                            0,
                        )
                    },
                forall|x: int, jj: int, vv: int|
                    0 <= x < k && 0 <= jj < self.lifts@[x].1.cabin_doors@.len() && 0 <= vv
                        < self.lifts@[x].1.cabin_doors@[jj].1.visits@.len() ==> {
                        let lift2 = self.lifts@[x].1;
                        let idx2 = self.lifts@[x].1.cabin_doors@[jj].0;
                        let cd2 = self.lifts@[x].1.cabin_doors@[jj].1;
                        let lvl = get_of(
                            self.levels@,
                            #[trigger] self.lifts@[x].1.cabin_doors@[jj].1.visits@[vv],
                        )->0;
                        has_door_model(
                            models@,
                            shaft_door_name(
                                lvl.properties.name.0@,
                                lift2.properties.name.0@,
                                idx2,
                            ),
                            cd2.kind,
                            get_of(lift2.cabin_anchors@, cd2.reference_anchors.left)->0,
                            get_of(lift2.cabin_anchors@, cd2.reference_anchors.right)->0,
                            lvl.properties.elevation as int,
                        )
                    },
            decreases nk - k,
        {
            let ghost lift_g = self.lifts@[k as int].1;
            proof {
                assert(self.lifts@.skip(k as int)[0] == self.lifts@[k as int]);
                assert(self.lifts@.skip(k as int).drop_first() =~= self.lifts@.skip(k + 1));
                lemma_lifts_count_bounds(self.lifts@.skip(k + 1));
                lemma_cabin_count_bounds(lift_g.cabin_doors@);
            }
            let lift = &lfs[k].1;
            let la = match self.get_anchor(lift.properties.reference_anchors.left) {
                Some(a) => a,
                None => {
                    proof {
                        assert(lift_anchor_broken(self, lift_g.properties.reference_anchors.left));
                        assert(!lift_ok(self, &lift_g));
                        assert(!export_ok(self));
                    }
                    return Err(
                        SdfConversionError::BrokenAnchorReference(
                            lift.properties.reference_anchors.left,
                        ),
                    );
                },
            };
            let ra = match self.get_anchor(lift.properties.reference_anchors.right) {
                Some(a) => a,
                None => {
                    proof {
                        assert(lift_anchor_broken(self, lift_g.properties.reference_anchors.right));
                        assert(!lift_ok(self, &lift_g));
                        assert(!export_ok(self));
                    }
                    return Err(
                        SdfConversionError::BrokenAnchorReference(
                            lift.properties.reference_anchors.right,
                        ),
                    );
                },
            };
            proof {
                lemma_anchor_of_wf(self, lift_g.properties.reference_anchors.left);
                lemma_anchor_of_wf(self, lift_g.properties.reference_anchors.right);
            }
            let init_name: String = match &lift.properties.initial_level {
                None => {
                    proof {
                        assert(initial_level_missing(self));
                        assert(!lift_ok(self, &lift_g));
                        assert(!export_ok(self));
                    }
                    return Err(SdfConversionError::MissingInitialLevel);
                },
                Some(id) => match self.levels.get(*id) {
                    None => {
                        proof {
                            assert(level_ref_broken(self, lift_g.properties.initial_level->0));
                            assert(!lift_ok(self, &lift_g));
                            assert(!export_ok(self));
                        }
                        return Err(SdfConversionError::BrokenLevelReference(*id));
                    },
                    Some(lvl0) => lvl0.properties.name.0.clone(),
                },
            };
            let lift_name = lift.properties.name.0.as_str();
            let mut floors: Vec<FloorDescriptor> = Vec::new();
            let cds = lift.cabin_doors.entries();
            let ncd = cds.len();
            let ghost base_k = models@.len() as int;
            let mut j: usize = 0;
            proof {
                assert(lift_g.cabin_doors@.skip(0) =~= lift_g.cabin_doors@);
            }
            while j < ncd
                invariant
                    site_wf(self),
                    lfs@ == self.lifts@,
                    nk == self.lifts@.len(),
                    0 <= k < nk,
                    lift_g == self.lifts@[k as int].1,
                    *lift == lift_g,
                    cds@ == lift_g.cabin_doors@,
                    ncd == cds@.len(),
                    0 <= j <= ncd,
                    lift_name@ == lift_g.properties.name.0@,
                    anchor_of(self, lift_g.properties.reference_anchors.left) == Some(la),
                    anchor_of(self, lift_g.properties.reference_anchors.right) == Some(ra),
                    la.wf(),
                    ra.wf(),
                    match lift_g.properties.initial_level {
                        Some(id) => get_of(self.levels@, id) is Some && init_name@ == get_of(
                            self.levels@,
                            id,
                        )->0.properties.name.0@,
                        None => false,
                    },
                    models@.len() == base_k + cabin_doors_model_count(lift_g.cabin_doors@)
                        - cabin_doors_model_count(lift_g.cabin_doors@.skip(j as int)),
                    base_k == levels_total + lifts_model_count(self.lifts@) - lifts_model_count(
                        self.lifts@.skip(k as int),
                    ),
                    levels_total == levels_model_count(self.levels@),
                    forall|x: int|
                        0 <= x < self.levels@.len() ==> has_floor_model(
                            models@,
                            (#[trigger] self.levels@[x]).1,
                        ),
                    forall|x: int, jj: int|
                        0 <= x < self.levels@.len() && 0 <= jj
                            < self.levels@[x].1.doors@.len() ==> {
                            let lv = self.levels@[x].1;
                            let d = (#[trigger] self.levels@[x].1.doors@[jj]).1;
                            has_door_model(
                                models@,
                                d.name.0@,
                                d.kind,
                                anchor_of(self, d.anchors.left)->0,
                                anchor_of(self, d.anchors.right)->0,
                                lv.properties.elevation as int,
                            )
                        },
                    forall|x: int|
                        0 <= x < self.levels@.len() ==> level_doors_ok(
                            self,
                            (#[trigger] self.levels@[x]).1,
                        ),
                    forall|x: int| 0 <= x < k ==> lift_ok(self, &(#[trigger] self.lifts@[x]).1),
                    forall|x: int|
                        0 <= x < k ==> has_lift_model(models@, self, (#[trigger] self.lifts@[x]).1),
                    forall|x: int, jj: int|
                        0 <= x < k && 0 <= jj < self.lifts@[x].1.cabin_doors@.len() ==> {
                            let lift2 = self.lifts@[x].1;
                            let idx2 = (#[trigger] self.lifts@[x].1.cabin_doors@[jj]).0;
                            let cd2 = self.lifts@[x].1.cabin_doors@[jj].1;
                            has_door_model(
                                models@,
                                cabin_door_name(lift2.properties.name.0@, idx2),
                                cd2.kind,
                                get_of(lift2.cabin_anchors@, cd2.reference_anchors.left)->0,
                                get_of(lift2.cabin_anchors@, cd2.reference_anchors.right)->0,
                                0,
                            )
                        },
                    forall|x: int, jj: int, vv: int|
                        0 <= x < k && 0 <= jj < self.lifts@[x].1.cabin_doors@.len() && 0 <= vv
                            < self.lifts@[x].1.cabin_doors@[jj].1.visits@.len() ==> {
                            let lift2 = self.lifts@[x].1;
                            let idx2 = self.lifts@[x].1.cabin_doors@[jj].0;
                            let cd2 = self.lifts@[x].1.cabin_doors@[jj].1;
                            let lvl = get_of(
                                self.levels@,
                                #[trigger] self.lifts@[x].1.cabin_doors@[jj].1.visits@[vv],
                            )->0;
                            has_door_model(
                                models@,
                                shaft_door_name(
                                    lvl.properties.name.0@,
                                    lift2.properties.name.0@,
                                    idx2,
                                ),
                                cd2.kind,
                                get_of(lift2.cabin_anchors@, cd2.reference_anchors.left)->0,
                                get_of(lift2.cabin_anchors@, cd2.reference_anchors.right)->0,
                                lvl.properties.elevation as int,
                            )
                        },
                    forall|y: int|
                        0 <= y < floors@.len() ==> {
                            let fd = #[trigger] floors@[y];
                            &&& get_of(self.levels@, fd.level_id) is Some
                            &&& fd.name@ == get_of(
                                self.levels@,
                                fd.level_id,
                            )->0.properties.name.0@
                            &&& fd.elevation_mm == get_of(
                                self.levels@,
                                fd.level_id,
                            )->0.properties.elevation
                        },
                    forall|jj: int|
                        0 <= jj < j ==> cabin_door_refs_ok(&lift_g, (#[trigger] cds@[jj]).1)
                            && visits_ok(self, cds@[jj].1),
                    forall|jj: int|
                        0 <= jj < j ==> {
                            let idx2 = (#[trigger] cds@[jj]).0;
                            let cd2 = cds@[jj].1;
                            has_door_model(
                                models@,
                                cabin_door_name(lift_g.properties.name.0@, idx2),
                                cd2.kind,
                                get_of(lift_g.cabin_anchors@, cd2.reference_anchors.left)->0,
                                get_of(lift_g.cabin_anchors@, cd2.reference_anchors.right)->0,
                                0,
                            )
                        },
                    forall|jj: int, vv: int|
                        0 <= jj < j && 0 <= vv < cds@[jj].1.visits@.len() ==> {
                            let idx2 = cds@[jj].0;
                            let cd2 = cds@[jj].1;
                            let lvl = get_of(self.levels@, #[trigger] cds@[jj].1.visits@[vv])->0;
                            &&& get_of(self.levels@, cds@[jj].1.visits@[vv]) is Some
                            &&& has_door_model(
                                models@,
                                shaft_door_name(
                                    lvl.properties.name.0@,
                                    lift_g.properties.name.0@,
                                    idx2,
                                ),
                                cd2.kind,
                                get_of(lift_g.cabin_anchors@, cd2.reference_anchors.left)->0,
                                get_of(lift_g.cabin_anchors@, cd2.reference_anchors.right)->0,
                                lvl.properties.elevation as int,
                            )
                            &&& floors_have_visit(floors@, lvl, lift_g.properties.name.0@, idx2)
                        },
                decreases ncd - j,
            {
                let ghost cd_g = cds@[j as int].1;
                let ghost idx_g = cds@[j as int].0;
                proof {
                    assert(lift_g.cabin_doors@.skip(j as int)[0] == cds@[j as int]);
                    assert(lift_g.cabin_doors@.skip(j as int).drop_first()
                        =~= lift_g.cabin_doors@.skip(j + 1));
                    lemma_cabin_count_bounds(lift_g.cabin_doors@.skip(j + 1));
                }
                let idx = cds[j].0;
                let cd = &cds[j].1;
                let cl = match lift.cabin_anchors.get(cd.reference_anchors.left) {
                    Some(a) => *a,
                    None => {
                        proof {
                            assert(lift_anchor_broken(self, cd_g.reference_anchors.left));
                            assert(!cabin_door_refs_ok(&lift_g, lift_g.cabin_doors@[j as int].1));
                            assert(!lift_ok(self, &lift_g));
                            assert(!export_ok(self));
                        }
                        return Err(
                            SdfConversionError::BrokenAnchorReference(cd.reference_anchors.left),
                        );
                    },
                };
                let cr = match lift.cabin_anchors.get(cd.reference_anchors.right) {
                    Some(a) => *a,
                    None => {
                        proof {
                            assert(lift_anchor_broken(self, cd_g.reference_anchors.right));
                            assert(!cabin_door_refs_ok(&lift_g, lift_g.cabin_doors@[j as int].1));
                            assert(!lift_ok(self, &lift_g));
                            assert(!export_ok(self));
                        }
                        return Err(
                            SdfConversionError::BrokenAnchorReference(cd.reference_anchors.right),
                        );
                    },
                };
                proof {
                    lemma_get_of_member(lift_g.cabin_anchors@, cd_g.reference_anchors.left);
                    lemma_get_of_member(lift_g.cabin_anchors@, cd_g.reference_anchors.right);
                    assert(cl.wf() && cr.wf() && cd_g.kind.wf());
                }
                let cname = String::from_str("CabinDoor_").concat(lift_name).concat(
                    "_door_",
                ).concat(u32_to_dec(idx).as_str());
                let cabin_door = Door {
                    anchors: cd.reference_anchors,
                    name: NameInSite(cname.clone()),
                    kind: cd.kind,
                };
                let dm = match cabin_door.to_sdf(cl, cr, 0) {
                    Ok(m) => m,
                    Err(e) => {
                        return Err(e);
                    },
                };
                let ghost m2 = models@;
                models.push(dm);
                proof {
                    lemma_memberships_monotone(self, m2, models@);
                    assert(door_model_named(
                        cabin_door_name(lift_g.properties.name.0@, idx_g),
                        cd_g.kind,
                        cl,
                        cr,
                        0,
                        models@[m2.len() as int],
                    ));
                }
                let nv = cd.visits.len();
                let mut v: usize = 0;
                while v < nv
                    invariant
                        site_wf(self),
                        lfs@ == self.lifts@,
                        nk == self.lifts@.len(),
                        0 <= k < nk,
                        lift_g == self.lifts@[k as int].1,
                        *lift == lift_g,
                        cds@ == lift_g.cabin_doors@,
                        ncd == cds@.len(),
                        0 <= j < ncd,
                        cd_g == cds@[j as int].1,
                        *cd == cd_g,
                        idx == idx_g,
                        idx_g == cds@[j as int].0,
                        cd.visits@ == cd_g.visits@,
                        cd.reference_anchors == cd_g.reference_anchors,
                        cd.kind == cd_g.kind,
                        nv == cd_g.visits@.len(),
                        0 <= v <= nv,
                        lift_name@ == lift_g.properties.name.0@,
                        cname@ == cabin_door_name(lift_g.properties.name.0@, idx_g),
                        get_of(lift_g.cabin_anchors@, cd_g.reference_anchors.left) == Some(cl),
                        get_of(lift_g.cabin_anchors@, cd_g.reference_anchors.right) == Some(cr),
                        cl.wf(),
                        cr.wf(),
                        cd_g.kind.wf(),
                        anchor_of(self, lift_g.properties.reference_anchors.left) == Some(la),
                        anchor_of(self, lift_g.properties.reference_anchors.right) == Some(ra),
                        la.wf(),
                        ra.wf(),
                        match lift_g.properties.initial_level {
                            Some(id) => get_of(self.levels@, id) is Some && init_name@ == get_of(
                                self.levels@,
                                id,
                            )->0.properties.name.0@,
                            None => false,
                        },
                        models@.len() == base_k + cabin_doors_model_count(lift_g.cabin_doors@)
                            - cabin_doors_model_count(lift_g.cabin_doors@.skip(j + 1)) - (nv - v),
                        base_k == levels_total + lifts_model_count(self.lifts@)
                            - lifts_model_count(self.lifts@.skip(k as int)),
                        levels_total == levels_model_count(self.levels@),
                        forall|x: int|
                            0 <= x < self.levels@.len() ==> has_floor_model(
                                models@,
                                (#[trigger] self.levels@[x]).1,
                            ),
                        forall|x: int, jj: int|
                            0 <= x < self.levels@.len() && 0 <= jj
                                < self.levels@[x].1.doors@.len() ==> {
                                let lv = self.levels@[x].1;
                                let d = (#[trigger] self.levels@[x].1.doors@[jj]).1;
                                has_door_model(
                                    models@,
                                    d.name.0@,
                                    d.kind,
                                    anchor_of(self, d.anchors.left)->0,
                                    anchor_of(self, d.anchors.right)->0,
                                    lv.properties.elevation as int,
                                )
                            },
                        forall|x: int|
                            0 <= x < self.levels@.len() ==> level_doors_ok(
                                self,
                                (#[trigger] self.levels@[x]).1,
                            ),
                        forall|x: int| 0 <= x < k ==> lift_ok(self, &(#[trigger] self.lifts@[x]).1),
                        forall|x: int|
                            0 <= x < k ==> has_lift_model(
                                models@,
                                self,
                                (#[trigger] self.lifts@[x]).1,
                            ),
                        forall|x: int, jj: int|
                            0 <= x < k && 0 <= jj < self.lifts@[x].1.cabin_doors@.len() ==> {
                                let lift2 = self.lifts@[x].1;
                                let idx2 = (#[trigger] self.lifts@[x].1.cabin_doors@[jj]).0;
                                let cd2 = self.lifts@[x].1.cabin_doors@[jj].1;
                                has_door_model(
                                    models@,
                                    cabin_door_name(lift2.properties.name.0@, idx2),
                                    cd2.kind,
                                    get_of(lift2.cabin_anchors@, cd2.reference_anchors.left)->0,
                                    get_of(lift2.cabin_anchors@, cd2.reference_anchors.right)->0,
                                    0,
                                )
                            },
                        forall|x: int, jj: int, vv: int|
                            0 <= x < k && 0 <= jj < self.lifts@[x].1.cabin_doors@.len() && 0 <= vv
                                < self.lifts@[x].1.cabin_doors@[jj].1.visits@.len() ==> {
                                let lift2 = self.lifts@[x].1;
                                let idx2 = self.lifts@[x].1.cabin_doors@[jj].0;
                                let cd2 = self.lifts@[x].1.cabin_doors@[jj].1;
                                let lvl = get_of(
                                    self.levels@,
                                    #[trigger] self.lifts@[x].1.cabin_doors@[jj].1.visits@[vv],
                                )->0;
                                has_door_model(
                                    models@,
                                    shaft_door_name(
                                        lvl.properties.name.0@,
                                        lift2.properties.name.0@,
                                        idx2,
                                    ),
                                    cd2.kind,
                                    get_of(lift2.cabin_anchors@, cd2.reference_anchors.left)->0,
                                    get_of(lift2.cabin_anchors@, cd2.reference_anchors.right)->0,
                                    lvl.properties.elevation as int,
                                )
                            },
                        forall|jj: int|
                            0 <= jj < j ==> cabin_door_refs_ok(&lift_g, (#[trigger] cds@[jj]).1)
                                && visits_ok(self, cds@[jj].1),
                        forall|y: int|
                            0 <= y < floors@.len() ==> {
                                let fd = #[trigger] floors@[y];
                                &&& get_of(self.levels@, fd.level_id) is Some
                                &&& fd.name@ == get_of(
                                    self.levels@,
                                    fd.level_id,
                                )->0.properties.name.0@
                                &&& fd.elevation_mm == get_of(
                                    self.levels@,
                                    fd.level_id,
                                )->0.properties.elevation
                            },
                        cabin_door_refs_ok(&lift_g, cd_g),
                        forall|vv: int|
                            0 <= vv < v ==> get_of(
                                self.levels@,
                                #[trigger] cd_g.visits@[vv],
                            ) is Some,
                        forall|jj: int|
                            0 <= jj <= j ==> {
                                let idx2 = (#[trigger] cds@[jj]).0;
                                let cd2 = cds@[jj].1;
                                has_door_model(
                                    models@,
                                    cabin_door_name(lift_g.properties.name.0@, idx2),
                                    cd2.kind,
                                    get_of(lift_g.cabin_anchors@, cd2.reference_anchors.left)->0,
                                    get_of(lift_g.cabin_anchors@, cd2.reference_anchors.right)->0,
                                    0,
                                )
                            },
                        forall|jj: int, vv: int|
                            0 <= jj < j && 0 <= vv < cds@[jj].1.visits@.len() ==> {
                                let idx2 = cds@[jj].0;
                                let cd2 = cds@[jj].1;
                                let lvl = get_of(self.levels@, #[trigger] cds@[jj].1.visits@[vv])->0;
                                &&& get_of(self.levels@, cds@[jj].1.visits@[vv]) is Some
                                &&& has_door_model(
                                    models@,
                                    shaft_door_name(
                                        lvl.properties.name.0@,
                                        lift_g.properties.name.0@,
                                        idx2,
                                    ),
                                    cd2.kind,
                                    get_of(lift_g.cabin_anchors@, cd2.reference_anchors.left)->0,
                                    get_of(lift_g.cabin_anchors@, cd2.reference_anchors.right)->0,
                                    lvl.properties.elevation as int,
                                )
                                &&& floors_have_visit(floors@, lvl, lift_g.properties.name.0@, idx2)
                            },
                        forall|vv: int|
                            0 <= vv < v ==> {
                                let lvl = get_of(self.levels@, #[trigger] cd_g.visits@[vv])->0;
                                &&& has_door_model(
                                    models@,
                                    shaft_door_name(
                                        lvl.properties.name.0@,
                                        lift_g.properties.name.0@,
                                        idx_g,
                                    ),
                                    cd_g.kind,
                                    cl,
                                    cr,
                                    lvl.properties.elevation as int,
                                )
                                &&& floors_have_visit(floors@, lvl, lift_g.properties.name.0@, idx_g)
                            },
                    decreases nv - v,
                {
                    let vid = cd.visits[v];
                    let vlvl = match self.levels.get(vid) {
                        Some(l) => l,
                        None => {
                            proof {
                                assert(level_ref_broken(self, cd_g.visits@[v as int]));
                                assert(!visits_ok(self, lift_g.cabin_doors@[j as int].1));
                                assert(!lift_ok(self, &lift_g));
                                assert(!export_ok(self));
                            }
                            return Err(SdfConversionError::BrokenLevelReference(vid));
                        },
                    };
                    proof {
                        lemma_get_of_member(self.levels@, cd_g.visits@[v as int]);
                        assert(-MAX_COORD_MM <= vlvl.properties.elevation <= MAX_COORD_MM);
                    }
                    let sname = String::from_str("ShaftDoor_").concat(
                        vlvl.properties.name.0.as_str(),
                    ).concat("_").concat(lift_name).concat("_door_").concat(
                        u32_to_dec(idx).as_str(),
                    );
                    let shaft_door = Door {
                        anchors: cd.reference_anchors,
                        name: NameInSite(sname.clone()),
                        kind: cd.kind,
                    };
                    let sm = match shaft_door.to_sdf(cl, cr, vlvl.properties.elevation) {
                        Ok(m) => m,
                        Err(e) => {
                            return Err(e);
                        },
                    };
                    let ghost m3 = models@;
                    models.push(sm);
                    proof {
                        lemma_memberships_monotone(self, m3, models@);
                        assert(door_model_named(
                            shaft_door_name(
                                get_of(self.levels@, cd_g.visits@[v as int])->0.properties.name.0@,
                                lift_g.properties.name.0@,
                                idx_g,
                            ),
                            cd_g.kind,
                            cl,
                            cr,
                            get_of(
                                self.levels@,
                                cd_g.visits@[v as int],
                            )->0.properties.elevation as int,
                            models@[m3.len() as int],
                        ));
                    }
                    // Record the door pair on this level's floor descriptor.
                    let pair = DoorPair { cabin_door: cname.clone(), shaft_door: sname };
                    let found = find_floor(&floors, vid);
                    let ghost floors0 = floors@;
                    match found {
                        Some(fi) => {
                            let fd = &mut floors[fi];
                            fd.door_pairs.push(pair);
                        },
                        None => {
                            floors.push(
                                FloorDescriptor {
                                    level_id: vid,
                                    name: vlvl.properties.name.0.clone(),
                                    elevation_mm: vlvl.properties.elevation,
                                    door_pairs: vec![pair],
                                },
                            );
                        },
                    }
                    proof {
                        lemma_floors_monotone(floors0, floors@);
                        let lvl_v = get_of(self.levels@, cd_g.visits@[v as int])->0;
                        let fi_w: int = match found {
                            Some(fi) => fi as int,
                            None => floors0.len() as int,
                        };
                        let pi_w: int = floors@[fi_w].door_pairs@.len() - 1;
                        assert(floors@[fi_w].door_pairs@[pi_w].cabin_door@ == cabin_door_name(
                            lift_g.properties.name.0@,
                            idx_g,
                        ));
                        assert(floor_has_pair(
                            floors@[fi_w],
                            lvl_v.properties.name.0@,
                            lift_g.properties.name.0@,
                            idx_g,
                        ));
                        assert(floors_have_visit(
                            floors@,
                            lvl_v,
                            lift_g.properties.name.0@,
                            idx_g,
                        ));
                    }
                    v += 1;
                }
                j += 1;
            }
            // The lift body, posed at the cabin center, with its controller.
            let (ox, oy) = match &lift.properties.cabin {
                LiftCabin::Rect(c) => {
                    proof {
                        assert(match lift_g.properties.cabin {
                            LiftCabin::Rect(cc) => cc.wf(),
                        });
                    }
                    c.center_offset()
                },
            };
            let px = floor_half(la.x + ra.x) + ox;
            let py = floor_half(la.y + ra.y) + oy;
            let lift_uri = String::from_str("meshes/").concat(lift_name).concat(".glb");
            let ghost m4 = models@;
            models.push(
                SdfModel {
                    name: lift.properties.name.0.clone(),
                    is_static: Some(lift.properties.is_static),
                    pose: Some(
                        SdfPose { x: px, y: py, z: 0, rot: SdfRot::Given(Rotation::Yaw(Angle(0))) },
                    ),
                    links: vec![
                        SdfLink {
                            name: String::from_str("link"),
                            collisions: vec![
                                SdfCollision {
                                    name: String::from_str("collision"),
                                    mesh_uri: lift_uri.clone(),
                                    collide_bitmask: Some(String::from_str("0x02")),
                                },
                            ],
                            visuals: vec![
                                SdfVisual { name: String::from_str("visual"), mesh_uri: lift_uri },
                            ],
                            inertial: None,
                        },
                    ],
                    joints: Vec::new(),
                    plugins: vec![
                        SdfPlugin::Lift(
                            LiftPluginData {
                                lift_name: lift.properties.name.0.clone(),
                                initial_level: init_name,
                                params: lift_param_vec(),
                                floors,
                            },
                        ),
                    ],
                },
            );
            proof {
                lemma_memberships_monotone(self, m4, models@);
                assert(lift_model_matches(self, lift_g, models@[m4.len() as int]));
                assert(lift_ok(self, &lift_g));
                assert(lift_g.cabin_doors@.skip(ncd as int)
                    =~= Seq::<(u32, LiftCabinDoor)>::empty());
            }
            k += 1;
        }
        proof {
            assert(self.lifts@.skip(nk as int) =~= Seq::<(u32, Lift)>::empty());
            assert(export_ok(self));
        }

        let world = SdfWorld {
            name: self.properties.name.0.clone(),
            models,
            lights: vec![SdfLight { name: String::from_str("sun"), cast_shadows: true }],
            plugins: vec![
                SdfPlugin::Named {
                    name: String::from_str("gz::sim::systems::Physics"),
                    filename: String::from_str("libgz-sim-physics-system.so"),
                },
                SdfPlugin::Named {
                    name: String::from_str("gz::sim::systems::UserCommands"),
                    filename: String::from_str("libgz-sim-user-commands-system.so"),
                },
                SdfPlugin::Named {
                    name: String::from_str("gz::sim::systems::SceneBroadcaster"),
                    filename: String::from_str("libgz-sim-scene-broadcaster-system.so"),
                },
                SdfPlugin::Named {
                    name: String::from_str("door"),
                    filename: String::from_str("libdoor.so"),
                },
                SdfPlugin::Named {
                    name: String::from_str("lift"),
                    filename: String::from_str("liblift.so"),
                },
            ],
        };
        Ok(SdfRoot { version: String::from_str("1.7"), worlds: vec![world] })
    }
}

/// Model counts are never negative.
proof fn lemma_levels_count_bounds(levels: Seq<(u32, Level)>)
    ensures
        levels_model_count(levels) >= 0,
    decreases levels.len(),
{
    if levels.len() > 0 {
        lemma_levels_count_bounds(levels.drop_first());
    }
}

/// The position of the floor descriptor for a level, if one exists yet.
fn find_floor(floors: &Vec<FloorDescriptor>, vid: u32) -> (r: Option<usize>)
    ensures
        match r {
            Some(fi) => fi < floors@.len() && floors@[fi as int].level_id == vid,
            None => true,
        },
{
    let nf = floors.len();
    let mut fi: usize = 0;
    while fi < nf
        invariant
            nf == floors@.len(),
            0 <= fi <= nf,
        decreases nf - fi,
    {
        if floors[fi].level_id == vid {
            return Some(fi);
        }
        fi += 1;
    }
    None
}

/// Lift model counts are never negative.
proof fn lemma_lifts_count_bounds(lifts: Seq<(u32, Lift)>)
    ensures
        lifts_model_count(lifts) >= 0,
    decreases lifts.len(),
{
    if lifts.len() > 0 {
        lemma_lifts_count_bounds(lifts.drop_first());
        lemma_cabin_count_bounds(lifts[0].1.cabin_doors@);
    }
}

/// Cabin-door model counts are never negative.
proof fn lemma_cabin_count_bounds(cds: Seq<(u32, LiftCabinDoor)>)
    ensures
        cabin_doors_model_count(cds) >= 0,
    decreases cds.len(),
{
    if cds.len() > 0 {
        lemma_cabin_count_bounds(cds.drop_first());
    }
}

/// Door pairs already recorded survive adding more pairs and floors.
proof fn lemma_floors_monotone(a: Seq<FloorDescriptor>, b: Seq<FloorDescriptor>)
    requires
        a.len() <= b.len(),
        forall|y: int|
            0 <= y < a.len() ==> (#[trigger] b[y]).name@ == a[y].name@ && b[y].elevation_mm
                == a[y].elevation_mm && a[y].door_pairs@.len() <= b[y].door_pairs@.len() && (forall|
                p: int,
            |
                0 <= p < a[y].door_pairs@.len() ==> (#[trigger] b[y].door_pairs@[p])
                    == a[y].door_pairs@[p]),
    ensures
        forall|lvl: Level, lift_name: Seq<char>, idx: u32|
            #[trigger] floors_have_visit(a, lvl, lift_name, idx) ==> floors_have_visit(
                b,
                lvl,
                lift_name,
                idx,
            ),
{
    assert forall|lvl: Level, lift_name: Seq<char>, idx: u32|
        #[trigger] floors_have_visit(a, lvl, lift_name, idx) implies floors_have_visit(
        b,
        lvl,
        lift_name,
        idx,
    ) by {
        let fi = choose|fi: int|
            0 <= fi < a.len() && (#[trigger] a[fi]).name@ == lvl.properties.name.0@
                && a[fi].elevation_mm == lvl.properties.elevation && floor_has_pair(
                a[fi],
                lvl.properties.name.0@,
                lift_name,
                idx,
            );
        let pi = choose|pi: int|
            0 <= pi < a[fi].door_pairs@.len() && (#[trigger] a[fi].door_pairs@[pi]).cabin_door@
                == cabin_door_name(lift_name, idx) && a[fi].door_pairs@[pi].shaft_door@
                == shaft_door_name(lvl.properties.name.0@, lift_name, idx);
        assert(b[fi].door_pairs@[pi] == a[fi].door_pairs@[pi]);
        assert(floor_has_pair(b[fi], lvl.properties.name.0@, lift_name, idx));
    }
}

/// Export abort on a broken level reference: when the one thing wrong with
/// a site is that a lift refers to a level ID absent from the document —
/// through a cabin door's visit or its initial level — the export fails
/// outright with a broken-level-reference error naming that ID, and no
/// world description is produced.
pub proof fn lemma_export_abort_on_broken_level(
    s: &Site,
    r: Result<SdfRoot, SdfConversionError>,
    bad: u32,
)
    requires
        to_sdf_post(s, r),
        level_ref_broken(s, bad),
        forall|id: u32| !door_anchor_broken(s, id) && !lift_anchor_broken(s, id),
        !initial_level_missing(s),
        forall|id: u32| level_ref_broken(s, id) ==> id == bad,
    ensures
        r == Err::<SdfRoot, SdfConversionError>(SdfConversionError::BrokenLevelReference(bad)),
{
    let i = choose|i: int|
        0 <= i < s.lifts@.len() && {
            let lift = (#[trigger] s.lifts@[i]).1;
            ||| lift.properties.initial_level == Some(bad)
            ||| (exists|j: int, v: int|
                0 <= j < lift.cabin_doors@.len() && 0 <= v
                    < lift.cabin_doors@[j].1.visits@.len() && #[trigger] lift.cabin_doors@[j].1.visits@[v]
                    == bad)
        };
    let lift = s.lifts@[i].1;
    assert(!lift_ok(s, &lift)) by {
        if lift.properties.initial_level == Some(bad) {
        } else {
            let (j, v): (int, int) = choose|j: int, v: int|
                0 <= j < lift.cabin_doors@.len() && 0 <= v
                    < lift.cabin_doors@[j].1.visits@.len() && #[trigger] lift.cabin_doors@[j].1.visits@[v]
                    == bad;
            assert(!visits_ok(s, lift.cabin_doors@[j].1));
        }
    }
    assert(!export_ok(s));
    match r {
        Ok(_) => {
            assert(false);
        },
        Err(e) => match e {
            SdfConversionError::UnsupportedAssetType => {
                assert(false);
            },
            SdfConversionError::BrokenAnchorReference(id) => {
                assert(!door_anchor_broken(s, id) && !lift_anchor_broken(s, id));
                assert(false);
            },
            SdfConversionError::BrokenLevelReference(id) => {
                assert(id == bad);
            },
            SdfConversionError::MissingInitialLevel => {
                assert(false);
            },
        },
    }
}
} // verus!
