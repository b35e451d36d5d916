//! Map, robot and session state for the externally driven editor: parsed
//! map documents with their markers, the robot registry the shell fills
//! from outside events, and the conversion of map markers into drawing,
//! anchor and location spawns with densely assigned IDs.
//!
//! Coordinates are millimeters, yaws microradians.

use vstd::prelude::*;
use vstd::string::StringExecFns;

verus! {

/// A robot's pose as reported from outside.
#[derive(Clone, Debug)]
pub struct RobotPose {
    pub name: String,
    pub x: i64,
    pub y: i64,
    pub yaw: i64,
    pub level_name: String,
}

/// One marker of a map: a named point with its classification tags.
#[derive(Clone, Debug)]
pub struct MapMarker {
    pub id: String,
    pub name: String,
    pub x: i64,
    pub y: i64,
    pub marker_types: Vec<String>,
}

/// A map document as the shell hands it over: its image, geometry and
/// markers.
pub struct MapData {
    pub name: String,
    pub image_url: String,
    /// Map origin, millimeters.
    pub origin_x: i64,
    pub origin_y: i64,
    /// Millimeters per pixel.
    pub resolution: i64,
    /// Map height in pixels.
    pub height_px: i64,
    pub markers: Vec<MapMarker>,
}

impl MapData {
    pub open spec fn wf(&self) -> bool {
        &&& -1_000_000_000 <= self.origin_x <= 1_000_000_000
        &&& -1_000_000_000 <= self.origin_y <= 1_000_000_000
        &&& 0 <= self.resolution <= 1_000_000
        &&& 0 <= self.height_px <= 1_000_000
        &&& forall|i: int|
            0 <= i < self.markers@.len() ==> -1_000_000_000 <= (#[trigger] self.markers@[i]).x
                <= 1_000_000_000 && -1_000_000_000 <= self.markers@[i].y <= 1_000_000_000
    }
}

/// What the name of a location tag means.
#[derive(Clone, Copy, Debug, PartialEq, Eq, Structural)]
pub enum LocationTag {
    Charger,
    ParkingSpot,
    HoldingPoint,
}

/// The drawing spawned for a map.
#[derive(Clone, Debug)]
pub struct DrawingSpawn {
    pub id: u32,
    pub name: String,
    pub source_url: String,
    /// Drawing scale, thousandths of pixels per meter.
    pub pixels_per_meter_milli: u32,
}

/// An anchor spawned for a marker.
#[derive(Clone, Copy, Debug, PartialEq, Eq, Structural)]
pub struct AnchorSpawn {
    pub id: u32,
    pub x: i64,
    pub y: i64,
}

/// A location spawned for a marker, anchored by ID.
#[derive(Clone, Debug)]
pub struct LocationSpawn {
    pub id: u32,
    pub name: String,
    pub anchor: u32,
    pub tags: Vec<LocationTag>,
}

/// The uppercase equivalent of a string.
pub uninterp spec fn upper_of(s: Seq<char>) -> Seq<char>;

/// Relies on str::to_uppercase: the uppercase equivalent of the string,
/// a function of its characters alone.
#[verifier::external_body]
fn to_upper(s: &str) -> (r: String)
    ensures
        r@ == upper_of(s@),
        s@.len() == 0 ==> r@.len() == 0,
{
    s.to_uppercase()
}

/// The tags a marker's type names classify to: `CHARGER`, `PARKING` and
/// `HOLDING`, compared after uppercasing; anything else contributes none.
pub open spec fn tags_of_types(ts: Seq<String>) -> Seq<LocationTag>
    decreases ts.len(),
{
    if ts.len() == 0 {
        Seq::empty()
    } else {
        (if upper_of(ts[0]@) == "CHARGER"@ {
            seq![LocationTag::Charger]
        } else if upper_of(ts[0]@) == "PARKING"@ {
            seq![LocationTag::ParkingSpot]
        } else if upper_of(ts[0]@) == "HOLDING"@ {
            seq![LocationTag::HoldingPoint]
        } else {
            Seq::empty()
        }) + tags_of_types(ts.drop_first())
    }
}

/// Classify a marker's type names into location tags.
pub fn classify_marker_types(ts: &Vec<String>) -> (r: Vec<LocationTag>)
    ensures
        r@ == tags_of_types(ts@),
{
    let mut tags: Vec<LocationTag> = Vec::new();
    let n = ts.len();
    let mut i: usize = 0;
    proof {
        assert(ts@.skip(0) =~= ts@);
    }
    while i < n
        invariant
            n == ts@.len(),
            0 <= i <= n,
            tags@ + tags_of_types(ts@.skip(i as int)) == tags_of_types(ts@),
        decreases n - i,
    {
        proof {
            assert(ts@.skip(i as int)[0] == ts@[i as int]);
            assert(ts@.skip(i as int).drop_first() =~= ts@.skip(i + 1));
        }
        let upper = to_upper(ts[i].as_str());
        if upper == String::from_str("CHARGER") {
            tags.push(LocationTag::Charger);
        } else if upper == String::from_str("PARKING") {
            tags.push(LocationTag::ParkingSpot);
        } else if upper == String::from_str("HOLDING") {
            tags.push(LocationTag::HoldingPoint);
        }
        proof {
            assert(tags@ + tags_of_types(ts@.skip(i + 1)) =~= tags_of_types(ts@));
        }
        i += 1;
    }
    proof {
        assert(ts@.skip(n as int) =~= Seq::<String>::empty());
        assert(tags@ =~= tags_of_types(ts@));
    }
    tags
}

/// The marker-to-anchor translation: the marker shifted by the map origin,
/// nudged right by the marker icon's width, and measured from the map's
/// top edge.
pub open spec fn marker_anchor_x(map: &MapData, m: MapMarker) -> int {
    m.x - map.origin_x + 200
}

pub open spec fn marker_anchor_y(map: &MapData, m: MapMarker) -> int {
    m.y - (map.origin_y + map.height_px * map.resolution)
}

/// Convert a map's markers into spawns: one drawing for the map itself,
/// then one anchor and one location per marker, with IDs assigned densely
/// from `first_id` in conversion order.
pub fn milestones_to_spawns(map: &MapData, first_id: u32) -> (r: (
    DrawingSpawn,
    Vec<AnchorSpawn>,
    Vec<LocationSpawn>,
))
    requires
        map.wf(),
        first_id + 1 + 2 * map.markers@.len() <= u32::MAX,
    ensures
        r.0.id == first_id,
        r.0.name@ == map.name@,
        r.0.source_url@ == map.image_url@,
        r.0.pixels_per_meter_milli == 20_000u32,
        r.1@.len() == map.markers@.len(),
        r.2@.len() == map.markers@.len(),
        forall|i: int|
            0 <= i < map.markers@.len() ==> (#[trigger] r.1@[i]).id == first_id + 1 + 2 * i
                && r.1@[i].x == marker_anchor_x(map, map.markers@[i]) && r.1@[i].y
                == marker_anchor_y(map, map.markers@[i]),
        forall|i: int|
            0 <= i < map.markers@.len() ==> (#[trigger] r.2@[i]).id == first_id + 2 + 2 * i
                && r.2@[i].anchor == first_id + 1 + 2 * i && r.2@[i].name@
                == map.markers@[i].name@ && r.2@[i].tags@ == tags_of_types(
                map.markers@[i].marker_types@,
            ),
{
    let drawing = DrawingSpawn {
        id: first_id,
        name: String::from_str(map.name.as_str()),
        source_url: String::from_str(map.image_url.as_str()),
        pixels_per_meter_milli: 20_000,
    };
    let mut anchors: Vec<AnchorSpawn> = Vec::new();
    let mut locations: Vec<LocationSpawn> = Vec::new();
    let n = map.markers.len();
    proof {
        assert(0 <= map.height_px * map.resolution <= 1_000_000_000_000i64) by (nonlinear_arith)
            requires
                0 <= map.height_px <= 1_000_000,
                0 <= map.resolution <= 1_000_000,
        ;
    }
    let y_offset = map.origin_y + map.height_px * map.resolution;
    let mut i: usize = 0;
    while i < n
        invariant
            map.wf(),
            n == map.markers@.len(),
            first_id + 1 + 2 * n <= u32::MAX,
            y_offset == map.origin_y + map.height_px * map.resolution,
            -1_100_000_000_000i64 <= y_offset <= 1_100_000_000_000i64,
            0 <= i <= n,
            anchors@.len() == i,
            locations@.len() == i,
            forall|x: int|
                0 <= x < i ==> (#[trigger] anchors@[x]).id == first_id + 1 + 2 * x
                    && anchors@[x].x == marker_anchor_x(map, map.markers@[x]) && anchors@[x].y
                    == marker_anchor_y(map, map.markers@[x]),
            forall|x: int|
                0 <= x < i ==> (#[trigger] locations@[x]).id == first_id + 2 + 2 * x
                    && locations@[x].anchor == first_id + 1 + 2 * x && locations@[x].name@
                    == map.markers@[x].name@ && locations@[x].tags@ == tags_of_types(
                    map.markers@[x].marker_types@,
                ),
        decreases n - i,
    {
        let ghost old_anchors = anchors@;
        let ghost old_locations = locations@;
        let m = &map.markers[i];
        proof {
            assert(-1_000_000_000 <= map.markers@[i as int].x <= 1_000_000_000);
        }
        let anchor_id = first_id + 1 + 2 * (i as u32);
        let location_id = first_id + 2 + 2 * (i as u32);
        anchors.push(
            AnchorSpawn { id: anchor_id, x: m.x - map.origin_x + 200, y: m.y - y_offset },
        );
        locations.push(
            LocationSpawn {
                id: location_id,
                name: String::from_str(m.name.as_str()),
                anchor: anchor_id,
                tags: classify_marker_types(&m.marker_types),
            },
        );
        i += 1;
    }
    (drawing, anchors, locations)
}

/// The robot ID stored last under a list index.
pub open spec fn last_robot(s: Seq<(u32, String)>, k: u32) -> Option<String>
    decreases s.len(),
{
    if s.len() == 0 {
        None
    } else if s.last().0 == k {
        Some(s.last().1)
    } else {
        last_robot(s.drop_last(), k)
    }
}

/// The pose stored last under a robot ID.
pub open spec fn last_pose(s: Seq<(String, RobotPose)>, k: Seq<char>) -> Option<RobotPose>
    decreases s.len(),
{
    if s.len() == 0 {
        None
    } else if s.last().0@ == k {
        Some(s.last().1)
    } else {
        last_pose(s.drop_last(), k)
    }
}

/// The robot registry the shell fills from outside events: which robot ID
/// sits at which list index, and each robot's last reported pose. A later
/// entry for the same key overrides an earlier one.
pub struct RobotRegistry {
    robots: Vec<(u32, String)>,
    poses: Vec<(String, RobotPose)>,
}

impl RobotRegistry {
    pub closed spec fn robots_view(&self) -> Seq<(u32, String)> {
        self.robots@
    }

    pub closed spec fn poses_view(&self) -> Seq<(String, RobotPose)> {
        self.poses@
    }

    pub fn new() -> (r: Self)
        ensures
            r.robots_view() == Seq::<(u32, String)>::empty(),
            r.poses_view() == Seq::<(String, RobotPose)>::empty(),
    {
        RobotRegistry { robots: Vec::new(), poses: Vec::new() }
    }

    /// Register the robot at a list index.
    pub fn add_robot(&mut self, index: u32, id: &str)
        ensures
            final(self).robots_view().len() == old(self).robots_view().len() + 1,
            final(self).robots_view().last().0 == index,
            final(self).robots_view().last().1@ == id@,
            forall|x: int|
                0 <= x < old(self).robots_view().len() ==> #[trigger] final(self).robots_view()[x]
                    == old(self).robots_view()[x],
            final(self).poses_view() == old(self).poses_view(),
    {
        self.robots.push((index, String::from_str(id)));
    }

    /// The robot ID last registered at a list index.
    pub fn get_robot_id(&self, index: u32) -> (r: Option<&String>)
        ensures
            match r {
                Some(v) => last_robot(self.robots_view(), index) == Some(*v),
                None => last_robot(self.robots_view(), index) is None,
            },
    {
        let n = self.robots.len();
        let mut i: usize = n;
        proof {
            assert(self.robots@.take(n as int) =~= self.robots@);
        }
        while i > 0
            invariant
                n == self.robots@.len(),
                0 <= i <= n,
                last_robot(self.robots_view(), index) == last_robot(
                    self.robots@.take(i as int),
                    index,
                ),
            decreases i,
        {
            i -= 1;
            proof {
                assert(self.robots@.take(i + 1).last() == self.robots@[i as int]);
                assert(self.robots@.take(i + 1).drop_last() =~= self.robots@.take(i as int));
            }
            if self.robots[i].0 == index {
                return Some(&self.robots[i].1);
            }
        }
        proof {
            assert(self.robots@.take(0) =~= Seq::<(u32, String)>::empty());
        }
        None
    }

    /// Record a robot's last reported pose.
    pub fn add_robot_pose(&mut self, id: String, pose: RobotPose)
        ensures
            final(self).poses_view() == old(self).poses_view().push((id, pose)),
            final(self).robots_view() == old(self).robots_view(),
    {
        self.poses.push((id, pose));
    }

    /// A robot's last reported pose.
    pub fn get_robot_pose(&self, id: &str) -> (r: Option<&RobotPose>)
        ensures
            match r {
                Some(v) => last_pose(self.poses_view(), id@) == Some(*v),
                None => last_pose(self.poses_view(), id@) is None,
            },
    {
        let n = self.poses.len();
        let mut i: usize = n;
        let key = String::from_str(id);
        proof {
            assert(self.poses@.take(n as int) =~= self.poses@);
        }
        while i > 0
            invariant
                n == self.poses@.len(),
                key@ == id@,
                0 <= i <= n,
                last_pose(self.poses_view(), id@) == last_pose(self.poses@.take(i as int), id@),
            decreases i,
        {
            i -= 1;
            proof {
                assert(self.poses@.take(i + 1).last() == self.poses@[i as int]);
                assert(self.poses@.take(i + 1).drop_last() =~= self.poses@.take(i as int));
            }
            if self.poses[i].0 == key {
                return Some(&self.poses[i].1);
            }
        }
        proof {
            assert(self.poses@.take(0) =~= Seq::<(String, RobotPose)>::empty());
        }
        None
    }
}

/// Which map of the source list is selected, and which mode the embedding
/// page put the editor in.
pub struct EditorSession {
    pub map_index: u32,
    pub site_mode: String,
}

impl EditorSession {
    pub fn new() -> (r: Self)
        ensures
            r.map_index == 0,
            r.site_mode@ == Seq::<char>::empty(),
    {
        EditorSession { map_index: 0, site_mode: String::new() }
    }

    /// Select a map from the source list.
    pub fn set_selected_map_index(&mut self, map_index: u32)
        ensures
            final(self).map_index == map_index,
            final(self).site_mode == old(self).site_mode,
    {
        self.map_index = map_index;
    }

    /// Record the mode the embedding page reported.
    pub fn set_site_mode(&mut self, mode: String)
        ensures
            final(self).site_mode == mode,
            final(self).map_index == old(self).map_index,
    {
        self.site_mode = mode;
    }

    /// Whether the page put the editor in its read-only view mode.
    pub fn is_site_in_view_mode(&self) -> (r: bool)
        ensures
            r == (self.site_mode@ == "VIEW_MODE"@),
    {
        self.site_mode == String::from_str("VIEW_MODE")
    }
}

} // verus!
