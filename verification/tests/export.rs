use rmf_site_core::ids::IdMap;
use rmf_site_core::sdf::{
    JointType, SdfConversionError, SdfPlugin, SdfRot,
};
use rmf_site_core::site::{
    Anchor, AnchorPair, Door, DoorType, Level, LevelProperties, Lift, LiftCabin, LiftCabinDoor,
    LiftProperties, NameInSite, RectCabin, Site, SiteProperties,
};
use rmf_site_core::Side;

fn empty_site(name: &str) -> Site {
    Site {
        properties: SiteProperties {
            name: NameInSite(name.to_string()),
        },
        anchors: IdMap::new(),
        levels: IdMap::new(),
        lifts: IdMap::new(),
    }
}

fn single_sliding_door(left: u32, right: u32, name: &str) -> Door {
    Door {
        anchors: AnchorPair { left, right },
        name: NameInSite(name.to_string()),
        kind: DoorType::SingleSliding {
            towards: Side::Right,
        },
    }
}

/// Anchors at (0,0) and (2,0) meters, elevation 0: a single sliding door
/// has length 2.0 m, center (1.0, 0.0), and a prismatic joint with travel
/// limits [0, 2.0].
#[test]
fn door_geometry_example() {
    let door = single_sliding_door(1, 2, "main_door");
    let left = Anchor { x: 0, y: 0 };
    let right = Anchor { x: 2000, y: 0 };
    let model = door.to_sdf(left, right, 0).unwrap();
    assert_eq!(model.name, "main_door".to_string());
    let pose = model.pose.unwrap();
    assert_eq!(pose.x, 1000);
    assert_eq!(pose.y, 0);
    assert_eq!(pose.z, 0);
    assert_eq!(pose.rot, SdfRot::Heading { dx: -2000, dy: 0 });
    assert_eq!(model.joints.len(), 1);
    let joint = &model.joints[0];
    assert_eq!(joint.name, "joint".to_string());
    assert_eq!(joint.jtype, JointType::Prismatic);
    let axis = joint.axis.unwrap();
    assert_eq!(axis.lower, 0);
    assert_eq!(axis.upper, 2000);
    assert_eq!((axis.x, axis.y, axis.z), (0, -1000, 0));
    assert_eq!(model.links.len(), 1);
    assert_eq!(model.links[0].name, "body".to_string());
    assert_eq!(
        model.links[0].collisions[0].mesh_uri,
        "meshes/main_door_body.glb".to_string()
    );
}

#[test]
fn double_sliding_door_split() {
    let door = Door {
        anchors: AnchorPair { left: 1, right: 2 },
        name: NameInSite("double".to_string()),
        kind: DoorType::DoubleSliding {
            left_right_ratio_milli: 1000,
        },
    };
    let left = Anchor { x: 0, y: 0 };
    let right = Anchor { x: 4000, y: 0 };
    let model = door.to_sdf(left, right, 0).unwrap();
    assert_eq!(model.joints.len(), 2);
    // An even split: each panel covers half of the 4 m span.
    assert_eq!(model.joints[0].name, "right_joint".to_string());
    assert_eq!(model.joints[0].axis.unwrap().upper, 2000);
    assert_eq!(model.joints[1].name, "left_joint".to_string());
    assert_eq!(model.joints[1].axis.unwrap().lower, -2000);
    assert_eq!(model.links.len(), 2);
}

#[test]
fn swing_door_limits() {
    let door = Door {
        anchors: AnchorPair { left: 1, right: 2 },
        name: NameInSite("swing".to_string()),
        kind: DoorType::SingleSwing {
            pivot_on: Side::Left,
            swing: rmf_site_core::site::Swing::Forward(rmf_site_core::site::Angle(-1_570_796)),
        },
    };
    let model = door
        .to_sdf(Anchor { x: 0, y: 0 }, Anchor { x: 1000, y: 0 }, 0)
        .unwrap();
    let joint = &model.joints[0];
    assert_eq!(joint.jtype, JointType::Revolute);
    let axis = joint.axis.unwrap();
    // The travel limit is the swing angle's magnitude.
    assert_eq!(axis.lower, 0);
    assert_eq!(axis.upper, 1_570_796);
}

#[test]
fn empty_site_exports_fixed_furniture() {
    let site = empty_site("blank");
    let root = site.to_sdf().unwrap();
    assert_eq!(root.version, "1.7".to_string());
    assert_eq!(root.worlds.len(), 1);
    let world = &root.worlds[0];
    assert_eq!(world.name, "blank".to_string());
    assert_eq!(world.models.len(), 0);
    assert_eq!(world.lights.len(), 1);
    assert_eq!(world.lights[0].name, "sun".to_string());
    assert_eq!(world.plugins.len(), 5);
}

#[test]
fn site_export_emits_floor_and_door_models() {
    let mut site = empty_site("depot");
    let mut anchors = IdMap::new();
    anchors.insert(1, Anchor { x: 0, y: 0 });
    anchors.insert(2, Anchor { x: 2000, y: 0 });
    let mut doors = IdMap::new();
    doors.insert(3, single_sliding_door(1, 2, "front"));
    let level = Level {
        properties: LevelProperties {
            name: NameInSite("L1".to_string()),
            elevation: 0,
        },
        anchors,
        doors,
    };
    let mut levels = IdMap::new();
    levels.insert(10, level);
    site.levels = levels;
    let root = site.to_sdf().unwrap();
    let world = &root.worlds[0];
    assert_eq!(world.models.len(), 2);
    assert_eq!(world.models[0].name, "level_L1".to_string());
    assert_eq!(
        world.models[0].links[0].collisions[0].mesh_uri,
        "meshes/level_L1_collision.glb".to_string()
    );
    assert_eq!(world.models[1].name, "front".to_string());
}

#[test]
fn site_export_aborts_on_broken_door_anchor() {
    let mut site = empty_site("depot");
    let mut anchors = IdMap::new();
    anchors.insert(1, Anchor { x: 0, y: 0 });
    let mut doors = IdMap::new();
    doors.insert(3, single_sliding_door(1, 99, "front"));
    let mut levels = IdMap::new();
    levels.insert(
        10,
        Level {
            properties: LevelProperties {
                name: NameInSite("L1".to_string()),
                elevation: 0,
            },
            anchors,
            doors,
        },
    );
    site.levels = levels;
    assert_eq!(
        site.to_sdf().unwrap_err(),
        SdfConversionError::BrokenAnchorReference(99)
    );
}

fn lift_with_visits(visits: Vec<u32>, initial: Option<u32>) -> Lift {
    let mut cabin_anchors = IdMap::new();
    cabin_anchors.insert(1, Anchor { x: -600, y: 0 });
    cabin_anchors.insert(2, Anchor { x: 600, y: 0 });
    let mut cabin_doors = IdMap::new();
    cabin_doors.insert(
        7,
        LiftCabinDoor {
            kind: DoorType::SingleSliding {
                towards: Side::Left,
            },
            reference_anchors: AnchorPair { left: 1, right: 2 },
            visits,
        },
    );
    Lift {
        properties: LiftProperties {
            name: NameInSite("lift1".to_string()),
            reference_anchors: AnchorPair { left: 20, right: 21 },
            cabin: LiftCabin::Rect(RectCabin {
                width: 1500,
                depth: 1500,
                gap: 50,
                shift: 0,
            }),
            is_static: false,
            initial_level: initial,
        },
        cabin_anchors,
        cabin_doors,
    }
}

fn site_with_lift(visits: Vec<u32>, initial: Option<u32>) -> Site {
    let mut site = empty_site("tower");
    let mut anchors = IdMap::new();
    anchors.insert(20, Anchor { x: 0, y: 0 });
    anchors.insert(21, Anchor { x: 2000, y: 0 });
    site.anchors = anchors;
    let mut levels = IdMap::new();
    levels.insert(
        10,
        Level {
            properties: LevelProperties {
                name: NameInSite("L1".to_string()),
                elevation: 0,
            },
            anchors: IdMap::new(),
            doors: IdMap::new(),
        },
    );
    site.levels = levels;
    let mut lifts = IdMap::new();
    lifts.insert(30, lift_with_visits(visits, initial));
    site.lifts = lifts;
    site
}

/// A lift whose cabin door visits a level ID absent from the document makes
/// the whole export fail with a broken-level-reference error; no world
/// description comes out.
#[test]
fn export_aborts_on_broken_level_visit() {
    let site = site_with_lift(vec![10, 44], Some(10));
    assert_eq!(
        site.to_sdf().unwrap_err(),
        SdfConversionError::BrokenLevelReference(44)
    );
}

#[test]
fn export_aborts_on_missing_initial_level() {
    let site = site_with_lift(vec![10], None);
    assert_eq!(
        site.to_sdf().unwrap_err(),
        SdfConversionError::MissingInitialLevel
    );
}

#[test]
fn lift_export_names_cabin_and_shaft_doors() {
    let site = site_with_lift(vec![10], Some(10));
    let root = site.to_sdf().unwrap();
    let world = &root.worlds[0];
    // One floor model, the cabin door, one shaft door, the lift body.
    assert_eq!(world.models.len(), 4);
    assert_eq!(world.models[1].name, "CabinDoor_lift1_door_7".to_string());
    assert_eq!(
        world.models[2].name,
        "ShaftDoor_L1_lift1_door_7".to_string()
    );
    let lift_model = &world.models[3];
    assert_eq!(lift_model.name, "lift1".to_string());
    match &lift_model.plugins[0] {
        SdfPlugin::Lift(lp) => {
            assert_eq!(lp.lift_name, "lift1".to_string());
            assert_eq!(lp.initial_level, "L1".to_string());
            assert_eq!(lp.floors.len(), 1);
            assert_eq!(lp.floors[0].name, "L1".to_string());
            assert_eq!(lp.floors[0].door_pairs.len(), 1);
            assert_eq!(
                lp.floors[0].door_pairs[0].cabin_door,
                "CabinDoor_lift1_door_7".to_string()
            );
            assert_eq!(
                lp.floors[0].door_pairs[0].shaft_door,
                "ShaftDoor_L1_lift1_door_7".to_string()
            );
        }
        other => panic!("expected a lift plugin, got {:?}", other),
    }
}

#[test]
fn anchor_distance_is_euclidean() {
    let door = single_sliding_door(1, 2, "diag");
    let model = door
        .to_sdf(Anchor { x: 0, y: 0 }, Anchor { x: 3000, y: 4000 }, 0)
        .unwrap();
    assert_eq!(model.joints[0].axis.unwrap().upper, 5000);
}
