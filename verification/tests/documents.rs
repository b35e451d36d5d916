use rmf_site_core::graph::{
    assign_site_ids, generate_anchors, generate_workcell, EntityGraph, EntityKind, GraphEntity,
};
use rmf_site_core::ids::IdMap;
use rmf_site_core::numfmt::u32_to_dec;
use rmf_site_core::site::{
    Anchor, AnchorPair, Angle, Door, DoorType, Level, LevelProperties, NameInSite, Pose, Rotation,
    Site, SiteProperties,
};
use rmf_site_core::Side;
use rmf_site_core::siteload::resolve_site_doors;
use rmf_site_core::wload::{load_workcell, WorkcellLoadError};
use rmf_site_core::workcell::{
    AssetSource, MeshConstraint, Model, Parented, Workcell, WorkcellGenerationError,
    WorkcellProperties,
};

fn root_entity(name: &str) -> GraphEntity {
    GraphEntity {
        parent: None,
        pending: false,
        site_id: None,
        kind: EntityKind::Root {
            properties: WorkcellProperties {
                name: name.to_string(),
            },
        },
    }
}

fn anchor_entity(parent: usize, x: i64, y: i64) -> GraphEntity {
    GraphEntity {
        parent: Some(parent),
        pending: false,
        site_id: None,
        kind: EntityKind::Anchor {
            anchor: Anchor { x, y },
            constraint: None,
        },
    }
}

fn model_entity(parent: usize, name: &str) -> GraphEntity {
    GraphEntity {
        parent: Some(parent),
        pending: false,
        site_id: None,
        kind: EntityKind::Model {
            model: Model {
                name: name.to_string(),
                source: AssetSource::Local("meshes/box.glb".to_string()),
                pose: Pose {
                    x: 0,
                    y: 0,
                    z: 0,
                    rot: Rotation::Yaw(Angle(0)),
                },
                is_static: true,
            },
        },
    }
}

/// A graph with N persistable entities reachable from the root gets exactly
/// the IDs 0..N, each used once, root first.
#[test]
fn id_assignment_is_dense() {
    let mut g = EntityGraph {
        entities: vec![
            root_entity("cell"),
            anchor_entity(0, 100, 200),
            model_entity(1, "box"),
            // A pending anchor is skipped.
            GraphEntity {
                pending: true,
                ..anchor_entity(0, 5, 5)
            },
            anchor_entity(2, 7, 7),
        ],
    };
    assign_site_ids(&mut g, 0);
    let ids: Vec<Option<u32>> = g.entities.iter().map(|e| e.site_id).collect();
    assert_eq!(
        ids,
        vec![Some(0), Some(1), Some(2), None, Some(3)]
    );
}

#[test]
fn generate_anchors_projects_id_carrying_anchors() {
    let mut g = EntityGraph {
        entities: vec![
            root_entity("cell"),
            anchor_entity(0, 100, 200),
            anchor_entity(1, 7, 9),
        ],
    };
    assign_site_ids(&mut g, 0);
    let frames = generate_anchors(&g);
    let entries = frames.entries();
    assert_eq!(entries.len(), 2);
    assert_eq!(entries[0].0, 1);
    assert_eq!(entries[0].1.parent, Some(0));
    assert_eq!(entries[0].1.bundle.anchor, Anchor { x: 100, y: 200 });
    assert_eq!(entries[1].0, 2);
    assert_eq!(entries[1].1.parent, Some(1));
}

#[test]
fn stale_ids_are_cleared() {
    let mut g = EntityGraph {
        entities: vec![root_entity("cell"), anchor_entity(0, 1, 1)],
    };
    g.entities[1].site_id = Some(77);
    g.entities[1].pending = true;
    assign_site_ids(&mut g, 0);
    assert_eq!(g.entities[1].site_id, None);
}

#[test]
fn generate_workcell_requires_a_workcell_root() {
    let mut g = EntityGraph {
        entities: vec![anchor_entity(0, 0, 0)],
    };
    // The root slot holds an anchor, not workcell properties.
    g.entities[0].parent = None;
    match generate_workcell(&mut g, 0) {
        Err(e) => assert_eq!(e, WorkcellGenerationError::InvalidWorkcellEntity(0)),
        Ok(_) => panic!("expected an invalid-root error"),
    }
}

#[test]
fn generate_workcell_collects_frames_and_models() {
    let mut g = EntityGraph {
        entities: vec![
            root_entity("cell"),
            anchor_entity(0, 100, 200),
            model_entity(1, "box"),
        ],
    };
    let w = generate_workcell(&mut g, 0).unwrap();
    assert_eq!(w.properties.name, "cell".to_string());
    assert_eq!(w.frames.len(), 1);
    assert_eq!(w.models.len(), 1);
    let frames = w.frames.entries();
    assert_eq!(frames[0].0, 1);
    assert_eq!(frames[0].1.parent, Some(0));
    assert_eq!(frames[0].1.bundle.anchor, Anchor { x: 100, y: 200 });
    let models = w.models.entries();
    assert_eq!(models[0].0, 2);
    assert_eq!(models[0].1.parent, Some(1));
    assert_eq!(models[0].1.bundle.name, "box".to_string());
}

#[test]
fn generate_workcell_aborts_on_broken_constraint() {
    let mut g = EntityGraph {
        entities: vec![
            root_entity("cell"),
            GraphEntity {
                parent: Some(0),
                pending: false,
                site_id: None,
                kind: EntityKind::Anchor {
                    anchor: Anchor { x: 0, y: 0 },
                    constraint: Some(MeshConstraint {
                        // Slot 2 is pending, so it never gets an ID.
                        entity: 2,
                        element: "handle".to_string(),
                        relative_pose: Pose {
                            x: 0,
                            y: 0,
                            z: 0,
                            rot: Rotation::Yaw(Angle(0)),
                        },
                    }),
                },
            },
            GraphEntity {
                pending: true,
                ..model_entity(0, "box")
            },
        ],
    };
    match generate_workcell(&mut g, 0) {
        Err(e) => assert_eq!(e, WorkcellGenerationError::BrokenConstraintReference(1)),
        Ok(_) => panic!("expected a broken-constraint error"),
    }
}

/// A document built from a graph, reloaded, gives back the same entities:
/// same IDs, same payloads, same parent structure.
#[test]
fn workcell_round_trip() {
    let mut g = EntityGraph {
        entities: vec![
            root_entity("cell"),
            anchor_entity(0, 100, 200),
            model_entity(1, "box"),
            anchor_entity(2, 7, 9),
        ],
    };
    let w = generate_workcell(&mut g, 0).unwrap();
    let (g2, failures) = load_workcell(&w);
    assert!(failures.is_empty());
    assert_eq!(g2.entities.len(), 4);
    // Reloaded entities carry their persisted IDs in ascending order.
    for (slot, e) in g2.entities.iter().enumerate() {
        assert_eq!(e.site_id, Some(slot as u32));
    }
    match &g2.entities[1].kind {
        EntityKind::Anchor { anchor, constraint } => {
            assert_eq!(*anchor, Anchor { x: 100, y: 200 });
            assert!(constraint.is_none());
        }
        other => panic!("expected an anchor, got another kind: {:?}", std::mem::discriminant(other)),
    }
    match &g2.entities[2].kind {
        EntityKind::Model { model } => assert_eq!(model.name, "box".to_string()),
        _ => panic!("expected a model"),
    }
    // Parent structure is preserved: 1 under the root, 2 under 1, 3 under 2.
    assert_eq!(g2.entities[1].parent, Some(0));
    assert_eq!(g2.entities[2].parent, Some(1));
    assert_eq!(g2.entities[3].parent, Some(2));
}

#[test]
fn workcell_load_skips_entry_with_missing_parent() {
    let mut frames = IdMap::new();
    frames.insert(
        1,
        Parented {
            parent: Some(42),
            bundle: rmf_site_core::workcell::Frame {
                anchor: Anchor { x: 0, y: 0 },
            },
        },
    );
    frames.insert(
        2,
        Parented {
            parent: None,
            bundle: rmf_site_core::workcell::Frame {
                anchor: Anchor { x: 5, y: 5 },
            },
        },
    );
    let w = Workcell {
        properties: WorkcellProperties {
            name: "cell".to_string(),
        },
        frames,
        models: IdMap::new(),
        mesh_constraints: IdMap::new(),
    };
    let (g2, failures) = load_workcell(&w);
    assert_eq!(
        failures,
        vec![WorkcellLoadError::MissingParent {
            entity: 1,
            parent: 42
        }]
    );
    // The bad entry left scaffolding; the good one loaded.
    assert_eq!(g2.entities.len(), 3);
    assert_eq!(g2.entities[1].site_id, None);
    assert_eq!(g2.entities[2].site_id, Some(2));
}

#[test]
fn decimal_rendering() {
    assert_eq!(u32_to_dec(0), "0".to_string());
    assert_eq!(u32_to_dec(7), "7".to_string());
    assert_eq!(u32_to_dec(12345), "12345".to_string());
    assert_eq!(u32_to_dec(4294967295), "4294967295".to_string());
}

#[test]
fn site_door_resolution_partial_failure() {
    let mut anchors = IdMap::new();
    anchors.insert(1, Anchor { x: 0, y: 0 });
    anchors.insert(2, Anchor { x: 1000, y: 0 });
    let mut doors = IdMap::new();
    doors.insert(
        5,
        Door {
            anchors: AnchorPair { left: 1, right: 2 },
            name: NameInSite("good".to_string()),
            kind: DoorType::SingleSliding {
                towards: Side::Left,
            },
        },
    );
    doors.insert(
        6,
        Door {
            anchors: AnchorPair { left: 1, right: 77 },
            name: NameInSite("bad".to_string()),
            kind: DoorType::SingleSliding {
                towards: Side::Left,
            },
        },
    );
    let mut levels = IdMap::new();
    levels.insert(
        10,
        Level {
            properties: LevelProperties {
                name: NameInSite("L1".to_string()),
                elevation: 0,
            },
            anchors,
            doors,
        },
    );
    let site = Site {
        properties: SiteProperties {
            name: NameInSite("s".to_string()),
        },
        anchors: IdMap::new(),
        levels,
        lifts: IdMap::new(),
    };
    let (resolved, failures) = resolve_site_doors(&site);
    // Exactly one failure, for the one door with a dangling anchor; the
    // other door still loads.
    assert_eq!(resolved.len(), 1);
    assert_eq!(resolved[0].door, 5);
    assert_eq!(resolved[0].left, Anchor { x: 0, y: 0 });
    assert_eq!(failures.len(), 1);
    assert_eq!(failures[0].door, 6);
    assert_eq!(failures[0].anchor, 77);
    assert_eq!(failures[0].level, 10);
}

#[test]
fn site_door_resolution_valid_document() {
    let mut site_anchors = IdMap::new();
    site_anchors.insert(1, Anchor { x: 0, y: 0 });
    let mut level_anchors = IdMap::new();
    level_anchors.insert(2, Anchor { x: 1000, y: 0 });
    let mut doors = IdMap::new();
    doors.insert(
        5,
        Door {
            // One anchor from the site map, one from the level's own.
            anchors: AnchorPair { left: 1, right: 2 },
            name: NameInSite("good".to_string()),
            kind: DoorType::SingleSliding {
                towards: Side::Left,
            },
        },
    );
    let mut levels = IdMap::new();
    levels.insert(
        10,
        Level {
            properties: LevelProperties {
                name: NameInSite("L1".to_string()),
                elevation: 0,
            },
            anchors: level_anchors,
            doors,
        },
    );
    let site = Site {
        properties: SiteProperties {
            name: NameInSite("s".to_string()),
        },
        anchors: site_anchors,
        levels,
        lifts: IdMap::new(),
    };
    let (resolved, failures) = resolve_site_doors(&site);
    assert!(failures.is_empty());
    assert_eq!(resolved.len(), 1);
}

#[test]
fn id_map_basics() {
    let mut m: IdMap<u32> = IdMap::new();
    assert_eq!(m.len(), 0);
    assert!(!m.contains_key(3));
    m.insert(3, 30);
    m.insert(4, 40);
    assert!(m.contains_key(3));
    assert_eq!(m.get(3), Some(&30));
    assert_eq!(m.get(4), Some(&40));
    assert_eq!(m.get(5), None);
}
