use rmf_site_core::focus::{
    change_site, CachedLevels, ChangeCurrentSite, ChangeSiteRejection, CurrentLevel,
    CurrentWorkspace, FocusAction, SiteIndex,
};
use rmf_site_core::rcc::{
    classify_marker_types, milestones_to_spawns, EditorSession, LocationTag, MapData, MapMarker,
    RobotPose, RobotRegistry,
};
use rmf_site_core::AppState;

#[test]
fn app_state_modes() {
    assert!(!AppState::MainMenu.in_site_mode());
    assert!(AppState::SiteEditor.in_site_mode());
    assert!(AppState::SiteVisualizer.in_site_mode());
    assert!(AppState::SiteDrawingEditor.in_site_mode());
    assert!(!AppState::WorkcellEditor.in_site_mode());
    assert!(!AppState::MainMenu.in_displaying_mode());
    assert!(AppState::WorkcellEditor.in_displaying_mode());
    assert_eq!(AppState::default(), AppState::MainMenu);
}

fn scene() -> SiteIndex {
    SiteIndex {
        open_sites: vec![100, 200],
        levels: vec![(11, 100), (12, 100), (21, 200)],
    }
}

#[test]
fn change_site_rejects_non_site() {
    let mut ws = CurrentWorkspace {
        root: None,
        display: false,
    };
    let mut level = CurrentLevel(None);
    let mut cached = CachedLevels::new();
    let r = change_site(
        ChangeCurrentSite {
            site: 999,
            level: None,
        },
        &scene(),
        &mut ws,
        &mut level,
        &mut cached,
    );
    assert_eq!(r.unwrap_err(), ChangeSiteRejection::NotAnOpenSite);
    assert_eq!(ws.root, None);
}

#[test]
fn change_site_rejects_foreign_level() {
    let mut ws = CurrentWorkspace {
        root: None,
        display: false,
    };
    let mut level = CurrentLevel(None);
    let mut cached = CachedLevels::new();
    let r = change_site(
        ChangeCurrentSite {
            site: 100,
            level: Some(21),
        },
        &scene(),
        &mut ws,
        &mut level,
        &mut cached,
    );
    assert_eq!(r.unwrap_err(), ChangeSiteRejection::LevelNotOfSite);
}

#[test]
fn change_site_with_explicit_level() {
    let mut ws = CurrentWorkspace {
        root: Some(200),
        display: true,
    };
    let mut level = CurrentLevel(Some(21));
    let mut cached = CachedLevels::new();
    let actions = change_site(
        ChangeCurrentSite {
            site: 100,
            level: Some(12),
        },
        &scene(),
        &mut ws,
        &mut level,
        &mut cached,
    )
    .unwrap();
    assert_eq!(ws.root, Some(100));
    assert!(ws.display);
    assert_eq!(level.0, Some(12));
    assert_eq!(cached.get(100), Some(12));
    assert_eq!(
        actions,
        vec![
            FocusAction::SetVisibility {
                entity: 200,
                visible: false
            },
            FocusAction::SetVisibility {
                entity: 100,
                visible: true
            },
            FocusAction::SetVisibility {
                entity: 21,
                visible: false
            },
            FocusAction::SetVisibility {
                entity: 12,
                visible: true
            },
        ]
    );
}

#[test]
fn change_site_falls_back_to_own_levels() {
    let mut ws = CurrentWorkspace {
        root: None,
        display: false,
    };
    let mut level = CurrentLevel(None);
    let mut cached = CachedLevels::new();
    change_site(
        ChangeCurrentSite {
            site: 100,
            level: None,
        },
        &scene(),
        &mut ws,
        &mut level,
        &mut cached,
    )
    .unwrap();
    // The site has levels 11 and 12; the last one becomes current and cached.
    assert_eq!(level.0, Some(12));
    assert_eq!(cached.get(100), Some(12));
}

#[test]
fn change_site_requests_level_creation() {
    let index = SiteIndex {
        open_sites: vec![300],
        levels: vec![],
    };
    let mut ws = CurrentWorkspace {
        root: None,
        display: false,
    };
    let mut level = CurrentLevel(None);
    let mut cached = CachedLevels::new();
    let actions = change_site(
        ChangeCurrentSite {
            site: 300,
            level: None,
        },
        &index,
        &mut ws,
        &mut level,
        &mut cached,
    )
    .unwrap();
    assert_eq!(
        actions.last(),
        Some(&FocusAction::CreateLevel { site: 300 })
    );
    assert_eq!(level.0, None);
}

#[test]
fn marker_classification_uppercases() {
    let tags = classify_marker_types(&vec![
        "charger".to_string(),
        "PARKING".to_string(),
        "hOlDiNg".to_string(),
        "somethingelse".to_string(),
    ]);
    assert_eq!(
        tags,
        vec![
            LocationTag::Charger,
            LocationTag::ParkingSpot,
            LocationTag::HoldingPoint,
        ]
    );
}

#[test]
fn milestones_assign_sequential_ids() {
    let map = MapData {
        name: "warehouse".to_string(),
        image_url: "maps/warehouse.png".to_string(),
        origin_x: -1000,
        origin_y: -2000,
        resolution: 50,
        height_px: 100,
        markers: vec![
            MapMarker {
                id: "m1".to_string(),
                name: "dock".to_string(),
                x: 500,
                y: 800,
                marker_types: vec!["charger".to_string()],
            },
            MapMarker {
                id: "m2".to_string(),
                name: "shelf".to_string(),
                x: 0,
                y: 0,
                marker_types: vec![],
            },
        ],
    };
    let (drawing, anchors, locations) = milestones_to_spawns(&map, 10);
    assert_eq!(drawing.id, 10);
    assert_eq!(drawing.name, "warehouse".to_string());
    assert_eq!(drawing.source_url, "maps/warehouse.png".to_string());
    assert_eq!(anchors.len(), 2);
    assert_eq!(locations.len(), 2);
    // IDs interleave: drawing 10, then anchor/location pairs.
    assert_eq!(anchors[0].id, 11);
    assert_eq!(locations[0].id, 12);
    assert_eq!(anchors[1].id, 13);
    assert_eq!(locations[1].id, 14);
    assert_eq!(locations[0].anchor, 11);
    // x: marker - origin + icon nudge; y: marker - (origin + height * res).
    assert_eq!(anchors[0].x, 500 - (-1000) + 200);
    assert_eq!(anchors[0].y, 800 - (-2000 + 100 * 50));
    assert_eq!(locations[0].tags, vec![LocationTag::Charger]);
    assert_eq!(locations[1].tags, vec![]);
}

#[test]
fn robot_registry_round_trips() {
    let mut reg = RobotRegistry::new();
    reg.add_robot(0, "tug-a");
    reg.add_robot(1, "tug-b");
    reg.add_robot(0, "tug-c");
    // The latest registration for an index wins.
    assert_eq!(reg.get_robot_id(0), Some(&"tug-c".to_string()));
    assert_eq!(reg.get_robot_id(1), Some(&"tug-b".to_string()));
    assert_eq!(reg.get_robot_id(7), None);

    reg.add_robot_pose(
        "tug-a".to_string(),
        RobotPose {
            name: "tug-a".to_string(),
            x: 1500,
            y: -300,
            yaw: 0,
            level_name: "L1".to_string(),
        },
    );
    let pose = reg.get_robot_pose("tug-a").unwrap();
    assert_eq!(pose.x, 1500);
    assert_eq!(pose.y, -300);
    assert!(reg.get_robot_pose("tug-z").is_none());
}

#[test]
fn session_view_mode() {
    let mut session = EditorSession::new();
    assert!(!session.is_site_in_view_mode());
    session.set_site_mode("VIEW_MODE".to_string());
    assert!(session.is_site_in_view_mode());
    session.set_site_mode("EDIT_MODE".to_string());
    assert!(!session.is_site_in_view_mode());
    session.set_selected_map_index(4);
    assert_eq!(session.map_index, 4);
}
