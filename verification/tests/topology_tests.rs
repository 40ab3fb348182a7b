use deskflow_plus::placement::{auto_place_pending_topology_devices, sync_topology_with_trusted_devices};
use deskflow_plus::topology::{
    apply_hot_update, ensure_in_bounds, load_or_create_topology, migrate_layout_to_default_grid,
    neighbors, DeviceLayoutStatus, EdgeDirection, GridPosition, TopologyDevice, TopologyError,
    TopologyLayout, DEFAULT_GRID_HEIGHT, DEFAULT_GRID_WIDTH,
};
use deskflow_plus::trust::{TrustStore, TrustedDevice};

fn random_uuid() -> u128 {
    uuid::Uuid::new_v4().as_u128()
}

#[test]
fn default_topology_places_controller_at_grid_center() {
    let controller = random_uuid();
    let layout = TopologyLayout::new(controller, "controller".into());

    assert_eq!(layout.grid_width, DEFAULT_GRID_WIDTH);
    assert_eq!(layout.grid_height, DEFAULT_GRID_HEIGHT);
    assert_eq!(
        layout.device(controller).expect("controller").position,
        Some(GridPosition { x: 1, y: 1 })
    );
    layout.validate().expect("valid default topology");
}

#[test]
fn newly_paired_device_can_stay_pending_until_placed() {
    let controller = random_uuid();
    let client = random_uuid();
    let mut layout = TopologyLayout::new(controller, "controller".into());

    layout
        .add_pending_device(client, "client".into())
        .expect("add pending");

    assert_eq!(layout.pending_devices().len(), 1);
    layout.validate().expect("pending does not invalidate layout");
}

#[test]
fn placing_device_next_to_controller_creates_neighbor_relationship() {
    let controller = random_uuid();
    let client = random_uuid();
    let mut layout = TopologyLayout::new(controller, "controller".into());
    layout.add_pending_device(client, "client".into()).expect("add pending");
    layout
        .place_device(client, GridPosition { x: 2, y: 1 })
        .expect("place client");

    let neighbor = layout
        .neighbor(controller, EdgeDirection::Right)
        .expect("right neighbor");
    assert_eq!(neighbor.device_id, client);
    layout.validate().expect("valid adjacent layout");
}

#[test]
fn validation_rejects_overlapping_devices() {
    let controller = random_uuid();
    let client = random_uuid();
    let mut layout = TopologyLayout::new(controller, "controller".into());
    layout.add_pending_device(client, "client".into()).expect("add pending");
    layout.devices.push(TopologyDevice {
        device_id: client,
        display_name: "duplicate".into(),
        position: Some(GridPosition { x: 1, y: 1 }),
        status: DeviceLayoutStatus::Online,
    });

    let error = layout.validate().expect_err("overlap should fail");
    assert!(error.message().contains("overlap"));
}

#[test]
fn validation_rejects_isolated_placed_devices() {
    let controller = random_uuid();
    let client = random_uuid();
    let mut layout = TopologyLayout::new(controller, "controller".into());
    layout.devices.push(TopologyDevice {
        device_id: client,
        display_name: "client".into(),
        position: Some(GridPosition { x: 0, y: 0 }),
        status: DeviceLayoutStatus::Online,
    });

    let error = layout.validate().expect_err("isolated layout should fail");
    assert!(error.message().contains("isolated"));
}

#[test]
fn validation_rejects_out_of_bounds_positions() {
    let controller = random_uuid();
    let client = random_uuid();
    let mut layout = TopologyLayout::new(controller, "controller".into());
    layout.devices.push(TopologyDevice {
        device_id: client,
        display_name: "client".into(),
        position: Some(GridPosition { x: 99, y: 99 }),
        status: DeviceLayoutStatus::Online,
    });

    let error = layout.validate().expect_err("out of bounds should fail");
    assert!(error.message().contains("out of bounds"));
}

#[test]
fn offline_device_keeps_layout_slot() {
    let controller = random_uuid();
    let client = random_uuid();
    let mut layout = TopologyLayout::new(controller, "controller".into());
    layout.add_pending_device(client, "client".into()).expect("add pending");
    layout
        .place_device(client, GridPosition { x: 2, y: 1 })
        .expect("place client");

    layout.mark_offline(client).expect("mark offline");

    let offline = layout.device(client).expect("offline device");
    assert_eq!(offline.status, DeviceLayoutStatus::Offline);
    assert_eq!(offline.position, Some(GridPosition { x: 2, y: 1 }));
    layout.validate().expect("offline slot remains valid");
}

#[test]
fn hot_update_validates_and_increments_version() {
    let controller = random_uuid();
    let client = random_uuid();
    let mut current = TopologyLayout::new(controller, "controller".into());
    current.add_pending_device(client, "client".into()).expect("add pending");

    let mut next = current.clone();
    next.place_device(client, GridPosition { x: 2, y: 1 })
        .expect("place client");
    let update = apply_hot_update(&current, next).expect("apply hot update");

    assert_eq!(update.previous_version, 1);
    assert_eq!(update.next_version, 2);
    assert_eq!(
        update.layout.neighbor(controller, EdgeDirection::Right).map(|device| device.device_id),
        Some(client)
    );
}

#[test]
fn hot_update_completes_under_reasonable_bound() {
    let controller = random_uuid();
    let client = random_uuid();
    let mut current = TopologyLayout::new(controller, "controller".into());
    current.add_pending_device(client, "client".into()).expect("add pending");
    let mut next = current.clone();
    next.place_device(client, GridPosition { x: 2, y: 1 })
        .expect("place client");

    let started = std::time::Instant::now();
    let update = apply_hot_update(&current, next).expect("apply hot update");
    let elapsed = started.elapsed();

    println!("topology hot update elapsed: {elapsed:?}");
    assert_eq!(update.next_version, 2);
    assert!(
        elapsed < std::time::Duration::from_millis(500),
        "topology hot update took {elapsed:?}"
    );
}

#[test]
fn persisted_legacy_grid_is_migrated_to_three_by_three() {
    let controller = random_uuid();
    let client = random_uuid();
    let legacy = TopologyLayout {
        version: 1,
        grid_width: 5,
        grid_height: 3,
        controller_device_id: controller,
        devices: vec![
            TopologyDevice {
                device_id: controller,
                display_name: "controller".into(),
                position: Some(GridPosition { x: 2, y: 1 }),
                status: DeviceLayoutStatus::Online,
            },
            TopologyDevice {
                device_id: client,
                display_name: "client".into(),
                position: Some(GridPosition { x: 3, y: 1 }),
                status: DeviceLayoutStatus::Online,
            },
        ],
    };

    let migrated = load_or_create_topology(Some(legacy), controller, "controller".into())
        .expect("migrate topology");

    assert_eq!(migrated.grid_width, 3);
    assert_eq!(migrated.grid_height, 3);
    assert_eq!(
        migrated.device(controller).expect("controller").position,
        Some(GridPosition { x: 1, y: 1 })
    );
    assert_eq!(migrated.device(client).expect("client").position, None);
    assert_eq!(
        migrated.device(client).expect("client").status,
        DeviceLayoutStatus::Pending
    );
}

#[test]
fn placement_errors_name_their_cause() {
    let controller = random_uuid();
    let client = random_uuid();
    let mut layout = TopologyLayout::new(controller, "controller".into());
    assert_eq!(
        layout.place_device(client, GridPosition { x: 0, y: 0 }),
        Err(TopologyError::DeviceNotFound)
    );
    layout.add_pending_device(client, "client".into()).expect("add pending");
    assert_eq!(
        layout.add_pending_device(client, "again".into()),
        Err(TopologyError::DeviceExists)
    );
    assert_eq!(
        layout.place_device(client, GridPosition { x: 1, y: 1 }),
        Err(TopologyError::PositionOccupied)
    );
    assert_eq!(
        layout.place_device(client, GridPosition { x: 3, y: 0 }),
        Err(TopologyError::OutOfBounds(3, 0, 3, 3))
    );
    assert_eq!(layout.mark_offline(99), Err(TopologyError::DeviceNotFound));
    assert_eq!(
        ensure_in_bounds(3, 3, GridPosition { x: -1, y: 0 }),
        Err(TopologyError::OutOfBounds(-1, 0, 3, 3))
    );
    assert_eq!(ensure_in_bounds(3, 3, GridPosition { x: 2, y: 2 }), Ok(()));
}

#[test]
fn neighbor_cells_are_the_four_adjacent_ones() {
    let cells = neighbors(GridPosition { x: 1, y: 1 });
    assert!(cells.contains(&GridPosition { x: 1, y: 0 }));
    assert!(cells.contains(&GridPosition { x: 1, y: 2 }));
    assert!(cells.contains(&GridPosition { x: 0, y: 1 }));
    assert!(cells.contains(&GridPosition { x: 2, y: 1 }));
}

#[test]
fn hot_update_refuses_an_invalid_layout() {
    let controller = random_uuid();
    let current = TopologyLayout::new(controller, "controller".into());
    let mut next = current.clone();
    next.devices.push(TopologyDevice {
        device_id: 5,
        display_name: "far".into(),
        position: Some(GridPosition { x: 0, y: 0 }),
        status: DeviceLayoutStatus::Online,
    });
    assert_eq!(apply_hot_update(&current, next).err(), Some(TopologyError::Isolated));
}

#[test]
fn default_sized_layout_is_not_migrated() {
    let controller = random_uuid();
    let layout = TopologyLayout::new(controller, "controller".into());
    let same = migrate_layout_to_default_grid(layout.clone());
    assert_eq!(same, layout);
    let fresh = load_or_create_topology(None, controller, "controller".into()).expect("fresh");
    assert_eq!(fresh, layout);
}

#[test]
fn pending_devices_are_placed_on_the_first_cell_that_keeps_the_layout_valid() {
    let controller = random_uuid();
    let mut layout = TopologyLayout::new(controller, "controller".into());
    layout.add_pending_device(7, "a".into()).expect("pending");
    layout.add_pending_device(8, "b".into()).expect("pending");
    auto_place_pending_topology_devices(&mut layout).expect("auto place");
    assert_eq!(layout.device(7).expect("a").position, Some(GridPosition { x: 1, y: 0 }));
    assert_eq!(layout.device(8).expect("b").position, Some(GridPosition { x: 0, y: 0 }));
    assert_eq!(layout.device(7).expect("a").status, DeviceLayoutStatus::Online);
    layout.validate().expect("still valid");
}

fn trusted(id: u128, name: &str, revoked: Option<u128>) -> TrustedDevice {
    TrustedDevice {
        device_id: id,
        display_name: name.into(),
        platform: "windows".into(),
        certificate_fingerprint_sha256: "fp".into(),
        paired_at_unix_ms: 1,
        last_seen_unix_ms: None,
        revoked_at_unix_ms: revoked,
    }
}

#[test]
fn syncing_with_the_trust_store_drops_untrusted_and_adds_trusted_devices() {
    let controller = random_uuid();
    let mut layout = TopologyLayout::new(controller, "controller".into());
    layout.add_pending_device(20, "gone".into()).expect("pending");
    let store = TrustStore {
        devices: vec![trusted(21, "new", None), trusted(22, "revoked", Some(5))],
    };
    sync_topology_with_trusted_devices(&mut layout, &store).expect("sync");
    assert!(layout.device(20).is_none());
    assert!(layout.device(22).is_none());
    assert_eq!(layout.device(21).expect("new").position, Some(GridPosition { x: 1, y: 0 }));
    assert!(layout.device(controller).is_some());
    layout.validate().expect("valid after sync");
}

#[test]
fn topology_persists_and_reloads() {
    let controller = random_uuid();
    let client = random_uuid();
    let mut layout =
        load_or_create_topology(None, controller, "controller".into()).expect("create topology");
    layout.add_pending_device(client, "client".into()).expect("add pending");
    layout
        .place_device(client, GridPosition { x: 2, y: 1 })
        .expect("place client");

    let reloaded = load_or_create_topology(Some(layout.clone()), controller, "controller".into())
        .expect("reload topology");
    assert_eq!(reloaded, layout);
}

#[test]
fn migrated_layout_validates_and_keeps_or_unplaces_each_device() {
    let controller = 10u128;
    let device = |id: u128, x: i32, y: i32, status: DeviceLayoutStatus| TopologyDevice {
        device_id: id,
        display_name: format!("d{id}"),
        position: Some(GridPosition { x, y }),
        status,
    };
    let legacy = TopologyLayout {
        version: 7,
        grid_width: 4,
        grid_height: 4,
        controller_device_id: controller,
        devices: vec![
            device(1, 1, 0, DeviceLayoutStatus::Offline),
            device(controller, 3, 3, DeviceLayoutStatus::Pending),
            device(2, 3, 0, DeviceLayoutStatus::Online),
            device(3, 2, 1, DeviceLayoutStatus::Online),
        ],
    };

    let migrated = migrate_layout_to_default_grid(legacy.clone());
    migrated.validate().expect("migrated layout is valid");
    assert_eq!(migrated.version, 7);
    assert_eq!(migrated.devices.len(), legacy.devices.len());
    assert_eq!(migrated.devices[0], legacy.devices[0]);
    assert_eq!(migrated.devices[1].position, Some(GridPosition { x: 1, y: 1 }));
    assert_eq!(migrated.devices[1].status, DeviceLayoutStatus::Online);
    assert_eq!(migrated.devices[2].position, None);
    assert_eq!(migrated.devices[2].status, DeviceLayoutStatus::Pending);
    assert_eq!(migrated.devices[3], legacy.devices[3]);
}

#[test]
fn topology_error_messages_name_cells_and_devices() {
    assert_eq!(
        TopologyError::OutOfBounds(-1, 0, 3, 3).message(),
        "topology position out of bounds: (-1, 0) for 3x3 grid"
    );
    assert_eq!(
        TopologyError::Overlap(2, 1, 1, 2).message(),
        "topology devices overlap at (2, 1): 00000000-0000-0000-0000-000000000001 and 00000000-0000-0000-0000-000000000002"
    );
    let controller = 1u128;
    let first = 2u128;
    let second = 3u128;
    let device = |id: u128, x: i32, y: i32| TopologyDevice {
        device_id: id,
        display_name: format!("d{id}"),
        position: Some(GridPosition { x, y }),
        status: DeviceLayoutStatus::Online,
    };
    let layout = TopologyLayout {
        version: 1,
        grid_width: 3,
        grid_height: 3,
        controller_device_id: controller,
        devices: vec![device(controller, 1, 1), device(first, 2, 1), device(second, 2, 1)],
    };
    assert_eq!(layout.validate(), Err(TopologyError::Overlap(2, 1, first, second)));
}
