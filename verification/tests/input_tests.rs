use deskflow_plus::input::{
    current_platform_input_status, windows_capture_ready, ActiveInputTarget, InputRouter,
    PlatformPermissionState, RouteDecision,
};
use deskflow_plus::topology::{EdgeDirection, GridPosition, TopologyLayout};

fn random_uuid() -> u128 {
    uuid::Uuid::new_v4().as_u128()
}

fn sample_topology() -> (TopologyLayout, u128, u128) {
    let controller = random_uuid();
    let client = random_uuid();
    let mut topology = TopologyLayout::new(controller, "controller".into());
    topology
        .add_pending_device(client, "client".into())
        .expect("add client");
    topology
        .place_device(client, GridPosition { x: 2, y: 1 })
        .expect("place client");
    (topology, controller, client)
}

#[test]
fn mouse_crossing_switches_to_neighbor_device() {
    let (topology, controller, client) = sample_topology();
    let mut router = InputRouter::new(controller);

    let result = router.route_event(&topology, Some(EdgeDirection::Right));

    assert_eq!(result.target, ActiveInputTarget::Remote(client));
    assert_eq!(result.switched_direction, Some(EdgeDirection::Right));
    assert!(result.forward_to.is_some());
}

#[test]
fn keyboard_event_is_forwarded_when_remote_target_is_active() {
    let (topology, controller, client) = sample_topology();
    let mut router = InputRouter::new(controller);
    router.active_target = ActiveInputTarget::Remote(client);

    let result = router.route_event(&topology, None);

    assert_eq!(result.target, ActiveInputTarget::Remote(client));
    assert_eq!(result.forward_to, Some(client));
}

#[test]
fn local_target_keeps_event_local_until_boundary_hit() {
    let (topology, controller, _) = sample_topology();
    let mut router = InputRouter::new(controller);

    let result = router.route_event(&topology, None);

    assert_eq!(result.target, ActiveInputTarget::Local(controller));
    assert!(result.forward_to.is_none());
}

#[test]
fn return_to_local_resets_remote_target() {
    let (_, controller, client) = sample_topology();
    let mut router = InputRouter::new(controller);
    router.active_target = ActiveInputTarget::Remote(client);

    router.return_to_local();

    assert_eq!(router.active_target, ActiveInputTarget::Local(controller));
}

#[test]
fn routing_completes_under_reasonable_latency_bound() {
    let (topology, controller, _) = sample_topology();
    let mut router = InputRouter::new(controller);
    let started = std::time::Instant::now();

    let result = router.route_event(&topology, None);

    let elapsed = started.elapsed();
    println!("input route elapsed: {elapsed:?}");
    assert!(matches!(result.target, ActiveInputTarget::Local(_)));
    assert!(
        elapsed < std::time::Duration::from_millis(20),
        "input routing took {elapsed:?}"
    );
}

#[test]
fn platform_status_reports_supported_runtime_shape() {
    let status = current_platform_input_status("linux");
    assert!(!status.platform.is_empty());

    let windows = current_platform_input_status("windows");
    assert!(windows.capture_ready);
    assert!(windows.cursor_query_ready);
}

#[test]
fn platform_adapters_report_their_permissions() {
    assert_eq!(
        current_platform_input_status("macos").permission_state,
        PlatformPermissionState::RequiresUserAction
    );
    let other = current_platform_input_status("freebsd");
    assert_eq!(other.platform, "freebsd");
    assert_eq!(other.permission_state, PlatformPermissionState::Unsupported);
    assert!(windows_capture_ready("windows"));
    assert!(!windows_capture_ready("linux"));
}

#[test]
fn crossing_without_a_neighbor_keeps_the_target() {
    let (topology, controller, _) = sample_topology();
    let mut router = InputRouter::new(controller);
    let result = router.route_event(&topology, Some(EdgeDirection::Left));
    assert_eq!(
        result,
        RouteDecision {
            target: ActiveInputTarget::Local(controller),
            forward_to: None,
            switched_direction: None,
        }
    );
}

#[test]
fn after_crossing_later_events_follow_the_neighbor() {
    let (topology, controller, client) = sample_topology();
    let mut router = InputRouter::new(controller);
    router.route_event(&topology, Some(EdgeDirection::Right));
    let next = router.route_event(&topology, None);
    assert_eq!(next.forward_to, Some(client));
    assert_eq!(next.switched_direction, None);
}
