//! Input routing between devices: which device receives an input event,
//! when the cursor crosses a screen edge into a neighbour, and what each
//! platform's input adapter can do.

use vstd::prelude::*;
use crate::topology::{neighbor_of, EdgeDirection, TopologyDevice, TopologyLayout};

verus! {

#[derive(Clone, Copy, Debug, PartialEq, Eq, Structural)]
pub enum MouseButton {
    Left,
    Right,
    Middle,
}

/// The device that currently receives input.
#[derive(Clone, Copy, Debug, PartialEq, Eq, Structural)]
pub enum ActiveInputTarget {
    Local(u128),
    Remote(u128),
}

#[derive(Clone, Copy, Debug, PartialEq, Eq, Structural)]
pub enum PlatformPermissionState {
    Granted,
    RequiresUserAction,
    Unsupported,
}

#[derive(Clone, Debug, PartialEq, Eq)]
pub struct PlatformInputStatus {
    pub platform: String,
    pub capture_ready: bool,
    pub injection_ready: bool,
    pub cursor_query_ready: bool,
    pub permission_state: PlatformPermissionState,
    pub note: String,
}

/// What the input adapter of the operating system `os` can do: the
/// Windows adapter is complete, the macOS one waits for the user's
/// permission, any other is unsupported.
pub fn current_platform_input_status(os: &str) -> (status: PlatformInputStatus)
    ensures
        os@ == "windows"@ ==> status.platform@ == "windows"@ && status.capture_ready
            && status.injection_ready && status.cursor_query_ready && status.permission_state
            == PlatformPermissionState::Granted && status.note@
            == "Win32 cursor query and SendInput bridge available"@,
        os@ == "macos"@ ==> status.platform@ == "macos"@ && !status.capture_ready
            && !status.injection_ready && !status.cursor_query_ready && status.permission_state
            == PlatformPermissionState::RequiresUserAction && status.note@
            == "macOS adapter requires Accessibility and Input Monitoring bridge on macOS host"@,
        os@ != "windows"@ && os@ != "macos"@ ==> status.platform@ == os@ && !status.capture_ready
            && !status.injection_ready && !status.cursor_query_ready && status.permission_state
            == PlatformPermissionState::Unsupported && status.note@
            == "platform adapter not implemented"@,
{
    proof {
        reveal_strlit("windows");
        reveal_strlit("macos");
    }
    let windows = String::from_str("windows");
    let macos = String::from_str("macos");
    let name = os.to_owned();
    if name == windows {
        PlatformInputStatus {
            platform: windows,
            capture_ready: true,
            injection_ready: true,
            cursor_query_ready: true,
            permission_state: PlatformPermissionState::Granted,
            note: String::from_str("Win32 cursor query and SendInput bridge available"),
        }
    } else if name == macos {
        PlatformInputStatus {
            platform: macos,
            capture_ready: false,
            injection_ready: false,
            cursor_query_ready: false,
            permission_state: PlatformPermissionState::RequiresUserAction,
            note: String::from_str(
                "macOS adapter requires Accessibility and Input Monitoring bridge on macOS host",
            ),
        }
    } else {
        PlatformInputStatus {
            platform: name,
            capture_ready: false,
            injection_ready: false,
            cursor_query_ready: false,
            permission_state: PlatformPermissionState::Unsupported,
            note: String::from_str("platform adapter not implemented"),
        }
    }
}

/// Input capture is available on Windows only.
pub fn windows_capture_ready(os: &str) -> (ready: bool)
    ensures
        ready == (os@ == "windows"@),
{
    let name = os.to_owned();
    name == String::from_str("windows")
}

/// Where an event goes: the target after it, the device it is forwarded
/// to (none while input stays local), and the edge crossed, if any.
#[derive(Clone, Copy, Debug, PartialEq, Eq, Structural)]
pub struct RouteDecision {
    pub target: ActiveInputTarget,
    pub forward_to: Option<u128>,
    pub switched_direction: Option<EdgeDirection>,
}

/// Which device receives input on this machine.
#[derive(Clone, Copy, Debug, PartialEq, Eq, Structural)]
pub struct InputRouter {
    pub local_device_id: u128,
    pub active_target: ActiveInputTarget,
}

/// An event that crosses no edge stays with the active target: kept local,
/// or forwarded to the remote device.
pub open spec fn kept(active: ActiveInputTarget) -> RouteDecision {
    match active {
        ActiveInputTarget::Local(id) => RouteDecision {
            target: ActiveInputTarget::Local(id),
            forward_to: None,
            switched_direction: None,
        },
        ActiveInputTarget::Remote(id) => RouteDecision {
            target: ActiveInputTarget::Remote(id),
            forward_to: Some(id),
            switched_direction: None,
        },
    }
}

/// Where an event goes: a cursor that crosses an edge of the local screen
/// into a placed neighbour switches input to that neighbour; anything else
/// stays with the active target.
pub open spec fn route_decision(
    router: InputRouter,
    devices: Seq<TopologyDevice>,
    crossing: Option<EdgeDirection>,
) -> RouteDecision {
    match crossing {
        Some(d) => match neighbor_of(devices, router.local_device_id, d) {
            Some(n) => RouteDecision {
                target: ActiveInputTarget::Remote(n.device_id),
                forward_to: Some(n.device_id),
                switched_direction: Some(d),
            },
            None => kept(router.active_target),
        },
        None => kept(router.active_target),
    }
}

impl InputRouter {
    /// A router that keeps input on the local device.
    pub fn new(local_device_id: u128) -> (router: Self)
        ensures
            router == (InputRouter {
                local_device_id,
                active_target: ActiveInputTarget::Local(local_device_id),
            }),
    {
        InputRouter { local_device_id, active_target: ActiveInputTarget::Local(local_device_id) }
    }

    /// Routes an event; `crossing` is the screen edge a cursor movement hit,
    /// none for other events.
    pub fn route_event(&mut self, topology: &TopologyLayout, crossing: Option<EdgeDirection>) -> (r:
        RouteDecision)
        ensures
            r == route_decision(*old(self), topology.devices@, crossing),
            *final(self) == (InputRouter { active_target: r.target, ..*old(self) }),
    {
        match crossing {
            Some(direction) => match topology.neighbor(self.local_device_id, direction) {
                Some(neighbor) => {
                    self.active_target = ActiveInputTarget::Remote(neighbor.device_id);
                    return RouteDecision {
                        target: self.active_target,
                        forward_to: Some(neighbor.device_id),
                        switched_direction: Some(direction),
                    };
                },
                None => {},
            },
            None => {},
        }
        self.forward_or_keep()
    }

    /// Where an event that crosses no edge goes.
    pub fn forward_or_keep(&self) -> (r: RouteDecision)
        ensures
            r == kept(self.active_target),
    {
        match self.active_target {
            ActiveInputTarget::Local(id) => RouteDecision {
                target: ActiveInputTarget::Local(id),
                forward_to: None,
                switched_direction: None,
            },
            ActiveInputTarget::Remote(id) => RouteDecision {
                target: ActiveInputTarget::Remote(id),
                forward_to: Some(id),
                switched_direction: None,
            },
        }
    }

    /// Takes input back to the local device.
    pub fn return_to_local(&mut self)
        ensures
            *final(self) == (InputRouter {
                active_target: ActiveInputTarget::Local(old(self).local_device_id),
                ..*old(self)
            }),
    {
        self.active_target = ActiveInputTarget::Local(self.local_device_id);
    }
}

/// Once the cursor has crossed into a neighbour, every later event that
/// crosses no edge is forwarded to that neighbour.
pub proof fn lemma_crossing_then_forwarding(
    router: InputRouter,
    devices: Seq<TopologyDevice>,
    d: EdgeDirection,
)
    requires
        neighbor_of(devices, router.local_device_id, d) is Some,
    ensures
        ({
            let n = neighbor_of(devices, router.local_device_id, d)->Some_0;
            let first = route_decision(router, devices, Some(d));
            let after = InputRouter { active_target: first.target, ..router };
            &&& first.forward_to == Some(n.device_id)
            &&& route_decision(after, devices, None) == (RouteDecision {
                target: ActiveInputTarget::Remote(n.device_id),
                forward_to: Some(n.device_id),
                switched_direction: None,
            })
        }),
{
}

/// While input is local, an event that crosses no edge is never forwarded.
pub proof fn lemma_local_input_stays_local(router: InputRouter, devices: Seq<TopologyDevice>)
    requires
        router.active_target == ActiveInputTarget::Local(router.local_device_id),
    ensures
        route_decision(router, devices, None).forward_to is None,
        route_decision(router, devices, None).target == router.active_target,
{
}

} // verus!
