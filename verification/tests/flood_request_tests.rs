use bobry_w_locie::drone::{BoberDrone, DroneAction, DroneEvent, DroneFault};
use bobry_w_locie::packet::{FloodRequest, FloodResponse, NodeType, Packet, SourceRoutingHeader};

fn route(hop_index: usize, hops: Vec<u8>) -> SourceRoutingHeader {
    SourceRoutingHeader { hop_index, hops }
}

fn request(path_trace: Vec<(u8, NodeType)>) -> FloodRequest {
    FloodRequest { flood_id: 1, initiator_id: 1, path_trace }
}

#[test]
pub fn flood_response_end_in_drone_test() {
    let mut drone = BoberDrone::new(12, vec![11], 0);
    let flood_request = Packet::new_flood_request(
        route(2, vec![1, 11, 12]),
        1,
        request(vec![(1, NodeType::Client), (11, NodeType::Drone)]),
    );
    let flood_response = Packet::new_flood_response(
        route(1, vec![12, 11, 1]),
        2,
        FloodResponse {
            flood_id: 1,
            path_trace: vec![(1, NodeType::Client), (11, NodeType::Drone), (12, NodeType::Drone)],
        },
    );
    let actions = drone.on_packet(&flood_request).unwrap();
    assert_eq!(
        actions,
        vec![
            DroneAction::Send { to: 11, packet: flood_response.copy() },
            DroneAction::TryReport(DroneEvent::PacketSent(flood_response)),
        ]
    );
    assert!(drone.has_received_flood(1, 1));
}

#[test]
pub fn flood_request_already_received_test() {
    let mut drone = BoberDrone::new(12, vec![11], 0);
    let flood_response = Packet::new_flood_response(
        route(1, vec![12, 11, 1]),
        2,
        FloodResponse {
            flood_id: 1,
            path_trace: vec![(1, NodeType::Client), (11, NodeType::Drone), (12, NodeType::Drone)],
        },
    );
    let flood_request = Packet::new_flood_request(
        route(2, vec![1, 11, 12]),
        1,
        request(vec![(1, NodeType::Client), (11, NodeType::Drone), (12, NodeType::Drone)]),
    );
    let actions = drone.on_packet(&flood_request).unwrap();
    assert_eq!(
        actions,
        vec![
            DroneAction::Send { to: 11, packet: flood_response.copy() },
            DroneAction::TryReport(DroneEvent::PacketSent(flood_response)),
        ]
    );
}

#[test]
pub fn flood_request_forwarding_test() {
    let mut drone = BoberDrone::new(11, vec![12, 1], 0);
    let flood_request = Packet::new_flood_request(
        route(1, vec![1, 11]),
        1,
        request(vec![(1, NodeType::Client)]),
    );
    let expected = Packet::new_flood_request(
        route(1, vec![1, 11]),
        1,
        request(vec![(1, NodeType::Client), (11, NodeType::Drone)]),
    );
    let actions = drone.on_packet(&flood_request).unwrap();
    assert_eq!(
        actions,
        vec![
            DroneAction::Report(DroneEvent::PacketSent(expected.copy())),
            DroneAction::Send { to: 12, packet: expected },
        ]
    );
}

#[test]
fn flood_goes_to_every_neighbor_but_the_sender() {
    let mut drone = BoberDrone::new(11, vec![2, 1, 3], 0);
    let flood_request = Packet::new_flood_request(route(1, vec![1, 11]), 5, request(vec![(1, NodeType::Client)]));
    let actions = drone.on_packet(&flood_request).unwrap();
    let sent_to: Vec<u8> = actions
        .iter()
        .filter_map(|a| match a {
            DroneAction::Send { to, .. } => Some(*to),
            _ => None,
        })
        .collect();
    assert_eq!(sent_to, vec![2, 3]);
    assert_eq!(actions.len(), 4);
}

#[test]
fn second_copy_of_a_flood_is_answered_not_forwarded() {
    let mut drone = BoberDrone::new(11, vec![2, 1, 3], 0);
    let first = Packet::new_flood_request(route(1, vec![1, 11]), 5, request(vec![(1, NodeType::Client)]));
    drone.on_packet(&first).unwrap();
    let second = Packet::new_flood_request(
        route(1, vec![2, 11]),
        5,
        request(vec![(1, NodeType::Client), (2, NodeType::Drone)]),
    );
    let actions = drone.on_packet(&second).unwrap();
    let response = Packet::new_flood_response(
        route(1, vec![11, 2, 1]),
        6,
        FloodResponse {
            flood_id: 1,
            path_trace: vec![(1, NodeType::Client), (2, NodeType::Drone), (11, NodeType::Drone)],
        },
    );
    assert_eq!(
        actions,
        vec![
            DroneAction::Send { to: 2, packet: response.copy() },
            DroneAction::TryReport(DroneEvent::PacketSent(response)),
        ]
    );
}

#[test]
fn lonely_drone_answers_with_itself_on_the_path() {
    let mut drone = BoberDrone::new(11, vec![1], 0);
    let flood_request = Packet::new_flood_request(route(1, vec![1, 11]), 7, request(vec![(1, NodeType::Client)]));
    let actions = drone.on_packet(&flood_request).unwrap();
    let response = Packet::new_flood_response(
        route(1, vec![11, 1]),
        8,
        FloodResponse { flood_id: 1, path_trace: vec![(1, NodeType::Client), (11, NodeType::Drone)] },
    );
    assert_eq!(
        actions,
        vec![
            DroneAction::Send { to: 1, packet: response.copy() },
            DroneAction::TryReport(DroneEvent::PacketSent(response)),
        ]
    );
}

#[test]
fn path_already_ending_with_this_drone_is_not_doubled() {
    let mut drone = BoberDrone::new(12, vec![1], 0);
    let flood_request = Packet::new_flood_request(
        route(1, vec![1, 12]),
        1,
        request(vec![(1, NodeType::Client), (12, NodeType::Drone)]),
    );
    let actions = drone.on_packet(&flood_request).unwrap();
    let response = Packet::new_flood_response(
        route(1, vec![12, 1]),
        2,
        FloodResponse { flood_id: 1, path_trace: vec![(1, NodeType::Client), (12, NodeType::Drone)] },
    );
    assert_eq!(actions[0], DroneAction::Send { to: 1, packet: response });
}

#[test]
fn flood_with_empty_path_is_ignored() {
    let mut drone = BoberDrone::new(11, vec![1], 0);
    let flood_request = Packet::new_flood_request(route(1, vec![1, 11]), 1, request(vec![]));
    assert_eq!(drone.on_packet(&flood_request).unwrap(), vec![]);
    assert!(!drone.has_received_flood(1, 1));
}

#[test]
fn response_session_overflow_is_a_fault() {
    let mut drone = BoberDrone::new(11, vec![1], 0);
    let flood_request =
        Packet::new_flood_request(route(1, vec![1, 11]), u64::MAX, request(vec![(1, NodeType::Client)]));
    assert_eq!(drone.on_packet(&flood_request), Err(DroneFault::SessionIdOverflow));
    assert!(drone.has_received_flood(1, 1));
}

#[test]
fn crashing_drone_ignores_flood_requests() {
    let mut drone = BoberDrone::new(11, vec![1, 2], 0);
    drone.handle_command(bobry_w_locie::drone::DroneCommand::Crash);
    let flood_request = Packet::new_flood_request(route(1, vec![1, 11]), 1, request(vec![(1, NodeType::Client)]));
    assert_eq!(drone.on_packet(&flood_request).unwrap(), vec![]);
    assert!(!drone.has_received_flood(1, 1));
}

#[test]
fn repeated_flood_from_a_client_is_answered_through_this_drone() {
    let mut drone = BoberDrone::new(11, vec![1, 12], 0);
    let flood_request = Packet::new_flood_request(route(1, vec![1, 11]), 1, request(vec![(1, NodeType::Client)]));
    let first = drone.on_packet(&flood_request).unwrap();
    assert_eq!(first.len(), 2);
    let second = drone.on_packet(&flood_request).unwrap();
    let response = Packet::new_flood_response(
        route(1, vec![11, 1]),
        2,
        FloodResponse { flood_id: 1, path_trace: vec![(1, NodeType::Client), (11, NodeType::Drone)] },
    );
    assert_eq!(
        second,
        vec![
            DroneAction::Send { to: 1, packet: response.copy() },
            DroneAction::TryReport(DroneEvent::PacketSent(response)),
        ]
    );
}
