use bobry_w_locie::drone::{BoberDrone, DroneAction, DroneEvent};
use bobry_w_locie::packet::{
    FloodResponse, Fragment, Nack, NackType, NodeType, Packet, SourceRoutingHeader,
};

fn route(hop_index: usize, hops: Vec<u8>) -> SourceRoutingHeader {
    SourceRoutingHeader { hop_index, hops }
}

fn fragment() -> Fragment {
    Fragment { fragment_index: 1, total_n_fragments: 1, length: 128, data: [1; 128] }
}

#[test]
pub fn fragment_forwarding() {
    for roll in 0..100 {
        let mut drone = BoberDrone::new(11, vec![12], 0);
        let mut msg = Packet::new_fragment(route(1, vec![1, 11, 12, 21]), 1, fragment());
        let actions = drone.handle_packet(&msg, roll).unwrap();
        msg.routing_header.hop_index = 2;
        assert_eq!(
            actions,
            vec![
                DroneAction::Send { to: 12, packet: msg.copy() },
                DroneAction::TryReport(DroneEvent::PacketSent(msg)),
            ]
        );
    }
    let mut drone = BoberDrone::new(11, vec![12], 0);
    let msg = Packet::new_fragment(route(1, vec![1, 11, 12, 21]), 1, fragment());
    assert!(matches!(drone.on_packet(&msg).unwrap()[0], DroneAction::Send { to: 12, .. }));
}

#[test]
pub fn ack_forwarding() {
    let mut drone = BoberDrone::new(11, vec![12], 0);
    let mut msg = Packet::new_ack(route(1, vec![1, 11, 12, 21]), 1, 1);
    let actions = drone.on_packet(&msg).unwrap();
    msg.routing_header.hop_index = 2;
    assert_eq!(
        actions,
        vec![
            DroneAction::Send { to: 12, packet: msg.copy() },
            DroneAction::TryReport(DroneEvent::PacketSent(msg)),
        ]
    );
}

#[test]
pub fn nack_forwarding() {
    let mut drone = BoberDrone::new(11, vec![12], 0);
    let mut nack_packet = Packet::new_nack(
        route(1, vec![1, 11, 12, 21]),
        1,
        Nack { fragment_index: 1, nack_type: NackType::Dropped },
    );
    let actions = drone.on_packet(&nack_packet).unwrap();
    nack_packet.routing_header.hop_index = 2;
    assert_eq!(
        actions,
        vec![
            DroneAction::Send { to: 12, packet: nack_packet.copy() },
            DroneAction::TryReport(DroneEvent::PacketSent(nack_packet)),
        ]
    );
}

#[test]
pub fn flood_response_forwarding() {
    let mut drone = BoberDrone::new(12, vec![11], 0);
    let mut flood_response = Packet::new_flood_response(
        route(1, vec![21, 12, 11, 1]),
        1,
        FloodResponse {
            flood_id: 1,
            path_trace: vec![
                (1, NodeType::Client),
                (11, NodeType::Drone),
                (12, NodeType::Drone),
                (21, NodeType::Server),
            ],
        },
    );
    let actions = drone.on_packet(&flood_response).unwrap();
    flood_response.routing_header.hop_index = 2;
    assert_eq!(
        actions,
        vec![
            DroneAction::Send { to: 11, packet: flood_response.copy() },
            DroneAction::TryReport(DroneEvent::PacketSent(flood_response)),
        ]
    );
}

#[test]
fn fragment_with_roll_at_threshold_goes_on() {
    let mut drone = BoberDrone::new(11, vec![12], 50);
    let msg = Packet::new_fragment(route(1, vec![1, 11, 12]), 4, fragment());
    let actions = drone.handle_packet(&msg, 50).unwrap();
    assert_eq!(actions.len(), 2);
    match &actions[0] {
        DroneAction::Send { to, packet } => {
            assert_eq!(*to, 12);
            assert_eq!(packet.routing_header.hop_index, 2);
            assert_eq!(packet.session_id, 4);
        }
        other => panic!("unexpected action {:?}", other),
    }
}

#[test]
fn fragment_with_roll_below_threshold_is_dropped() {
    let mut drone = BoberDrone::new(11, vec![12, 1], 50);
    let msg = Packet::new_fragment(route(1, vec![1, 11, 12]), 4, fragment());
    let actions = drone.handle_packet(&msg, 49).unwrap();
    let nack = Packet::new_nack(
        route(1, vec![11, 1]),
        4,
        Nack { fragment_index: 1, nack_type: NackType::Dropped },
    );
    assert_eq!(
        actions,
        vec![
            DroneAction::Send { to: 1, packet: nack },
            DroneAction::Report(DroneEvent::PacketDropped(msg)),
        ]
    );
}

#[test]
fn full_drop_rate_drops_on_every_roll() {
    for roll in 0..100 {
        let mut drone = BoberDrone::new(11, vec![12, 1], 100);
        let msg = Packet::new_fragment(route(1, vec![1, 11, 12]), 4, fragment());
        let actions = drone.handle_packet(&msg, roll).unwrap();
        assert_eq!(actions.len(), 2);
        assert_eq!(actions[1], DroneAction::Report(DroneEvent::PacketDropped(msg)));
    }
}

#[test]
fn acks_are_never_dropped() {
    let mut drone = BoberDrone::new(11, vec![12], 100);
    let msg = Packet::new_ack(route(1, vec![1, 11, 12]), 1, 9);
    let actions = drone.handle_packet(&msg, 0).unwrap();
    assert_eq!(actions.len(), 2);
    assert!(matches!(actions[0], DroneAction::Send { to: 12, .. }));
}

#[test]
fn zero_threshold_never_drops_whatever_the_draw() {
    for _ in 0..50 {
        let mut drone = BoberDrone::new(11, vec![12], 0);
        let msg = Packet::new_fragment(route(1, vec![1, 11, 12]), 1, fragment());
        let actions = drone.on_packet(&msg).unwrap();
        assert!(matches!(actions[0], DroneAction::Send { to: 12, .. }));
    }
}

#[test]
fn full_threshold_drops_whatever_the_draw() {
    for _ in 0..50 {
        let mut drone = BoberDrone::new(11, vec![12, 1], 100);
        let msg = Packet::new_fragment(route(1, vec![1, 11, 12]), 1, fragment());
        let actions = drone.on_packet(&msg).unwrap();
        assert_eq!(actions[1], DroneAction::Report(DroneEvent::PacketDropped(msg)));
    }
}
