use bobry_w_locie::drone::{BoberDrone, DroneAction, DroneEvent, DroneFault};
use bobry_w_locie::packet::{Fragment, Nack, NackType, Packet, SourceRoutingHeader};

fn route(hop_index: usize, hops: Vec<u8>) -> SourceRoutingHeader {
    SourceRoutingHeader { hop_index, hops }
}

fn fragment() -> Fragment {
    Fragment { fragment_index: 1, total_n_fragments: 1, length: 128, data: [1; 128] }
}

#[test]
pub fn nack_unexpected_recipient_test() {
    let mut drone = BoberDrone::new(12, vec![11], 0);
    let msg = Packet::new_fragment(route(2, vec![1, 11, 13, 21]), 1, fragment());
    let actions = drone.on_packet(&msg).unwrap();
    let nack_packet = Packet::new_nack(
        route(1, vec![12, 11, 1]),
        1,
        Nack { fragment_index: 1, nack_type: NackType::UnexpectedRecipient(12) },
    );
    assert_eq!(
        actions,
        vec![
            DroneAction::Send { to: 11, packet: nack_packet },
            DroneAction::Report(DroneEvent::PacketDropped(msg)),
        ]
    );
}

#[test]
pub fn nack_destination_is_drone_test() {
    let mut drone = BoberDrone::new(12, vec![11], 0);
    let msg = Packet::new_fragment(route(2, vec![1, 11, 12]), 1, fragment());
    let actions = drone.on_packet(&msg).unwrap();
    let nack_packet = Packet::new_nack(
        route(1, vec![12, 11, 1]),
        1,
        Nack { fragment_index: 1, nack_type: NackType::DestinationIsDrone },
    );
    assert_eq!(
        actions,
        vec![
            DroneAction::Send { to: 11, packet: nack_packet },
            DroneAction::Report(DroneEvent::PacketDropped(msg)),
        ]
    );
}

#[test]
pub fn nack_error_in_routing_test() {
    let mut drone = BoberDrone::new(12, vec![11], 0);
    let msg = Packet::new_fragment(route(2, vec![1, 11, 12, 15]), 1, fragment());
    let actions = drone.on_packet(&msg).unwrap();
    let nack_packet = Packet::new_nack(
        route(1, vec![12, 11, 1]),
        1,
        Nack { fragment_index: 1, nack_type: NackType::ErrorInRouting(15) },
    );
    assert_eq!(
        actions,
        vec![
            DroneAction::Send { to: 11, packet: nack_packet },
            DroneAction::Report(DroneEvent::PacketDropped(msg)),
        ]
    );
}

#[test]
pub fn nack_dropped_test() {
    let mut drone = BoberDrone::new(11, vec![12, 1], 100);
    let msg = Packet::new_fragment(route(1, vec![1, 11, 12]), 1, fragment());
    let actions = drone.on_packet(&msg).unwrap();
    let nack_packet = Packet::new_nack(
        route(1, vec![11, 1]),
        1,
        Nack { fragment_index: 1, nack_type: NackType::Dropped },
    );
    assert_eq!(
        actions,
        vec![
            DroneAction::Send { to: 1, packet: nack_packet },
            DroneAction::Report(DroneEvent::PacketDropped(msg)),
        ]
    );
}

#[test]
pub fn drone_event_controller_shortcut_test() {
    let mut drone = BoberDrone::new(11, vec![1], 0);
    let nack_packet = Packet::new_nack(
        route(1, vec![11, 12, 1]),
        1,
        Nack { fragment_index: 1, nack_type: NackType::Dropped },
    );
    let actions = drone.on_packet(&nack_packet).unwrap();
    assert_eq!(actions, vec![DroneAction::Report(DroneEvent::ControllerShortcut(nack_packet))]);
}

#[test]
fn ack_for_the_drone_itself_goes_to_the_controller() {
    let mut drone = BoberDrone::new(12, vec![11], 0);
    let ack = Packet::new_ack(route(2, vec![1, 11, 12]), 3, 7);
    let actions = drone.on_packet(&ack).unwrap();
    assert_eq!(actions, vec![DroneAction::Report(DroneEvent::ControllerShortcut(ack))]);
}

#[test]
fn nack_keeps_the_fragment_index() {
    let mut drone = BoberDrone::new(12, vec![11], 0);
    let mut f = fragment();
    f.fragment_index = 42;
    let msg = Packet::new_fragment(route(2, vec![1, 11, 12]), 9, f);
    let actions = drone.on_packet(&msg).unwrap();
    match &actions[0] {
        DroneAction::Send { packet, .. } => {
            assert_eq!(packet.session_id, 9);
            assert_eq!(packet.get_fragment_index(), 0);
            assert_eq!(
                packet.pack_type,
                bobry_w_locie::packet::PacketType::Nack(Nack {
                    fragment_index: 42,
                    nack_type: NackType::DestinationIsDrone
                })
            );
        }
        other => panic!("unexpected action {:?}", other),
    }
}

#[test]
fn hop_index_outside_route_is_a_fault() {
    let mut drone = BoberDrone::new(12, vec![11], 0);
    let msg = Packet::new_fragment(route(3, vec![1, 11, 12]), 1, fragment());
    assert_eq!(drone.on_packet(&msg), Err(DroneFault::MissingCurrentHop));
}

#[test]
fn nack_with_no_way_back_is_a_fault() {
    let mut drone = BoberDrone::new(11, vec![12], 100);
    let msg = Packet::new_fragment(route(0, vec![11, 12]), 1, fragment());
    assert_eq!(drone.on_packet(&msg), Err(DroneFault::MissingNextHop));
}

#[test]
fn nack_to_a_node_that_is_no_neighbor_is_a_fault() {
    let mut drone = BoberDrone::new(12, vec![11], 0);
    let msg = Packet::new_fragment(route(2, vec![1, 5, 12]), 1, fragment());
    assert_eq!(drone.on_packet(&msg), Err(DroneFault::NotANeighbor(5)));
}
