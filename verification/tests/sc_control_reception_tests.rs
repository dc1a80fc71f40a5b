use bobry_w_locie::drone::{BoberDrone, DroneAction, DroneCommand, DroneEvent};
use bobry_w_locie::packet::{Fragment, Nack, NackType, Packet, SourceRoutingHeader};

#[test]
pub fn set_pdr_command_test() {
    let mut drone = BoberDrone::new(11, vec![], 0);
    assert!(drone.on_command(Some(DroneCommand::SetPacketDropRate(75))));
    assert_eq!(drone.drop_threshold(), 75);
}

#[test]
pub fn crash_command_test() {
    let mut drone = BoberDrone::new(11, vec![], 0);
    assert!(!drone.on_command(Some(DroneCommand::Crash)));
    assert!(drone.is_crashing());
    assert!(!drone.on_command(None));
}

#[test]
pub fn remove_sender_command_test() {
    let mut drone = BoberDrone::new(11, vec![12], 0);
    assert!(drone.on_command(Some(DroneCommand::RemoveSender(12))));
    assert_eq!(drone.neighbors(), Vec::<u8>::new());
}

#[test]
pub fn add_channel_command_test() {
    let mut drone = BoberDrone::new(11, vec![], 0);
    assert!(drone.on_command(Some(DroneCommand::AddSender(12))));
    assert_eq!(drone.neighbors(), vec![12]);
}

#[test]
fn failed_receive_keeps_the_drone_running() {
    let mut drone = BoberDrone::new(11, vec![12], 30);
    assert!(drone.on_command(None));
    assert_eq!(drone.neighbors(), vec![12]);
    assert_eq!(drone.drop_threshold(), 30);
}

#[test]
fn crashing_drone_stops_at_next_command() {
    let mut drone = BoberDrone::new(11, vec![12], 0);
    drone.handle_command(DroneCommand::Crash);
    assert!(drone.is_crashing());
    assert!(!drone.on_command(None));
    assert!(!drone.on_command(Some(DroneCommand::AddSender(13))));
    assert_eq!(drone.neighbors(), vec![12]);
}

#[test]
fn add_and_remove_report_what_was_there() {
    let mut drone = BoberDrone::new(11, vec![12, 13], 0);
    assert!(drone.add_channel(12));
    assert!(!drone.add_channel(14));
    assert_eq!(drone.neighbors(), vec![12, 13, 14]);
    assert!(drone.remove_channel(&13));
    assert!(!drone.remove_channel(&13));
    assert_eq!(drone.neighbors(), vec![12, 14]);
}

#[test]
fn add_then_remove_gives_back_the_neighbors() {
    let mut drone = BoberDrone::new(11, vec![3, 1], 0);
    drone.handle_command(DroneCommand::AddSender(7));
    drone.handle_command(DroneCommand::RemoveSender(7));
    assert_eq!(drone.neighbors(), vec![3, 1]);
}

#[test]
fn new_keeps_each_neighbor_once() {
    let drone = BoberDrone::new(4, vec![5, 6, 5, 7, 6], 10);
    assert_eq!(drone.id(), 4);
    assert_eq!(drone.neighbors(), vec![5, 6, 7]);
    assert!(!drone.is_crashing());
    assert!(!drone.has_received_flood(0, 0));
}

#[test]
fn crashing_drone_refuses_fragments_and_passes_acks_on() {
    let mut drone = BoberDrone::new(11, vec![12, 1], 0);
    drone.handle_command(DroneCommand::Crash);
    let fragment = Packet::new_fragment(
        SourceRoutingHeader { hop_index: 1, hops: vec![1, 11, 12] },
        1,
        Fragment { fragment_index: 3, total_n_fragments: 4, length: 128, data: [0; 128] },
    );
    let actions = drone.on_packet(&fragment).unwrap();
    let nack = Packet::new_nack(
        SourceRoutingHeader { hop_index: 1, hops: vec![11, 1] },
        1,
        Nack { fragment_index: 3, nack_type: NackType::ErrorInRouting(11) },
    );
    assert_eq!(
        actions,
        vec![
            DroneAction::Send { to: 1, packet: nack },
            DroneAction::Report(DroneEvent::PacketDropped(fragment)),
        ]
    );
    let ack = Packet::new_ack(SourceRoutingHeader { hop_index: 1, hops: vec![1, 11, 12] }, 1, 3);
    let actions = drone.on_packet(&ack).unwrap();
    assert!(matches!(actions[0], DroneAction::Send { to: 12, .. }));
}

#[test]
fn drop_threshold_is_kept_between_zero_and_one_hundred() {
    let mut drone = BoberDrone::new(11, vec![], -5);
    assert_eq!(drone.drop_threshold(), 0);
    assert!(drone.on_command(Some(DroneCommand::SetPacketDropRate(150))));
    assert_eq!(drone.drop_threshold(), 100);
    drone.set_pdr(-1);
    assert_eq!(drone.drop_threshold(), 0);
    let drone = BoberDrone::new(11, vec![], 101);
    assert_eq!(drone.drop_threshold(), 100);
}
