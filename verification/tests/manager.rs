//! Protocol-layer tests: validation boundaries, fade-time follow-up,
//! commissioning cycle counts, search-address caching, and the
//! short-address change round trip.

use mqtt_dali::command_payload::DaliCommand;
use mqtt_dali::config_payload::{BusConfig, BusStatus, Channel, DaliConfig, Group};
use mqtt_dali::dali_emulator::DaliControllerEmulator;
use mqtt_dali::dali_iterator::{DaliBusIterator, DaliDeviceSelection};
use mqtt_dali::dali_manager::{DaliManager, DaliManagerError};
use mqtt_dali::mqtt::{CommandError, MqttDali};

fn emulated_manager(light_count: usize) -> DaliManager<DaliControllerEmulator> {
    DaliManager::new(DaliControllerEmulator::new(1, light_count))
}

#[test]
fn short_address_boundaries() {
    let mut manager = emulated_manager(1);
    assert!(manager.set_light_brightness(0, 0, 10).is_ok());
    assert!(manager.set_light_brightness(0, 63, 10).is_ok());
    assert_eq!(
        manager.set_light_brightness(0, 64, 10),
        Err(DaliManagerError::ShortAddress(64)),
    );
}

#[test]
fn group_address_boundaries() {
    let mut manager = emulated_manager(1);
    assert!(manager.set_group_brightness(0, 0, 10).is_ok());
    assert!(manager.set_group_brightness(0, 15, 10).is_ok());
    assert_eq!(
        manager.set_group_brightness(0, 16, 10),
        Err(DaliManagerError::GroupAddress(16)),
    );
}

#[test]
fn command_code_boundary() {
    let mut manager = emulated_manager(1);
    assert!(manager.send_command_to_address(0, 0xff, 0, false).is_ok());
    assert_eq!(
        manager.send_command_to_address(0, 0x100, 0, false),
        Err(DaliManagerError::Command(0x100)),
    );
}

#[test]
fn fade_time_boundary_and_extended_follow_up() {
    let mut manager = emulated_manager(1);
    assert_eq!(
        manager.set_light_fade_time(0, 0, 16),
        Err(DaliManagerError::FadeTime(16)),
    );
    // fade_time = 0 sends the SET EXTENDED FADE TIME follow-up …
    let before = manager.controller.log_len();
    assert!(manager.set_light_fade_time(0, 3, 0).is_ok());
    let has_extended = |manager: &DaliManager<DaliControllerEmulator>, from: usize| {
        let mut found = false;
        for k in from..manager.controller.log_len() {
            let f = manager.controller.log_at(k);
            if f.b1 == (3 << 1) | 1 && f.b2 == 0x30 {
                found = true;
            }
        }
        found
    };
    assert!(has_extended(&manager, before));
    // … and fade_time = 15 does not.
    let before = manager.controller.log_len();
    assert!(manager.set_light_fade_time(0, 3, 15).is_ok());
    assert!(!has_extended(&manager, before));
}

#[test]
fn binary_search_runs_24_compare_cycles_per_device() {
    let mut manager = emulated_manager(3);
    let mut iterator = DaliBusIterator::new(&mut manager, 0, DaliDeviceSelection::All).unwrap();
    let found = iterator.find_next_device(&mut manager).unwrap();
    assert!(found.is_some());
    let cycles = iterator.compare_cycles();
    assert!(cycles == 24 || cycles == 25, "got {} compare cycles", cycles);
    let found = iterator.find_next_device(&mut manager).unwrap();
    assert!(found.is_some());
    let cycles2 = iterator.compare_cycles() - cycles;
    assert!(cycles2 == 24 || cycles2 == 25, "got {} compare cycles", cycles2);
}

#[test]
fn search_address_bytes_are_not_resent() {
    let mut manager = emulated_manager(1);
    let mut iterator = DaliBusIterator::new(&mut manager, 0, DaliDeviceSelection::All).unwrap();
    assert!(iterator.send_search_address(&mut manager, 0x123456).is_ok());
    let len_after_first = manager.controller.log_len();
    // The same three bytes again: nothing goes out.
    assert!(iterator.send_search_address(&mut manager, 0x123456).is_ok());
    assert_eq!(manager.controller.log_len(), len_after_first);
    // Only the low byte differs: exactly one frame goes out.
    assert!(iterator.send_search_address(&mut manager, 0x123457).is_ok());
    assert_eq!(manager.controller.log_len(), len_after_first + 1);
    let f = manager.controller.log_at(len_after_first);
    assert_eq!(f.b1, 0xb5);
    assert_eq!(f.b2, 0x57);
}

#[test]
fn change_short_address_round_trip_keeps_description() {
    let mut manager = emulated_manager(1);
    let mut bus = BusConfig::new(0, BusStatus::Active);
    bus.channels.push(Channel { short_address: 1, description: String::from("Kitchen") });
    bus.channels.push(Channel { short_address: 2, description: String::from("Hall") });
    assert!(manager.change_short_address(&mut bus, 1, 5).is_ok());
    assert!(bus.channels.iter().any(|c| c.short_address == 5 && c.description == "Kitchen"));
    assert!(bus.channels.iter().all(|c| c.short_address != 1));
    assert!(manager.change_short_address(&mut bus, 5, 1).is_ok());
    assert_eq!(bus.channels.len(), 2);
    assert!(bus.channels.iter().any(|c| c.short_address == 1 && c.description == "Kitchen"));
    assert!(bus.channels.iter().any(|c| c.short_address == 2 && c.description == "Hall"));
}

#[test]
fn program_short_address_sends_withdraw() {
    let mut manager = emulated_manager(1);
    let mut iterator = DaliBusIterator::new(&mut manager, 0, DaliDeviceSelection::All).unwrap();
    let found = iterator.find_next_device(&mut manager).unwrap();
    assert!(found.is_some());
    assert!(manager.program_short_address(0, 7).is_ok());
    assert_eq!(manager.controller.buses[0].lights[0].short_address, 7);
}

#[test]
fn unknown_bus_rejects_mutations_but_not_rename_bus() {
    let mut dali_config = DaliConfig::new("TestController");
    dali_config.buses.push(BusConfig::new(0, BusStatus::Active));
    dali_config.buses[0].channels.push(
        Channel { short_address: 0, description: String::from("Light 0") },
    );
    let mut controller = DaliControllerEmulator::new(1, 1);
    controller.bus_status = BusStatus::Unknown;
    let mut mqtt = MqttDali::new(DaliManager::new(controller), dali_config);
    // Every mutating command is refused while the bus status is unknown …
    let outcome = mqtt.dispatch(&DaliCommand::NewGroup { bus: 0 });
    assert_eq!(outcome.result, Err(CommandError::InvalidBusStatus(0)));
    assert!(!outcome.republish);
    let outcome = mqtt.dispatch(&DaliCommand::AddToGroup { bus: 0, group: 0, address: 0 });
    assert_eq!(outcome.result, Err(CommandError::InvalidBusStatus(0)));
    let outcome = mqtt.dispatch(
        &DaliCommand::RenameLight { bus: 0, address: 0, name: String::from("X") },
    );
    assert_eq!(outcome.result, Err(CommandError::InvalidBusStatus(0)));
    assert_eq!(mqtt.dali_config.buses[0].channels[0].description, "Light 0");
    // … except renaming the bus itself.
    let outcome = mqtt.dispatch(&DaliCommand::RenameBus { bus: 0, name: String::from("Dead") });
    assert!(outcome.result.is_ok());
    assert_eq!(mqtt.dali_config.buses[0].description, "Dead");
}

#[test]
fn group_fade_time_boundary_and_extended_follow_up() {
    let mut manager = emulated_manager(1);
    assert_eq!(
        manager.set_group_fade_time(0, 16, 0),
        Err(DaliManagerError::GroupAddress(16)),
    );
    let has_group_extended = |manager: &DaliManager<DaliControllerEmulator>, from: usize| {
        let mut found = false;
        for k in from..manager.controller.log_len() {
            let f = manager.controller.log_at(k);
            if f.b1 == 0x80 | (2 << 1) | 1 && f.b2 == 0x30 {
                found = true;
            }
        }
        found
    };
    let before = manager.controller.log_len();
    assert!(manager.set_group_fade_time(0, 2, 0).is_ok());
    assert!(has_group_extended(&manager, before));
    let before = manager.controller.log_len();
    assert!(manager.set_group_fade_time(0, 2, 15).is_ok());
    assert!(!has_group_extended(&manager, before));
}

#[test]
fn fix_group_membership_repairs_drift() {
    let mut config = DaliConfig::new("C");
    let mut bus = BusConfig::new(0, BusStatus::Active);
    bus.channels.push(Channel { short_address: 0, description: String::from("Light 0") });
    bus.groups.push(Group {
        group_address: 2,
        description: String::from("Row"),
        members: vec![0],
    });
    config.buses.push(bus);
    let mut controller = mqtt_dali::dali_emulator::DaliControllerEmulator::try_new(&config);
    // Drift: the device believes it is in group 3 and not in group 2.
    controller.buses[0].lights[0].group_mask = 1 << 3;
    let mut manager = DaliManager::new(controller);
    manager.fix_group_membership(&config.buses[0]);
    assert_eq!(manager.controller.buses[0].lights[0].group_mask, 1 << 2);
}

#[test]
fn address_change_boundaries() {
    let mut manager = emulated_manager(1);
    let mut bus = BusConfig::new(0, BusStatus::Active);
    assert_eq!(
        manager.change_short_address(&mut bus, 64, 5),
        Err(DaliManagerError::ShortAddress(64)),
    );
    assert_eq!(
        manager.change_short_address(&mut bus, 1, 70),
        Err(DaliManagerError::ShortAddress(70)),
    );
    assert_eq!(
        manager.program_short_address(0, 64),
        Err(DaliManagerError::ShortAddress(64)),
    );
    let result = DaliBusIterator::new(&mut manager, 0, DaliDeviceSelection::Address(64));
    assert!(matches!(result, Err(DaliManagerError::ShortAddress(64))));
}

#[test]
fn commissioning_start_broadcasts_in_order() {
    let mut manager = emulated_manager(1);
    let before = manager.controller.log_len();
    let _ = DaliBusIterator::new(&mut manager, 0, DaliDeviceSelection::All).unwrap();
    // TERMINATE, INITIALISE, RANDOMISE, in order, all send-twice.
    assert_eq!(manager.controller.log_len(), before + 3);
    let f = manager.controller.log_at(before);
    assert!(f.b1 == 0xa1 && f.twice);
    let f = manager.controller.log_at(before + 1);
    assert!(f.b1 == 0xa5 && f.b2 == 0 && f.twice);
    let f = manager.controller.log_at(before + 2);
    assert!(f.b1 == 0xa7 && f.twice);
}

#[test]
fn terminated_cursor_sends_only_terminate() {
    let mut manager = emulated_manager(2);
    let mut iterator = DaliBusIterator::new(&mut manager, 0, DaliDeviceSelection::All).unwrap();
    iterator.terminate();
    let before = manager.controller.log_len();
    let found = iterator.find_next_device(&mut manager).unwrap();
    assert!(found.is_none());
    // Exactly one TERMINATE broadcast, no search or compare traffic.
    assert_eq!(manager.controller.log_len(), before + 1);
    let f = manager.controller.log_at(before);
    assert!(f.b1 == 0xa1 && !f.twice);
}
