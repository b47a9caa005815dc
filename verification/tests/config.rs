//! Configuration-model tests: lookups, removals, unused addresses and
//! the runtime well-formedness check.

use mqtt_dali::config_payload::{BusConfig, BusStatus, Channel, DaliConfig, Group};

fn bus_with_channels(addresses: &[u8]) -> BusConfig {
    let mut bus = BusConfig::new(0, BusStatus::Active);
    for &a in addresses {
        bus.channels.push(Channel { short_address: a, description: format!("Light {}", a) });
    }
    bus
}

#[test]
fn bus_config_new_defaults() {
    let bus = BusConfig::new(2, BusStatus::Unknown);
    assert_eq!(bus.description, "Bus-3");
    assert_eq!(bus.bus, 2);
    assert!(bus.channels.is_empty());
    assert!(bus.groups.is_empty());
}

#[test]
fn find_member_and_indexes() {
    let bus = bus_with_channels(&[3, 7, 12]);
    let found = bus.find_member(7).expect("channel 7 exists");
    assert_eq!(found.short_address, 7);
    assert_eq!(found.description, "Light 7");
    assert!(bus.find_member(8).is_none());
    assert_eq!(bus.get_channel_index(12), Some(2));
    assert_eq!(bus.get_channel_index(1), None);
}

#[test]
fn remove_channel_takes_first_match() {
    let mut bus = bus_with_channels(&[3, 7, 12]);
    let removed = bus.remove_channel(7).expect("channel 7 exists");
    assert_eq!(removed.short_address, 7);
    assert_eq!(removed.description, "Light 7");
    assert_eq!(bus.channels.len(), 2);
    assert!(bus.remove_channel(7).is_none());
}

#[test]
fn unused_addresses_start_above_zero() {
    let bus = bus_with_channels(&[1, 2, 3]);
    assert_eq!(bus.get_unused_short_address(), Some(4));
    let empty = bus_with_channels(&[]);
    assert_eq!(empty.get_unused_short_address(), Some(1));
    assert_eq!(empty.get_unused_group_address(), Some(1));
}

#[test]
fn remove_from_group_membership() {
    let mut bus = bus_with_channels(&[0, 1]);
    bus.groups.push(Group {
        group_address: 4,
        description: String::from("Row"),
        members: vec![0, 1],
    });
    assert!(bus.remove_from_group(4, 0));
    assert_eq!(bus.groups[0].members, vec![1]);
    assert!(!bus.remove_from_group(4, 0));
    assert!(!bus.remove_from_group(5, 1));
}

#[test]
fn runtime_well_formedness_check() {
    let mut config = DaliConfig::new("C");
    config.buses.push(BusConfig::new(0, BusStatus::Active));
    assert!(config.check_wf());
    config.buses[0].channels.push(Channel { short_address: 5, description: String::from("a") });
    config.buses[0].channels.push(Channel { short_address: 5, description: String::from("b") });
    assert!(!config.check_wf());
    config.buses[0].channels.pop();
    assert!(config.check_wf());
    config.buses[0].channels.push(Channel { short_address: 64, description: String::from("c") });
    assert!(!config.check_wf());
    config.buses[0].channels.pop();
    config.buses[0].groups.push(Group {
        group_address: 16,
        description: String::from("g"),
        members: Vec::new(),
    });
    assert!(!config.check_wf());
}
