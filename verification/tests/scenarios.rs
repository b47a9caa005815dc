//! End-to-end scenarios against the emulated bus: discovery, levels,
//! groups, pattern matching, address removal and status queries.

use mqtt_dali::command_payload::DaliCommand;
use mqtt_dali::config_payload::{BusConfig, BusStatus, DaliConfig};
use mqtt_dali::dali_emulator::{DaliControllerEmulator, DaliLightEmulator};
use mqtt_dali::dali_manager::DaliManager;
use mqtt_dali::mqtt::{CommandError, MqttDali};

fn fresh_controller(light_count: usize) -> MqttDali<DaliControllerEmulator> {
    let mut dali_config = DaliConfig::new("TestController");
    dali_config.buses.push(BusConfig::new(0, BusStatus::Unknown));
    let controller = DaliControllerEmulator::new(1, light_count);
    MqttDali::new(DaliManager::new(controller), dali_config)
}

fn ballast_with_short<'a>(
    mqtt: &'a MqttDali<DaliControllerEmulator>,
    short_address: u8,
) -> &'a DaliLightEmulator {
    mqtt.dali_manager
        .controller
        .buses[0]
        .lights
        .iter()
        .find(|l| l.short_address == short_address)
        .expect("no ballast with that short address")
}

fn discovered(light_count: usize) -> MqttDali<DaliControllerEmulator> {
    let mut mqtt = fresh_controller(light_count);
    let outcome = mqtt.dispatch(&DaliCommand::FindAllLights { bus: 0 });
    assert!(outcome.result.is_ok());
    mqtt
}

#[test]
fn find_all_lights_discovers_three() {
    let mut mqtt = fresh_controller(3);
    let outcome = mqtt.dispatch(&DaliCommand::FindAllLights { bus: 0 });
    assert!(outcome.result.is_ok());
    assert!(outcome.republish);
    let bus = &mqtt.dali_config.buses[0];
    assert_eq!(bus.channels.len(), 3);
    for k in 0..3u8 {
        assert_eq!(bus.channels[k as usize].short_address, k);
        assert_eq!(bus.channels[k as usize].description, format!("Light {}", k));
    }
    for k in 0..3u8 {
        ballast_with_short(&mqtt, k);
    }
}

#[test]
fn set_light_brightness_reaches_ballast() {
    let mut mqtt = discovered(3);
    let outcome = mqtt.dispatch(&DaliCommand::SetLightBrightness { bus: 0, address: 1, value: 128 });
    assert!(outcome.result.is_ok());
    assert!(!outcome.republish);
    assert_eq!(ballast_with_short(&mqtt, 1).brightness, 128);
    assert_eq!(ballast_with_short(&mqtt, 0).brightness, 0);
    assert_eq!(ballast_with_short(&mqtt, 2).brightness, 0);
}

#[test]
fn new_group_and_add_member_idempotent() {
    let mut mqtt = discovered(3);
    let outcome = mqtt.dispatch(&DaliCommand::NewGroup { bus: 0 });
    assert!(outcome.result.is_ok());
    {
        let bus = &mqtt.dali_config.buses[0];
        assert_eq!(bus.groups.len(), 1);
        assert_eq!(bus.groups[0].group_address, 0);
        assert_eq!(bus.groups[0].description, "Group 0");
        assert!(bus.groups[0].members.is_empty());
    }
    let outcome = mqtt.dispatch(&DaliCommand::AddToGroup { bus: 0, group: 0, address: 2 });
    assert!(outcome.result.is_ok());
    assert_eq!(mqtt.dali_config.buses[0].groups[0].members, vec![2]);
    assert_eq!(ballast_with_short(&mqtt, 2).group_mask & 1, 1);
    // Adding the same member again succeeds and changes nothing.
    let outcome = mqtt.dispatch(&DaliCommand::AddToGroup { bus: 0, group: 0, address: 2 });
    assert!(outcome.result.is_ok());
    assert_eq!(mqtt.dali_config.buses[0].groups[0].members, vec![2]);
    assert_eq!(ballast_with_short(&mqtt, 2).group_mask & 1, 1);
}

#[test]
fn match_group_reconciles_and_second_run_writes_nothing() {
    let mut mqtt = discovered(3);
    let outcome = mqtt.dispatch(
        &DaliCommand::MatchGroup { bus: 0, group: 1, pattern: String::from("Light [02]") },
    );
    assert!(outcome.result.is_ok());
    {
        let bus = &mqtt.dali_config.buses[0];
        let group = bus.groups.iter().find(|g| g.group_address == 1).unwrap();
        assert_eq!(group.members, vec![0, 2]);
        assert!(!group.members.contains(&1));
    }
    assert_eq!(ballast_with_short(&mqtt, 0).group_mask & 2, 2);
    assert_eq!(ballast_with_short(&mqtt, 1).group_mask & 2, 0);
    assert_eq!(ballast_with_short(&mqtt, 2).group_mask & 2, 2);
    // A second run with the same pattern performs no device write.
    let frames_before = mqtt.dali_manager.controller.log_len();
    let outcome = mqtt.dispatch(
        &DaliCommand::MatchGroup { bus: 0, group: 1, pattern: String::from("Light [02]") },
    );
    assert!(outcome.result.is_ok());
    assert_eq!(mqtt.dali_manager.controller.log_len(), frames_before);
    let bus = &mqtt.dali_config.buses[0];
    let group = bus.groups.iter().find(|g| g.group_address == 1).unwrap();
    assert_eq!(group.members, vec![0, 2]);
}

#[test]
fn remove_short_address_and_rediscover() {
    let mut mqtt = discovered(3);
    let outcome = mqtt.dispatch(&DaliCommand::RemoveShortAddress { bus: 0, address: 1 });
    assert!(outcome.result.is_ok());
    let bus = &mqtt.dali_config.buses[0];
    assert_eq!(bus.channels.len(), 2);
    assert!(bus.channels.iter().all(|c| c.short_address != 1));
    assert_eq!(ballast_with_short(&mqtt, 0xff).short_address, 0xff);
    let outcome = mqtt.dispatch(&DaliCommand::FindNewLights { bus: 0 });
    assert!(outcome.result.is_ok());
    let bus = &mqtt.dali_config.buses[0];
    assert_eq!(bus.channels.len(), 3);
    let readded = bus.channels.iter().find(|c| c.short_address == 1).unwrap();
    assert_eq!(readded.description, "Light 1");
}

#[test]
fn query_light_status_reply_envelope() {
    let mut mqtt = discovered(3);
    let outcome = mqtt.dispatch(&DaliCommand::SetLightBrightness { bus: 0, address: 0, value: 40 });
    assert!(outcome.result.is_ok());
    let outcome = mqtt.dispatch(&DaliCommand::QueryLightStatus { bus: 0, address: 0 });
    assert!(outcome.result.is_ok());
    assert!(!outcome.republish);
    let reply = outcome.reply.expect("query must produce a reply");
    assert_eq!(reply.controller, "TestController");
    assert_eq!(reply.bus, 0);
    assert_eq!(reply.address, 0);
    assert!(!reply.failure);
    assert_eq!(reply.status, 4);
    assert_eq!(reply.description, "0x04:  Lamp-ON");
}

#[test]
fn query_light_status_failure_reply() {
    let mut mqtt = discovered(1);
    // Short address 9 names no device: the emulator stays silent and the
    // query reports a failure envelope.
    let outcome = mqtt.dispatch(&DaliCommand::QueryLightStatus { bus: 0, address: 9 });
    assert!(outcome.result.is_err());
    let reply = outcome.reply.expect("query must produce a reply");
    assert!(reply.failure);
    assert_eq!(reply.status, 0);
}

#[test]
fn rename_commands() {
    let mut mqtt = discovered(2);
    let outcome = mqtt.dispatch(
        &DaliCommand::RenameBus { bus: 0, name: String::from("Kitchen bus") },
    );
    assert!(outcome.result.is_ok());
    assert!(outcome.republish);
    assert_eq!(mqtt.dali_config.buses[0].description, "Kitchen bus");
    let outcome = mqtt.dispatch(
        &DaliCommand::RenameLight { bus: 0, address: 1, name: String::from("Window") },
    );
    assert!(outcome.result.is_ok());
    assert_eq!(mqtt.dali_config.buses[0].channels[1].description, "Window");
    let outcome = mqtt.dispatch(
        &DaliCommand::RenameLight { bus: 0, address: 9, name: String::from("Nobody") },
    );
    assert_eq!(outcome.result, Err(CommandError::ShortAddress(9)));
}

#[test]
fn remove_group_clears_device_masks() {
    let mut mqtt = discovered(2);
    let outcome = mqtt.dispatch(&DaliCommand::NewGroup { bus: 0 });
    assert!(outcome.result.is_ok());
    let outcome = mqtt.dispatch(&DaliCommand::AddToGroup { bus: 0, group: 0, address: 0 });
    assert!(outcome.result.is_ok());
    assert_eq!(ballast_with_short(&mqtt, 0).group_mask, 1);
    let outcome = mqtt.dispatch(&DaliCommand::RemoveGroup { bus: 0, group: 0 });
    assert!(outcome.result.is_ok());
    assert!(mqtt.dali_config.buses[0].groups.is_empty());
    assert_eq!(ballast_with_short(&mqtt, 0).group_mask, 0);
    let outcome = mqtt.dispatch(&DaliCommand::RemoveGroup { bus: 0, group: 0 });
    assert_eq!(outcome.result, Err(CommandError::NoSuchGroup(0, 0)));
}

#[test]
fn remove_from_group_roundtrip() {
    let mut mqtt = discovered(2);
    mqtt.dispatch(&DaliCommand::NewGroup { bus: 0 });
    mqtt.dispatch(&DaliCommand::AddToGroup { bus: 0, group: 0, address: 1 });
    let outcome = mqtt.dispatch(&DaliCommand::RemoveFromGroup { bus: 0, group: 0, address: 1 });
    assert!(outcome.result.is_ok());
    assert!(mqtt.dali_config.buses[0].groups[0].members.is_empty());
    assert_eq!(ballast_with_short(&mqtt, 1).group_mask, 0);
    // Removing a light that is no member is a no-op success.
    let outcome = mqtt.dispatch(&DaliCommand::RemoveFromGroup { bus: 0, group: 0, address: 1 });
    assert!(outcome.result.is_ok());
}

#[test]
fn invalid_envelope_fields_are_rejected() {
    let mut mqtt = discovered(1);
    let outcome = mqtt.dispatch(&DaliCommand::AddToGroup { bus: 0, group: 16, address: 0 });
    assert_eq!(outcome.result, Err(CommandError::GroupAddress(16)));
    let outcome = mqtt.dispatch(&DaliCommand::AddToGroup { bus: 0, group: 0, address: 64 });
    assert_eq!(outcome.result, Err(CommandError::ShortAddress(64)));
    let outcome = mqtt.dispatch(&DaliCommand::SetLightBrightness { bus: 3, address: 0, value: 1 });
    assert_eq!(outcome.result, Err(CommandError::BusNumber(3)));
    assert!(!outcome.republish);
}
