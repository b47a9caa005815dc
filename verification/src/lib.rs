//! Core of a DALI (Digital Addressable Lighting Interface) bus
//! controller: frame codec, hex wire encoding, configuration model,
//! protocol manager, commissioning search, group matching and command
//! dispatch.  Transport backends implement the
//! [`dali_manager::DaliController`] trait: a fully verified in-process
//! emulator, and the serial hardware adapter, whose byte I/O is trusted
//! and whose protocol handling is verified.

pub mod command_payload;
pub mod config_payload;
pub mod dali_atx;
pub mod dali_commands;
pub mod dali_emulator;
pub mod dali_iterator;
pub mod dali_manager;
pub mod frames;
pub mod match_group;
pub mod mqtt;
pub mod text;
