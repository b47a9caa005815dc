//! Wire codec tests: hex round trips, reply-line parsing, frame
//! address bytes, decimal rendering and the status description.

use mqtt_dali::command_payload::LightStatus;
use mqtt_dali::dali_atx::{byte_to_hex, byte_to_hex_lower, get_byte_value, get_digit, receive_reply, DaliAtxError};
use mqtt_dali::frames::{
    broadcast_frame_bytes, to_command_group_address, to_command_short_address,
    to_light_group_address, to_light_short_address, DaliBusResult,
};
use mqtt_dali::text::{dec_string, light_description};

#[test]
fn hex_round_trip_all_bytes_upper_and_lower() {
    for v in 0..=255u8 {
        let (hi, lo) = byte_to_hex(v);
        assert_eq!(get_byte_value(&[hi, lo]), Ok(v));
        let (hi, lo) = byte_to_hex_lower(v);
        assert_eq!(get_byte_value(&[hi, lo]), Ok(v));
    }
}

#[test]
fn hex_encoding_is_injective() {
    for v in 0..=255u8 {
        for w in 0..=255u8 {
            if v != w {
                assert_ne!(byte_to_hex(v), byte_to_hex(w));
            }
        }
    }
}

#[test]
fn hex_digits() {
    assert_eq!(get_digit(b'0'), Ok(0));
    assert_eq!(get_digit(b'9'), Ok(9));
    assert_eq!(get_digit(b'A'), Ok(10));
    assert_eq!(get_digit(b'f'), Ok(15));
    assert_eq!(get_digit(b'g'), Err(DaliAtxError::InvalidHexDigit(b'g')));
}

#[test]
fn reply_line_value8() {
    assert_eq!(receive_reply(b"J2A\n", 0), Ok(DaliBusResult::Value8(0x2a)));
    assert_eq!(receive_reply(b"Dff\n", 0), Ok(DaliBusResult::Value8(0xff)));
}

#[test]
fn reply_line_value16_and_24() {
    assert_eq!(receive_reply(b"H1234\n", 0), Ok(DaliBusResult::Value16(0x1234)));
    assert_eq!(receive_reply(b"Labcdef\n", 0), Ok(DaliBusResult::Value24(0xabcdef)));
    assert_eq!(receive_reply(b"V000001\n", 0), Ok(DaliBusResult::Value24(1)));
}

#[test]
fn reply_line_statuses() {
    assert_eq!(receive_reply(b"X\n", 0), Ok(DaliBusResult::ReceiveCollision));
    assert_eq!(receive_reply(b"Z\n", 0), Ok(DaliBusResult::TransmitCollision));
    assert_eq!(receive_reply(b"N\n", 0), Ok(DaliBusResult::NoReply));
}

#[test]
fn reply_line_bus_prefix() {
    assert_eq!(receive_reply(b"2N\n", 2), Ok(DaliBusResult::NoReply));
    assert_eq!(receive_reply(b"2N\n", 0), Err(DaliAtxError::UnexpectedBus(0, 2)));
    assert_eq!(receive_reply(b"N\n", 1), Err(DaliAtxError::UnexpectedBus(1, 0)));
}

#[test]
fn reply_line_errors() {
    assert_eq!(receive_reply(b"Q\n", 0), Err(DaliAtxError::UnexpectedReply(b'Q')));
    assert_eq!(receive_reply(b"Jzz\n", 0), Err(DaliAtxError::InvalidHexDigit(b'z')));
    assert_eq!(receive_reply(b"", 0), Err(DaliAtxError::TruncatedReply));
    assert_eq!(receive_reply(b"H12", 0), Err(DaliAtxError::TruncatedReply));
    assert_eq!(receive_reply(b"H12g5\n", 0), Err(DaliAtxError::InvalidHexDigit(b'g')));
}

#[test]
fn frame_address_bytes() {
    for a in 0..64u8 {
        assert_eq!(to_light_short_address(a), a << 1);
        assert_eq!(to_light_short_address(a) & 1, 0);
        assert_eq!(to_command_short_address(a), (a << 1) | 1);
        assert_eq!(to_command_short_address(a) & 1, 1);
    }
    for g in 0..16u8 {
        assert_eq!(to_light_group_address(g), 0x80 | (g << 1));
        assert_eq!(to_light_group_address(g) & 1, 0);
        assert_eq!(to_command_group_address(g), 0x80 | (g << 1) | 1);
        assert_eq!(to_command_group_address(g) & 1, 1);
    }
}

#[test]
fn broadcast_bytes() {
    // A special command (0x100 flag) carries the command byte first.
    assert_eq!(broadcast_frame_bytes(0x1a5, 0xff), (0xa5, 0xff));
    // A normal broadcast carries the broadcast address first.
    assert_eq!(broadcast_frame_bytes(0x90, 0), (0xff, 0x90));
}

#[test]
fn decimal_rendering() {
    assert_eq!(dec_string(0), "0");
    assert_eq!(dec_string(7), "7");
    assert_eq!(dec_string(63), "63");
    assert_eq!(dec_string(255), "255");
    assert_eq!(dec_string(1000), "1000");
    assert_eq!(light_description(5), "Light 5");
}

#[test]
fn status_description_rendering() {
    assert_eq!(LightStatus(0x04).description(), "0x04:  Lamp-ON");
    assert_eq!(LightStatus(0x00).description(), "0x00: ");
    assert_eq!(LightStatus(0x03).description(), "0x03:  Not-OK Lamp-Failure");
    assert_eq!(LightStatus(0xff).description(),
        "0xff:  Not-OK Lamp-Failure Lamp-ON Limit-error Fade-In-Progress Reset-state Missing-short-address Power-Failure");
}
