//! Wire codec of the serial DALI adapter: hex-ASCII conversion and the
//! reply-line grammar `[<bus-digit>]<type><hex-payload>`.  The byte I/O
//! itself lives outside the library; these functions do the computing on
//! both sides of it.

use vstd::prelude::*;

use crate::config_payload::{BusStatus, DaliConfig};
use crate::dali_manager::{DaliController, DaliManagerError};
use crate::frames::{DaliBusResult, DaliFrame};

verus! {

/// Decode failures of the adapter wire protocol.
#[derive(Debug, Clone, Copy, PartialEq, Eq, Structural)]
pub enum DaliAtxError {
    /// A payload byte is not a hex digit.
    InvalidHexDigit(u8),
    /// The reply names another bus than the transaction used.
    UnexpectedBus(usize, usize),
    /// The reply type letter is none of the known ones.
    UnexpectedReply(u8),
    /// The reply line ends before its payload does.
    TruncatedReply,
    /// A reply was decoded but its shape does not fit the request.
    UnexpectedBusResult(DaliBusResult),
    /// The status nibble of a `d` reply is none of the documented values.
    UnexpectedBusStatus(u8),
    /// The persisted configuration and the hardware disagree on the bus count.
    MismatchBusCount(usize, usize),
    /// The serial port could not be driven.
    Serial,
}

/// Value of one hex digit, accepting both cases; `None` for any other byte.
pub open spec fn spec_hex_digit_value(b: u8) -> Option<u8> {
    if 0x30 <= b && b <= 0x39 {
        Some((b - 0x30) as u8)
    } else if 0x41 <= b && b <= 0x46 {
        Some((b - 0x41 + 10) as u8)
    } else if 0x61 <= b && b <= 0x66 {
        Some((b - 0x61 + 10) as u8)
    } else {
        None
    }
}

/// Uppercase hex digit for a value below 16.
pub open spec fn spec_hex_digit_upper(v: u8) -> u8
    recommends
        v < 16,
{
    if v < 10 {
        (0x30 + v) as u8
    } else {
        (0x41 + v - 10) as u8
    }
}

/// Lowercase hex digit for a value below 16.
pub open spec fn spec_hex_digit_lower(v: u8) -> u8
    recommends
        v < 16,
{
    if v < 10 {
        (0x30 + v) as u8
    } else {
        (0x61 + v - 10) as u8
    }
}

/// Decoding of a two-digit hex pair, naming the first offending byte.
pub open spec fn spec_decode_pair(hi: u8, lo: u8) -> Result<u8, DaliAtxError> {
    match spec_hex_digit_value(hi) {
        None => Err(DaliAtxError::InvalidHexDigit(hi)),
        Some(h) => match spec_hex_digit_value(lo) {
            None => Err(DaliAtxError::InvalidHexDigit(lo)),
            Some(l) => Ok((16 * h + l) as u8),
        },
    }
}

pub fn get_digit(b: u8) -> (r: Result<u8, DaliAtxError>)
    ensures
        r == spec_hex_digit_value(b).ok_or(DaliAtxError::InvalidHexDigit(b)),
{
    if 0x30 <= b && b <= 0x39 {
        Ok(b - 0x30)
    } else if 0x41 <= b && b <= 0x46 {
        Ok(b - 0x41 + 10)
    } else if 0x61 <= b && b <= 0x66 {
        Ok(b - 0x61 + 10)
    } else {
        Err(DaliAtxError::InvalidHexDigit(b))
    }
}

/// Decode the two hex digits at the start of `buffer` into one byte.
pub fn get_byte_value(buffer: &[u8]) -> (r: Result<u8, DaliAtxError>)
    requires
        buffer@.len() >= 2,
    ensures
        r == spec_decode_pair(buffer@[0], buffer@[1]),
{
    let hi = get_digit(buffer[0])?;
    let lo = get_digit(buffer[1])?;
    Ok(16 * hi + lo)
}

/// Uppercase hex pair for one byte, high digit first.
pub fn byte_to_hex(value: u8) -> (r: (u8, u8))
    ensures
        r.0 == spec_hex_digit_upper(value / 16),
        r.1 == spec_hex_digit_upper(value % 16),
{
    let hi = value / 16;
    let lo = value % 16;
    let d0 = if hi < 10 {
        0x30 + hi
    } else {
        0x41 + hi - 10
    };
    let d1 = if lo < 10 {
        0x30 + lo
    } else {
        0x41 + lo - 10
    };
    (d0, d1)
}

/// Lowercase hex pair for one byte, high digit first.
pub fn byte_to_hex_lower(value: u8) -> (r: (u8, u8))
    ensures
        r.0 == spec_hex_digit_lower(value / 16),
        r.1 == spec_hex_digit_lower(value % 16),
{
    let hi = value / 16;
    let lo = value % 16;
    let d0 = if hi < 10 {
        0x30 + hi
    } else {
        0x61 + hi - 10
    };
    let d1 = if lo < 10 {
        0x30 + lo
    } else {
        0x61 + lo - 10
    };
    (d0, d1)
}

/// Decoding a hex digit undoes encoding, in either case.
pub proof fn lemma_hex_digit_round_trip(v: u8)
    requires
        v < 16,
    ensures
        spec_hex_digit_value(spec_hex_digit_upper(v)) == Some(v),
        spec_hex_digit_value(spec_hex_digit_lower(v)) == Some(v),
{
}

/// Hex encoding of bytes is a bijection on `[0, 255]`: decoding the
/// two-digit encoding of any byte returns that byte, whether the digits
/// are the uppercase ones the library emits or their lowercase forms,
/// and distinct bytes have distinct encodings.
pub proof fn lemma_hex_byte_round_trip(v: u8, w: u8)
    ensures
        spec_decode_pair(spec_hex_digit_upper(v / 16), spec_hex_digit_upper(v % 16)) == Ok::<
            u8,
            DaliAtxError,
        >(v),
        spec_decode_pair(spec_hex_digit_lower(v / 16), spec_hex_digit_lower(v % 16)) == Ok::<
            u8,
            DaliAtxError,
        >(v),
        v != w ==> (spec_hex_digit_upper(v / 16), spec_hex_digit_upper(v % 16)) != (
            spec_hex_digit_upper(w / 16),
            spec_hex_digit_upper(w % 16),
        ),
{
    lemma_hex_digit_round_trip(v / 16);
    lemma_hex_digit_round_trip(v % 16);
    lemma_hex_digit_round_trip(w / 16);
    lemma_hex_digit_round_trip(w % 16);
}


/// Reply-line grammar, given the line without its terminating newline:
/// an optional bus digit `1`..`3` (absent means bus 0), a type letter,
/// and a hex payload whose length the letter fixes.
pub open spec fn spec_parse_reply(line: Seq<u8>, expected_bus: usize) -> Result<
    DaliBusResult,
    DaliAtxError,
> {
    if line.len() == 0 {
        Err(DaliAtxError::TruncatedReply)
    } else {
        let has_bus = 0x31 <= line[0] && line[0] <= 0x33;
        let bus = if has_bus {
            (line[0] - 0x30) as usize
        } else {
            0
        };
        let rest = if has_bus {
            line.skip(1)
        } else {
            line
        };
        if bus != expected_bus {
            Err(DaliAtxError::UnexpectedBus(expected_bus, bus))
        } else if rest.len() == 0 {
            Err(DaliAtxError::TruncatedReply)
        } else {
            spec_parse_typed_reply(rest[0], rest.skip(1))
        }
    }
}

/// Payload decoding for one reply type letter.
pub open spec fn spec_parse_typed_reply(t: u8, payload: Seq<u8>) -> Result<
    DaliBusResult,
    DaliAtxError,
> {
    if t == 0x48 {  // 'H': 16-bit value
        if payload.len() < 4 {
            Err(DaliAtxError::TruncatedReply)
        } else {
            match spec_decode_pair(payload[0], payload[1]) {
                Err(e) => Err(e),
                Ok(hi) => match spec_decode_pair(payload[2], payload[3]) {
                    Err(e) => Err(e),
                    Ok(lo) => Ok(DaliBusResult::Value16((256 * hi + lo) as u16)),
                },
            }
        }
    } else if t == 0x4a || t == 0x44 {  // 'J' | 'D': 8-bit value
        if payload.len() < 2 {
            Err(DaliAtxError::TruncatedReply)
        } else {
            match spec_decode_pair(payload[0], payload[1]) {
                Err(e) => Err(e),
                Ok(v) => Ok(DaliBusResult::Value8(v)),
            }
        }
    } else if t == 0x4c || t == 0x56 {  // 'L' | 'V': 24-bit value
        if payload.len() < 6 {
            Err(DaliAtxError::TruncatedReply)
        } else {
            match spec_decode_pair(payload[0], payload[1]) {
                Err(e) => Err(e),
                Ok(b0) => match spec_decode_pair(payload[2], payload[3]) {
                    Err(e) => Err(e),
                    Ok(b1) => match spec_decode_pair(payload[4], payload[5]) {
                        Err(e) => Err(e),
                        Ok(b2) => Ok(
                            DaliBusResult::Value24((65536 * b0 + 256 * b1 + b2) as u32),
                        ),
                    },
                },
            }
        }
    } else if t == 0x58 {  // 'X'
        Ok(DaliBusResult::ReceiveCollision)
    } else if t == 0x5a {  // 'Z'
        Ok(DaliBusResult::TransmitCollision)
    } else if t == 0x4e {  // 'N'
        Ok(DaliBusResult::NoReply)
    } else {
        Err(DaliAtxError::UnexpectedReply(t))
    }
}

fn decode_pair(hi: u8, lo: u8) -> (r: Result<u8, DaliAtxError>)
    ensures
        r == spec_decode_pair(hi, lo),
{
    let h = get_digit(hi)?;
    let l = get_digit(lo)?;
    Ok(16 * h + l)
}

/// Decode one reply line (without its newline) received for a
/// transaction on `expected_bus`.
pub fn receive_reply(line: &[u8], expected_bus: usize) -> (r: Result<
    DaliBusResult,
    DaliAtxError,
>)
    ensures
        r == spec_parse_reply(line@, expected_bus),
{
    let n = line.len();
    if n == 0 {
        return Err(DaliAtxError::TruncatedReply);
    }
    let first = line[0];
    let has_bus = 0x31 <= first && first <= 0x33;
    let bus: usize = if has_bus {
        (first - 0x30) as usize
    } else {
        0
    };
    let i: usize = if has_bus {
        1
    } else {
        0
    };
    proof {
        assert(line@.skip(i as int) =~= if has_bus {
            line@.skip(1)
        } else {
            line@
        });
    }
    if bus != expected_bus {
        return Err(DaliAtxError::UnexpectedBus(expected_bus, bus));
    }
    if i >= n {
        return Err(DaliAtxError::TruncatedReply);
    }
    let t = line[i];
    let p = i + 1;
    proof {
        assert(line@.skip(i as int).skip(1) =~= line@.skip(p as int));
    }
    if t == 0x48 {
        if n - p < 4 {
            return Err(DaliAtxError::TruncatedReply);
        }
        let hi = decode_pair(line[p], line[p + 1])?;
        let lo = decode_pair(line[p + 2], line[p + 3])?;
        Ok(DaliBusResult::Value16(256 * (hi as u16) + lo as u16))
    } else if t == 0x4a || t == 0x44 {
        if n - p < 2 {
            return Err(DaliAtxError::TruncatedReply);
        }
        let v = decode_pair(line[p], line[p + 1])?;
        Ok(DaliBusResult::Value8(v))
    } else if t == 0x4c || t == 0x56 {
        if n - p < 6 {
            return Err(DaliAtxError::TruncatedReply);
        }
        let b0 = decode_pair(line[p], line[p + 1])?;
        let b1 = decode_pair(line[p + 2], line[p + 3])?;
        let b2 = decode_pair(line[p + 4], line[p + 5])?;
        Ok(DaliBusResult::Value24(65536 * (b0 as u32) + 256 * (b1 as u32) + b2 as u32))
    } else if t == 0x58 {
        Ok(DaliBusResult::ReceiveCollision)
    } else if t == 0x5a {
        Ok(DaliBusResult::TransmitCollision)
    } else if t == 0x4e {
        Ok(DaliBusResult::NoReply)
    } else {
        Err(DaliAtxError::UnexpectedReply(t))
    }
}

/// The bus status encoded in the high nibble of a `d` reply: 0 means
/// no power, 1 an overload, 2 an active bus; other values are not
/// documented for the adapter.
pub open spec fn spec_bus_status_from_reply(result: DaliBusResult) -> Result<
    BusStatus,
    DaliAtxError,
> {
    match result {
        DaliBusResult::Value8(v) => {
            if v / 16 == 0 {
                Ok(BusStatus::NoPower)
            } else if v / 16 == 1 {
                Ok(BusStatus::Overloaded)
            } else if v / 16 == 2 {
                Ok(BusStatus::Active)
            } else {
                Err(DaliAtxError::UnexpectedBusStatus((v / 16) as u8))
            }
        },
        other => Err(DaliAtxError::UnexpectedBusResult(other)),
    }
}

/// Decode the reply of a bus-status request.
pub fn bus_status_from_reply(result: DaliBusResult) -> (r: Result<BusStatus, DaliAtxError>)
    ensures
        r == spec_bus_status_from_reply(result),
{
    match result {
        DaliBusResult::Value8(v) => {
            proof {
                assert(v >> 4 == v / 16) by (bit_vector);
            }
            match v >> 4 {
                0 => Ok(BusStatus::NoPower),
                1 => Ok(BusStatus::Overloaded),
                2 => Ok(BusStatus::Active),
                s => Err(DaliAtxError::UnexpectedBusStatus(s)),
            }
        },
        other => Err(DaliAtxError::UnexpectedBusResult(other)),
    }
}

/// The serial port of the adapter.
#[verifier::external_type_specification]
#[verifier::external_body]
pub struct ExUart(rppal::uart::Uart);

/// Relies on `rppal::uart::Uart::with_path`: opens the Raspberry Pi
/// serial port the adapter sits on, 19200 baud, 8-N-1.
#[verifier::external_body]
fn uart_open() -> (r: Result<rppal::uart::Uart, DaliManagerError>)
{
    rppal::uart::Uart::with_path("/dev/serial0", 19200, rppal::uart::Parity::None, 8, 1).map_err(
        |_| DaliManagerError::Transport,
    )
}

/// Relies on `rppal::uart::Uart::set_read_mode`: sets the minimum read
/// length and the read timeout in milliseconds.
#[verifier::external_body]
fn uart_set_read_mode(uart: &mut rppal::uart::Uart, length: u8, timeout_ms: u64) -> (r: Result<
    (),
    DaliManagerError,
>)
{
    uart.set_read_mode(length, core::time::Duration::from_millis(timeout_ms)).map_err(
        |_| DaliManagerError::Transport,
    )
}

/// Relies on `rppal::uart::Uart::read` with a one-byte buffer: returns
/// how many bytes arrived (0 on timeout) and the byte slot.  What is
/// read depends on the wire, so nothing is promised of the values
/// beyond the count's bound.
#[verifier::external_body]
fn uart_read_byte(uart: &mut rppal::uart::Uart) -> (r: Result<(usize, u8), DaliManagerError>)
    ensures
        r matches Ok((n, _)) ==> n <= 1,
{
    let mut buffer = [0u8; 1];
    match uart.read(&mut buffer) {
        Ok(n) => Ok((n, buffer[0])),
        Err(_) => Err(DaliManagerError::Transport),
    }
}

/// Relies on `rppal::uart::Uart::read` with an eight-byte buffer, as
/// the version line needs: returns the count of bytes arrived and the
/// buffer.
#[verifier::external_body]
fn uart_read_8(uart: &mut rppal::uart::Uart) -> (r: Result<(usize, Vec<u8>), DaliManagerError>)
    ensures
        r matches Ok((n, buffer)) ==> n <= 8 && buffer@.len() == 8,
{
    let mut buffer = [0u8; 8];
    match uart.read(&mut buffer) {
        Ok(n) => Ok((n, buffer.to_vec())),
        Err(_) => Err(DaliManagerError::Transport),
    }
}

/// Relies on `rppal::uart::Uart::write`: sends the bytes out and
/// returns how many were accepted.
#[verifier::external_body]
fn uart_write(uart: &mut rppal::uart::Uart, data: &Vec<u8>) -> (r: Result<
    usize,
    DaliManagerError,
>)
    ensures
        r matches Ok(n) ==> n <= data@.len(),
{
    uart.write(data.as_slice()).map_err(|_| DaliManagerError::Transport)
}

/// The serial hardware adapter: a transport whose frames ride the
/// adapter's ASCII wire protocol.  The bytes come and go through the
/// UART; everything computed on them is verified.
pub struct DaliAtx {
    uart: rppal::uart::Uart,
    configured_bus_count: usize,
    frame_log: Ghost<Seq<DaliFrame>>,
}

impl DaliAtx {
    /// Open the serial port, read the version line `Vhhffnn`, check the
    /// configured bus count against the hardware (populating an empty
    /// configuration), and hand back the adapter together with the
    /// hardware and firmware versions.
    #[verifier::loop_isolation(false)]
    pub fn try_new(dali_config: &mut DaliConfig) -> (r: Result<(DaliAtx, u8, u8), DaliAtxError>)
        ensures
            r matches Ok((adapter, _, _)) ==> adapter.bus_count() == final(dali_config).buses@.len(),
            r matches Ok((adapter, _, _)) ==> adapter.frames() == Seq::<DaliFrame>::empty(),
            old(dali_config).buses@.len() > 0 ==> *final(dali_config) == *old(dali_config),
            old(dali_config).wf() ==> final(dali_config).wf(),
            final(dali_config).name == old(dali_config).name,
            old(dali_config).buses@.len() == 0 ==> forall|k: int|
                0 <= k < final(dali_config).buses@.len() ==> (
                #[trigger] final(dali_config).buses@[k]).bus == k && final(dali_config).buses@[k].status is Unknown
                    && final(dali_config).buses@[k].channels@.len() == 0 && final(dali_config).buses@[k].groups@.len()
                    == 0 && final(dali_config).buses@[k].description@
                    == crate::text::spec_bus_description(k),
            r matches Err(DaliAtxError::MismatchBusCount(c, h)) ==> c == old(dali_config).buses@.len()
                && c > 0 && h != c && *final(dali_config) == *old(dali_config),
    {
        let mut uart = match uart_open() {
            Ok(u) => u,
            Err(_) => {
                return Err(DaliAtxError::Serial);
            },
        };
        // Drain pending bytes, then ask for the version line.
        if uart_set_read_mode(&mut uart, 0, 0).is_err() {
            return Err(DaliAtxError::Serial);
        }
        let _ = uart_read_8(&mut uart);
        if uart_set_read_mode(&mut uart, 8, 5000).is_err() {
            return Err(DaliAtxError::Serial);
        }
        let mut version_request: Vec<u8> = Vec::new();
        version_request.push(0x76);  // 'v'
        version_request.push(0x0a);  // newline
        if uart_write(&mut uart, &version_request).is_err() {
            return Err(DaliAtxError::Serial);
        }
        let buffer = match uart_read_8(&mut uart) {
            Ok((8, buffer)) => buffer,
            _ => {
                return Err(DaliAtxError::TruncatedReply);
            },
        };
        let hardware_version = get_byte_value_at(&buffer, 1)?;
        let firmware_version = get_byte_value_at(&buffer, 3)?;
        let bus_count = get_byte_value_at(&buffer, 5)? as usize;
        if dali_config.buses.is_empty() {
            let mut bus_number: usize = 0;
            while bus_number < bus_count
                invariant
                    bus_number <= bus_count,
                    bus_count < 256,
                    dali_config.buses@.len() == bus_number,
                    dali_config.name == old(dali_config).name,
                    forall|i: int|
                        0 <= i < bus_number ==> (#[trigger] dali_config.buses@[i]).wf()
                            && dali_config.buses@[i].bus == i && dali_config.buses@[i].status is Unknown
                            && dali_config.buses@[i].channels@.len() == 0
                            && dali_config.buses@[i].groups@.len() == 0
                            && dali_config.buses@[i].description@
                            == crate::text::spec_bus_description(i),
                decreases bus_count - bus_number,
            {
                dali_config.buses.push(
                    crate::config_payload::BusConfig::new(bus_number, BusStatus::Unknown),
                );
                bus_number += 1;
            }
        } else if dali_config.buses.len() != bus_count {
            return Err(DaliAtxError::MismatchBusCount(dali_config.buses.len(), bus_count));
        }
        Ok(
            (
                DaliAtx { uart, configured_bus_count: bus_count, frame_log: Ghost(Seq::empty()) },
                hardware_version,
                firmware_version,
            ),
        )
    }

    /// Wait until no byte arrives within the idle window, so that a new
    /// command line does not collide with a reply in flight.  After
    /// 10000 stray bytes the bus is taken as busy beyond hope and the
    /// transaction proceeds anyway.
    #[verifier::loop_isolation(false)]
    fn wait_for_idle(&mut self)
        ensures
            final(self).configured_bus_count == old(self).configured_bus_count,
            final(self).frame_log == old(self).frame_log,
    {
        if uart_set_read_mode(&mut self.uart, 0, 100).is_err() {
            return ;
        }
        let mut stray: u32 = 0;
        while stray < 10000
            invariant
                self.configured_bus_count == old(self).configured_bus_count,
                self.frame_log == old(self).frame_log,
            decreases 10000 - stray,
        {
            match uart_read_byte(&mut self.uart) {
                Ok((0, _)) => {
                    return ;
                },
                Ok(_) => {},
                Err(_) => {
                    return ;
                },
            }
            stray += 1;
        }
    }

    /// Read one reply line, up to and without its newline.  A timeout
    /// synthesizes the no-reply line for the expected bus, as the wire
    /// protocol prescribes.
    #[verifier::loop_isolation(false)]
    fn read_line(&mut self, expected_bus: usize) -> (r: Result<Vec<u8>, DaliManagerError>)
        requires
            old(self).configured_bus_count <= 4,
            expected_bus <= 4,
        ensures
            final(self).configured_bus_count == old(self).configured_bus_count,
            final(self).frame_log == old(self).frame_log,
    {
        let mut line: Vec<u8> = Vec::new();
        if uart_set_read_mode(&mut self.uart, 0, 100).is_err() {
            return Err(DaliManagerError::Transport);
        }
        let mut received: u32 = 0;
        while received < 10000
            invariant
                self.configured_bus_count == old(self).configured_bus_count,
                self.frame_log == old(self).frame_log,
            decreases 10000 - received,
        {
            let (n, byte) = match uart_read_byte(&mut self.uart) {
                Ok(v) => v,
                Err(_) => {
                    return Err(DaliManagerError::Transport);
                },
            };
            if n == 0 {
                // Inactivity timeout: no reply came.
                let mut no_reply: Vec<u8> = Vec::new();
                if expected_bus > 0 {
                    no_reply.push(0x30 + expected_bus as u8);
                }
                no_reply.push(0x4e);  // 'N'
                return Ok(no_reply);
            }
            if byte == 0x0a {
                return Ok(line);
            }
            line.push(byte);
            received += 1;
        }
        Err(DaliManagerError::Transport)
    }

    /// One wire transaction: wait for idle, send the command letter and
    /// the hex-encoded frame, read and decode the reply line.
    fn transaction(&mut self, bus: usize, command_letter: u8, b1: u8, b2: u8) -> (r: Result<
        DaliBusResult,
        DaliManagerError,
    >)
        requires
            bus < old(self).configured_bus_count,
            old(self).configured_bus_count <= 4,
        ensures
            final(self).configured_bus_count == old(self).configured_bus_count,
            final(self).frame_log == old(self).frame_log,
    {
        self.wait_for_idle();
        let mut command_line: Vec<u8> = Vec::new();
        if bus > 0 {
            command_line.push(0x30 + bus as u8);
        }
        command_line.push(command_letter);
        let digits = byte_to_hex(b1);
        command_line.push(digits.0);
        command_line.push(digits.1);
        let digits = byte_to_hex(b2);
        command_line.push(digits.0);
        command_line.push(digits.1);
        command_line.push(0x0a);
        if uart_write(&mut self.uart, &command_line).is_err() {
            return Err(DaliManagerError::Transport);
        }
        let line = match self.read_line(bus) {
            Ok(l) => l,
            Err(e) => {
                return Err(e);
            },
        };
        match receive_reply(line.as_slice(), bus) {
            Ok(result) => Ok(result),
            Err(_) => Err(DaliManagerError::Transport),
        }
    }
}

/// Decode the two hex digits at `offset` of `buffer`.
fn get_byte_value_at(buffer: &Vec<u8>, offset: usize) -> (r: Result<u8, DaliAtxError>)
    requires
        offset <= 6,
        offset + 2 <= buffer@.len(),
    ensures
        r == spec_decode_pair(buffer@[offset as int], buffer@[offset as int + 1]),
{
    let hi = get_digit(buffer[offset])?;
    let lo = get_digit(buffer[offset + 1])?;
    Ok(16 * hi + lo)
}

impl DaliController for DaliAtx {
    closed spec fn frames(&self) -> Seq<DaliFrame> {
        self.frame_log@
    }

    closed spec fn bus_count(&self) -> nat {
        self.configured_bus_count as nat
    }

    fn send_2_bytes(&mut self, bus: usize, b1: u8, b2: u8) -> (r: Result<
        DaliBusResult,
        DaliManagerError,
    >) {
        self.frame_log = Ghost(self.frame_log@.push(DaliFrame { bus, b1, b2, twice: false }));
        if self.configured_bus_count > 4 {
            return Err(DaliManagerError::Transport);
        }
        self.transaction(bus, 0x68, b1, b2)  // 'h'
    }

    fn send_2_bytes_repeat(&mut self, bus: usize, b1: u8, b2: u8) -> (r: Result<
        DaliBusResult,
        DaliManagerError,
    >) {
        self.frame_log = Ghost(self.frame_log@.push(DaliFrame { bus, b1, b2, twice: true }));
        if self.configured_bus_count > 4 {
            return Err(DaliManagerError::Transport);
        }
        self.transaction(bus, 0x74, b1, b2)  // 't'
    }

    fn get_bus_status(&mut self, bus: usize) -> (r: Result<BusStatus, DaliManagerError>) {
        if self.configured_bus_count > 4 {
            return Err(DaliManagerError::Transport);
        }
        self.wait_for_idle();
        let mut command_line: Vec<u8> = Vec::new();
        if bus > 0 {
            command_line.push(0x30 + bus as u8);
        }
        command_line.push(0x64);  // 'd'
        command_line.push(0x0a);
        if uart_write(&mut self.uart, &command_line).is_err() {
            return Err(DaliManagerError::Transport);
        }
        let line = match self.read_line(bus) {
            Ok(l) => l,
            Err(e) => {
                return Err(e);
            },
        };
        let result = match receive_reply(line.as_slice(), bus) {
            Ok(result) => result,
            Err(_) => {
                return Err(DaliManagerError::Transport);
            },
        };
        match bus_status_from_reply(result) {
            Ok(status) => Ok(status),
            Err(_) => Err(DaliManagerError::Transport),
        }
    }
}

} // verus!
