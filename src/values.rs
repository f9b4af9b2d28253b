//! The telemetry model: fault codes, the field mask, the reply values, and
//! how a reply payload is unpacked.
use vstd::prelude::*;

use crate::error::DecodeError;
use crate::packer::{
    be_i16_bytes, be_i16_value, be_i32_bytes, be_i32_value, be_u32_bytes, be_u32_value,
    lemma_be_round_trip, Unpacker,
};

verus! {

/// A fault condition reported by the controller. Bytes that name no known
/// fault map to `Unknown`, so newer firmware never makes a reply undecodable.
#[derive(Debug, Clone, Copy, PartialEq, Eq, Structural)]
pub enum FaultCode {
    NoFault,
    OverVoltage,
    UnderVoltage,
    Drv,
    AbsOverCurrent,
    OverTempFet,
    OverTempMotor,
    GateDriverOverVoltage,
    GateDriverUnderVoltage,
    McuUnderVoltage,
    BootingFromWatchdogReset,
    EncoderSpi,
    EncoderSinCosBelowMinAmplitude,
    EncoderSinCosAboveMaxAmplitude,
    FlashCorruption,
    HighOffsetCurrentSensor1,
    HighOffsetCurrentSensor2,
    HighOffsetCurrentSensor3,
    UnbalancedCurrents,
    Brk,
    ResolverLot,
    ResolverDos,
    ResolverLos,
    FlashCorruptionAppCfg,
    FlashCorruptionMcCfg,
    EncoderNoMagnet,
    EncoderMagnetTooStrong,
    PhaseFilter,
    EncoderFault,
    LvOutputFault,
    Unknown,
}

impl FaultCode {
    /// The fault code that the wire byte `b` stands for.
    pub open spec fn from_byte(b: u8) -> FaultCode {
        match b {
            0u8 => FaultCode::NoFault,
            1u8 => FaultCode::OverVoltage,
            2u8 => FaultCode::UnderVoltage,
            3u8 => FaultCode::Drv,
            4u8 => FaultCode::AbsOverCurrent,
            5u8 => FaultCode::OverTempFet,
            6u8 => FaultCode::OverTempMotor,
            7u8 => FaultCode::GateDriverOverVoltage,
            8u8 => FaultCode::GateDriverUnderVoltage,
            9u8 => FaultCode::McuUnderVoltage,
            10u8 => FaultCode::BootingFromWatchdogReset,
            11u8 => FaultCode::EncoderSpi,
            12u8 => FaultCode::EncoderSinCosBelowMinAmplitude,
            13u8 => FaultCode::EncoderSinCosAboveMaxAmplitude,
            14u8 => FaultCode::FlashCorruption,
            15u8 => FaultCode::HighOffsetCurrentSensor1,
            16u8 => FaultCode::HighOffsetCurrentSensor2,
            17u8 => FaultCode::HighOffsetCurrentSensor3,
            18u8 => FaultCode::UnbalancedCurrents,
            19u8 => FaultCode::Brk,
            20u8 => FaultCode::ResolverLot,
            21u8 => FaultCode::ResolverDos,
            22u8 => FaultCode::ResolverLos,
            23u8 => FaultCode::FlashCorruptionAppCfg,
            24u8 => FaultCode::FlashCorruptionMcCfg,
            25u8 => FaultCode::EncoderNoMagnet,
            26u8 => FaultCode::EncoderMagnetTooStrong,
            27u8 => FaultCode::PhaseFilter,
            28u8 => FaultCode::EncoderFault,
            29u8 => FaultCode::LvOutputFault,
            _ => FaultCode::Unknown,
        }
    }

    /// The wire byte of this fault code; `Unknown` is 255.
    pub open spec fn byte(self) -> u8 {
        match self {
            FaultCode::NoFault => 0u8,
            FaultCode::OverVoltage => 1u8,
            FaultCode::UnderVoltage => 2u8,
            FaultCode::Drv => 3u8,
            FaultCode::AbsOverCurrent => 4u8,
            FaultCode::OverTempFet => 5u8,
            FaultCode::OverTempMotor => 6u8,
            FaultCode::GateDriverOverVoltage => 7u8,
            FaultCode::GateDriverUnderVoltage => 8u8,
            FaultCode::McuUnderVoltage => 9u8,
            FaultCode::BootingFromWatchdogReset => 10u8,
            FaultCode::EncoderSpi => 11u8,
            FaultCode::EncoderSinCosBelowMinAmplitude => 12u8,
            FaultCode::EncoderSinCosAboveMaxAmplitude => 13u8,
            FaultCode::FlashCorruption => 14u8,
            FaultCode::HighOffsetCurrentSensor1 => 15u8,
            FaultCode::HighOffsetCurrentSensor2 => 16u8,
            FaultCode::HighOffsetCurrentSensor3 => 17u8,
            FaultCode::UnbalancedCurrents => 18u8,
            FaultCode::Brk => 19u8,
            FaultCode::ResolverLot => 20u8,
            FaultCode::ResolverDos => 21u8,
            FaultCode::ResolverLos => 22u8,
            FaultCode::FlashCorruptionAppCfg => 23u8,
            FaultCode::FlashCorruptionMcCfg => 24u8,
            FaultCode::EncoderNoMagnet => 25u8,
            FaultCode::EncoderMagnetTooStrong => 26u8,
            FaultCode::PhaseFilter => 27u8,
            FaultCode::EncoderFault => 28u8,
            FaultCode::LvOutputFault => 29u8,
            FaultCode::Unknown => 255u8,
        }
    }

    /// The firmware's name of this fault code.
    pub open spec fn name(self) -> Seq<char> {
        match self {
            FaultCode::NoFault => "FAULT_CODE_NONE"@,
            FaultCode::OverVoltage => "FAULT_CODE_OVER_VOLTAGE"@,
            FaultCode::UnderVoltage => "FAULT_CODE_UNDER_VOLTAGE"@,
            FaultCode::Drv => "FAULT_CODE_DRV"@,
            FaultCode::AbsOverCurrent => "FAULT_CODE_ABS_OVER_CURRENT"@,
            FaultCode::OverTempFet => "FAULT_CODE_OVER_TEMP_FET"@,
            FaultCode::OverTempMotor => "FAULT_CODE_OVER_TEMP_MOTOR"@,
            FaultCode::GateDriverOverVoltage => "FAULT_CODE_GATE_DRIVER_OVER_VOLTAGE"@,
            FaultCode::GateDriverUnderVoltage => "FAULT_CODE_GATE_DRIVER_UNDER_VOLTAGE"@,
            FaultCode::McuUnderVoltage => "FAULT_CODE_MCU_UNDER_VOLTAGE"@,
            FaultCode::BootingFromWatchdogReset => "FAULT_CODE_BOOTING_FROM_WATCHDOG_RESET"@,
            FaultCode::EncoderSpi => "FAULT_CODE_ENCODER_SPI"@,
            FaultCode::EncoderSinCosBelowMinAmplitude => "FAULT_CODE_ENCODER_SINCOS_BELOW_MIN_AMPLITUDE"@,
            FaultCode::EncoderSinCosAboveMaxAmplitude => "FAULT_CODE_ENCODER_SINCOS_ABOVE_MAX_AMPLITUDE"@,
            FaultCode::FlashCorruption => "FAULT_CODE_FLASH_CORRUPTION"@,
            FaultCode::HighOffsetCurrentSensor1 => "FAULT_CODE_HIGH_OFFSET_CURRENT_SENSOR_1"@,
            FaultCode::HighOffsetCurrentSensor2 => "FAULT_CODE_HIGH_OFFSET_CURRENT_SENSOR_2"@,
            FaultCode::HighOffsetCurrentSensor3 => "FAULT_CODE_HIGH_OFFSET_CURRENT_SENSOR_3"@,
            FaultCode::UnbalancedCurrents => "FAULT_CODE_UNBALANCED_CURRENTS"@,
            FaultCode::Brk => "FAULT_CODE_BRK"@,
            FaultCode::ResolverLot => "FAULT_CODE_RESOLVER_LOT"@,
            FaultCode::ResolverDos => "FAULT_CODE_RESOLVER_DOS"@,
            FaultCode::ResolverLos => "FAULT_CODE_RESOLVER_LOS"@,
            FaultCode::FlashCorruptionAppCfg => "FAULT_CODE_FLASH_CORRUPTION_APP_CFG"@,
            FaultCode::FlashCorruptionMcCfg => "FAULT_CODE_FLASH_CORRUPTION_MC_CFG"@,
            FaultCode::EncoderNoMagnet => "FAULT_CODE_ENCODER_NO_MAGNET"@,
            FaultCode::EncoderMagnetTooStrong => "FAULT_CODE_ENCODER_MAGNET_TOO_STRONG"@,
            FaultCode::PhaseFilter => "FAULT_CODE_PHASE_FILTER"@,
            FaultCode::EncoderFault => "FAULT_CODE_ENCODER_FAULT"@,
            FaultCode::LvOutputFault => "FAULT_CODE_LV_OUTPUT_FAULT"@,
            FaultCode::Unknown => "UNKNOWN"@,
        }
    }

    /// The firmware's name of this fault code.
    pub fn as_str(&self) -> (r: &'static str)
        ensures
            r@ == self.name(),
    {
        match self {
            FaultCode::NoFault => "FAULT_CODE_NONE",
            FaultCode::OverVoltage => "FAULT_CODE_OVER_VOLTAGE",
            FaultCode::UnderVoltage => "FAULT_CODE_UNDER_VOLTAGE",
            FaultCode::Drv => "FAULT_CODE_DRV",
            FaultCode::AbsOverCurrent => "FAULT_CODE_ABS_OVER_CURRENT",
            FaultCode::OverTempFet => "FAULT_CODE_OVER_TEMP_FET",
            FaultCode::OverTempMotor => "FAULT_CODE_OVER_TEMP_MOTOR",
            FaultCode::GateDriverOverVoltage => "FAULT_CODE_GATE_DRIVER_OVER_VOLTAGE",
            FaultCode::GateDriverUnderVoltage => "FAULT_CODE_GATE_DRIVER_UNDER_VOLTAGE",
            FaultCode::McuUnderVoltage => "FAULT_CODE_MCU_UNDER_VOLTAGE",
            FaultCode::BootingFromWatchdogReset => "FAULT_CODE_BOOTING_FROM_WATCHDOG_RESET",
            FaultCode::EncoderSpi => "FAULT_CODE_ENCODER_SPI",
            FaultCode::EncoderSinCosBelowMinAmplitude => "FAULT_CODE_ENCODER_SINCOS_BELOW_MIN_AMPLITUDE",
            FaultCode::EncoderSinCosAboveMaxAmplitude => "FAULT_CODE_ENCODER_SINCOS_ABOVE_MAX_AMPLITUDE",
            FaultCode::FlashCorruption => "FAULT_CODE_FLASH_CORRUPTION",
            FaultCode::HighOffsetCurrentSensor1 => "FAULT_CODE_HIGH_OFFSET_CURRENT_SENSOR_1",
            FaultCode::HighOffsetCurrentSensor2 => "FAULT_CODE_HIGH_OFFSET_CURRENT_SENSOR_2",
            FaultCode::HighOffsetCurrentSensor3 => "FAULT_CODE_HIGH_OFFSET_CURRENT_SENSOR_3",
            FaultCode::UnbalancedCurrents => "FAULT_CODE_UNBALANCED_CURRENTS",
            FaultCode::Brk => "FAULT_CODE_BRK",
            FaultCode::ResolverLot => "FAULT_CODE_RESOLVER_LOT",
            FaultCode::ResolverDos => "FAULT_CODE_RESOLVER_DOS",
            FaultCode::ResolverLos => "FAULT_CODE_RESOLVER_LOS",
            FaultCode::FlashCorruptionAppCfg => "FAULT_CODE_FLASH_CORRUPTION_APP_CFG",
            FaultCode::FlashCorruptionMcCfg => "FAULT_CODE_FLASH_CORRUPTION_MC_CFG",
            FaultCode::EncoderNoMagnet => "FAULT_CODE_ENCODER_NO_MAGNET",
            FaultCode::EncoderMagnetTooStrong => "FAULT_CODE_ENCODER_MAGNET_TOO_STRONG",
            FaultCode::PhaseFilter => "FAULT_CODE_PHASE_FILTER",
            FaultCode::EncoderFault => "FAULT_CODE_ENCODER_FAULT",
            FaultCode::LvOutputFault => "FAULT_CODE_LV_OUTPUT_FAULT",
            FaultCode::Unknown => "UNKNOWN",
        }
    }
}

impl From<u8> for FaultCode {
    fn from(value: u8) -> (r: Self) {
        match value {
            0u8 => FaultCode::NoFault,
            1u8 => FaultCode::OverVoltage,
            2u8 => FaultCode::UnderVoltage,
            3u8 => FaultCode::Drv,
            4u8 => FaultCode::AbsOverCurrent,
            5u8 => FaultCode::OverTempFet,
            6u8 => FaultCode::OverTempMotor,
            7u8 => FaultCode::GateDriverOverVoltage,
            8u8 => FaultCode::GateDriverUnderVoltage,
            9u8 => FaultCode::McuUnderVoltage,
            10u8 => FaultCode::BootingFromWatchdogReset,
            11u8 => FaultCode::EncoderSpi,
            12u8 => FaultCode::EncoderSinCosBelowMinAmplitude,
            13u8 => FaultCode::EncoderSinCosAboveMaxAmplitude,
            14u8 => FaultCode::FlashCorruption,
            15u8 => FaultCode::HighOffsetCurrentSensor1,
            16u8 => FaultCode::HighOffsetCurrentSensor2,
            17u8 => FaultCode::HighOffsetCurrentSensor3,
            18u8 => FaultCode::UnbalancedCurrents,
            19u8 => FaultCode::Brk,
            20u8 => FaultCode::ResolverLot,
            21u8 => FaultCode::ResolverDos,
            22u8 => FaultCode::ResolverLos,
            23u8 => FaultCode::FlashCorruptionAppCfg,
            24u8 => FaultCode::FlashCorruptionMcCfg,
            25u8 => FaultCode::EncoderNoMagnet,
            26u8 => FaultCode::EncoderMagnetTooStrong,
            27u8 => FaultCode::PhaseFilter,
            28u8 => FaultCode::EncoderFault,
            29u8 => FaultCode::LvOutputFault,
            _ => FaultCode::Unknown,
        }
    }
}

impl Default for FaultCode {
    fn default() -> (r: Self)
        ensures
            r == FaultCode::NoFault,
    {
        FaultCode::NoFault
    }
}

impl vstd::std_specs::convert::FromSpecImpl<u8> for FaultCode {
    open spec fn obeys_from_spec() -> bool {
        true
    }

    open spec fn from_spec(v: u8) -> FaultCode {
        FaultCode::from_byte(v)
    }
}

/// Reading the wire byte of a fault code gives the fault code back.
pub proof fn lemma_fault_code_round_trip(f: FaultCode)
    ensures
        FaultCode::from_byte(f.byte()) == f,
{
}

/// A set of telemetry fields, one bit per field group, in the order the
/// groups travel on the wire. Bits that name no group are kept as they are.
#[derive(Debug, Clone, Copy, PartialEq, Eq, Structural)]
pub struct ValuesMask {
    pub bits: u32,
}

impl ValuesMask {
    // The bit of each field group.
    pub const TEMP_MOSFET: u32 = 1 << 0;
    pub const TEMP_MOTOR: u32 = 1 << 1;
    pub const AVG_CURRENT_MOTOR: u32 = 1 << 2;
    pub const AVG_CURRENT_INPUT: u32 = 1 << 3;
    pub const AVG_CURRENT_D: u32 = 1 << 4;
    pub const AVG_CURRENT_Q: u32 = 1 << 5;
    pub const DUTY_CYCLE: u32 = 1 << 6;
    pub const RPM: u32 = 1 << 7;
    pub const VOLTAGE_IN: u32 = 1 << 8;
    pub const AMP_HOURS: u32 = 1 << 9;
    pub const AMP_HOURS_CHARGED: u32 = 1 << 10;
    pub const WATT_HOURS: u32 = 1 << 11;
    pub const WATT_HOURS_CHARGED: u32 = 1 << 12;
    pub const TACHOMETER: u32 = 1 << 13;
    pub const TACHOMETER_ABS: u32 = 1 << 14;
    pub const FAULT_CODE: u32 = 1 << 15;
    pub const PID_POS: u32 = 1 << 16;
    pub const CONTROLLER_ID: u32 = 1 << 17;
    pub const TEMP_MOSFET_ALL: u32 = 1 << 18;
    pub const AVG_VOLTAGE_D: u32 = 1 << 19;
    pub const AVG_VOLTAGE_Q: u32 = 1 << 20;
    pub const STATUS: u32 = 1 << 21;

    /// The mask with no bit set.
    pub fn empty() -> (r: Self)
        ensures
            r.bits == 0,
    {
        ValuesMask { bits: 0 }
    }

    /// The mask with every field group set.
    pub fn all() -> (r: Self)
        ensures
            r.bits == ALL_GROUPS,
    {
        ValuesMask { bits: ALL_GROUPS }
    }

    /// The raw bits.
    pub fn bits(&self) -> (r: u32)
        ensures
            r == self.bits,
    {
        self.bits
    }

    /// The mask of exactly these bits, known or not.
    pub fn from_bits_retain(bits: u32) -> (r: Self)
        ensures
            r.bits == bits,
    {
        ValuesMask { bits }
    }

    /// Whether every bit of `other` is set here.
    pub fn contains(&self, other: ValuesMask) -> (r: bool)
        ensures
            r == (self.bits & other.bits == other.bits),
    {
        self.bits & other.bits == other.bits
    }

    /// The bits set here or in `other`.
    pub fn union(self, other: ValuesMask) -> (r: Self)
        ensures
            r.bits == self.bits | other.bits,
    {
        ValuesMask { bits: self.bits | other.bits }
    }
}

/// Telemetry values of a reply, in the fixed-point units the controller sends.
/// Fields that a reply does not carry are zero.
#[derive(Debug, Clone, Copy, PartialEq, Eq, Structural)]
pub struct Values {
    /// MOSFET temperature, in tenths of a degree Celsius.
    pub temp_mosfet: i16,
    /// Motor temperature, in tenths of a degree Celsius.
    pub temp_motor: i16,
    /// Average motor current, in hundredths of an ampere.
    pub avg_current_motor: i32,
    /// Average input current, in hundredths of an ampere.
    pub avg_current_input: i32,
    /// Average d-axis current, in hundredths of an ampere.
    pub avg_current_d: i32,
    /// Average q-axis current, in hundredths of an ampere.
    pub avg_current_q: i32,
    /// Duty cycle, in thousandths.
    pub duty_cycle: i16,
    /// Electrical speed, in revolutions per minute.
    pub rpm: i32,
    /// Input voltage, in tenths of a volt.
    pub voltage_in: i16,
    /// Charge drawn, in ten-thousandths of an ampere-hour.
    pub amp_hours: i32,
    /// Charge regenerated, in ten-thousandths of an ampere-hour.
    pub amp_hours_charged: i32,
    /// Energy drawn, in ten-thousandths of a watt-hour.
    pub watt_hours: i32,
    /// Energy regenerated, in ten-thousandths of a watt-hour.
    pub watt_hours_charged: i32,
    /// Tachometer count.
    pub tachometer: i32,
    /// Absolute tachometer count.
    pub tachometer_abs: i32,
    /// Active fault.
    pub fault_code: FaultCode,
    /// PID position, in millionths of a degree.
    pub pid_pos: i32,
    /// Controller id on the CAN bus.
    pub controller_id: u8,
    /// Temperature of MOSFET 1, in tenths of a degree Celsius.
    pub temp_mosfet1: i16,
    /// Temperature of MOSFET 2, in tenths of a degree Celsius.
    pub temp_mosfet2: i16,
    /// Temperature of MOSFET 3, in tenths of a degree Celsius.
    pub temp_mosfet3: i16,
    /// Average d-axis voltage, in thousandths of a volt.
    pub avg_voltage_d: i32,
    /// Average q-axis voltage, in thousandths of a volt.
    pub avg_voltage_q: i32,
    /// Controller status byte.
    pub status: u8,
}

/// The values with every field zero.
pub open spec fn zero_values() -> Values {
    Values {
        temp_mosfet: 0,
        temp_motor: 0,
        avg_current_motor: 0,
        avg_current_input: 0,
        avg_current_d: 0,
        avg_current_q: 0,
        duty_cycle: 0,
        rpm: 0,
        voltage_in: 0,
        amp_hours: 0,
        amp_hours_charged: 0,
        watt_hours: 0,
        watt_hours_charged: 0,
        tachometer: 0,
        tachometer_abs: 0,
        fault_code: FaultCode::NoFault,
        pid_pos: 0,
        controller_id: 0,
        temp_mosfet1: 0,
        temp_mosfet2: 0,
        temp_mosfet3: 0,
        avg_voltage_d: 0,
        avg_voltage_q: 0,
        status: 0,
    }
}

impl Default for Values {
    fn default() -> (r: Self)
        ensures
            r == zero_values(),
    {
        Values {
            temp_mosfet: 0,
            temp_motor: 0,
            avg_current_motor: 0,
            avg_current_input: 0,
            avg_current_d: 0,
            avg_current_q: 0,
            duty_cycle: 0,
            rpm: 0,
            voltage_in: 0,
            amp_hours: 0,
            amp_hours_charged: 0,
            watt_hours: 0,
            watt_hours_charged: 0,
            tachometer: 0,
            tachometer_abs: 0,
            fault_code: FaultCode::NoFault,
            pid_pos: 0,
            controller_id: 0,
            temp_mosfet1: 0,
            temp_mosfet2: 0,
            temp_mosfet3: 0,
            avg_voltage_d: 0,
            avg_voltage_q: 0,
            status: 0,
        }
    }
}

/// A reply of the controller.
#[derive(Debug, Clone, Copy, PartialEq, Eq, Structural)]
pub enum CommandReply {
    /// Every telemetry field, in reply to a full request.
    GetValues(Values),
    /// The fields that the request's mask selected; the others are zero.
    GetValuesSelective(Values),
}

/// The number of field groups that a mask can select.
pub const GROUP_COUNT: u32 = 22;

/// Whether `mask` selects field group `g`.
pub open spec fn selects(mask: u32, g: u32) -> bool {
    mask & (1u32 << g) != 0
}

/// How many payload bytes field group `g` takes.
pub open spec fn group_width(g: u32) -> nat {
    if g == 0 || g == 1 || g == 6 || g == 8 {
        2
    } else if g == 15 || g == 17 || g == 21 {
        1
    } else if g == 18 {
        6
    } else {
        4
    }
}

/// `v` with the fields of group `g` read from the group's bytes `b`.
pub open spec fn set_group(v: Values, g: u32, b: Seq<u8>) -> Values {
    match g {
        0 => Values { temp_mosfet: be_i16_value(b.subrange(0, 2)), ..v },
        1 => Values { temp_motor: be_i16_value(b.subrange(0, 2)), ..v },
        2 => Values { avg_current_motor: be_i32_value(b.subrange(0, 4)), ..v },
        3 => Values { avg_current_input: be_i32_value(b.subrange(0, 4)), ..v },
        4 => Values { avg_current_d: be_i32_value(b.subrange(0, 4)), ..v },
        5 => Values { avg_current_q: be_i32_value(b.subrange(0, 4)), ..v },
        6 => Values { duty_cycle: be_i16_value(b.subrange(0, 2)), ..v },
        7 => Values { rpm: be_i32_value(b.subrange(0, 4)), ..v },
        8 => Values { voltage_in: be_i16_value(b.subrange(0, 2)), ..v },
        9 => Values { amp_hours: be_i32_value(b.subrange(0, 4)), ..v },
        10 => Values { amp_hours_charged: be_i32_value(b.subrange(0, 4)), ..v },
        11 => Values { watt_hours: be_i32_value(b.subrange(0, 4)), ..v },
        12 => Values { watt_hours_charged: be_i32_value(b.subrange(0, 4)), ..v },
        13 => Values { tachometer: be_i32_value(b.subrange(0, 4)), ..v },
        14 => Values { tachometer_abs: be_i32_value(b.subrange(0, 4)), ..v },
        15 => Values { fault_code: FaultCode::from_byte(b[0]), ..v },
        16 => Values { pid_pos: be_i32_value(b.subrange(0, 4)), ..v },
        17 => Values { controller_id: b[0], ..v },
        18 => Values {
            temp_mosfet1: be_i16_value(b.subrange(0, 2)),
            temp_mosfet2: be_i16_value(b.subrange(2, 4)),
            temp_mosfet3: be_i16_value(b.subrange(4, 6)),
            ..v
        },
        19 => Values { avg_voltage_d: be_i32_value(b.subrange(0, 4)), ..v },
        20 => Values { avg_voltage_q: be_i32_value(b.subrange(0, 4)), ..v },
        21 => Values { status: b[0], ..v },
        _ => v,
    }
}

/// Unpacks the groups from `g` on that `mask` selects, from the front of `s`,
/// into `v`: the values and the bytes used, or `None` where `s` ends too soon.
pub open spec fn parse_groups(s: Seq<u8>, mask: u32, g: u32, v: Values) -> Option<(Values, nat)>
    decreases GROUP_COUNT - g,
{
    if g >= GROUP_COUNT {
        Some((v, 0))
    } else if selects(mask, g) {
        let w = group_width(g);
        if s.len() < w {
            None
        } else {
            match parse_groups(s.skip(w as int), mask, (g + 1) as u32, set_group(v, g, s.take(w as int))) {
                Some((r, n)) => Some((r, n + w)),
                None => None,
            }
        }
    } else {
        parse_groups(s, mask, (g + 1) as u32, v)
    }
}

/// Reads field group `g` at the cursor into `v`.
fn unpack_group(u: &mut Unpacker, g: u32, v: &mut Values) -> (r: Result<(), DecodeError>)
    requires
        g < GROUP_COUNT,
    ensures
        final(u).buf == old(u).buf,
        old(u).has(group_width(g) as int) ==> r is Ok && final(u).pos == old(u).pos + group_width(g)
            && *final(v) == set_group(*old(v), g, old(u).ahead(group_width(g) as int)),
        !old(u).has(group_width(g) as int) ==> r == Err::<(), DecodeError>(DecodeError::IncompleteData),
{
    match g {
        0 => {
            v.temp_mosfet = u.unpack_i16()?;
        },
        1 => {
            v.temp_motor = u.unpack_i16()?;
        },
        2 => {
            v.avg_current_motor = u.unpack_i32()?;
        },
        3 => {
            v.avg_current_input = u.unpack_i32()?;
        },
        4 => {
            v.avg_current_d = u.unpack_i32()?;
        },
        5 => {
            v.avg_current_q = u.unpack_i32()?;
        },
        6 => {
            v.duty_cycle = u.unpack_i16()?;
        },
        7 => {
            v.rpm = u.unpack_i32()?;
        },
        8 => {
            v.voltage_in = u.unpack_i16()?;
        },
        9 => {
            v.amp_hours = u.unpack_i32()?;
        },
        10 => {
            v.amp_hours_charged = u.unpack_i32()?;
        },
        11 => {
            v.watt_hours = u.unpack_i32()?;
        },
        12 => {
            v.watt_hours_charged = u.unpack_i32()?;
        },
        13 => {
            v.tachometer = u.unpack_i32()?;
        },
        14 => {
            v.tachometer_abs = u.unpack_i32()?;
        },
        15 => {
            let b = u.unpack_u8()?;
            v.fault_code = FaultCode::from(b);
        },
        16 => {
            v.pid_pos = u.unpack_i32()?;
        },
        17 => {
            v.controller_id = u.unpack_u8()?;
        },
        18 => {
            let ghost p = u.pos;
            let a = u.unpack_i16()?;
            let b = u.unpack_i16()?;
            let c = u.unpack_i16()?;
            v.temp_mosfet1 = a;
            v.temp_mosfet2 = b;
            v.temp_mosfet3 = c;
            assert(u.buf@.subrange(p as int, p + 6).subrange(0, 2) == u.buf@.subrange(p as int, p + 2));
            assert(u.buf@.subrange(p as int, p + 6).subrange(2, 4) == u.buf@.subrange(p + 2, p + 4));
            assert(u.buf@.subrange(p as int, p + 6).subrange(4, 6) == u.buf@.subrange(p + 4, p + 6));
        },
        19 => {
            v.avg_voltage_d = u.unpack_i32()?;
        },
        20 => {
            v.avg_voltage_q = u.unpack_i32()?;
        },
        21 => {
            v.status = u.unpack_u8()?;
        },
        _ => {
            let b = u.unpack_u8()?;
            v.status = b;
        },
    }
    Ok(())
}

/// `o` with `k` more bytes counted as used.
pub open spec fn count_more(o: Option<(Values, nat)>, k: nat) -> Option<(Values, nat)> {
    match o {
        Some((v, n)) => Some((v, n + k)),
        None => None,
    }
}

/// The bytes from the cursor to the end of its buffer.
pub open spec fn rest(u: Unpacker) -> Seq<u8> {
    u.buf@.subrange(u.pos as int, u.buf@.len() as int)
}

/// Reads, in group order, the field groups that `mask` selects; the fields of
/// the other groups stay zero.
fn unpack_fields(u: &mut Unpacker, mask: u32) -> (r: Result<Values, DecodeError>)
    requires
        old(u).pos <= old(u).buf@.len(),
    ensures
        final(u).buf == old(u).buf,
        match parse_groups(rest(*old(u)), mask, 0, zero_values()) {
            Some((v, n)) => r == Ok::<Values, DecodeError>(v) && final(u).pos == old(u).pos + n,
            None => r == Err::<Values, DecodeError>(DecodeError::IncompleteData),
        },
{
    let mut v = Values::default();
    let mut g: u32 = 0;
    while g < GROUP_COUNT
        invariant
            g <= GROUP_COUNT,
            u.buf == old(u).buf,
            old(u).pos <= u.pos <= u.buf@.len(),
            parse_groups(rest(*old(u)), mask, 0, zero_values()) == count_more(
                parse_groups(rest(*u), mask, g, v),
                (u.pos - old(u).pos) as nat,
            ),
        decreases GROUP_COUNT - g,
    {
        if mask & (1u32 << g) != 0 {
            let ghost before = *u;
            let ghost w = group_width(g);
            let res = unpack_group(u, g, &mut v);
            if res.is_err() {
                return Err(DecodeError::IncompleteData);
            }
            assert(rest(before).skip(w as int) == rest(*u));
            assert(rest(before).take(w as int) == before.ahead(w as int));
        }
        g = g + 1;
    }
    Ok(v)
}

/// Command id of a full telemetry request and its reply.
pub const GET_VALUES_ID: u8 = 4;

/// Command id of a selective telemetry request and its reply.
pub const GET_VALUES_SELECTIVE_ID: u8 = 50;

/// The mask that selects every field group.
pub const ALL_GROUPS: u32 = 0x3f_ffff;

/// Unpacks a reply payload (command id, then fields) from the front of `p`:
/// the reply and the payload bytes used.
pub open spec fn parse_reply(p: Seq<u8>) -> Result<(CommandReply, nat), DecodeError> {
    if p.len() == 0 {
        Err(DecodeError::IncompleteData)
    } else if p[0] == GET_VALUES_ID {
        match parse_groups(p.skip(1), ALL_GROUPS, 0, zero_values()) {
            Some((v, n)) => Ok((CommandReply::GetValues(v), n + 1)),
            None => Err(DecodeError::IncompleteData),
        }
    } else if p[0] == GET_VALUES_SELECTIVE_ID {
        if p.len() < 5 {
            Err(DecodeError::IncompleteData)
        } else {
            let mask = be_u32_value(p.subrange(1, 5));
            match parse_groups(p.skip(5), mask, 0, zero_values()) {
                Some((v, n)) => Ok((CommandReply::GetValuesSelective(v), n + 5)),
                None => Err(DecodeError::IncompleteData),
            }
        }
    } else {
        Err(DecodeError::UnknownPacket { id: p[0] })
    }
}

/// Reads a reply payload at the cursor. After an unknown id the cursor stands
/// just past the id byte.
pub(crate) fn unpack_reply(u: &mut Unpacker) -> (r: Result<CommandReply, DecodeError>)
    ensures
        final(u).buf == old(u).buf,
        old(u).pos > old(u).buf@.len() ==> r == Err::<CommandReply, DecodeError>(
            DecodeError::IncompleteData,
        ),
        old(u).pos <= old(u).buf@.len() ==> match parse_reply(rest(*old(u))) {
            Ok((reply, n)) => r == Ok::<CommandReply, DecodeError>(reply) && final(u).pos
                == old(u).pos + n,
            Err(e) => r == Err::<CommandReply, DecodeError>(e) && (e matches DecodeError::UnknownPacket { .. }
                ==> final(u).pos == old(u).pos + 1),
        },
{
    let ghost p = rest(*u);
    let id = u.unpack_u8()?;
    if id == GET_VALUES_ID {
        assert(rest(*u) == p.skip(1));
        let v = unpack_fields(u, ALL_GROUPS)?;
        Ok(CommandReply::GetValues(v))
    } else if id == GET_VALUES_SELECTIVE_ID {
        let ghost at = u.pos;
        let mask = match u.unpack_u32() {
            Ok(m) => m,
            Err(e) => {
                return Err(e);
            },
        };
        assert(u.buf@.subrange(at as int, at + 4) == p.subrange(1, 5));
        assert(rest(*u) == p.skip(5));
        let v = unpack_fields(u, mask)?;
        Ok(CommandReply::GetValuesSelective(v))
    } else {
        Err(DecodeError::UnknownPacket { id })
    }
}

/// Group parsing reads its input front to back and never past what it uses:
/// on a prefix `s` of `t` it gives what it gives on `t` wherever the bytes it
/// uses are all in `s`, and runs short otherwise.
pub proof fn lemma_parse_groups_prefix(s: Seq<u8>, t: Seq<u8>, mask: u32, g: u32, v: Values)
    requires
        s.len() <= t.len(),
        s == t.take(s.len() as int),
    ensures
        parse_groups(s, mask, g, v) is Some ==> parse_groups(t, mask, g, v) == parse_groups(
            s,
            mask,
            g,
            v,
        ),
        parse_groups(t, mask, g, v) matches Some((_, n)) ==> if n <= s.len() {
            parse_groups(s, mask, g, v) == parse_groups(t, mask, g, v)
        } else {
            parse_groups(s, mask, g, v) is None
        },
    decreases GROUP_COUNT - g,
{
    if g < GROUP_COUNT {
        if selects(mask, g) {
            let w = group_width(g) as int;
            if s.len() >= w {
                assert(s.take(w) == t.take(w));
                assert(s.skip(w) == t.skip(w).take(s.skip(w).len() as int));
                lemma_parse_groups_prefix(
                    s.skip(w),
                    t.skip(w),
                    mask,
                    (g + 1) as u32,
                    set_group(v, g, s.take(w)),
                );
            }
        } else {
            lemma_parse_groups_prefix(s, t, mask, (g + 1) as u32, v);
        }
    }
}

/// Reply parsing never reads past what it uses, as group parsing does not.
pub proof fn lemma_parse_reply_prefix(s: Seq<u8>, t: Seq<u8>)
    requires
        s.len() <= t.len(),
        s == t.take(s.len() as int),
    ensures
        parse_reply(s) is Ok ==> parse_reply(t) == parse_reply(s),
        parse_reply(t) matches Ok((_, n)) ==> if n <= s.len() {
            parse_reply(s) == parse_reply(t)
        } else {
            parse_reply(s) == Err::<(CommandReply, nat), DecodeError>(DecodeError::IncompleteData)
        },
{
    if s.len() > 0 {
        assert(s[0] == t[0]);
        if s[0] == GET_VALUES_ID {
            assert(s.skip(1) == t.skip(1).take(s.skip(1).len() as int));
            lemma_parse_groups_prefix(s.skip(1), t.skip(1), ALL_GROUPS, 0, zero_values());
        } else if s[0] == GET_VALUES_SELECTIVE_ID && s.len() >= 5 {
            assert(s.subrange(1, 5) == t.subrange(1, 5));
            assert(s.skip(5) == t.skip(5).take(s.skip(5).len() as int));
            lemma_parse_groups_prefix(
                s.skip(5),
                t.skip(5),
                be_u32_value(s.subrange(1, 5)),
                0,
                zero_values(),
            );
        }
    }
}

/// The payload bytes of field group `g` of `v`.
pub open spec fn group_bytes(v: Values, g: u32) -> Seq<u8> {
    match g {
        0 => be_i16_bytes(v.temp_mosfet),
        1 => be_i16_bytes(v.temp_motor),
        2 => be_i32_bytes(v.avg_current_motor),
        3 => be_i32_bytes(v.avg_current_input),
        4 => be_i32_bytes(v.avg_current_d),
        5 => be_i32_bytes(v.avg_current_q),
        6 => be_i16_bytes(v.duty_cycle),
        7 => be_i32_bytes(v.rpm),
        8 => be_i16_bytes(v.voltage_in),
        9 => be_i32_bytes(v.amp_hours),
        10 => be_i32_bytes(v.amp_hours_charged),
        11 => be_i32_bytes(v.watt_hours),
        12 => be_i32_bytes(v.watt_hours_charged),
        13 => be_i32_bytes(v.tachometer),
        14 => be_i32_bytes(v.tachometer_abs),
        15 => seq![v.fault_code.byte()],
        16 => be_i32_bytes(v.pid_pos),
        17 => seq![v.controller_id],
        18 => be_i16_bytes(v.temp_mosfet1) + be_i16_bytes(v.temp_mosfet2) + be_i16_bytes(
            v.temp_mosfet3,
        ),
        19 => be_i32_bytes(v.avg_voltage_d),
        20 => be_i32_bytes(v.avg_voltage_q),
        21 => seq![v.status],
        _ => Seq::empty(),
    }
}

/// The payload bytes, in group order, of the groups from `g` on that `mask`
/// selects.
pub open spec fn fields_bytes(v: Values, mask: u32, g: u32) -> Seq<u8>
    decreases GROUP_COUNT - g,
{
    if g >= GROUP_COUNT {
        Seq::empty()
    } else if selects(mask, g) {
        group_bytes(v, g) + fields_bytes(v, mask, (g + 1) as u32)
    } else {
        fields_bytes(v, mask, (g + 1) as u32)
    }
}

/// The payload of a full telemetry reply carrying `v`.
pub open spec fn values_payload(v: Values) -> Seq<u8> {
    seq![GET_VALUES_ID] + fields_bytes(v, ALL_GROUPS, 0)
}

/// The payload of a selective telemetry reply carrying the groups of `v`
/// that `mask` selects.
pub open spec fn selective_payload(mask: u32, v: Values) -> Seq<u8> {
    seq![GET_VALUES_SELECTIVE_ID] + be_u32_bytes(mask) + fields_bytes(v, mask, 0)
}

/// `v` with the fields of the groups before `g` that `mask` selects; the
/// other fields zero.
pub open spec fn partial_values(v: Values, mask: u32, g: u32) -> Values {
    Values {
        temp_mosfet: if 0 < g && selects(mask, 0) { v.temp_mosfet } else { 0 },
        temp_motor: if 1 < g && selects(mask, 1) { v.temp_motor } else { 0 },
        avg_current_motor: if 2 < g && selects(mask, 2) { v.avg_current_motor } else { 0 },
        avg_current_input: if 3 < g && selects(mask, 3) { v.avg_current_input } else { 0 },
        avg_current_d: if 4 < g && selects(mask, 4) { v.avg_current_d } else { 0 },
        avg_current_q: if 5 < g && selects(mask, 5) { v.avg_current_q } else { 0 },
        duty_cycle: if 6 < g && selects(mask, 6) { v.duty_cycle } else { 0 },
        rpm: if 7 < g && selects(mask, 7) { v.rpm } else { 0 },
        voltage_in: if 8 < g && selects(mask, 8) { v.voltage_in } else { 0 },
        amp_hours: if 9 < g && selects(mask, 9) { v.amp_hours } else { 0 },
        amp_hours_charged: if 10 < g && selects(mask, 10) { v.amp_hours_charged } else { 0 },
        watt_hours: if 11 < g && selects(mask, 11) { v.watt_hours } else { 0 },
        watt_hours_charged: if 12 < g && selects(mask, 12) { v.watt_hours_charged } else { 0 },
        tachometer: if 13 < g && selects(mask, 13) { v.tachometer } else { 0 },
        tachometer_abs: if 14 < g && selects(mask, 14) { v.tachometer_abs } else { 0 },
        fault_code: if 15 < g && selects(mask, 15) { v.fault_code } else { FaultCode::NoFault },
        pid_pos: if 16 < g && selects(mask, 16) { v.pid_pos } else { 0 },
        controller_id: if 17 < g && selects(mask, 17) { v.controller_id } else { 0 },
        temp_mosfet1: if 18 < g && selects(mask, 18) { v.temp_mosfet1 } else { 0 },
        temp_mosfet2: if 18 < g && selects(mask, 18) { v.temp_mosfet2 } else { 0 },
        temp_mosfet3: if 18 < g && selects(mask, 18) { v.temp_mosfet3 } else { 0 },
        avg_voltage_d: if 19 < g && selects(mask, 19) { v.avg_voltage_d } else { 0 },
        avg_voltage_q: if 20 < g && selects(mask, 20) { v.avg_voltage_q } else { 0 },
        status: if 21 < g && selects(mask, 21) { v.status } else { 0 },
    }
}

/// `v` with the fields of the groups that `mask` leaves out set to zero.
pub open spec fn select_fields(v: Values, mask: u32) -> Values {
    partial_values(v, mask, GROUP_COUNT)
}

proof fn lemma_field_round_trips(v: Values)
    ensures
        be_i16_value(be_i16_bytes(v.temp_mosfet)) == v.temp_mosfet,
        be_i16_value(be_i16_bytes(v.temp_motor)) == v.temp_motor,
        be_i32_value(be_i32_bytes(v.avg_current_motor)) == v.avg_current_motor,
        be_i32_value(be_i32_bytes(v.avg_current_input)) == v.avg_current_input,
        be_i32_value(be_i32_bytes(v.avg_current_d)) == v.avg_current_d,
        be_i32_value(be_i32_bytes(v.avg_current_q)) == v.avg_current_q,
        be_i16_value(be_i16_bytes(v.duty_cycle)) == v.duty_cycle,
        be_i32_value(be_i32_bytes(v.rpm)) == v.rpm,
        be_i16_value(be_i16_bytes(v.voltage_in)) == v.voltage_in,
        be_i32_value(be_i32_bytes(v.amp_hours)) == v.amp_hours,
        be_i32_value(be_i32_bytes(v.amp_hours_charged)) == v.amp_hours_charged,
        be_i32_value(be_i32_bytes(v.watt_hours)) == v.watt_hours,
        be_i32_value(be_i32_bytes(v.watt_hours_charged)) == v.watt_hours_charged,
        be_i32_value(be_i32_bytes(v.tachometer)) == v.tachometer,
        be_i32_value(be_i32_bytes(v.tachometer_abs)) == v.tachometer_abs,
        be_i32_value(be_i32_bytes(v.pid_pos)) == v.pid_pos,
        be_i16_value(be_i16_bytes(v.temp_mosfet1)) == v.temp_mosfet1,
        be_i16_value(be_i16_bytes(v.temp_mosfet2)) == v.temp_mosfet2,
        be_i16_value(be_i16_bytes(v.temp_mosfet3)) == v.temp_mosfet3,
        be_i32_value(be_i32_bytes(v.avg_voltage_d)) == v.avg_voltage_d,
        be_i32_value(be_i32_bytes(v.avg_voltage_q)) == v.avg_voltage_q,
        FaultCode::from_byte(v.fault_code.byte()) == v.fault_code,
{
    lemma_be_round_trip(0, 0, v.temp_mosfet, 0);
    lemma_be_round_trip(0, 0, v.temp_motor, 0);
    lemma_be_round_trip(0, 0, 0, v.avg_current_motor);
    lemma_be_round_trip(0, 0, 0, v.avg_current_input);
    lemma_be_round_trip(0, 0, 0, v.avg_current_d);
    lemma_be_round_trip(0, 0, 0, v.avg_current_q);
    lemma_be_round_trip(0, 0, v.duty_cycle, 0);
    lemma_be_round_trip(0, 0, 0, v.rpm);
    lemma_be_round_trip(0, 0, v.voltage_in, 0);
    lemma_be_round_trip(0, 0, 0, v.amp_hours);
    lemma_be_round_trip(0, 0, 0, v.amp_hours_charged);
    lemma_be_round_trip(0, 0, 0, v.watt_hours);
    lemma_be_round_trip(0, 0, 0, v.watt_hours_charged);
    lemma_be_round_trip(0, 0, 0, v.tachometer);
    lemma_be_round_trip(0, 0, 0, v.tachometer_abs);
    lemma_be_round_trip(0, 0, 0, v.pid_pos);
    lemma_be_round_trip(0, 0, v.temp_mosfet1, 0);
    lemma_be_round_trip(0, 0, v.temp_mosfet2, 0);
    lemma_be_round_trip(0, 0, v.temp_mosfet3, 0);
    lemma_be_round_trip(0, 0, 0, v.avg_voltage_d);
    lemma_be_round_trip(0, 0, 0, v.avg_voltage_q);
    lemma_fault_code_round_trip(v.fault_code);
}

#[verifier::spinoff_prover]
#[verifier::rlimit(40)]
proof fn lemma_group_round_trip(v: Values, mask: u32, g: u32)
    requires
        g < GROUP_COUNT,
        selects(mask, g),
    ensures
        group_bytes(v, g).len() == group_width(g),
        set_group(partial_values(v, mask, g), g, group_bytes(v, g)) == partial_values(
            v,
            mask,
            (g + 1) as u32,
        ),
{
    lemma_field_round_trips(v);
    let b = group_bytes(v, g);
    let before = partial_values(v, mask, g);
    let after = partial_values(v, mask, (g + 1) as u32);
    match g {
        0 => {
            assert(b.subrange(0, 2) == b);
            assert(set_group(before, 0, b) == after);
        },
        1 => {
            assert(b.subrange(0, 2) == b);
            assert(set_group(before, 1, b) == after);
        },
        2 => {
            assert(b.subrange(0, 4) == b);
            assert(set_group(before, 2, b) == after);
        },
        3 => {
            assert(b.subrange(0, 4) == b);
            assert(set_group(before, 3, b) == after);
        },
        4 => {
            assert(b.subrange(0, 4) == b);
            assert(set_group(before, 4, b) == after);
        },
        5 => {
            assert(b.subrange(0, 4) == b);
            assert(set_group(before, 5, b) == after);
        },
        6 => {
            assert(b.subrange(0, 2) == b);
            assert(set_group(before, 6, b) == after);
        },
        7 => {
            assert(b.subrange(0, 4) == b);
            assert(set_group(before, 7, b) == after);
        },
        8 => {
            assert(b.subrange(0, 2) == b);
            assert(set_group(before, 8, b) == after);
        },
        9 => {
            assert(b.subrange(0, 4) == b);
            assert(set_group(before, 9, b) == after);
        },
        10 => {
            assert(b.subrange(0, 4) == b);
            assert(set_group(before, 10, b) == after);
        },
        11 => {
            assert(b.subrange(0, 4) == b);
            assert(set_group(before, 11, b) == after);
        },
        12 => {
            assert(b.subrange(0, 4) == b);
            assert(set_group(before, 12, b) == after);
        },
        13 => {
            assert(b.subrange(0, 4) == b);
            assert(set_group(before, 13, b) == after);
        },
        14 => {
            assert(b.subrange(0, 4) == b);
            assert(set_group(before, 14, b) == after);
        },
        15 => {
            assert(set_group(before, 15, b) == after);
        },
        16 => {
            assert(b.subrange(0, 4) == b);
            assert(set_group(before, 16, b) == after);
        },
        17 => {
            assert(set_group(before, 17, b) == after);
        },
        18 => {
            assert(b.subrange(0, 2) == be_i16_bytes(v.temp_mosfet1));
            assert(b.subrange(2, 4) == be_i16_bytes(v.temp_mosfet2));
            assert(b.subrange(4, 6) == be_i16_bytes(v.temp_mosfet3));
            assert(set_group(before, 18, b) == after);
        },
        19 => {
            assert(b.subrange(0, 4) == b);
            assert(set_group(before, 19, b) == after);
        },
        20 => {
            assert(b.subrange(0, 4) == b);
            assert(set_group(before, 20, b) == after);
        },
        21 => {
            assert(set_group(before, 21, b) == after);
        },
        _ => {},
    }
}

/// Unpacking the bytes of the selected groups gives their fields back.
proof fn lemma_parse_groups_round_trip(v: Values, mask: u32, g: u32, tail: Seq<u8>)
    requires
        g <= GROUP_COUNT,
    ensures
        parse_groups(fields_bytes(v, mask, g) + tail, mask, g, partial_values(v, mask, g)) == Some(
            (select_fields(v, mask), fields_bytes(v, mask, g).len()),
        ),
    decreases GROUP_COUNT - g,
{
    if g < GROUP_COUNT {
        let s = fields_bytes(v, mask, g) + tail;
        lemma_parse_groups_round_trip(v, mask, (g + 1) as u32, tail);
        if selects(mask, g) {
            lemma_group_round_trip(v, mask, g);
            let w = group_width(g) as int;
            assert(s.take(w) == group_bytes(v, g));
            assert(s.skip(w) == fields_bytes(v, mask, (g + 1) as u32) + tail);
        } else {
            assert(partial_values(v, mask, g) == partial_values(v, mask, (g + 1) as u32));
        }
    }
}

/// The selected fields take at most 90 bytes.
proof fn lemma_fields_bytes_len(v: Values, mask: u32, g: u32)
    requires
        g <= GROUP_COUNT,
    ensures
        fields_bytes(v, mask, g).len() <= 4 * (GROUP_COUNT - g) + if g <= 18 {
            2int
        } else {
            0int
        },
    decreases GROUP_COUNT - g,
{
    if g < GROUP_COUNT {
        lemma_fields_bytes_len(v, mask, (g + 1) as u32);
        if selects(mask, g) {
            lemma_group_round_trip(v, mask, g);
        }
    }
}

/// A full reply payload unpacks to the values it was made from.
pub proof fn lemma_values_payload_round_trip(v: Values)
    ensures
        parse_reply(values_payload(v)) == Ok::<(CommandReply, nat), DecodeError>(
            (CommandReply::GetValues(v), values_payload(v).len()),
        ),
        values_payload(v).len() <= 91,
{
    let p = values_payload(v);
    lemma_parse_groups_round_trip(v, ALL_GROUPS, 0, Seq::empty());
    lemma_fields_bytes_len(v, ALL_GROUPS, 0);
    assert(p.skip(1) == fields_bytes(v, ALL_GROUPS, 0) + Seq::<u8>::empty());
    assert(partial_values(v, ALL_GROUPS, 0) == zero_values());
    assert(forall|k: u32| k < 22 ==> #[trigger] (0x3f_ffffu32 & (1u32 << k)) != 0) by (bit_vector);
    assert(selects(ALL_GROUPS, 0));
    assert(selects(ALL_GROUPS, 1));
    assert(selects(ALL_GROUPS, 2));
    assert(selects(ALL_GROUPS, 3));
    assert(selects(ALL_GROUPS, 4));
    assert(selects(ALL_GROUPS, 5));
    assert(selects(ALL_GROUPS, 6));
    assert(selects(ALL_GROUPS, 7));
    assert(selects(ALL_GROUPS, 8));
    assert(selects(ALL_GROUPS, 9));
    assert(selects(ALL_GROUPS, 10));
    assert(selects(ALL_GROUPS, 11));
    assert(selects(ALL_GROUPS, 12));
    assert(selects(ALL_GROUPS, 13));
    assert(selects(ALL_GROUPS, 14));
    assert(selects(ALL_GROUPS, 15));
    assert(selects(ALL_GROUPS, 16));
    assert(selects(ALL_GROUPS, 17));
    assert(selects(ALL_GROUPS, 18));
    assert(selects(ALL_GROUPS, 19));
    assert(selects(ALL_GROUPS, 20));
    assert(selects(ALL_GROUPS, 21));
    assert(select_fields(v, ALL_GROUPS) == v);
}

/// A selective reply payload unpacks to the selected fields of the values it
/// was made from, every other field zero.
pub proof fn lemma_selective_payload_round_trip(mask: u32, v: Values)
    ensures
        parse_reply(selective_payload(mask, v)) == Ok::<(CommandReply, nat), DecodeError>(
            (CommandReply::GetValuesSelective(select_fields(v, mask)), selective_payload(mask, v).len()),
        ),
        selective_payload(mask, v).len() <= 95,
{
    let p = selective_payload(mask, v);
    lemma_parse_groups_round_trip(v, mask, 0, Seq::empty());
    lemma_fields_bytes_len(v, mask, 0);
    lemma_be_round_trip(0, mask, 0, 0);
    assert(p.subrange(1, 5) == be_u32_bytes(mask));
    assert(p.skip(5) == fields_bytes(v, mask, 0) + Seq::<u8>::empty());
    assert(partial_values(v, mask, 0) == zero_values());
}

} // verus!
