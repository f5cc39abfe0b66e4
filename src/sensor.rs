//! The two supported temperature/humidity sensor chips: their bus commands,
//! conversion delays and how their raw responses decode into readings.
//!
//! Readings are kept in hundredths (of a degree Celsius, of a percent),
//! rounded down to a whole hundredth, so a decoded value never exceeds
//! what the chip's formula gives.
use vstd::prelude::*;
use crate::decimal::Decimal;

verus! {

/// Operating modes of the mode-configurable chip (variant B): heater power
/// and duration, or measurement precision without heating.
#[derive(Clone, Copy, Debug, PartialEq, Eq, Structural)]
pub enum SHT40Mode {
    NoHeatHighPrecision,
    NoHeatMedPrecision,
    NoHeatLowPrecision,
    HighHeat1s,
    HighHeat100ms,
    MedHeat1s,
    MedHeat100ms,
    LowHeat1s,
    LowHeat100ms,
}

impl SHT40Mode {
    pub open spec fn command_spec(self) -> u8 {
        match self {
            SHT40Mode::NoHeatHighPrecision => 0xfd,
            SHT40Mode::NoHeatMedPrecision => 0xf6,
            SHT40Mode::NoHeatLowPrecision => 0xe0,
            SHT40Mode::HighHeat1s => 0x39,
            SHT40Mode::HighHeat100ms => 0x32,
            SHT40Mode::MedHeat1s => 0x2f,
            SHT40Mode::MedHeat100ms => 0x24,
            SHT40Mode::LowHeat1s => 0x1e,
            SHT40Mode::LowHeat100ms => 0x15,
        }
    }

    pub open spec fn delay_ms_spec(self) -> u64 {
        match self {
            SHT40Mode::NoHeatHighPrecision => 10,
            SHT40Mode::NoHeatMedPrecision => 5,
            SHT40Mode::NoHeatLowPrecision => 2,
            SHT40Mode::HighHeat1s | SHT40Mode::MedHeat1s | SHT40Mode::LowHeat1s => 1100,
            SHT40Mode::HighHeat100ms | SHT40Mode::MedHeat100ms | SHT40Mode::LowHeat100ms => 110,
        }
    }

    /// The measurement command byte of this mode.
    pub fn to_byte(&self) -> (r: u8)
        ensures
            r == self.command_spec(),
    {
        match self {
            SHT40Mode::NoHeatHighPrecision => 0xfd,
            SHT40Mode::NoHeatMedPrecision => 0xf6,
            SHT40Mode::NoHeatLowPrecision => 0xe0,
            SHT40Mode::HighHeat1s => 0x39,
            SHT40Mode::HighHeat100ms => 0x32,
            SHT40Mode::MedHeat1s => 0x2f,
            SHT40Mode::MedHeat100ms => 0x24,
            SHT40Mode::LowHeat1s => 0x1e,
            SHT40Mode::LowHeat100ms => 0x15,
        }
    }

    /// How long a measurement in this mode takes, in milliseconds.
    pub fn get_delay(&self) -> (r: u64)
        ensures
            r == self.delay_ms_spec(),
            2 <= r <= 1100,
    {
        match self {
            SHT40Mode::NoHeatHighPrecision => 10,
            SHT40Mode::NoHeatMedPrecision => 5,
            SHT40Mode::NoHeatLowPrecision => 2,
            SHT40Mode::HighHeat1s | SHT40Mode::MedHeat1s | SHT40Mode::LowHeat1s => 1100,
            SHT40Mode::HighHeat100ms | SHT40Mode::MedHeat100ms | SHT40Mode::LowHeat100ms => 110,
        }
    }
}

/// Bus address of the variant A chip.
pub const AHT20_ADDRESS: u8 = 0x38;

/// Bus address of the variant B chip.
pub const SHT40_ADDRESS: u8 = 0x44;

/// Variant B command that reads the serial number.
pub const SHT40_READ_SERIAL: u8 = 0x89;

/// Variant B soft-reset command.
pub const SHT40_SOFT_RESET: u8 = 0x94;

/// Milliseconds to wait after a variant B soft reset.
pub const SHT40_RESET_DELAY_MS: u64 = 1;

/// Milliseconds to wait before reading a variant B serial number.
pub const SHT40_SERIAL_DELAY_MS: u64 = 10;

/// Milliseconds the variant A chip needs after initialization and after a
/// measurement command.
pub const AHT20_SETTLE_MS: u64 = 80;

/// Bit of the variant A status byte that tells calibration is complete.
pub const AHT20_STATUS_BIT_CALIBRATED: u8 = 3;

/// Length of a variant A measurement response.
pub const AHT20_RESPONSE_LEN: usize = 7;

/// Length of a variant B measurement response.
pub const SHT40_RESPONSE_LEN: usize = 6;

/// The 20-bit humidity field of a variant A response: bytes 1, 2 and the
/// high half of byte 3, big-endian.
pub open spec fn aht20_humidity_raw_spec(buf: Seq<u8>) -> nat {
    buf[1] as nat * 4096 + buf[2] as nat * 16 + buf[3] as nat / 16
}

/// The 20-bit temperature field of a variant A response: the low half of
/// byte 3, then bytes 4 and 5, big-endian.
pub open spec fn aht20_temperature_raw_spec(buf: Seq<u8>) -> nat {
    (buf[3] as nat % 16) * 65536 + buf[4] as nat * 256 + buf[5] as nat
}

/// Variant A temperature in hundredths of a degree Celsius:
/// `raw / 2^20 * 200 - 50` degrees.
pub open spec fn aht20_temperature_centi(raw: nat) -> int {
    (raw * 20000) / 1048576 - 5000
}

/// Variant A relative humidity in hundredths of a percent: `raw / 2^20 * 100`.
pub open spec fn aht20_humidity_centi(raw: nat) -> int {
    ((raw * 10000) / 1048576) as int
}

/// A 16-bit big-endian field of a variant B response.
pub open spec fn sht40_field(buf: Seq<u8>, i: int) -> nat {
    buf[i] as nat * 256 + buf[i + 1] as nat
}

/// Variant B temperature in hundredths of a degree Celsius:
/// `-45 + 175 * raw / 65535` degrees.
pub open spec fn sht40_temperature_centi(raw: nat) -> int {
    (raw * 17500) / 65535 - 4500
}

/// Variant B relative humidity in hundredths of a percent:
/// `-6 + 125 * raw / 65535`, limited to the range from 0 to 100 percent.
pub open spec fn sht40_humidity_centi(raw: nat) -> int {
    let h = (raw * 12500) / 65535 - 600;
    if h < 0 {
        0
    } else if h > 10000 {
        10000
    } else {
        h
    }
}

/// Whether a variant A status byte says calibration is complete.
pub fn aht20_is_calibrated(status: u8) -> (r: bool)
    ensures
        r == ((status / 8) % 2 == 1),
{
    let r = (status >> AHT20_STATUS_BIT_CALIBRATED) & 1 == 1;
    assert(((status >> 3u8) & 1u8 == 1u8) == ((status / 8) % 2 == 1)) by (bit_vector);
    r
}

/// The raw humidity field of a variant A response.
pub fn aht20_humidity_raw(buf: &[u8; 7]) -> (r: u32)
    ensures
        r == aht20_humidity_raw_spec(buf@),
        r < 1048576,
{
    let b1 = buf[1] as u32;
    let b2 = buf[2] as u32;
    let b3 = buf[3] as u32;
    let r = (b1 << 12) | (b2 << 4) | (b3 >> 4);
    assert(b1 < 256 && b2 < 256 && b3 < 256 ==> (b1 << 12) | (b2 << 4) | (b3 >> 4) == b1 * 4096
        + b2 * 16 + b3 / 16) by (bit_vector);
    r
}

/// The raw temperature field of a variant A response.
pub fn aht20_temperature_raw(buf: &[u8; 7]) -> (r: u32)
    ensures
        r == aht20_temperature_raw_spec(buf@),
        r < 1048576,
{
    let b3 = buf[3] as u32;
    let b4 = buf[4] as u32;
    let b5 = buf[5] as u32;
    let r = ((b3 & 0xF) << 16) | (b4 << 8) | b5;
    assert(b3 < 256 && b4 < 256 && b5 < 256 ==> ((b3 & 0xF) << 16) | (b4 << 8) | b5 == (b3 % 16)
        * 65536 + b4 * 256 + b5) by (bit_vector);
    r
}

/// A 16-bit big-endian field of a variant B response.
pub fn sht40_raw(hi: u8, lo: u8) -> (r: u32)
    ensures
        r == hi as nat * 256 + lo as nat,
{
    let r = ((hi as u32) << 8) | (lo as u32);
    let h = hi as u32;
    let l = lo as u32;
    assert(h < 256 && l < 256 ==> (h << 8) | l == h * 256 + l) by (bit_vector);
    r
}

/// The serial number in a variant B serial-number response: the two
/// 16-bit words at bytes 0-1 and 3-4, big-endian (bytes 2 and 5 are
/// checksums).
pub fn sht40_serial_number(buf: &[u8; 6]) -> (r: u32)
    ensures
        r == buf@[0] as nat * 16777216 + buf@[1] as nat * 65536 + buf@[3] as nat * 256
            + buf@[4] as nat,
{
    let b0 = buf[0] as u32;
    let b1 = buf[1] as u32;
    let b3 = buf[3] as u32;
    let b4 = buf[4] as u32;
    assert(b0 < 256 && b1 < 256 && b3 < 256 && b4 < 256 ==> (b0 << 24) + (b1 << 16) + (b3 << 8)
        + b4 == b0 * 16777216 + b1 * 65536 + b3 * 256 + b4) by (bit_vector);
    (b0 << 24) + (b1 << 16) + (b3 << 8) + b4
}

/// A reading of the sensor, in degrees Celsius and percent relative
/// humidity.
#[derive(Clone, Copy, Debug, PartialEq, Eq, Structural)]
pub struct Reading {
    pub temperature: Decimal,
    pub humidity: Decimal,
}

impl Reading {
    pub fn new(temperature: Decimal, humidity: Decimal) -> (r: Reading)
        ensures
            r.temperature == temperature,
            r.humidity == humidity,
    {
        Reading { temperature, humidity }
    }

    /// Both values are hundredths.
    pub open spec fn in_hundredths(&self, t: int, h: int) -> bool {
        &&& self.temperature == Decimal { mantissa: t as i64, scale: 2 }
        &&& self.humidity == Decimal { mantissa: h as i64, scale: 2 }
    }
}

/// Decodes a variant A measurement response.
pub fn decode_aht20(buf: &[u8; 7]) -> (r: Reading)
    ensures
        r.in_hundredths(
            aht20_temperature_centi(aht20_temperature_raw_spec(buf@)),
            aht20_humidity_centi(aht20_humidity_raw_spec(buf@)),
        ),
        r.temperature.wf(),
        r.humidity.wf(),
        -5000 <= r.temperature.mantissa < 15000,
        0 <= r.humidity.mantissa < 10000,
        r.temperature.roundable(),
        r.humidity.roundable(),
{
    let t = aht20_temperature_raw(buf) as u64;
    let h = aht20_humidity_raw(buf) as u64;
    let tc = ((t * 20000) / 1048576) as i64 - 5000;
    let hc = ((h * 10000) / 1048576) as i64;
    proof {
        assert((t as nat * 20000) / 1048576 < 20000) by (nonlinear_arith)
            requires t < 1048576;
        assert((h as nat * 10000) / 1048576 < 10000) by (nonlinear_arith)
            requires h < 1048576;
        crate::text::lemma_pow10_18();
        assert(crate::text::pow10(18) == 10 * crate::text::pow10(17));
    }
    Reading::new(Decimal { mantissa: tc, scale: 2 }, Decimal { mantissa: hc, scale: 2 })
}

/// Decodes a variant B measurement response.
pub fn decode_sht40(buf: &[u8; 6]) -> (r: Reading)
    ensures
        r.in_hundredths(
            sht40_temperature_centi(sht40_field(buf@, 0)),
            sht40_humidity_centi(sht40_field(buf@, 3)),
        ),
        r.temperature.wf(),
        r.humidity.wf(),
        -4500 <= r.temperature.mantissa <= 13000,
        0 <= r.humidity.mantissa <= 10000,
        r.temperature.roundable(),
        r.humidity.roundable(),
{
    let t = sht40_raw(buf[0], buf[1]) as u64;
    let h = sht40_raw(buf[3], buf[4]) as u64;
    let tc = ((t * 17500) / 65535) as i64 - 4500;
    let hr = ((h * 12500) / 65535) as i64 - 600;
    proof {
        assert((t as nat * 17500) / 65535 <= 17500) by (nonlinear_arith)
            requires t < 65536;
        assert((h as nat * 12500) / 65535 <= 12500) by (nonlinear_arith)
            requires h < 65536;
        crate::text::lemma_pow10_18();
        assert(crate::text::pow10(18) == 10 * crate::text::pow10(17));
    }
    let hc = if hr < 0 {
        0
    } else if hr > 10000 {
        10000
    } else {
        hr
    };
    Reading::new(Decimal { mantissa: tc, scale: 2 }, Decimal { mantissa: hc, scale: 2 })
}

/// The sensor driver chosen at boot: one of the two supported chips.
#[derive(Clone, Copy, Debug, PartialEq, Eq, Structural)]
pub enum Sensor {
    Aht20,
    Sht40 { mode: SHT40Mode },
}

/// Variant A measurement command.
pub open spec fn aht20_measure_command() -> Seq<u8> {
    seq![0xACu8, 0x33u8, 0x00u8]
}

/// Variant A initialization command.
pub open spec fn aht20_init_command() -> Seq<u8> {
    seq![0xBEu8, 0x08u8, 0x00u8]
}

/// Variant A initialization command, sent once at boot.
pub fn aht20_init_bytes() -> (r: Vec<u8>)
    ensures
        r@ == aht20_init_command(),
{
    let r = vec![0xBEu8, 0x08u8, 0x00u8];
    assert(r@ =~= aht20_init_command());
    r
}

impl Sensor {
    pub open spec fn address_spec(self) -> u8 {
        match self {
            Sensor::Aht20 => AHT20_ADDRESS,
            Sensor::Sht40 { .. } => SHT40_ADDRESS,
        }
    }

    pub open spec fn measure_command_spec(self) -> Seq<u8> {
        match self {
            Sensor::Aht20 => aht20_measure_command(),
            Sensor::Sht40 { mode } => seq![mode.command_spec()],
        }
    }

    pub open spec fn delay_ms_spec(self) -> u64 {
        match self {
            Sensor::Aht20 => AHT20_SETTLE_MS,
            Sensor::Sht40 { mode } => mode.delay_ms_spec(),
        }
    }

    pub open spec fn response_len_spec(self) -> usize {
        match self {
            Sensor::Aht20 => AHT20_RESPONSE_LEN,
            Sensor::Sht40 { .. } => SHT40_RESPONSE_LEN,
        }
    }

    /// The bus address of the chip.
    pub fn address(&self) -> (r: u8)
        ensures
            r == self.address_spec(),
    {
        match self {
            Sensor::Aht20 => AHT20_ADDRESS,
            Sensor::Sht40 { .. } => SHT40_ADDRESS,
        }
    }

    /// The bytes that start one measurement.
    pub fn measure_command(&self) -> (r: Vec<u8>)
        ensures
            r@ == self.measure_command_spec(),
    {
        match self {
            Sensor::Aht20 => {
                let r = vec![0xACu8, 0x33u8, 0x00u8];
                assert(r@ =~= aht20_measure_command());
                r
            },
            Sensor::Sht40 { mode } => {
                let r = vec![mode.to_byte()];
                assert(r@ =~= seq![mode.command_spec()]);
                r
            },
        }
    }

    /// Milliseconds to wait between the command and reading the response.
    pub fn conversion_delay_ms(&self) -> (r: u64)
        ensures
            r == self.delay_ms_spec(),
    {
        match self {
            Sensor::Aht20 => AHT20_SETTLE_MS,
            Sensor::Sht40 { mode } => mode.get_delay(),
        }
    }

    /// The number of bytes to read back after a measurement command.
    pub fn response_len(&self) -> (r: usize)
        ensures
            r == self.response_len_spec(),
    {
        match self {
            Sensor::Aht20 => AHT20_RESPONSE_LEN,
            Sensor::Sht40 { .. } => SHT40_RESPONSE_LEN,
        }
    }

    /// Changes the measurement mode of a variant B driver; a variant A
    /// driver has no modes and stays as it is.
    pub fn set_mode(&mut self, mode: SHT40Mode)
        ensures
            *final(self) == match *old(self) {
                Sensor::Aht20 => Sensor::Aht20,
                Sensor::Sht40 { .. } => Sensor::Sht40 { mode },
            },
    {
        if let Sensor::Sht40 { .. } = self {
            *self = Sensor::Sht40 { mode };
        }
    }

    /// Decodes a measurement response of this chip.
    pub fn decode(&self, buf: &[u8]) -> (r: Reading)
        requires
            buf@.len() == self.response_len_spec(),
        ensures
            r.temperature.wf(),
            r.humidity.wf(),
            r.temperature.roundable(),
            r.humidity.roundable(),
            match self {
                Sensor::Aht20 => r.in_hundredths(
                    aht20_temperature_centi(aht20_temperature_raw_spec(buf@)),
                    aht20_humidity_centi(aht20_humidity_raw_spec(buf@)),
                ),
                Sensor::Sht40 { .. } => r.in_hundredths(
                    sht40_temperature_centi(sht40_field(buf@, 0)),
                    sht40_humidity_centi(sht40_field(buf@, 3)),
                ),
            },
    {
        match self {
            Sensor::Aht20 => {
                let a: [u8; 7] = [buf[0], buf[1], buf[2], buf[3], buf[4], buf[5], buf[6]];
                assert(a@ =~= buf@);
                decode_aht20(&a)
            },
            Sensor::Sht40 { .. } => {
                let a: [u8; 6] = [buf[0], buf[1], buf[2], buf[3], buf[4], buf[5]];
                assert(a@ =~= buf@);
                decode_sht40(&a)
            },
        }
    }
}

/// Picks the driver at boot: variant A when it answered its
/// initialization, else variant B (in its default, high-precision mode)
/// when it answered its reset, else none, which is fatal.
pub fn select_sensor(aht20_answered: bool, sht40_answered: bool) -> (r: Option<Sensor>)
    ensures
        r == if aht20_answered {
            Some(Sensor::Aht20)
        } else if sht40_answered {
            Some(Sensor::Sht40 { mode: SHT40Mode::NoHeatHighPrecision })
        } else {
            None
        },
{
    if aht20_answered {
        Some(Sensor::Aht20)
    } else if sht40_answered {
        Some(Sensor::Sht40 { mode: SHT40Mode::NoHeatHighPrecision })
    } else {
        None
    }
}

} // verus!
