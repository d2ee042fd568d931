//! From a frame of 36 gaps to a reading.
use vstd::prelude::*;
use vstd::arithmetic::power2::{lemma2_to64, pow2};
use crate::bits::{
    bit_of, bits_value, decode_range, first_stray, lemma_bits_value_bound, lemma_bits_value_spells,
    lemma_first_stray,
};
use crate::error::DecodeError;
use crate::timing::{is_bit, is_one, PAYLOAD_LEN};

verus! {

/// Position of the first bit of the sensor's id.
pub const ID_OFFSET: usize = 0;

/// Width of the sensor's id.
pub const ID_BITS: usize = 8;

/// Position of the battery flag.
pub const BATTERY_OFFSET: usize = 8;

/// Width of the battery flag.
pub const BATTERY_BITS: usize = 1;

/// Position of the first bit of the channel.
pub const CHANNEL_OFFSET: usize = 10;

/// Width of the channel.
pub const CHANNEL_BITS: usize = 2;

/// Position of the first bit of the temperature.
pub const TEMPERATURE_OFFSET: usize = 12;

/// Width of the temperature.
pub const TEMPERATURE_BITS: usize = 12;

/// Position of the first bit of the humidity.
pub const HUMIDITY_OFFSET: usize = 28;

/// Width of the humidity.
pub const HUMIDITY_BITS: usize = 8;

/// Highest humidity that is reported, in percent.
pub const HUMIDITY_MAX: u8 = 100;

/// What one frame says.
#[derive(Debug, Clone, Copy, PartialEq, Eq, Structural)]
pub struct Reading {
    /// The id that the sensor drew when it was switched on.
    pub id: u8,
    /// The channel set on the sensor, counted from 1.
    pub channel: u8,
    /// Whether the sensor's battery is good.
    pub battery_ok: bool,
    /// Temperature in tenths of a degree Celsius.
    pub temperature: i16,
    /// Relative humidity in percent, at most 100.
    pub humidity: u8,
}

/// The temperature, in tenths of a degree, that a raw field of 12 bits
/// stands for: values above 2048 are negative and lie 4096 higher than what
/// they mean.
pub open spec fn temperature_tenths(raw: int) -> int {
    if raw > 2048 {
        raw - 4096
    } else {
        raw
    }
}

/// The raw field of 12 bits that stands for a temperature in tenths of a
/// degree: the inverse of `temperature_tenths` on `-2047 ..= 2048`.
pub open spec fn temperature_raw(tenths: int) -> int {
    if tenths < 0 {
        4096 + tenths
    } else {
        tenths
    }
}

/// The whole degrees of a temperature given in tenths, rounded toward zero.
pub open spec fn whole_degrees(tenths: int) -> int {
    if tenths < 0 {
        -((-tenths) / 10)
    } else {
        tenths / 10
    }
}

/// The digit behind the decimal point of a temperature given in tenths.
pub open spec fn tenth_digit(tenths: int) -> int {
    if tenths < 0 {
        (-tenths) % 10
    } else {
        tenths % 10
    }
}

/// The humidity that a raw field stands for: values above 100 are reported
/// as 100.
pub open spec fn clamped_humidity(raw: int) -> int {
    if raw > HUMIDITY_MAX {
        HUMIDITY_MAX as int
    } else {
        raw
    }
}

/// The channel that a raw field stands for: the field counts from 0, the
/// sensor's switch from 1.
pub open spec fn channel_number(raw: int) -> int {
    raw + 1
}

/// The number that the field of `size` gaps at `start` spells.
pub open spec fn field(samples: Seq<u64>, start: usize, size: usize) -> int {
    bits_value(samples.subrange(start as int, start + size)) as int
}

/// The first gap of the field of `size` gaps at `start` that is no bit.
pub open spec fn stray_in(samples: Seq<u64>, start: usize, size: usize) -> Option<u64> {
    first_stray(samples.subrange(start as int, start + size))
}

/// Whether position `k` lies among the `size` positions from `start`.
pub open spec fn covers(start: usize, size: usize, k: int) -> bool {
    start <= k < start + size
}

/// Whether position `k` of a frame belongs to one of the five fields. Bit 9
/// and bits 24 to 27 belong to none and are never looked at.
pub open spec fn in_field(k: int) -> bool {
    ||| covers(ID_OFFSET, ID_BITS, k)
    ||| covers(BATTERY_OFFSET, BATTERY_BITS, k)
    ||| covers(CHANNEL_OFFSET, CHANNEL_BITS, k)
    ||| covers(TEMPERATURE_OFFSET, TEMPERATURE_BITS, k)
    ||| covers(HUMIDITY_OFFSET, HUMIDITY_BITS, k)
}

/// The stray gap that decoding reports. The fields are read in the order
/// temperature, humidity, battery, channel, id, and reading stops at the
/// first stray gap.
pub open spec fn reported_stray(samples: Seq<u64>) -> Option<u64> {
    if stray_in(samples, TEMPERATURE_OFFSET, TEMPERATURE_BITS) is Some {
        stray_in(samples, TEMPERATURE_OFFSET, TEMPERATURE_BITS)
    } else if stray_in(samples, HUMIDITY_OFFSET, HUMIDITY_BITS) is Some {
        stray_in(samples, HUMIDITY_OFFSET, HUMIDITY_BITS)
    } else if stray_in(samples, BATTERY_OFFSET, BATTERY_BITS) is Some {
        stray_in(samples, BATTERY_OFFSET, BATTERY_BITS)
    } else if stray_in(samples, CHANNEL_OFFSET, CHANNEL_BITS) is Some {
        stray_in(samples, CHANNEL_OFFSET, CHANNEL_BITS)
    } else {
        stray_in(samples, ID_OFFSET, ID_BITS)
    }
}

/// What the fields of a frame say, where each of their gaps is a bit.
pub open spec fn reading_of(samples: Seq<u64>) -> Reading {
    Reading {
        id: field(samples, ID_OFFSET, ID_BITS) as u8,
        channel: channel_number(field(samples, CHANNEL_OFFSET, CHANNEL_BITS)) as u8,
        battery_ok: field(samples, BATTERY_OFFSET, BATTERY_BITS) == 1,
        temperature: temperature_tenths(field(samples, TEMPERATURE_OFFSET, TEMPERATURE_BITS)) as i16,
        humidity: clamped_humidity(field(samples, HUMIDITY_OFFSET, HUMIDITY_BITS)) as u8,
    }
}

/// The reading of a frame, whatever its channel: a frame that does not hold
/// 36 gaps is refused with its length, one with a stray gap in a field with
/// that gap.
pub open spec fn fields_of(samples: Seq<u64>) -> Result<Reading, DecodeError> {
    if samples.len() != PAYLOAD_LEN {
        Err(DecodeError::WrongPayloadLen(samples.len() as usize))
    } else {
        match reported_stray(samples) {
            Some(gap) => Err(DecodeError::SampleOutOfRange(gap)),
            None => Ok(reading_of(samples)),
        }
    }
}

/// What a reading gives for a receiver that listens on `channel`: the
/// reading, or its channel where that is another.
pub open spec fn filtered(reading: Reading, channel: u8) -> Result<Reading, DecodeError> {
    if reading.channel == channel {
        Ok(reading)
    } else {
        Err(DecodeError::WrongChannel(reading.channel))
    }
}

/// The reading of a frame for a receiver that listens on `channel`: as
/// `fields_of`, but a sound frame of another channel is refused with its
/// channel.
pub open spec fn decoded(samples: Seq<u64>, channel: u8) -> Result<Reading, DecodeError> {
    match fields_of(samples) {
        Ok(reading) => filtered(reading, channel),
        Err(why) => Err(why),
    }
}

/// A frame of 36 gaps in which every gap of a field is a bit.
pub open spec fn sound(samples: Seq<u64>) -> bool {
    samples.len() == PAYLOAD_LEN && forall|k: int| in_field(k) ==> is_bit(#[trigger] samples[k])
}

/// Whether `gap` stands in a field of the frame and is no bit.
pub open spec fn is_field_stray(samples: Seq<u64>, gap: u64) -> bool {
    exists|k: int| in_field(k) && k < samples.len() && #[trigger] samples[k] == gap && !is_bit(gap)
}

/// A field of `size` gaps spells a number below `2^size`.
pub proof fn lemma_field_bound(samples: Seq<u64>, start: usize, size: usize)
    requires
        start + size <= samples.len(),
    ensures
        0 <= field(samples, start, size) < pow2(size as nat),
{
    lemma_bits_value_bound(samples.subrange(start as int, start + size));
}

/// The stray gap found in a field is the first gap of the field that is no
/// bit, and none is found exactly when every gap of the field is a bit.
pub proof fn lemma_stray_in(samples: Seq<u64>, start: usize, size: usize)
    requires
        start + size <= samples.len(),
    ensures
        stray_in(samples, start, size) is None <==> forall|k: int|
            start <= k < start + size ==> is_bit(#[trigger] samples[k]),
        stray_in(samples, start, size) matches Some(gap) ==> exists|k: int|
            start <= k < start + size && #[trigger] samples[k] == gap && !is_bit(gap) && forall|j: int|
                start <= j < k ==> is_bit(#[trigger] samples[j]),
{
    let part = samples.subrange(start as int, start + size);
    lemma_first_stray(part);
    assert(forall|i: int| 0 <= i < size ==> part[i] == samples[start + i]);
    if forall|i: int| 0 <= i < part.len() ==> is_bit(#[trigger] part[i]) {
        assert forall|k: int| start <= k < start + size implies is_bit(#[trigger] samples[k]) by {
            assert(part[k - start] == samples[k]);
        }
    }
    if forall|k: int| start <= k < start + size ==> is_bit(#[trigger] samples[k]) {
        assert forall|i: int| 0 <= i < part.len() implies is_bit(#[trigger] part[i]) by {
            assert(part[i] == samples[start + i]);
        }
    }
    if let Some(gap) = stray_in(samples, start, size) {
        let i = choose|i: int|
            0 <= i < part.len() && #[trigger] part[i] == gap && !is_bit(gap) && forall|j: int|
                0 <= j < i ==> is_bit(#[trigger] part[j]);
        let k = start + i;
        assert(samples[k] == gap);
        assert forall|j: int| start <= j < k implies is_bit(#[trigger] samples[j]) by {
            assert(part[j - start] == samples[j]);
        }
    }
}

/// A frame that does not hold 36 gaps is refused with the number of gaps
/// that it holds, on every channel and whatever the gaps are.
pub proof fn lemma_wrong_length_is_refused(samples: Seq<u64>, channel: u8)
    requires
        samples.len() != PAYLOAD_LEN,
    ensures
        decoded(samples, channel) == Err::<Reading, DecodeError>(
            DecodeError::WrongPayloadLen(samples.len() as usize),
        ),
{
}

/// A sound frame, and so every frame of 36 bits, is read: decoding gives its
/// reading, or its channel where the receiver listens on another, and never
/// anything else. The fields of the reading are the numbers that the gaps
/// spell: the channel one more than its field, the temperature in
/// `-2047 ..= 2048` tenths, the humidity at most 100.
pub proof fn lemma_sound_frame_is_read(samples: Seq<u64>, channel: u8)
    requires
        sound(samples),
    ensures
        fields_of(samples) == Ok::<Reading, DecodeError>(reading_of(samples)),
        decoded(samples, channel) == filtered(reading_of(samples), channel),
        decoded(samples, channel) is Ok || decoded(samples, channel) matches Err(
            DecodeError::WrongChannel(_),
        ),
        reading_of(samples).id == field(samples, ID_OFFSET, ID_BITS),
        reading_of(samples).channel == field(samples, CHANNEL_OFFSET, CHANNEL_BITS) + 1,
        1 <= reading_of(samples).channel <= 4,
        reading_of(samples).temperature == temperature_tenths(
            field(samples, TEMPERATURE_OFFSET, TEMPERATURE_BITS),
        ),
        -2048 < reading_of(samples).temperature <= 2048,
        reading_of(samples).humidity == clamped_humidity(
            field(samples, HUMIDITY_OFFSET, HUMIDITY_BITS),
        ),
        reading_of(samples).humidity <= HUMIDITY_MAX,
{
    lemma2_to64();
    lemma_stray_in(samples, TEMPERATURE_OFFSET, TEMPERATURE_BITS);
    lemma_stray_in(samples, HUMIDITY_OFFSET, HUMIDITY_BITS);
    lemma_stray_in(samples, BATTERY_OFFSET, BATTERY_BITS);
    lemma_stray_in(samples, CHANNEL_OFFSET, CHANNEL_BITS);
    lemma_stray_in(samples, ID_OFFSET, ID_BITS);
    lemma_field_bound(samples, TEMPERATURE_OFFSET, TEMPERATURE_BITS);
    lemma_field_bound(samples, HUMIDITY_OFFSET, HUMIDITY_BITS);
    lemma_field_bound(samples, CHANNEL_OFFSET, CHANNEL_BITS);
    lemma_field_bound(samples, ID_OFFSET, ID_BITS);
}

/// A frame of 36 gaps with a gap in a field that is no bit is refused with
/// such a gap: the first one met when the fields are read in the order
/// temperature, humidity, battery, channel, id. Where the field gap at `k` is
/// the only one that is no bit, it is the gap reported.
pub proof fn lemma_stray_gap_is_reported(samples: Seq<u64>, channel: u8, k: int)
    requires
        samples.len() == PAYLOAD_LEN,
        in_field(k),
        !is_bit(samples[k]),
    ensures
        decoded(samples, channel) matches Err(DecodeError::SampleOutOfRange(gap)) && is_field_stray(
            samples,
            gap,
        ) && ((forall|j: int| in_field(j) && j != k ==> is_bit(#[trigger] samples[j])) ==> gap
            == samples[k]),
{
    lemma_stray_in(samples, TEMPERATURE_OFFSET, TEMPERATURE_BITS);
    lemma_stray_in(samples, HUMIDITY_OFFSET, HUMIDITY_BITS);
    lemma_stray_in(samples, BATTERY_OFFSET, BATTERY_BITS);
    lemma_stray_in(samples, CHANNEL_OFFSET, CHANNEL_BITS);
    lemma_stray_in(samples, ID_OFFSET, ID_BITS);
    assert(reported_stray(samples) is Some);
    let gap = reported_stray(samples)->0;
    let at = choose|j: int| 0 <= j < 36 && in_field(j) && #[trigger] samples[j] == gap && !is_bit(gap);
    assert(in_field(at) && at < samples.len() && samples[at] == gap && !is_bit(gap));
}

/// A frame with a stray gap in a field is never read: no reading comes of
/// it, on any channel.
pub proof fn lemma_stray_frame_gives_no_reading(samples: Seq<u64>, channel: u8)
    requires
        samples.len() == PAYLOAD_LEN,
        !sound(samples),
    ensures
        decoded(samples, channel) matches Err(DecodeError::SampleOutOfRange(gap)) && is_field_stray(
            samples,
            gap,
        ),
{
    let k = choose|k: int| in_field(k) && !is_bit(#[trigger] samples[k]);
    lemma_stray_gap_is_reported(samples, channel, k);
}

/// Whether the field of `size` gaps at `start` is made of bits that are the
/// binary digits of `value`, most significant first.
pub open spec fn spells(samples: Seq<u64>, start: usize, size: usize, value: int) -> bool {
    &&& 0 <= value < pow2(size as nat)
    &&& start + size <= samples.len()
    &&& forall|i: int|
        0 <= i < size ==> is_bit(#[trigger] samples[start + i]) && is_one(samples[start + i])
            == bit_of(value as nat, size as nat, i)
}

/// A field that spells `value` reads as `value` and holds no stray gap.
pub proof fn lemma_field_spells(samples: Seq<u64>, start: usize, size: usize, value: int)
    requires
        spells(samples, start, size, value),
    ensures
        field(samples, start, size) == value,
        forall|k: int| covers(start, size, k) ==> is_bit(#[trigger] samples[k]),
{
    let part = samples.subrange(start as int, start + size);
    assert forall|i: int| 0 <= i < part.len() implies is_one(#[trigger] part[i]) == bit_of(
        value as nat,
        part.len(),
        i,
    ) by {
        assert(part[i] == samples[start + i]);
    }
    lemma_bits_value_spells(part, value as nat);
    assert forall|k: int| covers(start, size, k) implies is_bit(#[trigger] samples[k]) by {
        assert(samples[start + (k - start)] == samples[k]);
    }
}

/// What a sensor sends is what the receiver reads: a frame whose fields
/// spell an id, a battery flag, a channel less one, the raw form of a
/// temperature and a humidity is read as that id, flag, channel and
/// temperature, and as that humidity or 100 where it is higher. The gaps
/// outside the fields may be anything.
pub proof fn lemma_frame_round_trip(
    samples: Seq<u64>,
    id: u8,
    battery_ok: bool,
    channel: u8,
    tenths: i16,
    humidity: u8,
)
    requires
        samples.len() == PAYLOAD_LEN,
        1 <= channel <= 4,
        -2048 < tenths <= 2048,
        spells(samples, ID_OFFSET, ID_BITS, id as int),
        spells(
            samples,
            BATTERY_OFFSET,
            BATTERY_BITS,
            if battery_ok {
                1
            } else {
                0
            },
        ),
        spells(samples, CHANNEL_OFFSET, CHANNEL_BITS, channel - 1),
        spells(samples, TEMPERATURE_OFFSET, TEMPERATURE_BITS, temperature_raw(tenths as int)),
        spells(samples, HUMIDITY_OFFSET, HUMIDITY_BITS, humidity as int),
    ensures
        fields_of(samples) == Ok::<Reading, DecodeError>(
            Reading {
                id,
                channel,
                battery_ok,
                temperature: tenths,
                humidity: if humidity > HUMIDITY_MAX {
                    HUMIDITY_MAX
                } else {
                    humidity
                },
            },
        ),
{
    lemma_field_spells(samples, ID_OFFSET, ID_BITS, id as int);
    lemma_field_spells(
        samples,
        BATTERY_OFFSET,
        BATTERY_BITS,
        if battery_ok {
            1
        } else {
            0
        },
    );
    lemma_field_spells(samples, CHANNEL_OFFSET, CHANNEL_BITS, channel - 1);
    lemma_field_spells(
        samples,
        TEMPERATURE_OFFSET,
        TEMPERATURE_BITS,
        temperature_raw(tenths as int),
    );
    lemma_field_spells(samples, HUMIDITY_OFFSET, HUMIDITY_BITS, humidity as int);
    lemma_sound_frame_is_read(samples, channel);
}

/// A temperature between -204.7 and 204.8 degrees, written into the raw
/// field and read back, is the temperature that was written: the same whole
/// degrees and the same digit behind the point, which together with the sign
/// make up the tenths. Every raw value stands for one such temperature.
pub proof fn lemma_temperature_round_trip(tenths: int)
    requires
        -2048 < tenths <= 2048,
    ensures
        0 <= temperature_raw(tenths) < 4096,
        temperature_tenths(temperature_raw(tenths)) == tenths,
        whole_degrees(temperature_tenths(temperature_raw(tenths))) == whole_degrees(tenths),
        tenth_digit(temperature_tenths(temperature_raw(tenths))) == tenth_digit(tenths),
        0 <= tenth_digit(tenths) < 10,
        tenths >= 0 ==> tenths == 10 * whole_degrees(tenths) + tenth_digit(tenths),
        tenths < 0 ==> tenths == 10 * whole_degrees(tenths) - tenth_digit(tenths),
{
}

/// Every raw value of 12 bits stands for a temperature in
/// `-2047 ..= 2048` tenths, and writing that temperature gives the raw
/// value back.
pub proof fn lemma_raw_temperature_round_trip(raw: int)
    requires
        0 <= raw < 4096,
    ensures
        -2048 < temperature_tenths(raw) <= 2048,
        temperature_raw(temperature_tenths(raw)) == raw,
{
}

/// Turns the raw temperature field into tenths of a degree Celsius.
pub fn temperature_from_raw(raw: u16) -> (tenths: i16)
    requires
        raw < 4096,
    ensures
        tenths == temperature_tenths(raw as int),
        -2048 < tenths <= 2048,
{
    if raw > 2048 {
        (raw as i16) - 4096
    } else {
        raw as i16
    }
}

/// Turns the raw humidity field into percent.
pub fn humidity_from_raw(raw: u8) -> (percent: u8)
    ensures
        percent == clamped_humidity(raw as int),
        percent <= HUMIDITY_MAX,
        raw <= HUMIDITY_MAX ==> percent == raw,
        raw > HUMIDITY_MAX ==> percent == HUMIDITY_MAX,
{
    if raw > HUMIDITY_MAX {
        HUMIDITY_MAX
    } else {
        raw
    }
}

/// Turns the raw channel field into the channel set on the sensor.
pub fn channel_from_raw(raw: u8) -> (channel: u8)
    requires
        raw < 4,
    ensures
        channel == channel_number(raw as int),
        1 <= channel <= 4,
{
    raw + 1
}

impl Reading {
    /// The whole degrees of the temperature, rounded toward zero.
    pub fn whole_degrees(&self) -> (degrees: i16)
        ensures
            degrees == whole_degrees(self.temperature as int),
    {
        self.temperature / 10
    }

    /// The digit behind the decimal point of the temperature.
    pub fn tenth_digit(&self) -> (digit: u8)
        ensures
            digit == tenth_digit(self.temperature as int),
            digit < 10,
    {
        let tenths: i32 = self.temperature as i32;
        if tenths < 0 {
            ((-tenths) % 10) as u8
        } else {
            (tenths % 10) as u8
        }
    }
}

/// Reads the five fields of a frame.
pub fn read_fields(samples: &[u64]) -> (r: Result<Reading, DecodeError>)
    ensures
        r == fields_of(samples@),
        samples@.len() != PAYLOAD_LEN ==> r == Err::<Reading, DecodeError>(
            DecodeError::WrongPayloadLen(samples@.len() as usize),
        ),
{
    if samples.len() != PAYLOAD_LEN {
        return Err(DecodeError::WrongPayloadLen(samples.len()));
    }
    proof {
        lemma2_to64();
        lemma_field_bound(samples@, TEMPERATURE_OFFSET, TEMPERATURE_BITS);
        lemma_field_bound(samples@, HUMIDITY_OFFSET, HUMIDITY_BITS);
        lemma_field_bound(samples@, BATTERY_OFFSET, BATTERY_BITS);
        lemma_field_bound(samples@, CHANNEL_OFFSET, CHANNEL_BITS);
        lemma_field_bound(samples@, ID_OFFSET, ID_BITS);
    }
    let temperature = temperature_from_raw(
        decode_range(samples, TEMPERATURE_OFFSET, TEMPERATURE_BITS)? as u16,
    );
    let humidity = humidity_from_raw(decode_range(samples, HUMIDITY_OFFSET, HUMIDITY_BITS)? as u8);
    let battery_ok = decode_range(samples, BATTERY_OFFSET, BATTERY_BITS)? == 1;
    let channel = channel_from_raw(decode_range(samples, CHANNEL_OFFSET, CHANNEL_BITS)? as u8);
    let id = decode_range(samples, ID_OFFSET, ID_BITS)? as u8;
    Ok(Reading { id, channel, battery_ok, temperature, humidity })
}

/// Decodes a frame for a receiver that listens on `channel_to_use`.
///
/// A frame that does not hold 36 gaps is refused with its length. A frame
/// of 36 gaps with a gap in a field that is no bit is refused with the first
/// such gap met. Every other frame is read, and is then refused with its
/// channel where that is not `channel_to_use`.
pub fn decode_reading(samples: &[u64], channel_to_use: u8) -> (r: Result<Reading, DecodeError>)
    ensures
        r == decoded(samples@, channel_to_use),
        samples@.len() != PAYLOAD_LEN ==> r == Err::<Reading, DecodeError>(
            DecodeError::WrongPayloadLen(samples@.len() as usize),
        ),
        sound(samples@) ==> r == filtered(reading_of(samples@), channel_to_use),
        samples@.len() == PAYLOAD_LEN && !sound(samples@) ==> (r matches Err(
            DecodeError::SampleOutOfRange(gap),
        ) && is_field_stray(samples@, gap)),
{
    proof {
        if sound(samples@) {
            lemma_sound_frame_is_read(samples@, channel_to_use);
        } else if samples@.len() == PAYLOAD_LEN {
            lemma_stray_frame_gives_no_reading(samples@, channel_to_use);
        }
    }
    let reading = read_fields(samples)?;
    if reading.channel != channel_to_use {
        return Err(DecodeError::WrongChannel(reading.channel));
    }
    Ok(reading)
}

} // verus!
