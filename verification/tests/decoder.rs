use nexus_th::bits::decode_range;
use nexus_th::error::DecodeError;
use nexus_th::reading::{
    channel_from_raw, decode_reading, humidity_from_raw, read_fields, temperature_from_raw, Reading,
};
use nexus_th::record::{decode, format_record};
use nexus_th::timing::in_range;

const ZERO: u64 = 950;
const ONE: u64 = 1900;

/// The gaps that spell `bits`, written as a string of `0` and `1`.
fn gaps(bits: &str) -> Vec<u64> {
    bits.chars().filter(|c| *c != ' ').map(|c| if c == '1' { ONE } else { ZERO }).collect()
}

/// The bits of `value`, `width` of them, most significant first.
fn binary(value: u32, width: u32) -> String {
    (0..width).rev().map(|i| if (value >> i) & 1 == 1 { '1' } else { '0' }).collect()
}

/// A frame with the given raw fields; the bits of no field are set as the
/// sensor sends them.
fn frame(id: u32, battery: u32, channel: u32, temperature: u32, humidity: u32) -> Vec<u64> {
    let bits = format!(
        "{}{}0{}{}1111{}",
        binary(id, 8),
        binary(battery, 1),
        binary(channel, 2),
        binary(temperature, 12),
        binary(humidity, 8)
    );
    gaps(&bits)
}

/// id 5, battery good, channel 1, 21.5 degrees, 47 percent.
fn sample_frame() -> Vec<u64> {
    gaps("00000101 1 0 00 000011010111 1111 00101111")
}

#[test]
fn in_range_is_closed_at_both_ends() {
    assert!(in_range(300, 300, 600));
    assert!(in_range(600, 300, 600));
    assert!(in_range(450, 300, 600));
    assert!(!in_range(299, 300, 600));
    assert!(!in_range(601, 300, 600));
    assert!(in_range(7, 7, 7));
    assert!(!in_range(5, 6, 4));
    assert!(in_range(u64::MAX, 0, u64::MAX));
}

#[test]
fn decode_range_reads_most_significant_bit_first() {
    let samples = gaps("1 0 1 1 0 0 0 1");
    assert_eq!(decode_range(&samples, 0, 8), Ok(0b1011_0001));
    assert_eq!(decode_range(&samples, 0, 4), Ok(0b1011));
    assert_eq!(decode_range(&samples, 4, 4), Ok(0b0001));
    assert_eq!(decode_range(&samples, 2, 3), Ok(0b110));
    assert_eq!(decode_range(&samples, 7, 1), Ok(1));
}

#[test]
fn decode_range_of_no_gaps_is_zero() {
    let samples = gaps("1111");
    assert_eq!(decode_range(&samples, 0, 0), Ok(0));
    assert_eq!(decode_range(&samples, 4, 0), Ok(0));
    let none: Vec<u64> = Vec::new();
    assert_eq!(decode_range(&none, 0, 0), Ok(0));
}

#[test]
fn decode_range_takes_the_windows_closed() {
    assert_eq!(decode_range(&[800], 0, 1), Ok(0));
    assert_eq!(decode_range(&[1100], 0, 1), Ok(0));
    assert_eq!(decode_range(&[1650], 0, 1), Ok(1));
    assert_eq!(decode_range(&[2150], 0, 1), Ok(1));
    assert_eq!(decode_range(&[799], 0, 1), Err(DecodeError::SampleOutOfRange(799)));
    assert_eq!(decode_range(&[1101], 0, 1), Err(DecodeError::SampleOutOfRange(1101)));
    assert_eq!(decode_range(&[1649], 0, 1), Err(DecodeError::SampleOutOfRange(1649)));
    assert_eq!(decode_range(&[2151], 0, 1), Err(DecodeError::SampleOutOfRange(2151)));
    assert_eq!(decode_range(&[0], 0, 1), Err(DecodeError::SampleOutOfRange(0)));
    assert_eq!(decode_range(&[u64::MAX], 0, 1), Err(DecodeError::SampleOutOfRange(u64::MAX)));
}

#[test]
fn decode_range_reports_the_first_stray_gap_of_the_field() {
    let samples: Vec<u64> = vec![1300, ONE, 1200, ZERO, 5000, ONE];
    assert_eq!(decode_range(&samples, 0, 6), Err(DecodeError::SampleOutOfRange(1300)));
    assert_eq!(decode_range(&samples, 1, 5), Err(DecodeError::SampleOutOfRange(1200)));
    assert_eq!(decode_range(&samples, 3, 3), Err(DecodeError::SampleOutOfRange(5000)));
    assert_eq!(decode_range(&samples, 3, 1), Ok(0));
    assert_eq!(decode_range(&samples, 5, 1), Ok(1));
}

#[test]
fn decode_range_keeps_the_low_32_bits_of_a_longer_field() {
    let ones = gaps(&"1".repeat(40));
    assert_eq!(decode_range(&ones, 0, 32), Ok(u32::MAX));
    assert_eq!(decode_range(&ones, 0, 33), Ok(u32::MAX));
    assert_eq!(decode_range(&ones, 0, 40), Ok(u32::MAX));
    let mut high = gaps("1");
    high.extend(gaps(&"0".repeat(32)));
    assert_eq!(decode_range(&high, 0, 32), Ok(0x8000_0000));
    assert_eq!(decode_range(&high, 0, 33), Ok(0));
    assert_eq!(decode_range(&high, 1, 32), Ok(0));
}

#[test]
fn temperature_above_2048_is_negative() {
    assert_eq!(temperature_from_raw(0), 0);
    assert_eq!(temperature_from_raw(215), 215);
    assert_eq!(temperature_from_raw(2048), 2048);
    assert_eq!(temperature_from_raw(2049), -2047);
    assert_eq!(temperature_from_raw(4076), -20);
    assert_eq!(temperature_from_raw(4095), -1);
}

#[test]
fn temperature_round_trip_over_the_whole_range() {
    let mut tenths: i32 = -2047;
    while tenths <= 2048 {
        let raw: u16 = if tenths < 0 { (4096 + tenths) as u16 } else { tenths as u16 };
        let back: i16 = temperature_from_raw(raw);
        assert_eq!(back as i32, tenths);
        let reading = Reading { id: 0, channel: 1, battery_ok: true, temperature: back, humidity: 0 };
        assert_eq!(reading.whole_degrees() as i32, tenths / 10);
        assert_eq!(reading.tenth_digit() as i32, tenths.abs() % 10);
        tenths += 1;
    }
}

#[test]
fn temperature_parts_of_a_negative_reading() {
    let cold = Reading { id: 0, channel: 1, battery_ok: true, temperature: -20, humidity: 0 };
    assert_eq!(cold.whole_degrees(), -2);
    assert_eq!(cold.tenth_digit(), 0);
    let colder = Reading { id: 0, channel: 1, battery_ok: true, temperature: -127, humidity: 0 };
    assert_eq!(colder.whole_degrees(), -12);
    assert_eq!(colder.tenth_digit(), 7);
    let mild = Reading { id: 0, channel: 1, battery_ok: true, temperature: 215, humidity: 0 };
    assert_eq!(mild.whole_degrees(), 21);
    assert_eq!(mild.tenth_digit(), 5);
    let least = Reading { id: 0, channel: 1, battery_ok: true, temperature: i16::MIN, humidity: 0 };
    assert_eq!(least.whole_degrees(), -3276);
    assert_eq!(least.tenth_digit(), 8);
}

#[test]
fn humidity_above_100_is_100() {
    let mut raw: u16 = 0;
    while raw <= 255 {
        let expected: u8 = if raw > 100 { 100 } else { raw as u8 };
        assert_eq!(humidity_from_raw(raw as u8), expected);
        raw += 1;
    }
    assert_eq!(humidity_from_raw(100), 100);
    assert_eq!(humidity_from_raw(101), 100);
    assert_eq!(humidity_from_raw(47), 47);
}

#[test]
fn humidity_is_clamped_in_a_decoded_frame() {
    let reading = decode_reading(&frame(1, 1, 0, 100, 200), 1).unwrap();
    assert_eq!(reading.humidity, 100);
    let reading = decode_reading(&frame(1, 1, 0, 100, 100), 1).unwrap();
    assert_eq!(reading.humidity, 100);
    let reading = decode_reading(&frame(1, 1, 0, 100, 99), 1).unwrap();
    assert_eq!(reading.humidity, 99);
    let reading = decode_reading(&frame(1, 1, 0, 100, 0), 1).unwrap();
    assert_eq!(reading.humidity, 0);
}

#[test]
fn raw_channels_count_from_zero() {
    assert_eq!(channel_from_raw(0), 1);
    assert_eq!(channel_from_raw(1), 2);
    assert_eq!(channel_from_raw(2), 3);
    assert_eq!(channel_from_raw(3), 4);
    let mut raw: u32 = 0;
    while raw < 4 {
        let reading = read_fields(&frame(9, 0, raw, 0, 0)).unwrap();
        assert_eq!(reading.channel as u32, raw + 1);
        assert_eq!(decode_reading(&frame(9, 0, raw, 0, 0), (raw + 1) as u8), Ok(reading));
        raw += 1;
    }
}

#[test]
fn sample_frame_decodes_on_its_channel() {
    let expected = Reading { id: 5, channel: 1, battery_ok: true, temperature: 215, humidity: 47 };
    assert_eq!(sample_frame().len(), 36);
    assert_eq!(read_fields(&sample_frame()), Ok(expected));
    assert_eq!(decode_reading(&sample_frame(), 1), Ok(expected));
    let record = decode(&sample_frame(), 1).unwrap();
    assert!(record.contains(
        "\"id\" : 5, \"channel\" : 1, \"battery_ok\" : 1, \"temperature_C\" : 21.5, \"humidity\" : 47"
    ));
    assert!(record.contains("\"model\" : \"Nexus-TH\""));
}

#[test]
fn sample_frame_is_refused_on_another_channel() {
    assert_eq!(decode(&sample_frame(), 2), Err(DecodeError::WrongChannel(1)));
    assert_eq!(decode_reading(&sample_frame(), 2), Err(DecodeError::WrongChannel(1)));
    assert_eq!(decode_reading(&sample_frame(), 0), Err(DecodeError::WrongChannel(1)));
    assert_eq!(decode_reading(&frame(5, 1, 3, 215, 47), 1), Err(DecodeError::WrongChannel(4)));
}

#[test]
fn frame_one_bit_short_is_refused() {
    let mut short = sample_frame();
    short.pop();
    assert_eq!(short.len(), 35);
    assert_eq!(decode(&short, 1), Err(DecodeError::WrongPayloadLen(35)));
    assert_eq!(decode_reading(&short, 1), Err(DecodeError::WrongPayloadLen(35)));
    assert_eq!(read_fields(&short), Err(DecodeError::WrongPayloadLen(35)));
}

#[test]
fn every_other_length_is_refused_with_the_length() {
    let mut len: usize = 0;
    while len <= 80 {
        let samples: Vec<u64> = vec![ONE; len];
        if len != 36 {
            assert_eq!(decode_reading(&samples, 1), Err(DecodeError::WrongPayloadLen(len)));
            assert_eq!(decode(&samples, 4), Err(DecodeError::WrongPayloadLen(len)));
        }
        len += 1;
    }
    let strays: Vec<u64> = vec![5; 12];
    assert_eq!(decode_reading(&strays, 1), Err(DecodeError::WrongPayloadLen(12)));
}

#[test]
fn frames_of_bits_give_a_reading_or_their_channel() {
    let zeros: Vec<u64> = vec![ZERO; 36];
    let expected = Reading { id: 0, channel: 1, battery_ok: false, temperature: 0, humidity: 0 };
    assert_eq!(decode_reading(&zeros, 1), Ok(expected));
    assert_eq!(decode_reading(&zeros, 3), Err(DecodeError::WrongChannel(1)));
    let ones: Vec<u64> = vec![ONE; 36];
    let expected = Reading { id: 255, channel: 4, battery_ok: true, temperature: -1, humidity: 100 };
    assert_eq!(decode_reading(&ones, 4), Ok(expected));
    assert_eq!(decode_reading(&ones, 1), Err(DecodeError::WrongChannel(4)));
    assert_eq!(decode_reading(&ones, 4), decode_reading(&ones, 4));
}

#[test]
fn stray_gap_in_a_field_is_reported() {
    let fields: [usize; 31] = [
        0, 1, 2, 3, 4, 5, 6, 7, 8, 10, 11, 12, 13, 14, 15, 16, 17, 18, 19, 20, 21, 22, 23, 28, 29, 30,
        31, 32, 33, 34, 35,
    ];
    for position in fields {
        let mut samples = sample_frame();
        samples[position] = 1300 + position as u64;
        assert_eq!(
            decode_reading(&samples, 1),
            Err(DecodeError::SampleOutOfRange(1300 + position as u64))
        );
        assert_eq!(decode(&samples, 2), Err(DecodeError::SampleOutOfRange(1300 + position as u64)));
    }
}

#[test]
fn gaps_outside_the_fields_are_not_looked_at() {
    let expected = Reading { id: 5, channel: 1, battery_ok: true, temperature: 215, humidity: 47 };
    for position in [9usize, 24, 25, 26, 27] {
        let mut samples = sample_frame();
        samples[position] = 1300;
        assert_eq!(decode_reading(&samples, 1), Ok(expected));
    }
}

#[test]
fn fields_are_read_temperature_first_and_id_last() {
    let mut samples = sample_frame();
    samples[0] = 10;
    samples[8] = 20;
    samples[10] = 30;
    samples[28] = 40;
    samples[23] = 50;
    assert_eq!(decode_reading(&samples, 1), Err(DecodeError::SampleOutOfRange(50)));
    samples[23] = ONE;
    assert_eq!(decode_reading(&samples, 1), Err(DecodeError::SampleOutOfRange(40)));
    samples[28] = ZERO;
    assert_eq!(decode_reading(&samples, 1), Err(DecodeError::SampleOutOfRange(20)));
    samples[8] = ONE;
    assert_eq!(decode_reading(&samples, 1), Err(DecodeError::SampleOutOfRange(30)));
    samples[10] = ZERO;
    assert_eq!(decode_reading(&samples, 1), Err(DecodeError::SampleOutOfRange(10)));
    samples[0] = ZERO;
    assert!(decode_reading(&samples, 1).is_ok());
}

#[test]
fn stray_gap_comes_before_the_channel() {
    let mut samples = sample_frame();
    samples[3] = 99;
    assert_eq!(decode_reading(&samples, 2), Err(DecodeError::SampleOutOfRange(99)));
}

#[test]
fn record_of_the_sample_frame() {
    let reading = decode_reading(&sample_frame(), 1).unwrap();
    assert_eq!(
        format_record(&reading, "2024-05-01 12:00:00 UTC"),
        "{\"time\" : \"2024-05-01 12:00:00 UTC\", \"model\" : \"Nexus-TH\", \"id\" : 5, \
         \"channel\" : 1, \"battery_ok\" : 1, \"temperature_C\" : 21.5, \"humidity\" : 47}"
    );
}

#[test]
fn record_of_a_negative_temperature() {
    let reading = decode_reading(&frame(255, 0, 2, 4076, 130), 3).unwrap();
    assert_eq!(
        reading,
        Reading { id: 255, channel: 3, battery_ok: false, temperature: -20, humidity: 100 }
    );
    assert_eq!(
        format_record(&reading, ""),
        "{\"time\" : \"\", \"model\" : \"Nexus-TH\", \"id\" : 255, \"channel\" : 3, \
         \"battery_ok\" : 0, \"temperature_C\" : -2.0, \"humidity\" : 100}"
    );
    let reading = Reading { id: 1, channel: 4, battery_ok: true, temperature: -127, humidity: 8 };
    assert!(format_record(&reading, "t").contains("\"temperature_C\" : -12.7,"));
}

#[test]
fn record_of_a_temperature_just_below_zero_has_no_sign() {
    let reading = Reading { id: 1, channel: 1, battery_ok: true, temperature: -5, humidity: 8 };
    assert!(format_record(&reading, "t").contains("\"temperature_C\" : 0.5,"));
    let reading = Reading { id: 1, channel: 1, battery_ok: true, temperature: 0, humidity: 8 };
    assert!(format_record(&reading, "t").contains("\"temperature_C\" : 0.0,"));
}

#[test]
fn record_carries_the_present_moment() {
    let record = decode(&sample_frame(), 1).unwrap();
    let head = "{\"time\" : \"";
    assert!(record.starts_with(head));
    let rest = &record[head.len()..];
    let end = rest.find('"').unwrap();
    let stamp = &rest[..end];
    assert!(stamp.ends_with(" UTC"));
    let shape: Vec<char> = stamp
        .chars()
        .map(|c| if c.is_ascii_digit() { '9' } else { c })
        .collect();
    let shape: String = shape.into_iter().collect();
    assert_eq!(shape, "9999-99-99 99:99:99 UTC");
    let reading = decode_reading(&sample_frame(), 1).unwrap();
    assert_eq!(record, format_record(&reading, stamp));
    let year: u32 = stamp[..4].parse().unwrap();
    assert!(year >= 2024);
}
