//! The line of text that is published for a reading.
use vstd::prelude::*;
use crate::error::DecodeError;
use crate::reading::{decode_reading, decoded, tenth_digit, whole_degrees, Reading};
use crate::text::{append_decimal, append_signed, decimal_text, signed_text};

verus! {

/// The record of a reading taken at the moment that `timestamp` names.
pub open spec fn record_text(timestamp: Seq<char>, reading: Reading) -> Seq<char> {
    "{\"time\" : \""@ + timestamp + "\", \"model\" : \"Nexus-TH\", \"id\" : "@ + decimal_text(
        reading.id as nat,
    ) + ", \"channel\" : "@ + decimal_text(reading.channel as nat) + ", \"battery_ok\" : "@
        + decimal_text(
        if reading.battery_ok {
            1
        } else {
            0
        },
    ) + ", \"temperature_C\" : "@ + signed_text(whole_degrees(reading.temperature as int)) + "."@
        + decimal_text(tenth_digit(reading.temperature as int) as nat) + ", \"humidity\" : "@
        + decimal_text(reading.humidity as nat) + "}"@
}

/// Writes the record of `reading`, with `timestamp` as the time at which it
/// was taken.
pub fn format_record(reading: &Reading, timestamp: &str) -> (record: String)
    ensures
        record@ == record_text(timestamp@, *reading),
{
    let mut record = String::from_str("{\"time\" : \"");
    record.append(timestamp);
    record.append("\", \"model\" : \"Nexus-TH\", \"id\" : ");
    append_decimal(&mut record, reading.id as u64);
    record.append(", \"channel\" : ");
    append_decimal(&mut record, reading.channel as u64);
    record.append(", \"battery_ok\" : ");
    append_decimal(
        &mut record,
        if reading.battery_ok {
            1
        } else {
            0
        },
    );
    record.append(", \"temperature_C\" : ");
    append_signed(&mut record, reading.whole_degrees() as i32);
    record.append(".");
    append_decimal(&mut record, reading.tenth_digit() as u64);
    record.append(", \"humidity\" : ");
    append_decimal(&mut record, reading.humidity as u64);
    record.append("}");
    record
}

/// The present moment in UTC, written as year, month, day, hour, minute and
/// second: `2024-03-09 17:05:42 UTC`.
///
/// Reads the clock with `std::time::SystemTime::now`, converts with chrono's
/// `From<SystemTime> for DateTime<Utc>` and writes with `DateTime::format`.
/// Nothing is claimed of the text: it depends on the clock. chrono converts
/// every moment within 262,000 years of the start of the calendar, and the
/// clock is taken to show one of these.
#[verifier::external_body]
fn timestamp_now() -> (text: String) {
    let now: chrono::DateTime<chrono::Utc> = std::time::SystemTime::now().into();
    format!("{}", now.format("%Y-%m-%d %H:%M:%S UTC"))
}

/// Decodes a frame for a receiver that listens on `channel_to_use` and
/// writes the record of its reading, stamped with the present moment.
///
/// Which error comes, and for which frames, is that of `decode_reading`; the
/// record is that of `format_record` for the reading and some timestamp.
pub fn decode(samples: &[u64], channel_to_use: u8) -> (r: Result<String, DecodeError>)
    ensures
        match r {
            Ok(record) => decoded(samples@, channel_to_use) matches Ok(reading) && exists|
                timestamp: Seq<char>,
            | record@ == record_text(timestamp, reading),
            Err(why) => decoded(samples@, channel_to_use) == Err::<Reading, DecodeError>(why),
        },
{
    let reading = decode_reading(samples, channel_to_use)?;
    let timestamp = timestamp_now();
    let record = format_record(&reading, timestamp.as_str());
    assert(record@ == record_text(timestamp@, reading));
    Ok(record)
}

} // verus!
