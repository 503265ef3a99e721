use subtitles::timecode::{time_to_ms, TimecodeError};

#[test]
fn timecode_with_fraction() {
    assert_eq!(time_to_ms("01:02:03.004"), Ok(3723004));
}

#[test]
fn timecode_zero() {
    assert_eq!(time_to_ms("00:00:00"), Ok(0));
}

#[test]
fn timecode_two_components_fail() {
    assert_eq!(time_to_ms("bad:format"), Err(TimecodeError::MalformedTimecode));
}

#[test]
fn timecode_fraction_not_scaled() {
    assert_eq!(time_to_ms("00:00:01.5"), Ok(1005));
    assert_eq!(time_to_ms("00:00:05.000"), Ok(5000));
}

#[test]
fn timecode_non_digit_component_fails() {
    assert_eq!(time_to_ms("aa:00:00"), Err(TimecodeError::MalformedTimecode));
    assert_eq!(time_to_ms("00:0b:00"), Err(TimecodeError::MalformedTimecode));
    assert_eq!(time_to_ms("00:00:0x"), Err(TimecodeError::MalformedTimecode));
    assert_eq!(time_to_ms("00:00:01.x"), Err(TimecodeError::MalformedTimecode));
}

#[test]
fn timecode_negative_and_empty_components_fail() {
    assert_eq!(time_to_ms("-1:00:00"), Err(TimecodeError::MalformedTimecode));
    assert_eq!(time_to_ms("00::00"), Err(TimecodeError::MalformedTimecode));
    assert_eq!(time_to_ms("00:00:01."), Err(TimecodeError::MalformedTimecode));
    assert_eq!(time_to_ms(""), Err(TimecodeError::MalformedTimecode));
}

#[test]
fn timecode_extra_parts_fail() {
    assert_eq!(time_to_ms("00:00:00:00"), Err(TimecodeError::MalformedTimecode));
    assert_eq!(time_to_ms("00:00:01.2.3"), Err(TimecodeError::MalformedTimecode));
}

#[test]
fn timecode_largest_offset() {
    assert_eq!(time_to_ms("596:31:23.647"), Ok(i32::MAX));
    assert_eq!(time_to_ms("596:31:23.648"), Err(TimecodeError::MalformedTimecode));
    assert_eq!(time_to_ms("99999999999:00:00"), Err(TimecodeError::MalformedTimecode));
}
