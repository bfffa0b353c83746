//! Round trips of the boundary-safe tagged unions.

use neotron_sdk::Error;
use neotron_sdk::FfiOption;
use neotron_sdk::FfiResult;

#[test]
fn result_success_round_trip() {
    let native: Result<u32, Error> = Ok(1234);
    let boundary = FfiResult::encode(native);
    assert!(matches!(boundary, FfiResult::Success(1234)));
    let back = boundary.decode();
    assert_eq!(back, Ok(1234));
}

#[test]
fn result_error_round_trip() {
    let native: Result<u32, Error> = Err(Error::NotFound);
    let boundary = FfiResult::encode(native);
    assert!(matches!(boundary, FfiResult::Failure(Error::NotFound)));
    let back = boundary.decode();
    assert_eq!(back, Err(Error::NotFound));
}

#[test]
fn result_decode_then_encode() {
    let boundary: FfiResult<u8, Error> = FfiResult::Failure(Error::EndOfFile);
    let native = boundary.clone().decode();
    let again = FfiResult::encode(native);
    assert_eq!(again, boundary);
}

#[test]
fn option_present_round_trip() {
    let native: Option<u64> = Some(99);
    let boundary = FfiOption::encode(native);
    assert!(matches!(boundary, FfiOption::Present(99)));
    let back = boundary.decode();
    assert_eq!(back, Some(99));
}

#[test]
fn option_absent_round_trip() {
    let native: Option<u64> = None;
    let boundary = FfiOption::encode(native);
    assert!(matches!(boundary, FfiOption::Absent));
    let back = boundary.decode();
    assert_eq!(back, None);
}

#[test]
fn option_decode_then_encode() {
    let boundary: FfiOption<i32> = FfiOption::Present(-5);
    let native = boundary.clone().decode();
    let again = FfiOption::encode(native);
    assert_eq!(again, boundary);
}
