//! The error kinds of the runtime.
use vstd::prelude::*;

verus! {

/// What went wrong, with the value that caused it where one applies.
#[derive(Clone, Debug, PartialEq, Eq)]
pub enum ErrorKind {
    FailedAllocation,
    FailedDeallocation,
    FailedToInitializePort(u16),
    FailedToInitializeOvsPort(i32),
    FailedToInitializeBessPort(i32),
    FailedToInitializeKni(String),
    BadQueue,
    CannotSend,
    BadDev(String),
    BadVdev(String),
    BadTxQueue(u16, u16),
    BadRxQueue(u16, u16),
    BadOffset(usize),
    MetadataTooLarge,
    RingAllocationFailure,
    InvalidRingSize(usize),
    RingDuplicationFailure,
    ConfigurationError(String),
    RunTimeError(String),
    NoRunningSchedulerOnCore(i32),
    BadSize(usize, String),
    BadCharAtIndex(char, usize),
    HeaderMismatch,
    FailedErrorFormat,
    ConfigParseError(String),
    TryFromNetSpecError,
}

#[verifier::external_type_specification]
#[verifier::external_body]
pub struct ExIoError(std::io::Error);

/// Relies on `std::io::Error::from_raw_os_error`: the error for an OS error
/// number; nothing is assumed of its contents.
#[verifier::external_body]
fn os_error(code: i32) -> (r: std::io::Error) {
    std::io::Error::from_raw_os_error(code)
}

/// A return code of the driver: non-negative codes are results, negative
/// ones name the OS error `-code`.
pub fn check_os_error(code: i32) -> (r: Result<i32, std::io::Error>)
    requires
        code > i32::MIN,
    ensures
        r is Ok <==> code >= 0,
        r matches Ok(v) ==> v == code,
{
    if code < 0 {
        Err(os_error(-code))
    } else {
        Ok(code)
    }
}

} // verus!
