use vstd::prelude::*;

verus! {

/// Failure of a timecode step: the frame did not hold a time (or date) that
/// the step can advance.
#[derive(Debug, Clone, Copy, PartialEq, Eq, Structural)]
pub enum TimecodeError {
    InvalidReturn,
}

#[derive(Debug, Clone, Copy, PartialEq, Eq, Structural)]
pub enum LTCEncoderError {
    CreateError,
    ReinitError,
    BufferSizeError,
    VolumeError,
    EncodeError,
    TimecodeError(TimecodeError),
}

#[derive(Debug, Clone, Copy, PartialEq, Eq, Structural)]
pub enum LTCDecoderError {
    CreateError,
    TImecodeError(TimecodeError),
}

impl TimecodeError {
    pub fn message(&self) -> &'static str {
        "invalid timecode step"
    }
}

impl LTCEncoderError {
    pub fn message(&self) -> &'static str {
        match self {
            LTCEncoderError::CreateError => "error creating LTC encoder",
            LTCEncoderError::ReinitError => "error reinitializing LTC encoder",
            LTCEncoderError::BufferSizeError => "error setting buffer size",
            LTCEncoderError::VolumeError => "error setting volume",
            LTCEncoderError::EncodeError => "error during encoding",
            LTCEncoderError::TimecodeError(_) => "timecode error",
        }
    }
}

impl LTCDecoderError {
    pub fn message(&self) -> &'static str {
        match self {
            LTCDecoderError::CreateError => "error creating LTC decoder",
            LTCDecoderError::TImecodeError(_) => "timecode error",
        }
    }
}

impl From<TimecodeError> for LTCEncoderError {
    fn from(e: TimecodeError) -> (r: Self) {
        LTCEncoderError::TimecodeError(e)
    }
}

impl vstd::std_specs::convert::FromSpecImpl<TimecodeError> for LTCEncoderError {
    open spec fn obeys_from_spec() -> bool {
        true
    }

    open spec fn from_spec(e: TimecodeError) -> Self {
        LTCEncoderError::TimecodeError(e)
    }
}

impl From<TimecodeError> for LTCDecoderError {
    fn from(e: TimecodeError) -> (r: Self) {
        LTCDecoderError::TImecodeError(e)
    }
}

impl vstd::std_specs::convert::FromSpecImpl<TimecodeError> for LTCDecoderError {
    open spec fn obeys_from_spec() -> bool {
        true
    }

    open spec fn from_spec(e: TimecodeError) -> Self {
        LTCDecoderError::TImecodeError(e)
    }
}

} // verus!
