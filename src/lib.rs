//! Linear timecode (SMPTE 12M LTC): the 80-bit frame codec, a biphase-mark
//! encoder that renders frames as unsigned 8-bit PCM, and a decoder that
//! recovers frames from PCM sample blocks.

mod bits;
pub mod clock;
pub mod consts;
pub mod decoder;

pub use consts::{LtcBgFlags, LtcBgFlagsKind};
pub mod encoder;
pub mod error;
pub mod frame;

pub use error::{LTCDecoderError, LTCEncoderError, TimecodeError};
pub mod timecode;
pub mod wave;

pub use timecode::{LTCTVStandard, SMPTETimecode, TimecodeWasWrapped, Timezone};
pub use frame::{calc_frame_alignment, LTCFrame};
pub use encoder::{FrameRate, LTCEncoder, LTCEncoderConfig};
pub use decoder::{BitCell, LTCDecoder, LTCFrameExt};
