//! Block-quantized tensor storage: format metadata, byte-exact block layouts,
//! a validated tensor container and a backend dispatcher, all verified.

pub mod codec;
pub mod dispatch;
pub mod error;
pub mod format;
pub mod tensor;
pub mod utils;
