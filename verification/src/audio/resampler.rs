use vstd::prelude::*;

verus! {

/// Downsampler and channel converter to 16 kHz mono PCM.
///
/// The conversion itself is floating-point arithmetic and is provided by the
/// application around this library.
pub struct AudioResampler;

} // verus!
