//! What a video analyser reports of a video.

use vstd::prelude::*;
use crate::error::Error;

verus! {

/// A video's fingerprint: digests of sampled frames, and what is known of
/// its length, size and codec.
#[derive(Debug, Clone)]
pub struct VideoSignature {
    pub frame_hashes: Vec<[u8; 32]>,
    pub duration_ms: Option<u64>,
    pub width: Option<u32>,
    pub height: Option<u32>,
    pub codec: Option<String>,
}

/// Something that can fingerprint a video file; implemented by users of the
/// library.
pub trait VideoAnalyzer {
    fn signature(&self, path: &str) -> Result<VideoSignature, Error>;
}

} // verus!
